//! Tables of per-code lists: one list for each code of a kind of input,
//! from 0 up to the kind's highest code.

use vstd::prelude::*;
use crate::input::{ABS_MAX, KEY_MAX, REL_MAX};

verus! {

/// One list of `T` for each code `0 ..= max` of a kind of input.
pub struct Table<T> {
    rows: Vec<Vec<T>>,
}

/// Table indexed by key codes.
pub type Key<T> = Table<T>;
/// Table indexed by absolute axis codes.
pub type Axis<T> = Table<T>;
/// Table indexed by relative axis codes.
pub type Motion<T> = Table<T>;

impl<T> View for Table<T> {
    type V = Seq<Seq<T>>;

    closed spec fn view(&self) -> Seq<Seq<T>> {
        self.rows@.map_values(|r: Vec<T>| r@)
    }
}

/// `count` empty lists.
pub open spec fn empty_rows<T>(count: nat) -> Seq<Seq<T>> {
    Seq::new(count, |i: int| Seq::<T>::empty())
}

impl<T> Table<T> {
    /// A table of `count` empty lists.
    pub fn with_rows(count: usize) -> (r: Self)
        ensures
            r@ == empty_rows::<T>(count as nat),
    {
        let mut rows: Vec<Vec<T>> = Vec::with_capacity(count);
        let mut i: usize = 0;
        while i < count
            invariant
                i <= count,
                rows@.len() == i,
                forall|j: int| 0 <= j < i ==> (#[trigger] rows@[j])@ == Seq::<T>::empty(),
            decreases count - i,
        {
            rows.push(Vec::new());
            i = i + 1;
        }
        let r = Table { rows };
        assert(r@ =~= empty_rows::<T>(count as nat));
        r
    }

    /// A table for key codes, all lists empty.
    pub fn keys() -> (r: Self)
        ensures
            r@ == empty_rows::<T>(KEY_MAX as nat + 1),
    {
        Self::with_rows(KEY_MAX as usize + 1)
    }

    /// A table for absolute axis codes, all lists empty.
    pub fn axes() -> (r: Self)
        ensures
            r@ == empty_rows::<T>(ABS_MAX as nat + 1),
    {
        Self::with_rows(ABS_MAX as usize + 1)
    }

    /// A table for relative axis codes, all lists empty.
    pub fn motions() -> (r: Self)
        ensures
            r@ == empty_rows::<T>(REL_MAX as nat + 1),
    {
        Self::with_rows(REL_MAX as usize + 1)
    }

    /// The list of code `index`.
    pub fn row(&self, index: u16) -> (r: &Vec<T>)
        requires
            (index as int) < self@.len(),
        ensures
            r@ == self@[index as int],
    {
        &self.rows[index as usize]
    }

    /// Appends `value` to the list of code `index`.
    pub fn push(&mut self, index: u16, value: T)
        requires
            (index as int) < old(self)@.len(),
        ensures
            final(self)@ == old(self)@.update(index as int, old(self)@[index as int].push(value)),
    {
        let i = index as usize;
        let mut row: Vec<T> = Vec::new();
        std::mem::swap(&mut row, &mut self.rows[i]);
        row.push(value);
        std::mem::swap(&mut row, &mut self.rows[i]);
        assert(self@ =~= old(self)@.update(index as int, old(self)@[index as int].push(value)));
    }

    /// Takes the list of code `index` out, leaving it empty.
    pub fn take_row(&mut self, index: u16) -> (r: Vec<T>)
        requires
            (index as int) < old(self)@.len(),
        ensures
            r@ == old(self)@[index as int],
            final(self)@ == old(self)@.update(index as int, Seq::empty()),
    {
        let i = index as usize;
        let mut row: Vec<T> = Vec::new();
        std::mem::swap(&mut row, &mut self.rows[i]);
        assert(self@ =~= old(self)@.update(index as int, Seq::empty()));
        row
    }

    /// Puts `row` as the list of code `index`.
    pub fn put_row(&mut self, index: u16, row: Vec<T>)
        requires
            (index as int) < old(self)@.len(),
        ensures
            final(self)@ == old(self)@.update(index as int, row@),
    {
        let i = index as usize;
        let ghost given = row@;
        let mut row = row;
        std::mem::swap(&mut row, &mut self.rows[i]);
        assert(self@ =~= old(self)@.update(index as int, given));
    }
}

} // verus!
