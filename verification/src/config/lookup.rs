//! Name tables of the configuration: lists of `(name, value)` entries
//! looked up by name, the first entry with the name winning.

use vstd::prelude::*;
use crate::text::views;

verus! {

/// The value of the first entry named `key`, if any.
pub open spec fn named<V>(entries: Seq<(String, V)>, key: Seq<char>) -> Option<V>
    decreases entries.len(),
{
    if entries.len() == 0 {
        None
    } else if entries[0].0@ == key {
        Some(entries[0].1)
    } else {
        named(entries.drop_first(), key)
    }
}

/// `named` finds a value exactly when some entry has the name, and the
/// value it finds is that of the first such entry.
pub proof fn lemma_named<V>(entries: Seq<(String, V)>, key: Seq<char>)
    ensures
        named(entries, key) is None <==> forall|i: int| 0 <= i < entries.len() ==> entries[i].0@ != key,
        named(entries, key) matches Some(v) ==> exists|i: int|
            0 <= i < entries.len() && entries[i].0@ == key && entries[i].1 == v
                && forall|j: int| 0 <= j < i ==> entries[j].0@ != key,
    decreases entries.len(),
{
    if entries.len() > 0 {
        let rest = entries.drop_first();
        lemma_named(rest, key);
        if entries[0].0@ != key {
            assert forall|i: int| 0 <= i < entries.len() && entries[i].0@ == key implies i > 0 && rest[i - 1].0@ == key by {}
            if named(rest, key) is Some {
                let i = choose|i: int|
                    0 <= i < rest.len() && rest[i].0@ == key && rest[i].1 == named(rest, key)->0
                        && forall|j: int| 0 <= j < i ==> rest[j].0@ != key;
                assert(entries[i + 1] == rest[i]);
                assert forall|j: int| 0 <= j < i + 1 implies entries[j].0@ != key by {
                    if j > 0 {
                        assert(entries[j] == rest[j - 1]);
                    }
                }
            }
        }
    }
}

/// Looks up the value of the first entry named `key`.
pub fn find_named<V: Copy>(entries: &Vec<(String, V)>, key: &String) -> (r: Option<V>)
    ensures
        r == named(entries@, key@),
{
    let mut i: usize = 0;
    assert(entries@.skip(0) =~= entries@);
    while i < entries.len()
        invariant
            i <= entries.len(),
            named(entries@, key@) == named(entries@.skip(i as int), key@),
        decreases entries.len() - i,
    {
        assert(entries@.skip(i as int).drop_first() =~= entries@.skip(i + 1));
        if entries[i].0 == *key {
            return Some(entries[i].1);
        }
        i = i + 1;
    }
    None
}

/// Copies a name table entry by entry.
pub fn clone_table<V: Copy>(entries: &Vec<(String, V)>) -> (r: Vec<(String, V)>)
    ensures
        r@ == entries@,
{
    let mut r: Vec<(String, V)> = Vec::new();
    let mut i: usize = 0;
    while i < entries.len()
        invariant
            i <= entries.len(),
            r@ == entries@.take(i as int),
        decreases entries.len() - i,
    {
        let name = entries[i].0.clone();
        r.push((name, entries[i].1));
        assert(entries@.take(i + 1) =~= entries@.take(i as int).push(entries@[i as int]));
        i = i + 1;
    }
    assert(entries@.take(entries.len() as int) =~= entries@);
    r
}

/// Copies a list of strings.
pub fn clone_strings(v: &Vec<String>) -> (r: Vec<String>)
    ensures
        r@ == v@,
{
    let mut r: Vec<String> = Vec::new();
    let mut i: usize = 0;
    while i < v.len()
        invariant
            i <= v.len(),
            r@ == v@.take(i as int),
        decreases v.len() - i,
    {
        r.push(v[i].clone());
        assert(v@.take(i + 1) =~= v@.take(i as int).push(v@[i as int]));
        i = i + 1;
    }
    assert(v@.take(v.len() as int) =~= v@);
    r
}

/// Whether two lists of strings hold the same texts in the same order.
pub fn strings_eq(a: &[String], b: &[String]) -> (r: bool)
    ensures
        r == (views(a@) == views(b@)),
{
    if a.len() != b.len() {
        assert(views(a@).len() != views(b@).len());
        return false;
    }
    let mut i: usize = 0;
    while i < a.len()
        invariant
            i <= a.len(),
            a.len() == b.len(),
            forall|j: int| 0 <= j < i ==> a@[j]@ == b@[j]@,
        decreases a.len() - i,
    {
        if a[i] != b[i] {
            assert(views(a@)[i as int] != views(b@)[i as int]);
            return false;
        }
        i = i + 1;
    }
    assert(views(a@) =~= views(b@));
    true
}

/// Copies a list of pairs of strings.
pub fn clone_pairs(v: &Vec<(String, String)>) -> (r: Vec<(String, String)>)
    ensures
        r@ == v@,
{
    let mut r: Vec<(String, String)> = Vec::new();
    let mut i: usize = 0;
    while i < v.len()
        invariant
            i <= v.len(),
            r@ == v@.take(i as int),
        decreases v.len() - i,
    {
        let a = v[i].0.clone();
        let b = v[i].1.clone();
        r.push((a, b));
        assert(v@.take(i + 1) =~= v@.take(i as int).push(v@[i as int]));
        i = i + 1;
    }
    assert(v@.take(v.len() as int) =~= v@);
    r
}

/// Copies a list of numbers.
pub fn clone_numbers(v: &Vec<i32>) -> (r: Vec<i32>)
    ensures
        r@ == v@,
{
    let mut r: Vec<i32> = Vec::new();
    let mut i: usize = 0;
    while i < v.len()
        invariant
            i <= v.len(),
            r@ == v@.take(i as int),
        decreases v.len() - i,
    {
        r.push(v[i]);
        assert(v@.take(i + 1) =~= v@.take(i as int).push(v@[i as int]));
        i = i + 1;
    }
    assert(v@.take(v.len() as int) =~= v@);
    r
}

/// No two entries of the table have the same name, as in a map by name.
pub open spec fn names_unique<V>(entries: Seq<(String, V)>) -> bool {
    forall|i: int, j: int| 0 <= i < j < entries.len() ==> entries[i].0@ != entries[j].0@
}

/// No two entries of the list have the same kinds of ports, as in a map by
/// kinds.
pub open spec fn kinds_unique(entries: Seq<(Seq<String>, String)>) -> bool {
    forall|i: int, j: int| 0 <= i < j < entries.len() ==> views(entries[i].0) != views(entries[j].0)
}

/// No two entries of the list have the same pair of names, as in a map by
/// pairs.
pub open spec fn pairs_unique<V>(entries: Seq<((String, String), V)>) -> bool {
    forall|i: int, j: int| 0 <= i < j < entries.len() ==> (entries[i].0.0@, entries[i].0.1@) != (entries[j].0.0@, entries[j].0.1@)
}

/// Whether no two entries of the table have the same name.
pub fn check_names_unique<V>(entries: &Vec<(String, V)>) -> (r: bool)
    ensures
        r == names_unique(entries@),
{
    let mut j: usize = 0;
    while j < entries.len()
        invariant
            j <= entries@.len(),
            forall|a: int, b: int| 0 <= a < b < j ==> entries@[a].0@ != entries@[b].0@,
        decreases entries@.len() - j,
    {
        let mut i: usize = 0;
        while i < j
            invariant
                i <= j < entries@.len(),
                forall|a: int, b: int| 0 <= a < b < j ==> entries@[a].0@ != entries@[b].0@,
                forall|a: int| 0 <= a < i ==> entries@[a].0@ != entries@[j as int].0@,
            decreases j - i,
        {
            if entries[i].0 == entries[j].0 {
                return false;
            }
            i = i + 1;
        }
        j = j + 1;
    }
    true
}

/// Whether no two entries of the list have the same kinds of ports.
pub fn check_kinds_unique(entries: &Vec<(Vec<String>, String)>) -> (r: bool)
    ensures
        r == kinds_unique(entries@.map_values(|e: (Vec<String>, String)| (e.0@, e.1))),
{
    let ghost all = entries@.map_values(|e: (Vec<String>, String)| (e.0@, e.1));
    let mut j: usize = 0;
    while j < entries.len()
        invariant
            j <= entries@.len(),
            all == entries@.map_values(|e: (Vec<String>, String)| (e.0@, e.1)),
            forall|a: int, b: int| 0 <= a < b < j ==> views(all[a].0) != views(all[b].0),
        decreases entries@.len() - j,
    {
        let mut i: usize = 0;
        while i < j
            invariant
                i <= j < entries@.len(),
                all == entries@.map_values(|e: (Vec<String>, String)| (e.0@, e.1)),
                forall|a: int, b: int| 0 <= a < b < j ==> views(all[a].0) != views(all[b].0),
                forall|a: int| 0 <= a < i ==> views(all[a].0) != views(all[j as int].0),
            decreases j - i,
        {
            let same = strings_eq(entries[i].0.as_slice(), entries[j].0.as_slice());
            assert(all[i as int].0 == entries@[i as int].0@);
            assert(all[j as int].0 == entries@[j as int].0@);
            if same {
                assert(!kinds_unique(all));
                return false;
            }
            i = i + 1;
        }
        j = j + 1;
    }
    true
}

/// Whether no two entries of the list have the same pair of names.
pub fn check_pairs_unique<V>(entries: &Vec<((String, String), V)>) -> (r: bool)
    ensures
        r == pairs_unique(entries@),
{
    let mut j: usize = 0;
    while j < entries.len()
        invariant
            j <= entries@.len(),
            forall|a: int, b: int| 0 <= a < b < j ==> (entries@[a].0.0@, entries@[a].0.1@) != (entries@[b].0.0@, entries@[b].0.1@),
        decreases entries@.len() - j,
    {
        let mut i: usize = 0;
        while i < j
            invariant
                i <= j < entries@.len(),
                forall|a: int, b: int| 0 <= a < b < j ==> (entries@[a].0.0@, entries@[a].0.1@) != (entries@[b].0.0@, entries@[b].0.1@),
                forall|a: int| 0 <= a < i ==> (entries@[a].0.0@, entries@[a].0.1@) != (entries@[j as int].0.0@, entries@[j as int].0.1@),
            decreases j - i,
        {
            if entries[i].0.0 == entries[j].0.0 && entries[i].0.1 == entries[j].0.1 {
                return false;
            }
            i = i + 1;
        }
        j = j + 1;
    }
    true
}

} // verus!
