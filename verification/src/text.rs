//! Text helpers for the daemon's messages: quoting of names as Rust's
//! `Debug` does, and decimal numbers.

use vstd::prelude::*;

verus! {

/// The text that Rust's `Debug` formatting gives of a string: the string in
/// double quotes, with its special characters escaped.
pub uninterp spec fn debug_quoted(s: Seq<char>) -> Seq<char>;

/// Quotes a string as `format!("{:?}", s)` does (std's `Debug` for `str`).
/// The contract names the result: it is `debug_quoted` of the string's
/// characters, a function of them alone; what the escaping does to each
/// character is left unsaid.
#[verifier::external_body]
pub(crate) fn debug_str(s: &String) -> (r: String)
    ensures
        r@ == debug_quoted(s@),
{
    format!("{:?}", s)
}

/// Decimal digit of `d` (which is below ten).
pub open spec fn digit_char(d: nat) -> char {
    if d == 0 { '0' }
    else if d == 1 { '1' }
    else if d == 2 { '2' }
    else if d == 3 { '3' }
    else if d == 4 { '4' }
    else if d == 5 { '5' }
    else if d == 6 { '6' }
    else if d == 7 { '7' }
    else if d == 8 { '8' }
    else { '9' }
}

/// Decimal writing of `n`, without leading zeros (`"0"` for zero).
pub open spec fn decimal(n: nat) -> Seq<char>
    decreases n,
{
    if n < 10 {
        seq![digit_char(n)]
    } else {
        decimal(n / 10).push(digit_char(n % 10))
    }
}

fn digit_text(d: usize) -> (r: &'static str)
    requires
        d < 10,
    ensures
        r@ == seq![digit_char(d as nat)],
{
    proof {
        reveal_strlit("0");
        reveal_strlit("1");
        reveal_strlit("2");
        reveal_strlit("3");
        reveal_strlit("4");
        reveal_strlit("5");
        reveal_strlit("6");
        reveal_strlit("7");
        reveal_strlit("8");
        reveal_strlit("9");
    }
    if d == 0 { "0" }
    else if d == 1 { "1" }
    else if d == 2 { "2" }
    else if d == 3 { "3" }
    else if d == 4 { "4" }
    else if d == 5 { "5" }
    else if d == 6 { "6" }
    else if d == 7 { "7" }
    else if d == 8 { "8" }
    else { "9" }
}

/// Appends the decimal writing of `n` to `out`.
pub fn push_decimal(out: &mut String, n: usize)
    ensures
        final(out)@ == old(out)@ + decimal(n as nat),
    decreases n,
{
    if n < 10 {
        out.append(digit_text(n));
    } else {
        push_decimal(out, n / 10);
        out.append(digit_text(n % 10));
    }
}

/// Debug writing of a list of strings, as `format!("{:?}", v)` writes a
/// `Vec<String>`: the quoted items between brackets, separated by `", "`.
pub open spec fn debug_list(v: Seq<Seq<char>>) -> Seq<char> {
    "["@ + debug_items(v) + "]"@
}

/// The quoted items of `v`, separated by `", "`.
pub open spec fn debug_items(v: Seq<Seq<char>>) -> Seq<char>
    decreases v.len(),
{
    if v.len() == 0 {
        Seq::empty()
    } else if v.len() == 1 {
        debug_quoted(v[0])
    } else {
        debug_items(v.drop_last()) + ", "@ + debug_quoted(v.last())
    }
}

/// The views of a sequence of strings.
pub open spec fn views(v: Seq<String>) -> Seq<Seq<char>> {
    v.map_values(|s: String| s@)
}

/// Appends the debug writing of a list of strings to `out`.
pub fn push_debug_list(out: &mut String, v: &Vec<String>)
    ensures
        final(out)@ == old(out)@ + debug_list(views(v@)),
{
    out.append("[");
    let ghost start = out@;
    let mut i: usize = 0;
    while i < v.len()
        invariant
            i <= v.len(),
            out@ == start + debug_items(views(v@).take(i as int)),
        decreases v.len() - i,
    {
        assert(views(v@).take(i + 1).drop_last() =~= views(v@).take(i as int));
        if i > 0 {
            out.append(", ");
        }
        let q = debug_str(&v[i]);
        out.append(q.as_str());
        i = i + 1;
    }
    assert(views(v@).take(v.len() as int) =~= views(v@));
    out.append("]");
}

/// The message for a name of a command that nothing bears: what was
/// looked for, the name's position in the command and the name.
pub open spec fn not_found(what: Seq<char>, index: nat, name: Seq<char>) -> Seq<char> {
    what + " ("@ + decimal(index) + ", "@ + name + ") not found"@
}

/// Writes `not_found(what, index, name)`.
pub fn not_found_message(what: &str, index: usize, name: &String) -> (r: String)
    ensures
        r@ == not_found(what@, index as nat, name@),
{
    let mut out = String::from_str(what);
    out.append(" (");
    push_decimal(&mut out, index);
    out.append(", ");
    out.append(name.as_str());
    out.append(") not found");
    out
}

} // verus!
