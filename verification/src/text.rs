//! Small verified helpers for working with strings as sequences of
//! characters: conversions, copies, joining, and decimal rendering.

use vstd::prelude::*;

verus! {

/// Relies on std's `String::push`: appends one character at the end of the
/// string, and does nothing else.
#[verifier::external_body]
pub(crate) fn push_char(s: &mut String, c: char)
    ensures
        final(s)@ == old(s)@.push(c),
{
    s.push(c)
}

/// The characters of `s`, in order, as a vector.
pub fn str_chars(s: &str) -> (r: Vec<char>)
    ensures
        r@ == s@,
{
    let n = s.unicode_len();
    let mut r: Vec<char> = Vec::new();
    let mut i: usize = 0;
    while i < n
        invariant
            n == s@.len(),
            i <= n,
            r@ =~= s@.take(i as int),
        decreases n - i,
    {
        let c = s.get_char(i);
        r.push(c);
        i = i + 1;
    }
    proof {
        assert(r@ =~= s@);
    }
    r
}

/// A string holding exactly the characters of `v`, in order.
pub fn chars_to_string(v: &Vec<char>) -> (r: String)
    ensures
        r@ == v@,
{
    let mut r = String::new();
    let mut i: usize = 0;
    while i < v.len()
        invariant
            i <= v.len(),
            r@ =~= v@.take(i as int),
        decreases v.len() - i,
    {
        push_char(&mut r, v[i]);
        i = i + 1;
    }
    proof {
        assert(r@ =~= v@);
    }
    r
}

/// The characters of `v` between `from` (inclusive) and `to` (exclusive).
pub fn subvec_chars(v: &Vec<char>, from: usize, to: usize) -> (r: Vec<char>)
    requires
        from <= to <= v@.len(),
    ensures
        r@ == v@.subrange(from as int, to as int),
{
    let mut r: Vec<char> = Vec::new();
    let mut i: usize = from;
    while i < to
        invariant
            from <= i <= to <= v@.len(),
            r@ =~= v@.subrange(from as int, i as int),
        decreases to - i,
    {
        r.push(v[i]);
        proof {
            assert(v@.subrange(from as int, i + 1) =~= v@.subrange(from as int, i as int).push(
                v@[i as int],
            ));
        }
        i = i + 1;
    }
    r
}

/// A copy of `v` whose every slot holds the same characters as the original.
pub fn clone_string_vec(v: &Vec<String>) -> (r: Vec<String>)
    ensures
        r.deep_view() == v.deep_view(),
{
    let mut r: Vec<String> = Vec::new();
    let mut i: usize = 0;
    while i < v.len()
        invariant
            i <= v.len(),
            r.deep_view() =~= v.deep_view().take(i as int),
        decreases v.len() - i,
    {
        let ghost prev = r.deep_view();
        let x = v[i].clone();
        r.push(x);
        proof {
            assert(r.deep_view() =~= prev.push(r@[i as int].deep_view()));
            assert(v.deep_view().take(i + 1) =~= v.deep_view().take(i as int).push(v.deep_view()[i as int]));
        }
        i = i + 1;
    }
    proof {
        assert(r.deep_view() =~= v.deep_view());
    }
    r
}

/// The digit character of a value below ten.
pub open spec fn spec_digit_char(d: nat) -> char {
    ((48 + d) as u8) as char
}

/// The decimal numeral of a natural number, most significant digit
/// first.
pub open spec fn spec_udec(n: nat) -> Seq<char>
    decreases n,
{
    if n < 10 {
        seq![spec_digit_char(n)]
    } else {
        spec_udec(n / 10).push(spec_digit_char(n % 10))
    }
}

/// The decimal numeral of an integer, with a leading minus sign when it
/// is negative.
pub open spec fn spec_idec(n: int) -> Seq<char> {
    if n < 0 {
        seq!['-'] + spec_udec((-n) as nat)
    } else {
        spec_udec(n as nat)
    }
}

/// Append the decimal numeral of `n` to `s`.
fn push_udec(s: &mut String, n: u64)
    ensures
        final(s)@ == old(s)@ + spec_udec(n as nat),
    decreases n,
{
    if n < 10 {
        push_char(s, (48 + n as u8) as char);
        proof {
            assert(old(s)@.push(spec_digit_char(n as nat)) =~= old(s)@ + spec_udec(n as nat));
        }
    } else {
        push_udec(s, n / 10);
        push_char(s, (48 + (n % 10) as u8) as char);
        proof {
            assert(s@ =~= old(s)@ + spec_udec(n as nat));
        }
    }
}

/// The decimal numeral of `n` as a string.
pub fn i32_to_string(n: i32) -> (r: String)
    ensures
        r@ == spec_idec(n as int),
{
    let mut s = String::new();
    let m = n as i64;
    if m < 0 {
        push_char(&mut s, '-');
        push_udec(&mut s, (-m) as u64);
        proof {
            assert(s@ =~= spec_idec(n as int));
        }
    } else {
        push_udec(&mut s, m as u64);
        proof {
            assert(s@ =~= spec_idec(n as int));
        }
    }
    s
}

/// Joined with single spaces, in order: the display form of a token list.
pub open spec fn spec_join_space(ts: Seq<Seq<char>>) -> Seq<char>
    decreases ts.len(),
{
    if ts.len() == 0 {
        Seq::empty()
    } else if ts.len() == 1 {
        ts[0]
    } else {
        spec_join_space(ts.drop_last()) + seq![' '] + ts.last()
    }
}

/// Join the given strings with a single space between neighbours.
pub fn join_with_spaces(parts: &Vec<String>) -> (r: String)
    ensures
        r@ == spec_join_space(parts.deep_view()),
{
    proof {
        reveal_strlit(" ");
    }
    if parts.len() == 0 {
        let r = String::new();
        return r;
    }
    let mut r: String = parts[0].clone();
    assert(r@ =~= spec_join_space(parts.deep_view().take(1)));
    let mut i: usize = 1;
    while i < parts.len()
        invariant
            1 <= i <= parts.len(),
            " "@ == seq![' '],
            r@ =~= spec_join_space(parts.deep_view().take(i as int)),
        decreases parts.len() - i,
    {
        r.append(" ");
        r.append(parts[i].as_str());
        proof {
            assert(parts.deep_view().take(i + 1).drop_last() =~= parts.deep_view().take(i as int));
        }
        i = i + 1;
    }
    proof {
        assert(parts.deep_view().take(parts.len() as int) =~= parts.deep_view());
    }
    r
}

} // verus!
