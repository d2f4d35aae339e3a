//! Parsing one line of the sync tool's output into a progress signal:
//! the first whitespace-delimited token ending in `%` whose prefix is a
//! float literal gives the percentage, clamped at one hundred, and the
//! next two tokens give the short transfer-information string.

use vstd::prelude::*;
use crate::text::{chars_to_string, join_with_spaces, spec_join_space, str_chars, subvec_chars};

verus! {

/// The whitespace characters that separate tokens.
pub open spec fn spec_is_ws(c: char) -> bool {
    c == ' ' || c == '\t' || c == '\n' || c == '\r' || c == '\u{b}' || c == '\u{c}'
}

fn is_ws(c: char) -> (r: bool)
    ensures
        r == spec_is_ws(c),
{
    c == ' ' || c == '\t' || c == '\n' || c == '\r' || c == '\u{b}' || c == '\u{c}'
}

/// How many characters the token at the front of `s` spans.
pub open spec fn spec_token_len(s: Seq<char>) -> nat
    decreases s.len(),
{
    if s.len() == 0 || spec_is_ws(s[0]) {
        0
    } else {
        1 + spec_token_len(s.drop_first())
    }
}

/// The whitespace-delimited tokens of `s`, in order, defined one
/// character at a time: a leading whitespace character is dropped, and a
/// leading token character either opens a new token or extends the token
/// that the next character belongs to.
pub open spec fn spec_tokens(s: Seq<char>) -> Seq<Seq<char>>
    decreases s.len(),
{
    if s.len() == 0 {
        Seq::empty()
    } else if spec_is_ws(s[0]) {
        spec_tokens(s.drop_first())
    } else {
        let rest = spec_tokens(s.drop_first());
        if s.len() >= 2 && !spec_is_ws(s[1]) {
            seq![seq![s[0]] + rest[0]] + rest.drop_first()
        } else {
            seq![seq![s[0]]] + rest
        }
    }
}

proof fn lemma_token_len_bound(s: Seq<char>)
    ensures
        spec_token_len(s) <= s.len(),
    decreases s.len(),
{
    if s.len() > 0 && !spec_is_ws(s[0]) {
        lemma_token_len_bound(s.drop_first());
    }
}

/// The front token spans exactly the leading stretch of non-whitespace
/// characters.
proof fn lemma_token_len_char(s: Seq<char>, m: nat)
    requires
        m <= s.len(),
        forall|k: int| 0 <= k < m ==> !spec_is_ws(s[k]),
        m < s.len() ==> spec_is_ws(s[m as int]),
    ensures
        spec_token_len(s) == m,
    decreases s.len(),
{
    if m == 0 {
    } else {
        assert(!spec_is_ws(s[0]));
        lemma_token_len_char(s.drop_first(), (m - 1) as nat);
    }
}

/// Splitting off the whole front token at once agrees with the
/// character-at-a-time definition.
proof fn lemma_tokens_skip_token(s: Seq<char>)
    requires
        s.len() > 0,
        !spec_is_ws(s[0]),
    ensures
        spec_token_len(s) >= 1,
        spec_tokens(s) == seq![s.take(spec_token_len(s) as int)] + spec_tokens(
            s.skip(spec_token_len(s) as int),
        ),
    decreases s.len(),
{
    lemma_token_len_bound(s);
    let n = spec_token_len(s) as int;
    let d = s.drop_first();
    if s.len() >= 2 && !spec_is_ws(s[1]) {
        lemma_tokens_skip_token(d);
        let m = spec_token_len(d) as int;
        assert(n == m + 1);
        let rest = spec_tokens(d);
        assert(rest == seq![d.take(m)] + spec_tokens(d.skip(m)));
        assert(rest[0] == d.take(m));
        assert(rest.drop_first() =~= spec_tokens(d.skip(m)));
        assert(seq![s[0]] + d.take(m) =~= s.take(n));
        assert(d.skip(m) =~= s.skip(n));
        assert(spec_tokens(s) =~= seq![s.take(n)] + spec_tokens(s.skip(n)));
    } else {
        assert(spec_token_len(d) == 0);
        assert(n == 1);
        assert(seq![s[0]] =~= s.take(1));
        assert(d =~= s.skip(1));
        assert(spec_tokens(s) =~= seq![s.take(n)] + spec_tokens(s.skip(n)));
    }
}

/// Split `line` into its whitespace-delimited tokens.
pub fn tokens_of(line: &Vec<char>) -> (r: Vec<Vec<char>>)
    ensures
        r.deep_view() == spec_tokens(line@),
{
    let mut r: Vec<Vec<char>> = Vec::new();
    let mut i: usize = 0;
    proof {
        assert(line@.skip(0) =~= line@);
        assert(r.deep_view() + spec_tokens(line@) =~= spec_tokens(line@));
    }
    while i < line.len()
        invariant
            i <= line@.len(),
            spec_tokens(line@) =~= r.deep_view() + spec_tokens(line@.skip(i as int)),
        decreases line@.len() - i,
    {
        if is_ws(line[i]) {
            proof {
                assert(line@.skip(i as int).drop_first() =~= line@.skip(i + 1));
            }
            i = i + 1;
        } else {
            let start = i;
            let mut j = start + 1;
            while j < line.len() && !is_ws(line[j])
                invariant
                    start < j <= line@.len(),
                    forall|k: int| start <= k < j ==> !spec_is_ws(line@[k]),
                decreases line@.len() - j,
            {
                j = j + 1;
            }
            let token = subvec_chars(line, start, j);
            proof {
                let tail = line@.skip(start as int);
                assert(forall|k: int|
                    0 <= k < j - start ==> tail[k] == line@[k + start] && !spec_is_ws(tail[k]));
                lemma_token_len_char(tail, (j - start) as nat);
                lemma_tokens_skip_token(tail);
                assert(tail.take(j - start) =~= line@.subrange(start as int, j as int));
                assert(tail.skip(j - start) =~= line@.skip(j as int));
                assert(spec_tokens(tail) == seq![token@] + spec_tokens(line@.skip(j as int)));
            }
            let ghost prev = r.deep_view();
            let ghost tv = token@;
            r.push(token);
            proof {
                assert(r@[r@.len() - 1].deep_view() =~= tv);
                assert(r.deep_view() =~= prev.push(tv));
                assert(r.deep_view() + spec_tokens(line@.skip(j as int)) =~= prev + (seq![tv]
                    + spec_tokens(line@.skip(j as int))));
            }
            i = j;
        }
    }
    proof {
        assert(line@.skip(line@.len() as int) =~= Seq::<char>::empty());
        assert(spec_tokens(Seq::<char>::empty()) =~= Seq::<Seq<char>>::empty());
        assert(r.deep_view() =~= spec_tokens(line@));
    }
    r
}

/// A decimal digit.
pub open spec fn spec_is_digit(c: char) -> bool {
    48 <= c as u32 <= 57
}

fn is_digit(c: char) -> (r: bool)
    ensures
        r == spec_is_digit(c),
{
    let u = c as u32;
    48 <= u && u <= 57
}

/// The numeral with an optional leading sign character removed.
pub open spec fn spec_strip_sign(s: Seq<char>) -> Seq<char> {
    if s.len() > 0 && (s[0] == '+' || s[0] == '-') {
        s.drop_first()
    } else {
        s
    }
}

/// How many times `c` occurs in `s`.
pub open spec fn spec_count_char(s: Seq<char>, c: char) -> nat
    decreases s.len(),
{
    if s.len() == 0 {
        0
    } else {
        (if s[0] == c {
            1nat
        } else {
            0
        }) + spec_count_char(s.drop_first(), c)
    }
}

proof fn lemma_count_char_append(s: Seq<char>, q: Seq<char>, c: char)
    ensures
        spec_count_char(s + q, c) == spec_count_char(s, c) + spec_count_char(q, c),
    decreases s.len(),
{
    if s.len() == 0 {
        assert(s + q =~= q);
    } else {
        assert((s + q).drop_first() =~= s.drop_first() + q);
        lemma_count_char_append(s.drop_first(), q, c);
    }
}

/// An unsigned decimal numeral body: at least one digit, digits and at
/// most one decimal point, nothing else.
pub open spec fn spec_numeral_body_ok(b: Seq<char>) -> bool {
    b.len() > 0 && (forall|i: int| 0 <= i < b.len() ==> spec_is_digit(b[i]) || b[i] == '.')
        && spec_count_char(b, '.') <= 1 && (exists|i: int| 0 <= i < b.len() && spec_is_digit(b[i]))
}

/// An exponent marker of a float literal.
pub open spec fn spec_is_exp_char(c: char) -> bool {
    c == 'e' || c == 'E'
}

/// Position of the first exponent marker, or the length when there is
/// none.
pub open spec fn spec_exp_pos(s: Seq<char>) -> nat
    decreases s.len(),
{
    if s.len() == 0 || spec_is_exp_char(s[0]) {
        0
    } else {
        1 + spec_exp_pos(s.drop_first())
    }
}

proof fn lemma_exp_pos_char(s: Seq<char>, m: nat)
    requires
        m <= s.len(),
        forall|k: int| 0 <= k < m ==> !spec_is_exp_char(s[k]),
        m < s.len() ==> spec_is_exp_char(s[m as int]),
    ensures
        spec_exp_pos(s) == m,
    decreases s.len(),
{
    if m > 0 {
        lemma_exp_pos_char(s.drop_first(), (m - 1) as nat);
    }
}

/// The part of the number before the exponent marker.
pub open spec fn spec_mantissa(b: Seq<char>) -> Seq<char> {
    b.take(spec_exp_pos(b) as int)
}

/// The part of the number after the exponent marker, sign included.
pub open spec fn spec_exp_part(b: Seq<char>) -> Seq<char> {
    if spec_exp_pos(b) < b.len() {
        b.skip(spec_exp_pos(b) as int + 1)
    } else {
        Seq::<char>::empty()
    }
}

/// A well-formed exponent: an optional sign, then at least one digit
/// and nothing else.
pub open spec fn spec_exp_ok(e: Seq<char>) -> bool {
    let d = spec_strip_sign(e);
    d.len() > 0 && (forall|i: int| 0 <= i < d.len() ==> spec_is_digit(d[i]))
}

/// An unsigned decimal number: a numeral body, optionally followed by
/// an exponent marker and a well-formed exponent.
pub open spec fn spec_number_ok(b: Seq<char>) -> bool {
    spec_numeral_body_ok(spec_mantissa(b)) && (spec_exp_pos(b) == b.len() || spec_exp_ok(
        spec_exp_part(b),
    ))
}

/// The lower-case form of an upper-case ASCII letter; any other
/// character is left as it is.
pub open spec fn spec_ascii_lower(c: char) -> char {
    if 65 <= c as u32 <= 90 {
        ((c as u32 + 32) as u8) as char
    } else {
        c
    }
}

/// Whether `s` spells the lower-case word `w` in any letter case.
pub open spec fn spec_eq_ignore_case(s: Seq<char>, w: Seq<char>) -> bool {
    s.len() == w.len() && (forall|i: int| 0 <= i < s.len() ==> spec_ascii_lower(s[i]) == w[i])
}

/// The infinity words of a float literal, in short or long form.
pub open spec fn spec_is_inf_word(b: Seq<char>) -> bool {
    spec_eq_ignore_case(b, "inf"@) || spec_eq_ignore_case(b, "infinity"@)
}

/// The not-a-number word of a float literal.
pub open spec fn spec_is_nan_word(b: Seq<char>) -> bool {
    spec_eq_ignore_case(b, "nan"@)
}

/// A float literal as Rust's float parsing accepts it: an optional
/// sign, then either a decimal number with an optional exponent, or one
/// of the words inf, infinity, nan in any letter case.
pub open spec fn spec_is_float_literal(s: Seq<char>) -> bool {
    let b = spec_strip_sign(s);
    spec_is_inf_word(b) || spec_is_nan_word(b) || spec_number_ok(b)
}

/// Whether `t@.subrange(from, to)` is a well-formed numeral body.
fn numeral_body_ok(t: &Vec<char>, from: usize, to: usize) -> (r: bool)
    requires
        from <= to <= t@.len(),
    ensures
        r == spec_numeral_body_ok(t@.subrange(from as int, to as int)),
{
    let ghost b = t@.subrange(from as int, to as int);
    if from == to {
        return false;
    }
    let mut dots: usize = 0;
    let mut seen_digit: bool = false;
    let mut shape_ok: bool = true;
    let mut i: usize = from;
    proof {
        assert(t@.subrange(from as int, from as int) =~= Seq::<char>::empty());
    }
    while i < to
        invariant
            from <= i <= to <= t@.len(),
            b == t@.subrange(from as int, to as int),
            dots == spec_count_char(t@.subrange(from as int, i as int), '.'),
            dots <= i - from,
            seen_digit == (exists|k: int| 0 <= k < i - from && spec_is_digit(b[k])),
            shape_ok == (forall|k: int| 0 <= k < i - from ==> spec_is_digit(b[k]) || b[k] == '.'),
        decreases to - i,
    {
        let c = t[i];
        proof {
            assert(b[i - from] == t@[i as int]);
            assert(t@.subrange(from as int, i + 1) =~= t@.subrange(from as int, i as int)
                + seq![t@[i as int]]);
            lemma_count_char_append(t@.subrange(from as int, i as int), seq![t@[i as int]], '.');
            assert(seq![t@[i as int]].drop_first() =~= Seq::<char>::empty());
            assert(spec_count_char(Seq::<char>::empty(), '.') == 0);
        }
        if c == '.' {
            dots = dots + 1;
        } else if is_digit(c) {
            seen_digit = true;
        } else {
            shape_ok = false;
        }
        i = i + 1;
    }
    proof {
        assert(t@.subrange(from as int, to as int) == b);
        assert(b.len() == to - from);
    }
    shape_ok && dots <= 1 && seen_digit
}

fn lower_char(c: char) -> (r: char)
    ensures
        r == spec_ascii_lower(c),
{
    let u = c as u32;
    if 65 <= u && u <= 90 {
        ((u + 32) as u8) as char
    } else {
        c
    }
}

/// Whether `t@.subrange(from, to)` spells the lower-case word `w` in any
/// letter case.
fn eq_ignore_case_range(t: &Vec<char>, from: usize, to: usize, w: &str) -> (r: bool)
    requires
        from <= to <= t@.len(),
    ensures
        r == spec_eq_ignore_case(t@.subrange(from as int, to as int), w@),
{
    let ghost s = t@.subrange(from as int, to as int);
    let n = w.unicode_len();
    if to - from != n {
        return false;
    }
    let mut i: usize = 0;
    while i < n
        invariant
            from <= to <= t@.len(),
            to - from == n == w@.len(),
            i <= n,
            s == t@.subrange(from as int, to as int),
            forall|j: int| 0 <= j < i ==> spec_ascii_lower(t@[from + j]) == w@[j],
        decreases n - i,
    {
        let c = lower_char(t[from + i]);
        if c != w.get_char(i) {
            proof {
                assert(s[i as int] == t@[from + i]);
            }
            return false;
        }
        i = i + 1;
    }
    proof {
        assert(forall|j: int| 0 <= j < n ==> s[j] == t@[from + j]);
    }
    true
}

/// Whether `t@.subrange(from, to)` is a float literal.
fn is_float_literal(t: &Vec<char>, from: usize, to: usize) -> (r: bool)
    requires
        from <= to <= t@.len(),
    ensures
        r == spec_is_float_literal(t@.subrange(from as int, to as int)),
{
    let ghost s = t@.subrange(from as int, to as int);
    let start: usize = if from < to && (t[from] == '+' || t[from] == '-') {
        from + 1
    } else {
        from
    };
    let ghost b = spec_strip_sign(s);
    proof {
        assert(b =~= t@.subrange(start as int, to as int));
    }
    if eq_ignore_case_range(t, start, to, "inf") {
        return true;
    }
    if eq_ignore_case_range(t, start, to, "infinity") {
        return true;
    }
    if eq_ignore_case_range(t, start, to, "nan") {
        return true;
    }
    let mut ep: usize = start;
    while ep < to && !(t[ep] == 'e' || t[ep] == 'E')
        invariant
            start <= ep <= to <= t@.len(),
            forall|k: int| start <= k < ep ==> !spec_is_exp_char(t@[k]),
        decreases to - ep,
    {
        ep = ep + 1;
    }
    proof {
        assert(forall|k: int| 0 <= k < ep - start ==> b[k] == t@[k + start]);
        lemma_exp_pos_char(b, (ep - start) as nat);
        assert(spec_mantissa(b) =~= t@.subrange(start as int, ep as int));
    }
    if !numeral_body_ok(t, start, ep) {
        return false;
    }
    if ep == to {
        return true;
    }
    let estart: usize = if ep + 1 < to && (t[ep + 1] == '+' || t[ep + 1] == '-') {
        ep + 2
    } else {
        ep + 1
    };
    proof {
        assert(spec_exp_part(b) =~= t@.subrange(ep + 1, to as int));
        assert(spec_strip_sign(spec_exp_part(b)) =~= t@.subrange(estart as int, to as int));
    }
    if estart == to {
        return false;
    }
    let mut all_digits: bool = true;
    let mut k: usize = estart;
    while k < to
        invariant
            estart <= k <= to <= t@.len(),
            all_digits == (forall|j: int| estart <= j < k ==> spec_is_digit(t@[j])),
        decreases to - k,
    {
        if !is_digit(t[k]) {
            all_digits = false;
        }
        k = k + 1;
    }
    proof {
        let d = spec_strip_sign(spec_exp_part(b));
        assert(forall|j: int| 0 <= j < to - estart ==> d[j] == t@[j + estart]);
        if all_digits {
            assert forall|i: int| 0 <= i < d.len() implies spec_is_digit(d[i]) by {
                assert(d[i] == t@[i + estart]);
            }
            assert(spec_exp_ok(spec_exp_part(b)));
        } else {
            assert(exists|j: int| estart <= j < to && !spec_is_digit(t@[j]));
            let j = choose|j: int| estart <= j < to && !spec_is_digit(t@[j]);
            assert(d[j - estart] == t@[j]);
            assert(!spec_exp_ok(spec_exp_part(b)));
        }
    }
    all_digits
}

/// The value of a digit character.
pub open spec fn spec_digit_val(c: char) -> int {
    c as u32 - 48
}

/// Position of the first decimal point, or the length when there is none.
pub open spec fn spec_dot_pos(s: Seq<char>) -> nat
    decreases s.len(),
{
    if s.len() == 0 || s[0] == '.' {
        0
    } else {
        1 + spec_dot_pos(s.drop_first())
    }
}

proof fn lemma_dot_pos_char(s: Seq<char>, m: nat)
    requires
        m <= s.len(),
        forall|k: int| 0 <= k < m ==> s[k] != '.',
        m < s.len() ==> s[m as int] == '.',
    ensures
        spec_dot_pos(s) == m,
    decreases s.len(),
{
    if m == 0 {
    } else {
        lemma_dot_pos_char(s.drop_first(), (m - 1) as nat);
    }
}

/// The numeral with its leading zero digits removed.
pub open spec fn spec_strip_zeros(s: Seq<char>) -> Seq<char>
    decreases s.len(),
{
    if s.len() > 0 && s[0] == '0' {
        spec_strip_zeros(s.drop_first())
    } else {
        s
    }
}

proof fn lemma_strip_zeros_char(s: Seq<char>, m: nat)
    requires
        m <= s.len(),
        forall|k: int| 0 <= k < m ==> s[k] == '0',
        m < s.len() ==> s[m as int] != '0',
    ensures
        spec_strip_zeros(s) == s.skip(m as int),
    decreases s.len(),
{
    if m == 0 {
        assert(s.skip(0) =~= s);
    } else {
        lemma_strip_zeros_char(s.drop_first(), (m - 1) as nat);
        assert(s.drop_first().skip(m - 1) =~= s.skip(m as int));
    }
}

/// The digits of the numeral body before the decimal point.
pub open spec fn spec_int_part(b: Seq<char>) -> Seq<char> {
    b.take(spec_dot_pos(b) as int)
}

/// The digits of the numeral body after the decimal point.
pub open spec fn spec_frac_part(b: Seq<char>) -> Seq<char> {
    if spec_dot_pos(b) < b.len() {
        b.skip(spec_dot_pos(b) as int + 1)
    } else {
        Seq::<char>::empty()
    }
}

/// The value of a digit string, most significant digit first.
pub open spec fn spec_digits_value(d: Seq<char>) -> int
    decreases d.len(),
{
    if d.len() == 0 {
        0
    } else {
        spec_digits_value(d.drop_last()) * 10 + spec_digit_val(d.last())
    }
}

proof fn lemma_digits_value_nonneg(d: Seq<char>)
    requires
        forall|i: int| 0 <= i < d.len() ==> spec_is_digit(d[i]),
    ensures
        spec_digits_value(d) >= 0,
    decreases d.len(),
{
    if d.len() > 0 {
        lemma_digits_value_nonneg(d.drop_last());
    }
}

/// The signed value of the number's exponent, zero when it has none.
pub open spec fn spec_exp_value(b: Seq<char>) -> int {
    if spec_exp_pos(b) == b.len() {
        0
    } else {
        let e = spec_exp_part(b);
        if e.len() > 0 && e[0] == '-' {
            -spec_digits_value(spec_strip_sign(e))
        } else {
            spec_digits_value(spec_strip_sign(e))
        }
    }
}

/// The significant digits of a mantissa: its digits before and after
/// the decimal point, leading zeros removed.
pub open spec fn spec_sig_digits(m: Seq<char>) -> Seq<char> {
    spec_strip_zeros(spec_int_part(m) + spec_frac_part(m))
}

/// Whether the number reads strictly above one hundred. With `k`
/// significant digits, an exponent `e` and `f` fraction digits, the
/// value lies in `[10^u, 10^(u+1))` for `u = k - 1 + e - f`: above two
/// the value passed one thousand's neighbourhood, below two it never
/// reaches one hundred, and at exactly two it is above one hundred
/// unless the significant digits read one followed by zeros.
pub open spec fn spec_number_gt_100(b: Seq<char>) -> bool {
    let m = spec_mantissa(b);
    let digits = spec_sig_digits(m);
    if digits.len() == 0 {
        false
    } else {
        let scale = digits.len() - 1 + spec_exp_value(b) - spec_frac_part(m).len();
        if scale > 2 {
            true
        } else if scale < 2 {
            false
        } else {
            spec_digit_val(digits[0]) > 1 || (exists|i: int|
                1 <= i < digits.len() && digits[i] != '0')
        }
    }
}

/// Whether the percentage literal forces the clamp. A value above one
/// hundred does; so do the infinity words without a minus sign, and the
/// not-a-number word with either sign, since the minimum of it and one
/// hundred selects one hundred. A negative value never does: the clamp
/// has a ceiling, not a floor.
pub open spec fn spec_pct_clamped(s: Seq<char>) -> bool {
    let b = spec_strip_sign(s);
    if spec_is_nan_word(b) {
        true
    } else if s.len() > 0 && s[0] == '-' {
        false
    } else if spec_is_inf_word(b) {
        true
    } else {
        spec_number_gt_100(b)
    }
}

/// A ceiling for summing exponent digits: any admissible string length
/// stays far below it, so an exponent at the ceiling decides the
/// comparison on its own.
const EXP_CAP: u128 = 100000000000000000000;

/// The value of the digit string `num@.subrange(from, to)`, summed with
/// the ceiling: the exact value below it, the ceiling itself otherwise.
fn digits_value_capped(num: &Vec<char>, from: usize, to: usize) -> (acc: u128)
    requires
        from <= to <= num@.len(),
        forall|j: int| from <= j < to ==> spec_is_digit(num@[j]),
    ensures
        acc <= EXP_CAP,
        spec_digits_value(num@.subrange(from as int, to as int)) < EXP_CAP ==> acc
            == spec_digits_value(num@.subrange(from as int, to as int)),
        spec_digits_value(num@.subrange(from as int, to as int)) >= EXP_CAP ==> acc == EXP_CAP,
{
    let ghost d = num@.subrange(from as int, to as int);
    let mut acc: u128 = 0;
    let mut k: usize = from;
    proof {
        assert(d.take(0) =~= Seq::<char>::empty());
    }
    while k < to
        invariant
            from <= k <= to <= num@.len(),
            d == num@.subrange(from as int, to as int),
            forall|j: int| from <= j < to ==> spec_is_digit(num@[j]),
            acc <= EXP_CAP,
            spec_digits_value(d.take(k - from)) < EXP_CAP ==> acc == spec_digits_value(
                d.take(k - from),
            ),
            spec_digits_value(d.take(k - from)) >= EXP_CAP ==> acc == EXP_CAP,
        decreases to - k,
    {
        proof {
            assert(d[k - from] == num@[k as int]);
            assert(spec_is_digit(d[k - from]));
            assert(d.take(k - from + 1).drop_last() =~= d.take(k - from));
            assert(d.take(k - from + 1).last() == d[k - from]);
            assert(forall|j: int| 0 <= j < k - from ==> d[j] == num@[j + from]);
            lemma_digits_value_nonneg(d.take(k - from));
        }
        let dv = (num[k] as u32 - 48) as u128;
        let next = acc * 10 + dv;
        acc = if next > EXP_CAP {
            EXP_CAP
        } else {
            next
        };
        k = k + 1;
    }
    proof {
        assert(d.take(to - from) =~= d);
    }
    acc
}

/// Whether the percentage literal in `num` forces the clamp.
#[verifier::rlimit(100)]
fn pct_clamped(num: &Vec<char>) -> (r: bool)
    requires
        spec_is_float_literal(num@),
    ensures
        r == spec_pct_clamped(num@),
{
    let n = num.len();
    let start: usize = if n > 0 && (num[0] == '+' || num[0] == '-') {
        1
    } else {
        0
    };
    let ghost b = spec_strip_sign(num@);
    proof {
        assert(b =~= num@.subrange(start as int, n as int));
    }
    if eq_ignore_case_range(num, start, n, "nan") {
        return true;
    }
    if n > 0 && num[0] == '-' {
        return false;
    }
    if eq_ignore_case_range(num, start, n, "inf") {
        return true;
    }
    if eq_ignore_case_range(num, start, n, "infinity") {
        return true;
    }
    proof {
        assert(spec_number_ok(b));
    }
    let r = number_gt_100_exec(num, start);
    proof {
        assert(spec_pct_clamped(num@) == spec_number_gt_100(b));
    }
    r
}

/// Whether the unsigned number starting at `start` reads strictly above
/// one hundred.
#[verifier::rlimit(100)]
fn number_gt_100_exec(num: &Vec<char>, start: usize) -> (r: bool)
    requires
        start <= num@.len(),
        spec_strip_sign(num@) == num@.subrange(start as int, num@.len() as int),
        spec_number_ok(spec_strip_sign(num@)),
    ensures
        r == spec_number_gt_100(spec_strip_sign(num@)),
{
    let n = num.len();
    let ghost b = spec_strip_sign(num@);
    let mut ep: usize = start;
    while ep < n && !(num[ep] == 'e' || num[ep] == 'E')
        invariant
            start <= ep <= n == num@.len(),
            forall|k: int| start <= k < ep ==> !spec_is_exp_char(num@[k]),
        decreases n - ep,
    {
        ep = ep + 1;
    }
    let ghost m = spec_mantissa(b);
    proof {
        assert(forall|k: int| 0 <= k < ep - start ==> b[k] == num@[k + start]);
        lemma_exp_pos_char(b, (ep - start) as nat);
        assert(m =~= num@.subrange(start as int, ep as int));
    }
    let mut dt: usize = start;
    while dt < ep && num[dt] != '.'
        invariant
            start <= dt <= ep <= n == num@.len(),
            forall|k: int| start <= k < dt ==> num@[k] != '.',
        decreases ep - dt,
    {
        dt = dt + 1;
    }
    proof {
        assert(forall|k: int| 0 <= k < dt - start ==> m[k] == num@[k + start]);
        lemma_dot_pos_char(m, (dt - start) as nat);
        assert(spec_int_part(m) =~= num@.subrange(start as int, dt as int));
    }
    let fstart: usize = if dt < ep {
        dt + 1
    } else {
        ep
    };
    let fplen: usize = ep - fstart;
    proof {
        assert(spec_frac_part(m) =~= num@.subrange(fstart as int, ep as int));
        assert(spec_frac_part(m).len() == fplen);
    }
    let mut allv = subvec_chars(num, start, dt);
    let mut fpv = subvec_chars(num, fstart, ep);
    allv.append(&mut fpv);
    proof {
        assert(allv@ =~= spec_int_part(m) + spec_frac_part(m));
    }
    let mut z: usize = 0;
    while z < allv.len() && allv[z] == '0'
        invariant
            z <= allv@.len(),
            forall|k: int| 0 <= k < z ==> allv@[k] == '0',
        decreases allv@.len() - z,
    {
        z = z + 1;
    }
    let ghost digits = spec_sig_digits(m);
    proof {
        lemma_strip_zeros_char(allv@, z as nat);
        assert(digits =~= allv@.skip(z as int));
    }
    let dcount = allv.len() - z;
    if dcount == 0 {
        return false;
    }
    let mut eneg: bool = false;
    let mut acc: u128 = 0;
    let ghost ed = spec_strip_sign(spec_exp_part(b));
    if ep < n {
        let es: usize = if ep + 1 < n && (num[ep + 1] == '+' || num[ep + 1] == '-') {
            ep + 2
        } else {
            ep + 1
        };
        eneg = num[ep + 1] == '-';
        proof {
            assert(spec_exp_part(b) =~= num@.subrange(ep + 1, n as int));
            assert(ed =~= num@.subrange(es as int, n as int));
            assert(spec_exp_ok(spec_exp_part(b)));
            assert(forall|j: int| es <= j < n ==> num@[j] == ed[j - es] && spec_is_digit(
                num@[j],
            ));
        }
        acc = digits_value_capped(num, es, n);
        proof {
            assert(spec_digits_value(ed) == spec_digits_value(num@.subrange(es as int, n as int)));
        }
    }
    let ghost ev = spec_exp_value(b);
    proof {
        if ep < n {
            assert(spec_exp_part(b).len() > 0);
            assert(spec_exp_part(b)[0] == num@[ep + 1]);
            assert(eneg == (spec_exp_part(b)[0] == '-'));
            lemma_digits_value_nonneg(ed);
            assert(ev == (if eneg {
                -spec_digits_value(ed)
            } else {
                spec_digits_value(ed)
            }));
        } else {
            assert(spec_exp_pos(b) == b.len());
            assert(ev == 0);
            assert(acc == 0 && !eneg);
            assert(spec_digits_value(ed.take(0)) == 0);
        }
        assert(fplen < 18446744073709551616);
        assert(dcount < 18446744073709551616);
        assert(digits.len() == dcount);
    }
    if acc == EXP_CAP {
        proof {
            assert(spec_digits_value(ed) >= EXP_CAP);
            if eneg {
                assert(digits.len() - 1 + ev - spec_frac_part(m).len() < 2);
                assert(!spec_number_gt_100(b));
            } else {
                assert(digits.len() - 1 + ev - spec_frac_part(m).len() > 2);
                assert(spec_number_gt_100(b));
            }
        }
        if eneg {
            return false;
        }
        return true;
    }
    proof {
        assert(acc == (if eneg {
            -ev
        } else {
            ev
        }));
    }
    let sev: i128 = if eneg {
        -(acc as i128)
    } else {
        acc as i128
    };
    let scale: i128 = dcount as i128 - 1 + sev - fplen as i128;
    proof {
        assert(scale == digits.len() - 1 + ev - spec_frac_part(m).len());
    }
    if scale > 2 {
        return true;
    }
    if scale < 2 {
        return false;
    }
    let lead = allv[z];
    proof {
        assert(digits[0] == allv@[z as int]);
    }
    if lead as u32 > 49 {
        return true;
    }
    let anyv = has_nonzero_in(&allv, z + 1, allv.len());
    proof {
        if anyv {
            let w = choose|w: int| z + 1 <= w < allv@.len() && allv@[w] != '0';
            assert(digits[w - z] == allv@[w]);
            assert(exists|i: int| 1 <= i < digits.len() && digits[i] != '0');
        } else {
            assert(forall|i: int| 1 <= i < digits.len() ==> digits[i] == allv@[i + z] && digits[i]
                == '0');
            assert(!(exists|i: int| 1 <= i < digits.len() && digits[i] != '0'));
        }
        assert(spec_digit_val(digits[0]) <= 1);
        assert(spec_number_gt_100(b) == anyv);
    }
    anyv
}

/// A percentage marker: a token ending in `%` whose prefix is a float
/// literal.
pub open spec fn spec_is_pct_token(t: Seq<char>) -> bool {
    t.len() >= 1 && t.last() == '%' && spec_is_float_literal(t.drop_last())
}

fn is_pct_token(t: &Vec<char>) -> (r: bool)
    ensures
        r == spec_is_pct_token(t@),
{
    let n = t.len();
    if n == 0 {
        return false;
    }
    if t[n - 1] != '%' {
        return false;
    }
    proof {
        assert(t@.drop_last() =~= t@.subrange(0, n - 1));
    }
    is_float_literal(t, 0, n - 1)
}

/// Index of the first percentage marker among the tokens, or minus one
/// when no token qualifies.
pub open spec fn spec_first_marker(ts: Seq<Seq<char>>) -> int
    decreases ts.len(),
{
    if ts.len() == 0 {
        -1
    } else if spec_is_pct_token(ts[0]) {
        0
    } else if spec_first_marker(ts.drop_first()) == -1 {
        -1
    } else {
        spec_first_marker(ts.drop_first()) + 1
    }
}

proof fn lemma_first_marker_none(ts: Seq<Seq<char>>)
    requires
        forall|j: int| 0 <= j < ts.len() ==> !spec_is_pct_token(ts[j]),
    ensures
        spec_first_marker(ts) == -1,
    decreases ts.len(),
{
    if ts.len() > 0 {
        lemma_first_marker_none(ts.drop_first());
    }
}

proof fn lemma_first_marker_found(ts: Seq<Seq<char>>, i: int)
    requires
        0 <= i < ts.len(),
        spec_is_pct_token(ts[i]),
        forall|j: int| 0 <= j < i ==> !spec_is_pct_token(ts[j]),
    ensures
        spec_first_marker(ts) == i,
    decreases i,
{
    if i > 0 {
        lemma_first_marker_found(ts.drop_first(), i - 1);
    }
}

proof fn lemma_first_marker_props(ts: Seq<Seq<char>>)
    ensures
        spec_first_marker(ts) == -1 <==> (forall|j: int|
            0 <= j < ts.len() ==> !spec_is_pct_token(ts[j])),
        spec_first_marker(ts) != -1 ==> 0 <= spec_first_marker(ts) < ts.len()
            && spec_is_pct_token(ts[spec_first_marker(ts)]),
    decreases ts.len(),
{
    if ts.len() > 0 {
        let d = ts.drop_first();
        lemma_first_marker_props(d);
        if spec_first_marker(ts) == -1 {
            assert forall|j: int| 0 <= j < ts.len() implies !spec_is_pct_token(ts[j]) by {
                if j > 0 {
                    assert(ts[j] == d[j - 1]);
                }
            }
        }
        if forall|j: int| 0 <= j < ts.len() ==> !spec_is_pct_token(ts[j]) {
            assert forall|j: int| 0 <= j < d.len() implies !spec_is_pct_token(d[j]) by {
                assert(d[j] == ts[j + 1]);
            }
        }
        if !spec_is_pct_token(ts[0]) && spec_first_marker(d) != -1 {
            assert(ts[spec_first_marker(d) + 1] == d[spec_first_marker(d)]);
        }
    }
}

/// A line yields a progress signal exactly when one of its tokens is a
/// percentage marker: a token ending in `%` whose prefix is a float
/// literal. A line without one leaves the gauge untouched.
pub proof fn lemma_parse_progress_some(line: Seq<char>)
    ensures
        spec_parse_progress(line) is Some <==> (exists|i: int|
            0 <= i < spec_tokens(line).len() && spec_is_pct_token(spec_tokens(line)[i])),
{
    lemma_first_marker_props(spec_tokens(line));
}

/// One parsed progress signal: the percentage numeral that drives the
/// gauge, and the short transfer-information string shown beside it.
pub struct ProgressUpdate {
    pub percentage: String,
    pub info: String,
}

/// What parsing one output line yields: nothing when no token is a
/// percentage marker; otherwise, at the first marker, the percentage
/// literal (replaced by one hundred when it forces the clamp, never
/// raised) and the up-to-two following tokens joined by a space.
pub open spec fn spec_parse_progress(line: Seq<char>) -> Option<(Seq<char>, Seq<char>)> {
    let ts = spec_tokens(line);
    let i = spec_first_marker(ts);
    if i == -1 {
        None
    } else {
        let num = ts[i].drop_last();
        let pct = if spec_pct_clamped(num) {
            "100"@
        } else {
            num
        };
        let stop = if i + 3 <= ts.len() {
            i + 3
        } else {
            ts.len() as int
        };
        Some((pct, spec_join_space(ts.subrange(i + 1, stop))))
    }
}

/// Scan one line of the tool's output for a progress signal.
pub fn parse_progress(line: &str) -> (r: Option<ProgressUpdate>)
    ensures
        ({
            let sp = spec_parse_progress(line@);
            match r {
                None => sp is None,
                Some(u) => sp == Some((u.percentage@, u.info@)),
            }
        }),
{
    let chars = str_chars(line);
    let ts = tokens_of(&chars);
    let ghost tsd = ts.deep_view();
    let mut i: usize = 0;
    let mut found: bool = false;
    while i < ts.len() && !found
        invariant
            i <= ts@.len(),
            tsd == ts.deep_view(),
            tsd == spec_tokens(line@),
            forall|j: int| 0 <= j < i ==> !spec_is_pct_token(tsd[j]),
            found ==> i < ts@.len() && spec_is_pct_token(tsd[i as int]),
        decreases ts@.len() - i, (if found {
            0int
        } else {
            1
        }),
    {
        proof {
            assert(ts@[i as int].deep_view() == tsd[i as int]);
            assert(ts@[i as int].deep_view() =~= ts@[i as int]@);
        }
        if is_pct_token(&ts[i]) {
            found = true;
        } else {
            i = i + 1;
        }
    }
    if !found {
        proof {
            lemma_first_marker_none(tsd);
        }
        return None;
    }
    proof {
        lemma_first_marker_found(tsd, i as int);
    }
    let t = &ts[i];
    proof {
        assert(t.deep_view() == tsd[i as int]);
        assert(t.deep_view() =~= t@);
    }
    let tn = t.len();
    let num = subvec_chars(t, 0, tn - 1);
    proof {
        assert(num@ =~= tsd[i as int].drop_last());
    }
    let pct: String = if pct_clamped(&num) {
        "100".to_owned()
    } else {
        chars_to_string(&num)
    };
    let mut parts: Vec<String> = Vec::new();
    let ghost stop = if i + 3 <= tsd.len() {
        i + 3
    } else {
        tsd.len() as int
    };
    let rem = ts.len() - 1 - i;
    if rem >= 1 {
        let p1 = chars_to_string(&ts[i + 1]);
        proof {
            assert(ts@[i + 1].deep_view() == tsd[i + 1]);
            assert(ts@[i + 1].deep_view() =~= ts@[i + 1]@);
        }
        let ghost prev = parts.deep_view();
        parts.push(p1);
        proof {
            assert(parts.deep_view() =~= prev.push(tsd[i + 1]));
        }
    }
    if rem >= 2 {
        let p2 = chars_to_string(&ts[i + 2]);
        proof {
            assert(ts@[i + 2].deep_view() == tsd[i + 2]);
            assert(ts@[i + 2].deep_view() =~= ts@[i + 2]@);
        }
        let ghost prev = parts.deep_view();
        parts.push(p2);
        proof {
            assert(parts.deep_view() =~= prev.push(tsd[i + 2]));
        }
    }
    proof {
        assert(parts.deep_view() =~= tsd.subrange(i + 1, stop));
    }
    let info = join_with_spaces(&parts);
    Some(ProgressUpdate { percentage: pct, info })
}

/// Whether some character of `num` between `from` and `to` is not the
/// zero digit.
fn has_nonzero_in(num: &Vec<char>, from: usize, to: usize) -> (r: bool)
    requires
        from <= to <= num@.len(),
    ensures
        r == (exists|k: int| from <= k < to && num@[k] != '0'),
{
    let mut f: usize = from;
    while f < to
        invariant
            from <= f <= to <= num@.len(),
            forall|k: int| from <= k < f ==> num@[k] == '0',
        decreases to - f,
    {
        if num[f] != '0' {
            return true;
        }
        f = f + 1;
    }
    false
}

} // verus!

