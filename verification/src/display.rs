//! Text shaping for the rendered panels: wrapping a long command line to
//! a panel width with continuation markers, and the one-line form of a
//! toggleable option.

use vstd::prelude::*;
use crate::progress::spec_is_ws;
use crate::text::{chars_to_string, str_chars, subvec_chars};

verus! {

/// The string with its leading whitespace removed.
pub open spec fn spec_trim_start(s: Seq<char>) -> Seq<char>
    decreases s.len(),
{
    if s.len() > 0 && spec_is_ws(s[0]) {
        spec_trim_start(s.drop_first())
    } else {
        s
    }
}

/// The string with its trailing whitespace removed.
pub open spec fn spec_trim_end(s: Seq<char>) -> Seq<char>
    decreases s.len(),
{
    if s.len() > 0 && spec_is_ws(s.last()) {
        spec_trim_end(s.drop_last())
    } else {
        s
    }
}

/// Index of the last space of `s`, or minus one when it has none.
pub open spec fn spec_last_space(s: Seq<char>) -> int
    decreases s.len(),
{
    if s.len() == 0 {
        -1
    } else if s.last() == ' ' {
        s.len() - 1
    } else {
        spec_last_space(s.drop_last())
    }
}

proof fn lemma_trim_start_le(s: Seq<char>)
    ensures
        spec_trim_start(s).len() <= s.len(),
    decreases s.len(),
{
    if s.len() > 0 && spec_is_ws(s[0]) {
        lemma_trim_start_le(s.drop_first());
    }
}

proof fn lemma_trim_start_char(s: Seq<char>, k: nat)
    requires
        k <= s.len(),
        forall|j: int| 0 <= j < k ==> spec_is_ws(s[j]),
        k < s.len() ==> !spec_is_ws(s[k as int]),
    ensures
        spec_trim_start(s) == s.skip(k as int),
    decreases s.len(),
{
    if k == 0 {
        assert(s.skip(0) =~= s);
    } else {
        lemma_trim_start_char(s.drop_first(), (k - 1) as nat);
        assert(s.drop_first().skip(k - 1) =~= s.skip(k as int));
    }
}

proof fn lemma_trim_end_char(s: Seq<char>, k: nat)
    requires
        k <= s.len(),
        forall|j: int| k <= j < s.len() ==> spec_is_ws(s[j]),
        k > 0 ==> !spec_is_ws(s[k - 1]),
    ensures
        spec_trim_end(s) == s.take(k as int),
    decreases s.len(),
{
    if k == s.len() {
        if s.len() > 0 {
            assert(!spec_is_ws(s.last()));
        }
        assert(s.take(k as int) =~= s);
    } else {
        assert(spec_is_ws(s.last()));
        lemma_trim_end_char(s.drop_last(), k);
        assert(s.drop_last().take(k as int) =~= s.take(k as int));
    }
}

proof fn lemma_last_space_bound(s: Seq<char>)
    ensures
        -1 <= spec_last_space(s) < s.len(),
    decreases s.len(),
{
    if s.len() > 0 && s.last() != ' ' {
        lemma_last_space_bound(s.drop_last());
    }
}

proof fn lemma_last_space_char(s: Seq<char>, ls: int)
    requires
        -1 <= ls < s.len(),
        ls >= 0 ==> s[ls] == ' ',
        forall|k: int| ls < k < s.len() ==> s[k] != ' ',
    ensures
        spec_last_space(s) == ls,
    decreases s.len(),
{
    if s.len() == 0 {
    } else if s.last() == ' ' {
        assert(ls == s.len() - 1);
    } else {
        assert(ls < s.len() - 1);
        lemma_last_space_char(s.drop_last(), ls);
    }
}

/// Where one wrapped chunk of an overlong line ends: within the window
/// that leaves room for the continuation marker, after the last space
/// when the window holds one. The window never closes completely, so
/// every chunk takes at least one character.
pub open spec fn spec_break_pos(remaining: Seq<char>, w: nat) -> int {
    let wrap_at = if remaining.len() > w {
        if w >= 3 {
            (w - 2) as nat
        } else {
            1nat
        }
    } else {
        remaining.len()
    };
    if wrap_at < remaining.len() {
        let ls = spec_last_space(remaining.take(wrap_at as int));
        if ls == -1 {
            wrap_at as int
        } else {
            ls + 1
        }
    } else {
        wrap_at as int
    }
}

proof fn lemma_break_pos_bounds(remaining: Seq<char>, w: nat)
    requires
        remaining.len() > 0,
    ensures
        1 <= spec_break_pos(remaining, w) <= remaining.len(),
{
    let wrap_at = if remaining.len() > w {
        if w >= 3 {
            (w - 2) as nat
        } else {
            1nat
        }
    } else {
        remaining.len()
    };
    lemma_last_space_bound(remaining.take(wrap_at as int));
}

/// The wrapped lines of one overlong display line: chunks are broken at
/// spaces where possible, trailing whitespace is dropped from each, all
/// but the last carry a continuation marker, and all but the first are
/// indented.
pub open spec fn spec_wrap_rest(remaining: Seq<char>, w: nat, first: bool) -> Seq<Seq<char>>
    decreases remaining.len(),
    via spec_wrap_rest_decreases
{
    if remaining.len() == 0 {
        Seq::empty()
    } else {
        let break_pos = spec_break_pos(remaining, w);
        let chunk = spec_trim_end(remaining.take(break_pos));
        let head = if first {
            chunk
        } else {
            "  "@ + chunk
        };
        let rest = spec_trim_start(remaining.skip(break_pos));
        if rest.len() == 0 {
            seq![head]
        } else {
            seq![head + " \\"@] + spec_wrap_rest(rest, w, false)
        }
    }
}

#[via_fn]
proof fn spec_wrap_rest_decreases(remaining: Seq<char>, w: nat, first: bool) {
    if remaining.len() > 0 {
        lemma_break_pos_bounds(remaining, w);
        lemma_trim_start_le(remaining.skip(spec_break_pos(remaining, w)));
    }
}

/// The lines of `s`, split at every newline character; consecutive
/// newlines give empty lines, and the split of the empty string is one
/// empty line.
pub open spec fn spec_split_nl(s: Seq<char>) -> Seq<Seq<char>>
    decreases s.len(),
{
    if s.len() == 0 {
        seq![Seq::empty()]
    } else {
        let rest = spec_split_nl(s.drop_first());
        if s[0] == '\n' {
            seq![Seq::<char>::empty()] + rest
        } else {
            seq![seq![s[0]] + rest[0]] + rest.drop_first()
        }
    }
}

/// Position of the first newline, or the length when there is none.
pub open spec fn spec_nl_pos(s: Seq<char>) -> nat
    decreases s.len(),
{
    if s.len() == 0 || s[0] == '\n' {
        0
    } else {
        1 + spec_nl_pos(s.drop_first())
    }
}

proof fn lemma_nl_pos_bound(s: Seq<char>)
    ensures
        spec_nl_pos(s) <= s.len(),
    decreases s.len(),
{
    if s.len() > 0 && s[0] != '\n' {
        lemma_nl_pos_bound(s.drop_first());
    }
}

proof fn lemma_nl_pos_char(s: Seq<char>, m: nat)
    requires
        m <= s.len(),
        forall|k: int| 0 <= k < m ==> s[k] != '\n',
        m < s.len() ==> s[m as int] == '\n',
    ensures
        spec_nl_pos(s) == m,
    decreases s.len(),
{
    if m > 0 {
        lemma_nl_pos_char(s.drop_first(), (m - 1) as nat);
    }
}

/// A split always yields at least one line.
proof fn lemma_split_nl_len(s: Seq<char>)
    ensures
        spec_split_nl(s).len() >= 1,
    decreases s.len(),
{
    if s.len() > 0 {
        lemma_split_nl_len(s.drop_first());
    }
}

/// Splitting off the whole first line at once agrees with the
/// character-at-a-time definition.
proof fn lemma_split_nl_step(s: Seq<char>)
    requires
        spec_nl_pos(s) < s.len(),
    ensures
        spec_split_nl(s) == seq![s.take(spec_nl_pos(s) as int)] + spec_split_nl(
            s.skip(spec_nl_pos(s) as int + 1),
        ),
    decreases s.len(),
{
    let n = spec_nl_pos(s) as int;
    let d = s.drop_first();
    if n == 0 {
        assert(s.take(0) =~= Seq::<char>::empty());
        assert(s.skip(1) =~= d);
        assert(spec_split_nl(s) =~= seq![s.take(0)] + spec_split_nl(s.skip(1)));
    } else {
        lemma_split_nl_step(d);
        let rest = spec_split_nl(d);
        assert(rest[0] == d.take(n - 1));
        assert(rest.drop_first() =~= spec_split_nl(d.skip(n)));
        assert(seq![s[0]] + d.take(n - 1) =~= s.take(n));
        assert(d.skip(n) =~= s.skip(n + 1));
        assert(spec_split_nl(s) =~= seq![s.take(n)] + spec_split_nl(s.skip(n + 1)));
    }
}

/// A string without a newline splits into itself alone.
proof fn lemma_split_nl_whole(s: Seq<char>)
    requires
        spec_nl_pos(s) == s.len(),
    ensures
        spec_split_nl(s) == seq![s],
    decreases s.len(),
{
    if s.len() == 0 {
        assert(s =~= Seq::<char>::empty());
        assert(spec_split_nl(s) =~= seq![s]);
    } else {
        let d = s.drop_first();
        lemma_split_nl_whole(d);
        assert(spec_split_nl(d).drop_first() =~= Seq::<Seq<char>>::empty());
        assert(seq![s[0]] + d =~= s);
        assert(spec_split_nl(s) =~= seq![s]);
    }
}

/// The wrapped form of one display line: left-trimmed, kept whole when
/// it fits the width, broken into marked chunks when it does not.
pub open spec fn spec_wrap_one(seg: Seq<char>, w: nat) -> Seq<Seq<char>> {
    let t = spec_trim_start(seg);
    if t.len() <= w {
        seq![t]
    } else {
        spec_wrap_rest(t, w, true)
    }
}

/// The wrapped forms of all the display lines, in order.
pub open spec fn spec_wrap_segments(segs: Seq<Seq<char>>, w: nat) -> Seq<Seq<char>>
    decreases segs.len(),
{
    if segs.len() == 0 {
        Seq::empty()
    } else {
        spec_wrap_one(segs[0], w) + spec_wrap_segments(segs.drop_first(), w)
    }
}

/// The command display, wrapped to the panel width: split at newlines,
/// each line left-trimmed, and each overlong line broken at spaces with
/// a continuation marker and an indent on the carried-over part.
pub open spec fn spec_wrap_command(cmd: Seq<char>, w: nat) -> Seq<Seq<char>> {
    spec_wrap_segments(spec_split_nl(cmd), w)
}

proof fn lemma_wrap_segments_append(segs: Seq<Seq<char>>, qs: Seq<Seq<char>>, w: nat)
    ensures
        spec_wrap_segments(segs + qs, w) == spec_wrap_segments(segs, w) + spec_wrap_segments(
            qs,
            w,
        ),
    decreases segs.len(),
{
    if segs.len() == 0 {
        assert(segs + qs =~= qs);
        assert(spec_wrap_segments(segs, w) + spec_wrap_segments(qs, w) =~= spec_wrap_segments(
            qs,
            w,
        ));
    } else {
        assert((segs + qs).drop_first() =~= segs.drop_first() + qs);
        lemma_wrap_segments_append(segs.drop_first(), qs, w);
        assert(spec_wrap_segments(segs + qs, w) =~= spec_wrap_segments(segs, w)
            + spec_wrap_segments(qs, w));
    }
}

/// The characters of `v` with leading whitespace removed.
fn trim_start_chars(v: &Vec<char>) -> (r: Vec<char>)
    ensures
        r@ == spec_trim_start(v@),
{
    let n = v.len();
    let mut k: usize = 0;
    while k < n && is_ws_char(v[k])
        invariant
            k <= n == v@.len(),
            forall|j: int| 0 <= j < k ==> spec_is_ws(v@[j]),
        decreases n - k,
    {
        k = k + 1;
    }
    proof {
        lemma_trim_start_char(v@, k as nat);
    }
    subvec_chars(v, k, n)
}

fn is_ws_char(c: char) -> (r: bool)
    ensures
        r == spec_is_ws(c),
{
    c == ' ' || c == '\t' || c == '\n' || c == '\r' || c == '\u{b}' || c == '\u{c}'
}

/// Split `v` at every newline character.
fn split_nl(v: &Vec<char>) -> (r: Vec<Vec<char>>)
    ensures
        r.deep_view() == spec_split_nl(v@),
{
    let mut out: Vec<Vec<char>> = Vec::new();
    let n = v.len();
    let mut i: usize = 0;
    proof {
        assert(v@.skip(0) =~= v@);
        assert(out.deep_view() + spec_split_nl(v@) =~= spec_split_nl(v@));
    }
    loop
        invariant
            i <= n == v@.len(),
            spec_split_nl(v@) =~= out.deep_view() + spec_split_nl(v@.skip(i as int)),
        decreases n - i,
    {
        let mut j = i;
        while j < n && v[j] != '\n'
            invariant
                i <= j <= n == v@.len(),
                forall|k: int| i <= k < j ==> v@[k] != '\n',
            decreases n - j,
        {
            j = j + 1;
        }
        let seg = subvec_chars(v, i, j);
        proof {
            let tail = v@.skip(i as int);
            assert(forall|k: int| 0 <= k < j - i ==> tail[k] == v@[k + i] && tail[k] != '\n');
            lemma_nl_pos_char(tail, (j - i) as nat);
            assert(tail.take(j - i) =~= v@.subrange(i as int, j as int));
        }
        let ghost prev = out.deep_view();
        let ghost sv = seg@;
        out.push(seg);
        proof {
            assert(out@[out@.len() - 1].deep_view() =~= sv);
            assert(out.deep_view() =~= prev.push(sv));
        }
        if j == n {
            proof {
                lemma_split_nl_whole(v@.skip(i as int));
                assert(out.deep_view() =~= spec_split_nl(v@));
            }
            return out;
        }
        proof {
            let tail = v@.skip(i as int);
            lemma_split_nl_step(tail);
            assert(tail.skip(j - i + 1) =~= v@.skip(j + 1));
            assert(out.deep_view() + spec_split_nl(v@.skip(j + 1)) =~= prev + (seq![sv]
                + spec_split_nl(v@.skip(j + 1))));
        }
        i = j + 1;
    }
}

/// Append the wrapped chunks of one overlong line.
fn wrap_rest(remaining: &Vec<char>, w: usize, first: bool, out: &mut Vec<String>)
    ensures
        final(out).deep_view() == old(out).deep_view() + spec_wrap_rest(
            remaining@,
            w as nat,
            first,
        ),
    decreases remaining@.len(),
{
    let n = remaining.len();
    if n == 0 {
        proof {
            assert(out.deep_view() =~= old(out).deep_view() + spec_wrap_rest(
                remaining@,
                w as nat,
                first,
            ));
        }
        return ;
    }
    let wrap_at: usize = if n > w {
        if w >= 3 {
            w - 2
        } else {
            1
        }
    } else {
        n
    };
    let break_pos: usize = if wrap_at < n {
        let mut pos = wrap_at;
        while pos > 0 && remaining[pos - 1] != ' '
            invariant
                pos <= wrap_at <= n == remaining@.len(),
                forall|k: int| pos <= k < wrap_at ==> remaining@[k] != ' ',
            decreases pos,
        {
            pos = pos - 1;
        }
        proof {
            let window = remaining@.take(wrap_at as int);
            assert(forall|k: int| pos <= k < wrap_at ==> window[k] == remaining@[k]);
            lemma_last_space_char(window, pos - 1);
        }
        if pos == 0 {
            wrap_at
        } else {
            pos
        }
    } else {
        wrap_at
    };
    proof {
        assert(break_pos == spec_break_pos(remaining@, w as nat));
        lemma_break_pos_bounds(remaining@, w as nat);
    }
    let mut e = break_pos;
    while e > 0 && is_ws_char(remaining[e - 1])
        invariant
            e <= break_pos <= remaining@.len(),
            forall|k: int| e <= k < break_pos ==> spec_is_ws(remaining@[k]),
        decreases e,
    {
        e = e - 1;
    }
    proof {
        let taken = remaining@.take(break_pos as int);
        assert(forall|k: int| 0 <= k < break_pos ==> taken[k] == remaining@[k]);
        lemma_trim_end_char(taken, e as nat);
    }
    let chunk = subvec_chars(remaining, 0, e);
    let chunk_str = chars_to_string(&chunk);
    let mut head: String = if first {
        String::new()
    } else {
        "  ".to_owned()
    };
    head.append(chunk_str.as_str());
    proof {
        assert(head@ =~= (if first {
            spec_trim_end(remaining@.take(break_pos as int))
        } else {
            "  "@ + spec_trim_end(remaining@.take(break_pos as int))
        }));
    }
    let tail = subvec_chars(remaining, break_pos, n);
    let rest = trim_start_chars(&tail);
    proof {
        assert(tail@ =~= remaining@.skip(break_pos as int));
    }
    if rest.len() == 0 {
        let ghost prev = out.deep_view();
        let ghost hv = head@;
        out.push(head);
        proof {
            assert(out@[out@.len() - 1]@ == hv);
            assert(out.deep_view() =~= prev.push(hv));
            assert(out.deep_view() =~= old(out).deep_view() + spec_wrap_rest(
                remaining@,
                w as nat,
                first,
            ));
        }
    } else {
        head.append(" \\");
        let ghost prev = out.deep_view();
        let ghost hv = head@;
        out.push(head);
        proof {
            assert(out@[out@.len() - 1]@ == hv);
            assert(out.deep_view() =~= prev.push(hv));
            lemma_trim_start_le(tail@);
        }
        wrap_rest(&rest, w, false, out);
        proof {
            assert(out.deep_view() =~= old(out).deep_view() + spec_wrap_rest(
                remaining@,
                w as nat,
                first,
            ));
        }
    }
}

/// Wrap the command display string to the given width, breaking at
/// spaces and marking continuations with a trailing backslash.
pub fn wrap_command(cmd: &str, max_width: usize) -> (r: Vec<String>)
    ensures
        r.deep_view() == spec_wrap_command(cmd@, max_width as nat),
{
    let chars = str_chars(cmd);
    let segs = split_nl(&chars);
    let ghost sd = segs.deep_view();
    let mut out: Vec<String> = Vec::new();
    let mut k: usize = 0;
    proof {
        assert(sd.take(0) =~= Seq::<Seq<char>>::empty());
        assert(out.deep_view() =~= spec_wrap_segments(sd.take(0), max_width as nat));
    }
    while k < segs.len()
        invariant
            k <= segs@.len(),
            sd == segs.deep_view(),
            out.deep_view() == spec_wrap_segments(sd.take(k as int), max_width as nat),
        decreases segs@.len() - k,
    {
        proof {
            assert(segs@[k as int].deep_view() == sd[k as int]);
            assert(segs@[k as int].deep_view() =~= segs@[k as int]@);
            assert(sd.take(k + 1) =~= sd.take(k as int) + seq![sd[k as int]]);
            lemma_wrap_segments_append(sd.take(k as int), seq![sd[k as int]], max_width as nat);
            let single = seq![sd[k as int]];
            assert(single.drop_first() =~= Seq::<Seq<char>>::empty());
            assert(spec_wrap_segments(Seq::<Seq<char>>::empty(), max_width as nat)
                =~= Seq::<Seq<char>>::empty());
            assert(spec_wrap_segments(single, max_width as nat) =~= spec_wrap_one(
                sd[k as int],
                max_width as nat,
            ));
        }
        let trimmed = trim_start_chars(&segs[k]);
        if trimmed.len() <= max_width {
            let line = chars_to_string(&trimmed);
            let ghost prev = out.deep_view();
            let ghost lv = line@;
            out.push(line);
            proof {
                assert(out@[out@.len() - 1]@ == lv);
                assert(out.deep_view() =~= prev.push(lv));
                assert(out.deep_view() =~= spec_wrap_segments(sd.take(k + 1), max_width as nat));
            }
        } else {
            wrap_rest(&trimmed, max_width, true, &mut out);
            proof {
                assert(out.deep_view() =~= spec_wrap_segments(sd.take(k + 1), max_width as nat));
            }
        }
        k = k + 1;
    }
    proof {
        assert(sd.take(segs@.len() as int) =~= sd);
    }
    out
}

/// The one-line form of a toggleable option: a bracketed check mark,
/// the key, and the option's name.
pub open spec fn spec_format_option(key: Seq<char>, name: Seq<char>, enabled: bool) -> Seq<char> {
    "["@ + (if enabled {
        "x"@
    } else {
        " "@
    }) + "]"@ + key + " "@ + name
}

/// Render one toggleable option for the options panel.
pub fn format_option(key: &str, name: &str, enabled: bool) -> (r: String)
    ensures
        r@ == spec_format_option(key@, name@, enabled),
{
    let mut r = "[".to_owned();
    if enabled {
        r.append("x");
    } else {
        r.append(" ");
    }
    r.append("]");
    r.append(key);
    r.append(" ");
    r.append(name);
    proof {
        assert(r@ =~= spec_format_option(key@, name@, enabled));
    }
    r
}

} // verus!
