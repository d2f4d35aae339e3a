//! Completing a partial filesystem path against a directory listing:
//! splitting the input into a parent directory and a filename prefix,
//! collecting the entries that match the prefix, and extending the input
//! by the longest common prefix of the matches.

use vstd::prelude::*;
use crate::text::{chars_to_string, str_chars, subvec_chars};

verus! {

/// Whether `p` is a prefix of `s`.
pub open spec fn spec_is_prefix(p: Seq<char>, s: Seq<char>) -> bool {
    p.len() <= s.len() && p == s.take(p.len() as int)
}

/// Whether `p` is a prefix of every string of `ss`.
pub open spec fn spec_common_prefix_of_all(p: Seq<char>, ss: Seq<Seq<char>>) -> bool {
    forall|i: int| 0 <= i < ss.len() ==> spec_is_prefix(p, ss[i])
}

/// Length of the longest common prefix of two strings.
pub open spec fn spec_lcp_len(a: Seq<char>, b: Seq<char>) -> nat
    decreases a.len(),
{
    if a.len() == 0 || b.len() == 0 || a[0] != b[0] {
        0
    } else {
        1 + spec_lcp_len(a.drop_first(), b.drop_first())
    }
}

/// The longest common prefix of all the strings, folded from the left;
/// a single string is its own common prefix, and no strings share the
/// empty one.
pub open spec fn spec_lcp_all(ss: Seq<Seq<char>>) -> Seq<char>
    decreases ss.len(),
{
    if ss.len() == 0 {
        Seq::empty()
    } else if ss.len() == 1 {
        ss[0]
    } else {
        let init = spec_lcp_all(ss.drop_last());
        init.take(spec_lcp_len(init, ss.last()) as int)
    }
}

proof fn lemma_lcp_len_props(a: Seq<char>, b: Seq<char>)
    ensures
        spec_lcp_len(a, b) <= a.len(),
        spec_lcp_len(a, b) <= b.len(),
        a.take(spec_lcp_len(a, b) as int) == b.take(spec_lcp_len(a, b) as int),
    decreases a.len(),
{
    let l = spec_lcp_len(a, b) as int;
    if a.len() == 0 || b.len() == 0 || a[0] != b[0] {
        assert(a.take(0) =~= b.take(0));
    } else {
        lemma_lcp_len_props(a.drop_first(), b.drop_first());
        let m = spec_lcp_len(a.drop_first(), b.drop_first()) as int;
        assert(l == m + 1);
        assert forall|j: int| 0 <= j < l implies a[j] == b[j] by {
            if j > 0 {
                assert(a.drop_first().take(m)[j - 1] == b.drop_first().take(m)[j - 1]);
            }
        }
        assert(a.take(l) =~= b.take(l));
    }
}

proof fn lemma_lcp_len_max(a: Seq<char>, b: Seq<char>, p: Seq<char>)
    requires
        spec_is_prefix(p, a),
        spec_is_prefix(p, b),
    ensures
        p.len() <= spec_lcp_len(a, b),
    decreases p.len(),
{
    if p.len() > 0 {
        assert(p[0] == a[0] && p[0] == b[0]);
        assert(spec_is_prefix(p.drop_first(), a.drop_first())) by {
            assert(p.drop_first() =~= a.drop_first().take(p.len() - 1));
        }
        assert(spec_is_prefix(p.drop_first(), b.drop_first())) by {
            assert(p.drop_first() =~= b.drop_first().take(p.len() - 1));
        }
        lemma_lcp_len_max(a.drop_first(), b.drop_first(), p.drop_first());
    }
}

proof fn lemma_prefix_trans(p: Seq<char>, q: Seq<char>, s: Seq<char>)
    requires
        spec_is_prefix(p, q),
        spec_is_prefix(q, s),
    ensures
        spec_is_prefix(p, s),
{
    assert(p =~= s.take(p.len() as int)) by {
        assert(forall|i: int| 0 <= i < p.len() ==> p[i] == q[i] && q[i] == s[i]);
    }
}

/// The longest common prefix is exactly the common prefix that every
/// other common prefix is a prefix of. This pins it down by the set of
/// common prefixes alone, so it does not depend on the order in which
/// the strings are listed.
pub proof fn lemma_lcp_all_characterization(ss: Seq<Seq<char>>)
    requires
        ss.len() > 0,
    ensures
        spec_common_prefix_of_all(spec_lcp_all(ss), ss),
        forall|p: Seq<char>|
            spec_common_prefix_of_all(p, ss) ==> spec_is_prefix(p, spec_lcp_all(ss)),
    decreases ss.len(),
{
    let r = spec_lcp_all(ss);
    if ss.len() == 1 {
        assert(spec_is_prefix(r, ss[0])) by {
            assert(r =~= ss[0].take(r.len() as int));
        }
        assert forall|p: Seq<char>| spec_common_prefix_of_all(p, ss) implies spec_is_prefix(
            p,
            r,
        ) by {
            assert(spec_is_prefix(p, ss[0]));
        }
    } else {
        let front = ss.drop_last();
        let init = spec_lcp_all(front);
        lemma_lcp_all_characterization(front);
        lemma_lcp_len_props(init, ss.last());
        let l = spec_lcp_len(init, ss.last()) as int;
        assert(spec_is_prefix(r, init)) by {
            assert(r =~= init.take(r.len() as int));
        }
        assert(spec_is_prefix(r, ss.last())) by {
            assert(r == ss.last().take(l));
        }
        assert forall|i: int| 0 <= i < ss.len() implies spec_is_prefix(r, ss[i]) by {
            if i < ss.len() - 1 {
                assert(spec_is_prefix(init, front[i]));
                lemma_prefix_trans(r, init, ss[i]);
            }
        }
        assert forall|p: Seq<char>| spec_common_prefix_of_all(p, ss) implies spec_is_prefix(
            p,
            r,
        ) by {
            assert(spec_common_prefix_of_all(p, front)) by {
                assert(forall|i: int| 0 <= i < front.len() ==> front[i] == ss[i]);
            }
            assert(spec_is_prefix(p, init));
            assert(spec_is_prefix(p, ss.last()));
            lemma_lcp_len_max(init, ss.last(), p);
            assert(p =~= r.take(p.len() as int)) by {
                assert(forall|j: int| 0 <= j < p.len() ==> p[j] == init[j] && init[j] == r[j]);
            }
        }
    }
}

/// Length of the longest common prefix of `a` and `b`, scanned from the
/// front.
fn lcp_len_of(a: &Vec<char>, b: &Vec<char>) -> (r: usize)
    ensures
        r == spec_lcp_len(a@, b@),
{
    let mut k: usize = 0;
    while k < a.len() && k < b.len() && a[k] == b[k]
        invariant
            k <= a@.len(),
            k <= b@.len(),
            forall|j: int| 0 <= j < k ==> a@[j] == b@[j],
        decreases a@.len() - k,
    {
        k = k + 1;
    }
    proof {
        lemma_lcp_len_char(a@, b@, k as nat);
    }
    k
}

proof fn lemma_lcp_len_char(a: Seq<char>, b: Seq<char>, m: nat)
    requires
        m <= a.len(),
        m <= b.len(),
        forall|k: int| 0 <= k < m ==> a[k] == b[k],
        m < a.len() && m < b.len() ==> a[m as int] != b[m as int],
    ensures
        spec_lcp_len(a, b) == m,
    decreases a.len(),
{
    if m == 0 {
    } else {
        lemma_lcp_len_char(a.drop_first(), b.drop_first(), (m - 1) as nat);
    }
}

/// The longest common prefix of the given strings; the empty string when
/// none are given, the string itself when only one is.
pub fn find_common_prefix(strings: &Vec<String>) -> (r: String)
    ensures
        r@ == spec_lcp_all(strings.deep_view()),
{
    let ghost dv = strings.deep_view();
    if strings.len() == 0 {
        return String::new();
    }
    if strings.len() == 1 {
        return strings[0].clone();
    }
    let first = str_chars(strings[0].as_str());
    let mut cur: usize = first.len();
    proof {
        assert(dv.take(1) =~= seq![dv[0]]);
        assert(spec_lcp_all(dv.take(1)) == dv[0]);
        assert(dv[0].take(cur as int) =~= dv[0]);
    }
    let mut i: usize = 1;
    while i < strings.len()
        invariant
            1 <= i <= strings@.len(),
            dv == strings.deep_view(),
            first@ == dv[0],
            cur <= first@.len(),
            spec_lcp_all(dv.take(i as int)) == dv[0].take(cur as int),
        decreases strings@.len() - i,
    {
        let other = str_chars(strings[i].as_str());
        let head = subvec_chars(&first, 0, cur);
        let k = lcp_len_of(&head, &other);
        proof {
            let prev = dv.take(i as int);
            let next = dv.take(i + 1);
            assert(next.drop_last() =~= prev);
            assert(next.last() == dv[i as int]);
            assert(other@ == dv[i as int]);
            assert(head@ == dv[0].take(cur as int));
            lemma_lcp_len_props(head@, other@);
            assert(dv[0].take(cur as int).take(k as int) =~= dv[0].take(k as int));
        }
        cur = k;
        i = i + 1;
    }
    proof {
        assert(dv.take(strings@.len() as int) =~= dv);
    }
    let head = subvec_chars(&first, 0, cur);
    chars_to_string(&head)
}

/// One entry of a directory listing: its name and whether it is itself a
/// directory.
pub struct DirEntry {
    pub name: String,
    pub is_dir: bool,
}

/// Mathematical view of a directory entry.
#[verifier::ext_equal]
pub ghost struct DirEntryView {
    pub name: Seq<char>,
    pub is_dir: bool,
}

impl View for DirEntry {
    type V = DirEntryView;

    open spec fn view(&self) -> DirEntryView {
        DirEntryView { name: self.name@, is_dir: self.is_dir }
    }
}

impl DeepView for DirEntry {
    type V = DirEntryView;

    open spec fn deep_view(&self) -> DirEntryView {
        self.view()
    }
}

/// A parent directory joined with an entry name: a separator is put
/// between them unless the parent is empty or already ends in one.
pub open spec fn spec_join_path(parent: Seq<char>, name: Seq<char>) -> Seq<char> {
    if parent.len() == 0 {
        name
    } else if parent.last() == '/' {
        parent + name
    } else {
        parent + seq!['/'] + name
    }
}

/// Index of the last separator of `s`, or minus one when it has none.
pub open spec fn spec_last_slash(s: Seq<char>) -> int
    decreases s.len(),
{
    if s.len() == 0 {
        -1
    } else if s.last() == '/' {
        s.len() - 1
    } else {
        spec_last_slash(s.drop_last())
    }
}

/// The partial path with its trailing separators removed; splitting
/// ignores them, as the platform's path components do.
pub open spec fn spec_split_base(s: Seq<char>) -> Seq<char>
    decreases s.len(),
{
    if s.len() > 0 && s.last() == '/' {
        spec_split_base(s.drop_last())
    } else {
        s
    }
}

/// The parent-directory part of a partial path: what stands before the
/// last separator inside it (trailing separators aside), the lone
/// separator itself for a top-level path, and the current directory for
/// a bare relative prefix.
pub open spec fn spec_parent_of(partial: Seq<char>) -> Seq<char> {
    let base = spec_split_base(partial);
    let ls = spec_last_slash(base);
    if ls == -1 {
        "."@
    } else if ls == 0 {
        "/"@
    } else {
        base.take(ls)
    }
}

/// The filename-prefix part of a partial path: the component after the
/// last inner separator, trailing separators ignored.
pub open spec fn spec_prefix_of(partial: Seq<char>) -> Seq<char> {
    let base = spec_split_base(partial);
    base.skip(spec_last_slash(base) + 1)
}

proof fn lemma_split_base_char(s: Seq<char>, e: nat)
    requires
        e <= s.len(),
        forall|j: int| e <= j < s.len() ==> s[j] == '/',
        e > 0 ==> s[e - 1] != '/',
    ensures
        spec_split_base(s) == s.take(e as int),
    decreases s.len(),
{
    if e == s.len() {
        if s.len() > 0 {
            assert(s.last() != '/');
        }
        assert(s.take(e as int) =~= s);
    } else {
        assert(s.last() == '/');
        lemma_split_base_char(s.drop_last(), e);
        assert(s.drop_last().take(e as int) =~= s.take(e as int));
    }
}

proof fn lemma_last_slash_char(s: Seq<char>, ls: int)
    requires
        -1 <= ls < s.len(),
        ls >= 0 ==> s[ls] == '/',
        forall|k: int| ls < k < s.len() ==> s[k] != '/',
    ensures
        spec_last_slash(s) == ls,
    decreases s.len(),
{
    if s.len() == 0 {
    } else if s.last() == '/' {
        assert(ls == s.len() - 1);
    } else {
        assert(ls < s.len() - 1);
        lemma_last_slash_char(s.drop_last(), ls);
    }
}

/// What the completer can settle without a directory listing: an empty
/// input, and an input that already names an existing directory.
pub open spec fn spec_plan_settled(partial: Seq<char>, partial_is_dir: bool) -> bool {
    partial.len() == 0 || partial_is_dir
}

/// The settled outcome: nothing for an empty input or a directory form
/// already ending in a separator, and the directory form otherwise.
pub open spec fn spec_settled_result(partial: Seq<char>, partial_is_dir: bool) -> Option<
    Seq<char>,
> {
    if partial.len() == 0 {
        None
    } else if partial.last() == '/' {
        None
    } else {
        Some(partial + seq!['/'])
    }
}

/// The first step of completing a partial path: either an outcome that
/// needs no directory listing, or the parent directory to list and the
/// filename prefix to match.
pub enum CompletionPlan {
    Settled(Option<String>),
    NeedListing { parent: String, prefix: String },
}

/// Decide how to complete `partial`, given whether it names an existing
/// directory. An empty input and a directory already ending in a
/// separator need nothing; a directory without one is completed to its
/// directory form; anything else asks for its parent's listing.
pub fn plan_completion(partial: &str, partial_is_dir: bool) -> (r: CompletionPlan)
    ensures
        ({
            match r {
                CompletionPlan::Settled(o) => spec_plan_settled(partial@, partial_is_dir)
                    && o.deep_view() == spec_settled_result(partial@, partial_is_dir),
                CompletionPlan::NeedListing { parent, prefix } => !spec_plan_settled(
                    partial@,
                    partial_is_dir,
                ) && parent@ == spec_parent_of(partial@) && prefix@ == spec_prefix_of(partial@),
            }
        }),
{
    proof {
        reveal_strlit("/");
    }
    let chars = str_chars(partial);
    let n = chars.len();
    if n == 0 {
        return CompletionPlan::Settled(None);
    }
    if partial_is_dir {
        if chars[n - 1] == '/' {
            return CompletionPlan::Settled(None);
        }
        let mut done = partial.to_owned();
        done.append("/");
        proof {
            assert(done@ == partial@ + seq!['/']);
        }
        return CompletionPlan::Settled(Some(done));
    }
    let mut e: usize = n;
    while e > 0 && chars[e - 1] == '/'
        invariant
            e <= n == chars@.len(),
            chars@ == partial@,
            forall|k: int| e <= k < n ==> chars@[k] == '/',
        decreases e,
    {
        e = e - 1;
    }
    proof {
        lemma_split_base_char(partial@, e as nat);
    }
    let ghost base = spec_split_base(partial@);
    let mut pos: usize = e;
    while pos > 0 && chars[pos - 1] != '/'
        invariant
            pos <= e <= n == chars@.len(),
            chars@ == partial@,
            e > 0 ==> chars@[e - 1] != '/',
            forall|k: int| pos <= k < e ==> chars@[k] != '/',
        decreases pos,
    {
        pos = pos - 1;
    }
    proof {
        assert(forall|k: int| 0 <= k < e ==> base[k] == partial@[k]);
        lemma_last_slash_char(base, pos - 1);
    }
    let prefix_chars = subvec_chars(&chars, pos, e);
    let prefix = chars_to_string(&prefix_chars);
    proof {
        assert(prefix@ =~= spec_prefix_of(partial@));
    }
    if pos == 0 {
        let parent = ".".to_owned();
        return CompletionPlan::NeedListing { parent, prefix };
    }
    if pos == 1 {
        let parent = "/".to_owned();
        return CompletionPlan::NeedListing { parent, prefix };
    }
    let parent_chars = subvec_chars(&chars, 0, pos - 1);
    let parent = chars_to_string(&parent_chars);
    proof {
        assert(parent@ =~= spec_parent_of(partial@));
    }
    CompletionPlan::NeedListing { parent, prefix }
}

/// The joined paths of the listing entries whose names start with the
/// prefix, in listing order.
pub open spec fn spec_match_paths(
    parent: Seq<char>,
    prefix: Seq<char>,
    entries: Seq<DirEntryView>,
) -> Seq<Seq<char>>
    decreases entries.len(),
{
    if entries.len() == 0 {
        Seq::empty()
    } else {
        (if spec_is_prefix(prefix, entries[0].name) {
            seq![spec_join_path(parent, entries[0].name)]
        } else {
            Seq::empty()
        }) + spec_match_paths(parent, prefix, entries.drop_first())
    }
}

/// Whether each matching entry is a directory, in listing order.
pub open spec fn spec_match_dirs(prefix: Seq<char>, entries: Seq<DirEntryView>) -> Seq<bool>
    decreases entries.len(),
{
    if entries.len() == 0 {
        Seq::empty()
    } else {
        (if spec_is_prefix(prefix, entries[0].name) {
            seq![entries[0].is_dir]
        } else {
            Seq::empty()
        }) + spec_match_dirs(prefix, entries.drop_first())
    }
}

proof fn lemma_match_paths_append(
    parent: Seq<char>,
    prefix: Seq<char>,
    es: Seq<DirEntryView>,
    qs: Seq<DirEntryView>,
)
    ensures
        spec_match_paths(parent, prefix, es + qs) == spec_match_paths(parent, prefix, es)
            + spec_match_paths(parent, prefix, qs),
    decreases es.len(),
{
    if es.len() == 0 {
        assert(es + qs =~= qs);
        assert(spec_match_paths(parent, prefix, es) + spec_match_paths(parent, prefix, qs)
            =~= spec_match_paths(parent, prefix, qs));
    } else {
        assert((es + qs).drop_first() =~= es.drop_first() + qs);
        lemma_match_paths_append(parent, prefix, es.drop_first(), qs);
        assert(spec_match_paths(parent, prefix, es + qs) =~= spec_match_paths(parent, prefix, es)
            + spec_match_paths(parent, prefix, qs));
    }
}

proof fn lemma_match_dirs_append(prefix: Seq<char>, es: Seq<DirEntryView>, qs: Seq<DirEntryView>)
    ensures
        spec_match_dirs(prefix, es + qs) == spec_match_dirs(prefix, es) + spec_match_dirs(
            prefix,
            qs,
        ),
    decreases es.len(),
{
    if es.len() == 0 {
        assert(es + qs =~= qs);
        assert(spec_match_dirs(prefix, es) + spec_match_dirs(prefix, qs) =~= spec_match_dirs(
            prefix,
            qs,
        ));
    } else {
        assert((es + qs).drop_first() =~= es.drop_first() + qs);
        lemma_match_dirs_append(prefix, es.drop_first(), qs);
        assert(spec_match_dirs(prefix, es + qs) =~= spec_match_dirs(prefix, es)
            + spec_match_dirs(prefix, qs));
    }
}

proof fn lemma_match_lens(parent: Seq<char>, prefix: Seq<char>, es: Seq<DirEntryView>)
    ensures
        spec_match_paths(parent, prefix, es).len() == spec_match_dirs(prefix, es).len(),
    decreases es.len(),
{
    if es.len() > 0 {
        lemma_match_lens(parent, prefix, es.drop_first());
    }
}

/// Whether `name` starts with `prefix`, character by character.
fn str_starts_with(name: &str, prefix: &str) -> (r: bool)
    ensures
        r == spec_is_prefix(prefix@, name@),
{
    let np = prefix.unicode_len();
    let nn = name.unicode_len();
    if np > nn {
        return false;
    }
    let mut k: usize = 0;
    while k < np
        invariant
            np == prefix@.len() <= nn == name@.len(),
            k <= np,
            forall|j: int| 0 <= j < k ==> prefix@[j] == name@[j],
        decreases np - k,
    {
        if name.get_char(k) != prefix.get_char(k) {
            proof {
                assert(name@.take(np as int)[k as int] == name@[k as int]);
            }
            return false;
        }
        k = k + 1;
    }
    proof {
        assert(prefix@ =~= name@.take(np as int));
    }
    true
}

/// Join a parent directory and an entry name with a separator, unless
/// the parent is empty or already ends in one.
fn join_path(parent: &str, name: &str) -> (r: String)
    ensures
        r@ == spec_join_path(parent@, name@),
{
    proof {
        reveal_strlit("/");
    }
    let pn = parent.unicode_len();
    if pn == 0 {
        return name.to_owned();
    }
    let mut r = parent.to_owned();
    if parent.get_char(pn - 1) != '/' {
        r.append("/");
    }
    r.append(name);
    r
}

/// What resolving against a listing yields: nothing when the listing
/// failed or nothing matches; the single match, in directory form when
/// it is a directory; and for several matches their longest common
/// prefix, only when it extends the typed input.
pub open spec fn spec_resolve(
    partial: Seq<char>,
    parent: Seq<char>,
    prefix: Seq<char>,
    listing: Option<Seq<DirEntryView>>,
) -> Option<Seq<char>> {
    match listing {
        None => None,
        Some(entries) => {
            let paths = spec_match_paths(parent, prefix, entries);
            let dirs = spec_match_dirs(prefix, entries);
            if paths.len() == 0 {
                None
            } else if paths.len() == 1 {
                if dirs[0] {
                    Some(paths[0] + seq!['/'])
                } else {
                    Some(paths[0])
                }
            } else {
                let common = spec_lcp_all(paths);
                if common.len() > partial.len() {
                    Some(common)
                } else {
                    None
                }
            }
        },
    }
}

/// Resolve a completion request against the parent directory's listing,
/// or against none when the directory could not be read.
pub fn resolve_completion(
    partial: &str,
    parent: &str,
    prefix: &str,
    listing: Option<&Vec<DirEntry>>,
) -> (r: Option<String>)
    ensures
        ({
            let sl = match listing {
                None => None,
                Some(es) => Some(es.deep_view()),
            };
            let sp = spec_resolve(partial@, parent@, prefix@, sl);
            match r {
                None => sp is None,
                Some(s) => sp == Some(s@),
            }
        }),
{
    proof {
        reveal_strlit("/");
    }
    let entries = match listing {
        None => {
            return None;
        },
        Some(es) => es,
    };
    let ghost ev = entries.deep_view();
    let mut paths: Vec<String> = Vec::new();
    let mut dirs: Vec<bool> = Vec::new();
    let mut i: usize = 0;
    proof {
        assert(ev.take(0) =~= Seq::<DirEntryView>::empty());
        assert(paths.deep_view() =~= spec_match_paths(parent@, prefix@, ev.take(0)));
        assert(dirs@ =~= spec_match_dirs(prefix@, ev.take(0)));
    }
    while i < entries.len()
        invariant
            i <= entries@.len(),
            ev == entries.deep_view(),
            paths.deep_view() == spec_match_paths(parent@, prefix@, ev.take(i as int)),
            dirs@ == spec_match_dirs(prefix@, ev.take(i as int)),
        decreases entries@.len() - i,
    {
        proof {
            assert(entries@[i as int].deep_view() == ev[i as int]);
            assert(ev.take(i + 1) =~= ev.take(i as int) + seq![ev[i as int]]);
            lemma_match_paths_append(parent@, prefix@, ev.take(i as int), seq![ev[i as int]]);
            lemma_match_dirs_append(prefix@, ev.take(i as int), seq![ev[i as int]]);
            let single = seq![ev[i as int]];
            assert(single.drop_first() =~= Seq::<DirEntryView>::empty());
            assert(spec_match_paths(parent@, prefix@, Seq::<DirEntryView>::empty())
                =~= Seq::<Seq<char>>::empty());
            assert(spec_match_dirs(prefix@, Seq::<DirEntryView>::empty()) =~= Seq::<bool>::empty());
        }
        if str_starts_with(entries[i].name.as_str(), prefix) {
            let p = join_path(parent, entries[i].name.as_str());
            let ghost prev = paths.deep_view();
            let ghost pv = p@;
            paths.push(p);
            dirs.push(entries[i].is_dir);
            proof {
                assert(paths@[paths@.len() - 1].deep_view() =~= pv);
                assert(paths.deep_view() =~= prev.push(pv));
                assert(paths.deep_view() =~= spec_match_paths(parent@, prefix@, ev.take(i + 1)));
                assert(dirs@ =~= spec_match_dirs(prefix@, ev.take(i + 1)));
            }
        } else {
            proof {
                assert(paths.deep_view() =~= spec_match_paths(parent@, prefix@, ev.take(i + 1)));
                assert(dirs@ =~= spec_match_dirs(prefix@, ev.take(i + 1)));
            }
        }
        i = i + 1;
    }
    proof {
        assert(ev.take(entries@.len() as int) =~= ev);
    }
    if paths.len() == 0 {
        return None;
    }
    if paths.len() == 1 {
        let mut s = paths[0].clone();
        proof {
            lemma_match_lens(parent@, prefix@, ev);
            assert(dirs@.len() == 1);
            assert(s@ == paths.deep_view()[0]);
        }
        if dirs[0] {
            s.append("/");
        }
        return Some(s);
    }
    let common = find_common_prefix(&paths);
    let cl = common.as_str().unicode_len();
    let pl = partial.unicode_len();
    if cl > pl {
        Some(common)
    } else {
        None
    }
}

} // verus!
