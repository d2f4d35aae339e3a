//! Building the argument list for one sync invocation: program name,
//! flag tokens in a fixed canonical order, `--exclude` pairs in insertion
//! order, then the two positional arguments, source and destination.

use vstd::prelude::*;
use crate::options::{OptionsView, RsyncOptions};
use crate::text::{join_with_spaces, spec_join_space};

verus! {

/// One token when the flag is enabled, nothing when it is not.
pub open spec fn spec_maybe_flag(enabled: bool, token: Seq<char>) -> Seq<Seq<char>> {
    if enabled {
        seq![token]
    } else {
        Seq::empty()
    }
}

/// The canonical flag order, as pairs of the controlling flag and the
/// token it contributes. The remote-shell option contributes two tokens:
/// the shell-selection flag and the shell name.
pub open spec fn spec_flag_list(o: OptionsView) -> Seq<(bool, Seq<char>)> {
    seq![
        (o.archive, "-a"@),
        (o.verbose, "-v"@),
        (o.compress, "-z"@),
        (o.dry_run, "-n"@),
        (o.progress, "--progress"@),
        (o.delete, "--delete"@),
        (o.human_readable, "-h"@),
        (o.use_ssh, "-e"@),
        (o.use_ssh, "ssh"@),
        (o.delete_source, "--remove-source-files"@),
        (o.delete_excluded, "--delete-excluded"@),
        (o.progress_per_file, "--info=progress2"@),
    ]
}

/// The tokens of the enabled entries, in order.
pub open spec fn spec_enabled_tokens(l: Seq<(bool, Seq<char>)>) -> Seq<Seq<char>>
    decreases l.len(),
{
    if l.len() == 0 {
        Seq::empty()
    } else {
        spec_maybe_flag(l[0].0, l[0].1) + spec_enabled_tokens(l.drop_first())
    }
}

/// The flag tokens of the enabled options, in the fixed canonical order.
pub open spec fn spec_flag_args(o: OptionsView) -> Seq<Seq<char>> {
    spec_enabled_tokens(spec_flag_list(o))
}

proof fn lemma_enabled_tokens_append(l: Seq<(bool, Seq<char>)>, q: Seq<(bool, Seq<char>)>)
    ensures
        spec_enabled_tokens(l + q) == spec_enabled_tokens(l) + spec_enabled_tokens(q),
    decreases l.len(),
{
    if l.len() == 0 {
        assert(l + q =~= q);
        assert(spec_enabled_tokens(l) + spec_enabled_tokens(q) =~= spec_enabled_tokens(q));
    } else {
        assert((l + q).drop_first() =~= l.drop_first() + q);
        lemma_enabled_tokens_append(l.drop_first(), q);
        assert(spec_enabled_tokens(l + q) =~= spec_enabled_tokens(l) + spec_enabled_tokens(q));
    }
}

/// One `--exclude <pattern>` pair per pattern, in the original order.
pub open spec fn spec_exclude_args(ps: Seq<Seq<char>>) -> Seq<Seq<char>>
    decreases ps.len(),
{
    if ps.len() == 0 {
        Seq::empty()
    } else {
        seq!["--exclude"@, ps[0]] + spec_exclude_args(ps.drop_first())
    }
}

/// The full argument list of one invocation: program name first, then the
/// enabled flags in canonical order, then the exclusion pairs, then the
/// source and the destination, always the last two tokens.
pub open spec fn spec_command(src: Seq<char>, dst: Seq<char>, o: OptionsView) -> Seq<Seq<char>> {
    seq!["rsync"@] + spec_flag_args(o) + spec_exclude_args(o.exclude) + seq![src, dst]
}

proof fn lemma_exclude_args_append(ps: Seq<Seq<char>>, q: Seq<Seq<char>>)
    ensures
        spec_exclude_args(ps + q) == spec_exclude_args(ps) + spec_exclude_args(q),
    decreases ps.len(),
{
    if ps.len() == 0 {
        assert(ps + q =~= q);
        assert(spec_exclude_args(ps) + spec_exclude_args(q) =~= spec_exclude_args(q));
    } else {
        assert((ps + q).drop_first() =~= ps.drop_first() + q);
        lemma_exclude_args_append(ps.drop_first(), q);
        assert(spec_exclude_args(ps + q) =~= spec_exclude_args(ps) + spec_exclude_args(q));
    }
}

/// Append one flag token when it is enabled.
fn push_flag(args: &mut Vec<String>, enabled: bool, token: &str)
    ensures
        final(args).deep_view() == old(args).deep_view() + spec_maybe_flag(enabled, token@),
{
    if enabled {
        args.push(token.to_owned());
    }
    proof {
        assert(args.deep_view() =~= old(args).deep_view() + spec_maybe_flag(enabled, token@));
    }
}

/// The entry of the canonical flag order at position `i`.
fn flag_entry(options: &RsyncOptions, i: usize) -> (r: (bool, &'static str))
    requires
        i < spec_flag_list(options@).len(),
    ensures
        r.0 == spec_flag_list(options@)[i as int].0,
        r.1@ == spec_flag_list(options@)[i as int].1,
{
    match i {
        0 => (options.archive, "-a"),
        1 => (options.verbose, "-v"),
        2 => (options.compress, "-z"),
        3 => (options.dry_run, "-n"),
        4 => (options.progress, "--progress"),
        5 => (options.delete, "--delete"),
        6 => (options.human_readable, "-h"),
        7 => (options.use_ssh, "-e"),
        8 => (options.use_ssh, "ssh"),
        9 => (options.delete_source, "--remove-source-files"),
        10 => (options.delete_excluded, "--delete-excluded"),
        _ => (options.progress_per_file, "--info=progress2"),
    }
}

/// Append the flag tokens of the enabled options, in canonical order.
fn push_all_flags(args: &mut Vec<String>, options: &RsyncOptions)
    ensures
        final(args).deep_view() == old(args).deep_view() + spec_flag_args(options@),
{
    let ghost o = options@;
    let ghost base = old(args).deep_view();
    let mut i: usize = 0;
    while i < 12
        invariant
            i <= 12,
            o == options@,
            spec_flag_list(o).len() == 12,
            args.deep_view() =~= base + spec_enabled_tokens(spec_flag_list(o).take(i as int)),
        decreases 12 - i,
    {
        let (enabled, token) = flag_entry(options, i);
        push_flag(args, enabled, token);
        proof {
            let l = spec_flag_list(o);
            assert(l.take(i + 1) =~= l.take(i as int) + seq![l[i as int]]);
            lemma_enabled_tokens_append(l.take(i as int), seq![l[i as int]]);
            let single = seq![l[i as int]];
            assert(single.drop_first() =~= Seq::<(bool, Seq<char>)>::empty());
            assert(spec_enabled_tokens(Seq::<(bool, Seq<char>)>::empty())
                =~= Seq::<Seq<char>>::empty());
            assert(spec_enabled_tokens(single) =~= spec_maybe_flag(l[i as int].0, l[i as int].1));
        }
        i = i + 1;
    }
    proof {
        assert(spec_flag_list(o).take(12) =~= spec_flag_list(o));
    }
}

/// Append one `--exclude <pattern>` pair per pattern, in order.
fn push_excludes(args: &mut Vec<String>, options: &RsyncOptions)
    ensures
        final(args).deep_view() == old(args).deep_view() + spec_exclude_args(options@.exclude),
{
    let ghost o = options@;
    let ghost flags_done = old(args).deep_view();
    let mut i: usize = 0;
    while i < options.exclude.len()
        invariant
            i <= options.exclude.len(),
            o == options@,
            args.deep_view() =~= flags_done + spec_exclude_args(o.exclude.take(i as int)),
        decreases options.exclude.len() - i,
    {
        let ghost prev = args.deep_view();
        args.push("--exclude".to_owned());
        let x = options.exclude[i].clone();
        args.push(x);
        proof {
            assert(args@.len() == prev.len() + 2);
            assert(args.deep_view() =~= prev + seq!["--exclude"@, o.exclude[i as int]]);
            assert(o.exclude.take(i + 1) =~= o.exclude.take(i as int) + seq![o.exclude[i as int]]);
            lemma_exclude_args_append(o.exclude.take(i as int), seq![o.exclude[i as int]]);
            let single = seq![o.exclude[i as int]];
            assert(single.drop_first() =~= Seq::<Seq<char>>::empty());
            assert(spec_exclude_args(Seq::<Seq<char>>::empty()) =~= Seq::<Seq<char>>::empty());
            assert(spec_exclude_args(single) =~= seq!["--exclude"@, o.exclude[i as int]]);
        }
        i = i + 1;
    }
    proof {
        assert(o.exclude.take(options.exclude.len() as int) =~= o.exclude);
    }
}

/// Build the ordered argument list for the given paths and option set.
pub fn build_command(source: &str, destination: &str, options: &RsyncOptions) -> (r: Vec<String>)
    ensures
        r.deep_view() == spec_command(source@, destination@, options@),
{
    let ghost o = options@;
    let mut args: Vec<String> = Vec::new();
    args.push("rsync".to_owned());
    assert(args.deep_view() =~= seq!["rsync"@]);
    push_all_flags(&mut args, options);
    push_excludes(&mut args, options);
    let ghost body = args.deep_view();
    args.push(source.to_owned());
    args.push(destination.to_owned());
    proof {
        assert(args.deep_view() =~= body + seq![source@, destination@]);
        assert(args.deep_view() =~= spec_command(source@, destination@, o));
    }
    args
}

/// Render the argument list of one invocation as a space-joined string.
pub fn format_command(source: &str, destination: &str, options: &RsyncOptions) -> (r: String)
    ensures
        r@ == spec_join_space(spec_command(source@, destination@, options@)),
{
    let args = build_command(source, destination, options);
    join_with_spaces(&args)
}

/// The argument list always ends with exactly the two positional
/// arguments, source then destination, whatever the option combination,
/// and the program name always comes first.
pub proof fn lemma_command_ends_with_positionals(src: Seq<char>, dst: Seq<char>, o: OptionsView)
    ensures
        spec_command(src, dst, o).len() >= 3,
        spec_command(src, dst, o)[spec_command(src, dst, o).len() - 2] == src,
        spec_command(src, dst, o)[spec_command(src, dst, o).len() - 1] == dst,
        spec_command(src, dst, o)[0] == "rsync"@,
{
}

/// With every flag disabled and no exclusion patterns, the argument
/// list is exactly the program name, the source and the destination.
pub proof fn lemma_command_all_disabled(src: Seq<char>, dst: Seq<char>, o: OptionsView)
    requires
        !o.archive,
        !o.verbose,
        !o.compress,
        !o.dry_run,
        !o.progress,
        !o.delete,
        !o.human_readable,
        !o.use_ssh,
        !o.delete_source,
        !o.delete_excluded,
        !o.progress_per_file,
        o.exclude.len() == 0,
    ensures
        spec_command(src, dst, o) == seq!["rsync"@, src, dst],
{
    reveal_with_fuel(spec_enabled_tokens, 14);
    assert(spec_flag_args(o) =~= Seq::<Seq<char>>::empty());
    assert(o.exclude =~= Seq::<Seq<char>>::empty());
    assert(spec_exclude_args(o.exclude) =~= Seq::<Seq<char>>::empty());
    assert(spec_command(src, dst, o) =~= seq!["rsync"@, src, dst]);
}

/// The builder is deterministic: equal inputs give the one same argument
/// list, so repeated calls of `build_command` on the same values yield
/// byte-identical output.
pub proof fn lemma_command_deterministic(
    src1: Seq<char>,
    dst1: Seq<char>,
    o1: OptionsView,
    src2: Seq<char>,
    dst2: Seq<char>,
    o2: OptionsView,
)
    requires
        src1 == src2,
        dst1 == dst2,
        o1 == o2,
    ensures
        spec_command(src1, dst1, o1) == spec_command(src2, dst2, o2),
{
}

} // verus!
