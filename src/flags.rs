//! The flags of the listing command.

use vstd::prelude::*;
use crate::text::views;

verus! {

/// An argument that starts with `-` holds flag letters; any other names a path.
pub open spec fn is_flag_arg(a: Seq<char>) -> bool {
    a.len() > 0 && a[0] == '-'
}

/// The letters the listing command knows: `a` (show hidden entries), `l` (long
/// format) and `F` (classify).
pub open spec fn known_flag(c: char) -> bool {
    c == 'a' || c == 'l' || c == 'F'
}

/// Whether some flag argument among `args` carries the letter `c`.
pub open spec fn has_flag(args: Seq<String>, c: char) -> bool {
    exists|i: int, j: int|
        0 <= i < args.len() && is_flag_arg(args[i]@) && 1 <= j < args[i]@.len() && args[i]@[j]
            == c
}

/// Whether some flag argument among `args` carries a letter that is not known.
pub open spec fn has_unknown_flag(args: Seq<String>) -> bool {
    exists|i: int, j: int|
        0 <= i < args.len() && is_flag_arg(args[i]@) && 1 <= j < args[i]@.len()
            && !known_flag(#[trigger] args[i]@[j])
}

/// The arguments that name paths, in order.
pub open spec fn path_args(args: Seq<String>) -> Seq<Seq<char>>
    decreases args.len(),
{
    if args.len() == 0 {
        seq![]
    } else {
        let rest = path_args(args.drop_last());
        if is_flag_arg(args.last()@) {
            rest
        } else {
            rest.push(args.last()@)
        }
    }
}

/// Whether the flag argument `a` carries the letter `c`.
pub open spec fn arg_has_flag(a: Seq<char>, c: char) -> bool {
    is_flag_arg(a) && exists|j: int| 1 <= j < a.len() && a[j] == c
}

/// Whether the flag argument `a` carries a letter that is not known.
pub open spec fn arg_has_unknown_flag(a: Seq<char>) -> bool {
    is_flag_arg(a) && exists|j: int| 1 <= j < a.len() && !known_flag(#[trigger] a[j])
}

proof fn lemma_flag_step(args: Seq<String>, i: int, c: char)
    requires
        0 <= i < args.len(),
    ensures
        has_flag(args.subrange(0, i + 1), c) == (has_flag(args.subrange(0, i), c)
            || arg_has_flag(args[i]@, c)),
        has_unknown_flag(args.subrange(0, i + 1)) == (has_unknown_flag(args.subrange(0, i))
            || arg_has_unknown_flag(args[i]@)),
{
    let next = args.subrange(0, i + 1);
    let done = args.subrange(0, i);
    if has_flag(next, c) {
        let (a, b) = choose|a: int, b: int|
            0 <= a < next.len() && is_flag_arg(next[a]@) && 1 <= b < next[a]@.len() && next[a]@[b]
                == c;
        if a < i {
            assert(done[a] == next[a]);
        } else {
            assert(next[a] == args[i]);
        }
    }
    if has_flag(done, c) {
        let (a, b) = choose|a: int, b: int|
            0 <= a < done.len() && is_flag_arg(done[a]@) && 1 <= b < done[a]@.len() && done[a]@[b]
                == c;
        assert(next[a] == done[a]);
    }
    if arg_has_flag(args[i]@, c) {
        let b = choose|b: int| 1 <= b < args[i]@.len() && args[i]@[b] == c;
        assert(next[i] == args[i]);
    }
    if has_unknown_flag(next) {
        let (a, b) = choose|a: int, b: int|
            0 <= a < next.len() && is_flag_arg(next[a]@) && 1 <= b < next[a]@.len()
                && !known_flag(#[trigger] next[a]@[b]);
        if a < i {
            assert(done[a] == next[a]);
        } else {
            assert(next[a] == args[i]);
        }
    }
    if has_unknown_flag(done) {
        let (a, b) = choose|a: int, b: int|
            0 <= a < done.len() && is_flag_arg(done[a]@) && 1 <= b < done[a]@.len()
                && !known_flag(#[trigger] done[a]@[b]);
        assert(next[a] == done[a]);
    }
    if arg_has_unknown_flag(args[i]@) {
        let b = choose|b: int| 1 <= b < args[i]@.len() && !known_flag(#[trigger] args[i]@[b]);
        assert(next[i] == args[i]);
    }
}

proof fn lemma_unknown_grows(args: Seq<String>, i: int)
    requires
        0 <= i <= args.len(),
        has_unknown_flag(args.subrange(0, i)),
    ensures
        has_unknown_flag(args),
{
    let done = args.subrange(0, i);
    let (a, b) = choose|a: int, b: int|
        0 <= a < done.len() && is_flag_arg(done[a]@) && 1 <= b < done[a]@.len()
            && !known_flag(#[trigger] done[a]@[b]);
    assert(args[a] == done[a]);
}

/// Splits `args` into the paths and the three flags (show hidden, long format,
/// classify). Letters may be combined in one argument and repeated; `None` when
/// any flag argument carries a letter that is not known.
pub fn filter_flags(args: Vec<String>) -> (r: Option<(Vec<String>, bool, bool, bool)>)
    ensures
        r is None <==> has_unknown_flag(args@),
        r matches Some((dirs, show_hidden, long_format, classify)) ==> {
            &&& views(dirs@) == path_args(args@)
            &&& show_hidden == has_flag(args@, 'a')
            &&& long_format == has_flag(args@, 'l')
            &&& classify == has_flag(args@, 'F')
        },
{
    let mut directories: Vec<String> = Vec::new();
    let mut show_hidden = false;
    let mut long_format = false;
    let mut classify = false;
    let mut i: usize = 0;
    while i < args.len()
        invariant
            i <= args.len(),
            !has_unknown_flag(args@.subrange(0, i as int)),
            views(directories@) == path_args(args@.subrange(0, i as int)),
            show_hidden == has_flag(args@.subrange(0, i as int), 'a'),
            long_format == has_flag(args@.subrange(0, i as int), 'l'),
            classify == has_flag(args@.subrange(0, i as int), 'F'),
        decreases args.len() - i,
    {
        let ghost done = args@.subrange(0, i as int);
        let ghost next = args@.subrange(0, i + 1);
        assert(next.drop_last() =~= done);
        assert(next.last() == args@[i as int]);
        let arg = &args[i];
        let cs = crate::text::chars_of(arg.as_str());
        if cs.len() > 0 && cs[0] == '-' {
            let mut j: usize = 1;
            let ghost a0 = show_hidden;
            let ghost l0 = long_format;
            let ghost f0 = classify;
            while j < cs.len()
                invariant
                    1 <= j <= cs.len(),
                    cs@ == args@[i as int]@,
                    is_flag_arg(cs@),
                    i < args.len(),
                    forall|k: int| 1 <= k < j ==> known_flag(cs@[k]),
                    show_hidden == (a0 || exists|k: int| 1 <= k < j && cs@[k] == 'a'),
                    long_format == (l0 || exists|k: int| 1 <= k < j && cs@[k] == 'l'),
                    classify == (f0 || exists|k: int| 1 <= k < j && cs@[k] == 'F'),
                decreases cs.len() - j,
            {
                let c = cs[j];
                if c == 'a' {
                    show_hidden = true;
                } else if c == 'l' {
                    long_format = true;
                } else if c == 'F' {
                    classify = true;
                } else {
                    proof {
                        assert(!known_flag(args@[i as int]@[j as int]));
                        lemma_flag_step(args@, i as int, 'a');
                        lemma_unknown_grows(args@, i + 1);
                    }
                    return None;
                }
                j = j + 1;
            }
            proof {
                lemma_flag_step(args@, i as int, 'a');
                lemma_flag_step(args@, i as int, 'l');
                lemma_flag_step(args@, i as int, 'F');
                assert(!arg_has_unknown_flag(args@[i as int]@));
            }
            assert(path_args(next) == path_args(done));
        } else {
            directories.push(arg.clone());
            assert(views(directories@) =~= views(directories@.drop_last()).push(args@[i as int]@));
            assert(views(directories@.drop_last()) == path_args(done));
            proof {
                lemma_flag_step(args@, i as int, 'a');
                lemma_flag_step(args@, i as int, 'l');
                lemma_flag_step(args@, i as int, 'F');
            }
        }
        i = i + 1;
    }
    assert(args@.subrange(0, args.len() as int) =~= args@);
    Some((directories, show_hidden, long_format, classify))
}

/// Paths never decide whether the flags are rejected: putting a path argument
/// anywhere among the arguments leaves the verdict as it was.
pub proof fn lemma_paths_do_not_decide(args: Seq<String>, k: int, path: String)
    requires
        0 <= k <= args.len(),
        !is_flag_arg(path@),
    ensures
        has_unknown_flag(args.insert(k, path)) == has_unknown_flag(args),
{
    let with = args.insert(k, path);
    args.insert_ensures(k, path);
    if has_unknown_flag(with) {
        let (a, b) = choose|a: int, b: int|
            0 <= a < with.len() && is_flag_arg(with[a]@) && 1 <= b < with[a]@.len()
                && !known_flag(#[trigger] with[a]@[b]);
        if a < k {
            assert(with[a] == args[a]);
        } else {
            assert(a != k);
            assert(with[a] == args[a - 1]);
        }
    }
    if has_unknown_flag(args) {
        let (a, b) = choose|a: int, b: int|
            0 <= a < args.len() && is_flag_arg(args[a]@) && 1 <= b < args[a]@.len()
                && !known_flag(#[trigger] args[a]@[b]);
        if a < k {
            assert(with[a] == args[a]);
        } else {
            assert(with[a + 1] == args[a]);
        }
    }
}

} // verus!
