//! The arguments of the remove command.

use vstd::prelude::*;
use crate::text::views;

verus! {

/// The flag that lets the remove command take directories.
pub open spec fn recursive_flag() -> Seq<char> {
    seq!['-', 'r']
}

/// What the remove command's arguments ask for: whether directories are
/// removed with their contents, and the paths. Any argument other than `-r`
/// that starts with `-` is an invalid option, reported by its second
/// character (a space where it has none); the first one counts.
pub open spec fn rm_request(args: Seq<String>) -> Result<(bool, Seq<Seq<char>>), char>
    decreases args.len(),
{
    if args.len() == 0 {
        Ok((false, seq![]))
    } else {
        match rm_request(args.drop_last()) {
            Err(c) => Err(c),
            Ok((recursive, paths)) => {
                let a = args.last()@;
                if a == recursive_flag() {
                    Ok((true, paths))
                } else if a.len() == 0 || a[0] != '-' {
                    Ok((recursive, paths.push(a)))
                } else {
                    Err(
                        if a.len() > 1 {
                            a[1]
                        } else {
                            ' '
                        },
                    )
                }
            },
        }
    }
}

/// Reads the remove command's arguments: whether `-r` was given and the
/// paths, or the character of the first invalid option.
pub fn parse_rm_args(args: &Vec<String>) -> (r: Result<(bool, Vec<String>), char>)
    ensures
        match (r, rm_request(args@)) {
            (Ok((recursive, paths)), Ok((spec_recursive, spec_paths))) => recursive
                == spec_recursive && views(paths@) == spec_paths,
            (Err(c), Err(spec_c)) => c == spec_c,
            _ => false,
        },
{
    let mut recursive = false;
    let mut paths: Vec<String> = Vec::new();
    let mut i: usize = 0;
    assert(views(paths@) =~= seq![]);
    assert(args@.subrange(0, 0) =~= Seq::<String>::empty());
    while i < args.len()
        invariant
            i <= args.len(),
            rm_request(args@.subrange(0, i as int)) == Ok::<(bool, Seq<Seq<char>>), char>(
                (recursive, views(paths@)),
            ),
        decreases args.len() - i,
    {
        assert(args@.subrange(0, i + 1).drop_last() =~= args@.subrange(0, i as int));
        let cs = crate::text::chars_of(args[i].as_str());
        if cs.len() == 2 && cs[0] == '-' && cs[1] == 'r' {
            assert(cs@ =~= recursive_flag());
            recursive = true;
        } else if cs.len() == 0 || cs[0] != '-' {
            let ghost before = paths@;
            paths.push(args[i].clone());
            assert(views(paths@) =~= views(before).push(args@[i as int]@));
        } else {
            proof {
                assert(args@.subrange(0, i + 1).last() == args@[i as int]);
                lemma_rm_error_stays(args@, i + 1);
            }
            if cs.len() > 1 {
                return Err(cs[1]);
            } else {
                return Err(' ');
            }
        }
        i = i + 1;
    }
    assert(args@.subrange(0, args.len() as int) =~= args@);
    Ok((recursive, paths))
}

proof fn lemma_rm_error_stays(args: Seq<String>, k: int)
    requires
        0 <= k <= args.len(),
        rm_request(args.subrange(0, k)) is Err,
    ensures
        rm_request(args) == rm_request(args.subrange(0, k)),
    decreases args.len() - k,
{
    if k < args.len() {
        assert(args.subrange(0, k + 1).drop_last() =~= args.subrange(0, k));
        lemma_rm_error_stays(args, k + 1);
    } else {
        assert(args.subrange(0, k) =~= args);
    }
}

} // verus!
