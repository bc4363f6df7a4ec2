//! The pure part of input resolution: the default input when no path is
//! supplied, the partition of supplied paths into plain paths and
//! directories, and the order of the final file list. Listing a directory
//! itself is I/O and stays with the caller.

use vstd::prelude::*;
use vstd::string::StringExecFns;

verus! {

/// The paths among `ps` whose flag equals `keep`, in their original order.
pub open spec fn kept_paths(ps: Seq<Seq<char>>, flags: Seq<bool>, keep: bool) -> Seq<Seq<char>>
    decreases ps.len(),
{
    if ps.len() == 0 || ps.len() != flags.len() {
        Seq::empty()
    } else {
        kept_paths(ps.drop_last(), flags.drop_last(), keep) + (if flags.last() == keep {
            seq![ps.last()]
        } else {
            Seq::empty()
        })
    }
}

/// The single default input read when no path is supplied.
pub fn default_paths() -> (r: Vec<String>)
    ensures
        r.deep_view() =~= seq!["/dev/stdin"@],
{
    let mut r: Vec<String> = Vec::new();
    r.push(String::from_str("/dev/stdin"));
    proof {
        assert(r.deep_view() =~= seq!["/dev/stdin"@]);
    }
    r
}

/// Split the supplied paths into the non-directories, kept in order, and the
/// directories, kept in order, as the caller's directory probe flags them.
pub fn partition_paths(paths: &Vec<String>, is_dir: &Vec<bool>) -> (r: (Vec<String>, Vec<String>))
    requires
        paths@.len() == is_dir@.len(),
    ensures
        r.0.deep_view() == kept_paths(paths.deep_view(), is_dir@, false),
        r.1.deep_view() == kept_paths(paths.deep_view(), is_dir@, true),
{
    let ghost pdv = paths.deep_view();
    let mut files: Vec<String> = Vec::new();
    let mut dirs: Vec<String> = Vec::new();
    let n = paths.len();
    let mut i: usize = 0;
    proof {
        assert(pdv.take(0) =~= Seq::<Seq<char>>::empty());
        assert(is_dir@.take(0) =~= Seq::<bool>::empty());
        assert(files.deep_view() =~= kept_paths(pdv.take(0), is_dir@.take(0), false));
        assert(dirs.deep_view() =~= kept_paths(pdv.take(0), is_dir@.take(0), true));
    }
    while i < n
        invariant
            pdv == paths.deep_view(),
            pdv.len() == paths@.len(),
            n == paths@.len(),
            is_dir@.len() == n,
            i <= n,
            files.deep_view() == kept_paths(pdv.take(i as int), is_dir@.take(i as int), false),
            dirs.deep_view() == kept_paths(pdv.take(i as int), is_dir@.take(i as int), true),
        decreases n - i,
    {
        let ghost fdv = files.deep_view();
        let ghost ddv = dirs.deep_view();
        let p = paths[i].clone();
        proof {
            assert(pdv[i as int] == p@);
            assert(pdv.take(i as int + 1).drop_last() =~= pdv.take(i as int));
            assert(is_dir@.take(i as int + 1).drop_last() =~= is_dir@.take(i as int));
            assert(pdv.take(i as int + 1).last() == p@);
            assert(is_dir@.take(i as int + 1).last() == is_dir@[i as int]);
        }
        if is_dir[i] {
            dirs.push(p);
            proof {
                assert(dirs.deep_view() =~= ddv.push(pdv[i as int]));
                assert(kept_paths(pdv.take(i as int + 1), is_dir@.take(i as int + 1), true)
                    =~= ddv.push(pdv[i as int]));
                assert(kept_paths(pdv.take(i as int + 1), is_dir@.take(i as int + 1), false)
                    =~= fdv);
            }
        } else {
            files.push(p);
            proof {
                assert(files.deep_view() =~= fdv.push(pdv[i as int]));
                assert(kept_paths(pdv.take(i as int + 1), is_dir@.take(i as int + 1), false)
                    =~= fdv.push(pdv[i as int]));
                assert(kept_paths(pdv.take(i as int + 1), is_dir@.take(i as int + 1), true)
                    =~= ddv);
            }
        }
        i += 1;
    }
    proof {
        assert(pdv.take(n as int) =~= pdv);
        assert(is_dir@.take(n as int) =~= is_dir@);
    }
    (files, dirs)
}

/// The final input order: the supplied non-directory paths first, then the
/// files found in the supplied directories.
pub fn input_order(files: Vec<String>, expanded: Vec<String>) -> (r: Vec<String>)
    ensures
        r.deep_view() == files.deep_view() + expanded.deep_view(),
{
    let ghost fdv = files.deep_view();
    let ghost edv = expanded.deep_view();
    let mut r = files;
    let mut rest = expanded;
    r.append(&mut rest);
    proof {
        assert(r.deep_view() =~= fdv + edv);
    }
    r
}

} // verus!
