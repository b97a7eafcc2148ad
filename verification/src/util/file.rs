//! Digests of file contents.

use md5::Digest;
use vstd::prelude::*;

verus! {

/// The MD5 digest of `data`, written as 32 lower-case hexadecimal digits, as
/// the `md-5` crate computes it.
pub uninterp spec fn md5_hex(data: Seq<u8>) -> Seq<char>;

/// `Md5::digest` of the `md-5` crate, formatted in lower-case hexadecimal.
/// Nothing is proved of it: the result is the digest of the bytes.
#[verifier::external_body]
pub(crate) fn md5_digest(data: &[u8]) -> (hex: String)
    ensures
        hex@ == md5_hex(data@),
{
    format!("{:x}", md5::Md5::digest(data))
}

/// The MD5 digest of the contents of a file, as the text that the state of a
/// project records.
pub fn md5(contents: &[u8]) -> (hex: String)
    ensures
        hex@ == md5_hex(contents@),
{
    md5_digest(contents)
}

/// A directory of a tree, as a walk of the tree finds it. The walk lists a
/// directory before the directories in it, so `parent` is the position of an
/// earlier directory of the list; the directory at which the walk starts has
/// no parent.
#[derive(Clone, Copy, Debug, PartialEq, Eq, Structural)]
pub struct DirInfo {
    /// The position of the directory that holds this one.
    pub parent: Option<usize>,
    /// The number of files in the directory.
    pub files: usize,
    /// The number of entries of the directory that are neither files nor
    /// directories of the walk, such as links to directories.
    pub others: usize,
}

/// The directory at `child` lies in the directory at `parent`.
pub open spec fn lies_in(dirs: Seq<DirInfo>, child: int, parent: int) -> bool {
    0 <= parent < child < dirs.len() && (dirs[child].parent matches Some(p) && p == parent)
}

/// The directory at `inner` is the directory at `outer` or lies somewhere
/// below it.
pub open spec fn lies_within(dirs: Seq<DirInfo>, inner: int, outer: int) -> bool
    decreases inner,
{
    0 <= outer <= inner < dirs.len() && (inner == outer || match dirs[inner].parent {
        Some(p) => p < inner && lies_within(dirs, p as int, outer),
        None => false,
    })
}

/// A directory can be pruned when neither it nor any directory below it
/// holds anything but directories.
pub open spec fn prunable(dirs: Seq<DirInfo>, d: int) -> bool {
    &&& 0 <= d < dirs.len()
    &&& forall|c: int| #[trigger]
        lies_within(dirs, c, d) ==> dirs[c].files == 0 && dirs[c].others == 0
}

/// What lies within a directory of a directory lies within that directory.
proof fn lemma_lies_within_child(dirs: Seq<DirInfo>, x: int, c: int, d: int)
    requires
        lies_within(dirs, x, c),
        lies_in(dirs, c, d),
    ensures
        lies_within(dirs, x, d),
    decreases x,
{
    if x == c {
        assert(lies_within(dirs, d, d));
    } else {
        let p = dirs[x].parent->0 as int;
        lemma_lies_within_child(dirs, p, c, d);
    }
}

/// What lies within a directory is the directory or lies within one of the
/// directories in it.
proof fn lemma_lies_within_parent(dirs: Seq<DirInfo>, x: int, d: int) -> (c: int)
    requires
        lies_within(dirs, x, d),
        x != d,
    ensures
        lies_in(dirs, c, d),
        lies_within(dirs, x, c),
    decreases x,
{
    let p = dirs[x].parent->0 as int;
    if p == d {
        x
    } else {
        lemma_lies_within_parent(dirs, p, d)
    }
}

/// A directory can be pruned exactly when it holds no files, nothing else
/// that is no directory, and no directory that cannot be pruned.
pub proof fn lemma_prunable(dirs: Seq<DirInfo>, d: int)
    ensures
        prunable(dirs, d) <==> (0 <= d < dirs.len() && dirs[d].files == 0 && dirs[d].others == 0
            && forall|c: int| #[trigger] lies_in(dirs, c, d) ==> prunable(dirs, c)),
{
    if prunable(dirs, d) {
        assert(lies_within(dirs, d, d));
        assert forall|c: int| #[trigger] lies_in(dirs, c, d) implies prunable(dirs, c) by {
            assert forall|x: int| #[trigger] lies_within(dirs, x, c) implies dirs[x].files == 0
                && dirs[x].others == 0 by {
                lemma_lies_within_child(dirs, x, c, d);
            }
        }
    }
    if 0 <= d < dirs.len() && dirs[d].files == 0 && dirs[d].others == 0 && forall|c: int| #[trigger]
        lies_in(dirs, c, d) ==> prunable(dirs, c) {
        assert forall|x: int| #[trigger] lies_within(dirs, x, d) implies dirs[x].files == 0
            && dirs[x].others == 0 by {
            if x != d {
                let c = lemma_lies_within_parent(dirs, x, d);
                assert(prunable(dirs, c));
            }
        }
    }
}

/// A directory is removed when it can be pruned, and it is not the directory
/// at which the walk started unless that one is to be removed too.
pub open spec fn removable(dirs: Seq<DirInfo>, remove_root: bool, d: int) -> bool {
    prunable(dirs, d) && (d != 0 || remove_root)
}

/// The directories at or behind position `from` that are removed, the last
/// of the walk first.
pub open spec fn pruned_from(dirs: Seq<DirInfo>, remove_root: bool, from: int) -> Seq<usize>
    decreases dirs.len() - from,
{
    if from < 0 || from >= dirs.len() {
        Seq::empty()
    } else if removable(dirs, remove_root, from) {
        pruned_from(dirs, remove_root, from + 1).push(from as usize)
    } else {
        pruned_from(dirs, remove_root, from + 1)
    }
}

/// The empty directories to remove from a tree, in the order in which to
/// remove them: from the bottom up, so that a directory that held nothing
/// but empty directories is empty when its turn comes.
///
/// `dirs` lists the directories of the tree as a walk finds them, the
/// directory at which the walk started first. That directory is removed
/// only if `remove_root` is set. The result names directories by their
/// positions in `dirs`.
pub fn remove_empty_dirs(dirs: &Vec<DirInfo>, remove_root: bool) -> (removed: Vec<usize>)
    ensures
        removed@ == pruned_from(dirs@, remove_root, 0),
{
    let n = dirs.len();
    let mut blocked: Vec<bool> = Vec::new();
    let mut k: usize = 0;
    while k < n
        invariant
            k <= n,
            blocked@.len() == k,
            forall|i: int| 0 <= i < k ==> !(#[trigger] blocked@[i]),
        decreases n - k,
    {
        blocked.push(false);
        k += 1;
    }
    let mut removed: Vec<usize> = Vec::new();
    let mut d: usize = n;
    while d > 0
        invariant
            d <= n,
            n == dirs@.len(),
            blocked@.len() == n,
            removed@ == pruned_from(dirs@, remove_root, d as int),
            forall|p: int|
                0 <= p < n ==> ((#[trigger] blocked@[p]) <==> exists|c: int|
                    d <= c && lies_in(dirs@, c, p) && !prunable(dirs@, c)),
        decreases d,
    {
        d -= 1;
        let info = dirs[d];
        let can_prune = info.files == 0 && info.others == 0 && !blocked[d];
        proof {
            lemma_prunable(dirs@, d as int);
            if blocked@[d as int] {
                let c = choose|c: int| d + 1 <= c && lies_in(dirs@, c, d as int) && !prunable(dirs@, c);
                assert(lies_in(dirs@, c, d as int) && !prunable(dirs@, c));
                assert(!prunable(dirs@, d as int));
            } else {
                assert forall|c: int| lies_in(dirs@, c, d as int) implies prunable(dirs@, c) by {
                    if !prunable(dirs@, c) {
                        assert(d + 1 <= c && lies_in(dirs@, c, d as int) && !prunable(dirs@, c));
                    }
                }
            }
            assert(can_prune == prunable(dirs@, d as int));
        }
        let ghost blocked_before = blocked@;
        if can_prune {
            if d != 0 || remove_root {
                removed.push(d);
            }
        } else {
            match info.parent {
                Some(p) => {
                    if p < d {
                        blocked[p] = true;
                    }
                },
                None => {},
            }
        }
        proof {
            assert forall|p: int| 0 <= p < n implies ((#[trigger] blocked@[p]) <==> exists|c: int|
                d <= c && lies_in(dirs@, c, p) && !prunable(dirs@, c)) by {
                if blocked@[p] {
                    if blocked_before[p] {
                        let c = choose|c: int|
                            d + 1 <= c && lies_in(dirs@, c, p) && !prunable(dirs@, c);
                        assert(d <= c && lies_in(dirs@, c, p) && !prunable(dirs@, c));
                    } else {
                        assert(lies_in(dirs@, d as int, p) && !prunable(dirs@, d as int));
                    }
                }
                if exists|c: int| d <= c && lies_in(dirs@, c, p) && !prunable(dirs@, c) {
                    let c = choose|c: int| d <= c && lies_in(dirs@, c, p) && !prunable(dirs@, c);
                    if c > d {
                        assert(d + 1 <= c && lies_in(dirs@, c, p) && !prunable(dirs@, c));
                        assert(blocked_before[p]);
                    }
                }
            }
        }
    }
    removed
}

} // verus!
