//! The file system as the library sees it.
//!
//! Resolution and classification only ever ask three questions of the file
//! system: does a path exist, is it a regular file, and which paths lie
//! under a directory (to a bounded depth). `Fs` answers them either from an
//! explicit in-memory description (`FsView`), for which every answer is
//! pinned down exactly, or from the real disk through trusted calls.

use vstd::prelude::*;
use vstd::string::*;
use crate::pathseg::{
    seq_views, split_path, split_path_spec, str_equal, str_starts_with, concat_path,
    vec_contains_str,
};

verus! {

/// An explicit description of the relevant part of a file system: which
/// paths are directories and which are regular files.
pub struct FsView {
    pub dirs: Vec<String>,
    pub files: Vec<String>,
}

impl FsView {
    pub open spec fn dir_views(&self) -> Seq<Seq<char>> {
        seq_views(self.dirs@)
    }

    pub open spec fn file_views(&self) -> Seq<Seq<char>> {
        seq_views(self.files@)
    }

    /// Every path the view knows of, directories first.
    pub open spec fn all_views(&self) -> Seq<Seq<char>> {
        self.dir_views() + self.file_views()
    }

    pub open spec fn exists_spec(&self, p: Seq<char>) -> bool {
        self.all_views().contains(p)
    }

    pub open spec fn is_file_spec(&self, p: Seq<char>) -> bool {
        self.file_views().contains(p)
    }
}

/// Whether a directory walk rooted at `root` reaches `p`: `p` is the root
/// itself or lies below it, at most ten segments deeper.
pub open spec fn walk_match(root: Seq<char>, p: Seq<char>) -> bool {
    ||| p == root
    ||| ((root + seq!['/']).is_prefix_of(p) && split_path_spec(p).len() <= split_path_spec(
        root,
    ).len() + 10)
}

/// `walk_match` as a predicate value, so that every filter over it speaks
/// of one and the same function.
pub open spec fn walk_pred(root: Seq<char>) -> spec_fn(Seq<char>) -> bool {
    |p: Seq<char>| walk_match(root, p)
}

/// What a walk of `root` yields in a modelled file system: all known paths
/// under it, directories first, in stored order.
pub open spec fn walk_view_spec(v: FsView, root: Seq<char>) -> Seq<Seq<char>> {
    v.all_views().filter(walk_pred(root))
}

/// Whether a walk rooted at `root` reaches `p`.
fn walk_match_exec(root: &String, p: &String) -> (r: bool)
    ensures
        r == walk_match(root@, p@),
{
    if str_equal(p.as_str(), root.as_str()) {
        return true;
    }
    let slashed = concat_path(root.as_str(), "");
    proof {
        assert(""@ =~= Seq::<char>::empty()) by {
            reveal_strlit("");
        }
        assert(slashed@ =~= root@ + seq!['/']);
    }
    if !str_starts_with(p.as_str(), slashed.as_str()) {
        return false;
    }
    let pl = split_path(p.as_str()).len();
    let rl = split_path(root.as_str()).len();
    pl <= rl || pl - rl <= 10
}

/// Appends to `out` those strings of `v` that a walk of `root` reaches,
/// in order.
fn push_walk_matches(out: &mut Vec<String>, v: &Vec<String>, root: &String)
    ensures
        seq_views(final(out)@) == seq_views(old(out)@) + seq_views(v@).filter(walk_pred(root@)),
{
    let mut i: usize = 0;
    proof {
        reveal(Seq::filter);
        assert(seq_views(v@).take(0) =~= Seq::<Seq<char>>::empty());
        assert(seq_views(out@) + seq_views(v@).take(0).filter(walk_pred(root@)) =~= seq_views(
            out@,
        ));
    }
    while i < v.len()
        invariant
            0 <= i <= v@.len(),
            seq_views(out@) == seq_views(old(out)@) + seq_views(v@).take(i as int).filter(
                walk_pred(root@),
            ),
        decreases v@.len() - i,
    {
        let keep = walk_match_exec(root, &v[i]);
        proof {
            reveal(Seq::filter);
            let prev = seq_views(v@).take(i as int);
            let cur = seq_views(v@).take(i + 1);
            assert(cur.drop_last() =~= prev);
            assert(cur.last() == v@[i as int]@);
            if keep {
                assert(cur.filter(walk_pred(root@)) == prev.filter(walk_pred(root@)).push(
                    v@[i as int]@,
                ));
                assert(seq_views(out@.push(v@[i as int])) =~= seq_views(out@).push(v@[i as int]@));
                assert(seq_views(old(out)@) + prev.filter(walk_pred(root@)).push(v@[i as int]@)
                    =~= (seq_views(old(out)@) + prev.filter(walk_pred(root@))).push(
                    v@[i as int]@,
                ));
            } else {
                assert(cur.filter(walk_pred(root@)) == prev.filter(walk_pred(root@)));
            }
        }
        if keep {
            let item = v[i].clone();
            out.push(item);
        }
        i = i + 1;
    }
    proof {
        assert(seq_views(v@).take(v@.len() as int) =~= seq_views(v@));
    }
}

/// Relies on `std::path::Path::exists`: whether anything stands at `p` on
/// the real disk.
#[verifier::external_body]
fn disk_path_exists(p: &String) -> bool {
    std::path::Path::new(p.as_str()).exists()
}

/// Relies on `std::path::Path::is_file`: whether a regular file stands at
/// `p` on the real disk.
#[verifier::external_body]
fn disk_path_is_file(p: &String) -> bool {
    std::path::Path::new(p.as_str()).is_file()
}

/// Relies on `walkdir::WalkDir`: the paths of the entries under `root` on
/// the real disk, at most ten levels deep, in traversal order.
#[verifier::external_body]
fn disk_walk_dir(root: &String) -> Vec<String> {
    walkdir::WalkDir::new(root.as_str())
        .max_depth(10)
        .into_iter()
        .filter_map(|entry| entry.ok())
        .filter_map(|entry| entry.path().to_str().map(|p| p.to_string()))
        .collect()
}

/// Where file-system questions are answered from: an explicit `FsView`, or
/// the real disk.
pub enum Fs {
    Model { view: FsView },
    Live,
}

impl Fs {
    /// Whether anything (file or directory) stands at `p`.
    pub fn path_exists(&self, p: &String) -> (r: bool)
        ensures
            self matches Fs::Model { view } ==> r == view.exists_spec(p@),
    {
        match self {
            Fs::Model { view } => {
                let in_dirs = vec_contains_str(&view.dirs, p);
                let in_files = vec_contains_str(&view.files, p);
                proof {
                    let nd = view.dir_views().len() as int;
                    if seq_views(view.dirs@).contains(p@) {
                        let j = choose|j: int|
                            0 <= j < view.dir_views().len() && view.dir_views()[j] == p@;
                        assert(view.all_views()[j] == p@);
                    } else if seq_views(view.files@).contains(p@) {
                        let j = choose|j: int|
                            0 <= j < view.file_views().len() && view.file_views()[j] == p@;
                        assert(view.all_views()[nd + j] == p@);
                    } else {
                        assert(forall|j: int|
                            0 <= j < view.all_views().len() ==> view.all_views()[j] != p@);
                    }
                }
                in_dirs || in_files
            },
            Fs::Live => disk_path_exists(p),
        }
    }

    /// Whether a regular file stands at `p`.
    pub fn path_is_file(&self, p: &String) -> (r: bool)
        ensures
            self matches Fs::Model { view } ==> r == view.is_file_spec(p@),
    {
        match self {
            Fs::Model { view } => vec_contains_str(&view.files, p),
            Fs::Live => disk_path_is_file(p),
        }
    }

    /// The paths a bounded-depth walk of the directory `root` yields.
    pub fn walk_dir(&self, root: &String) -> (r: Vec<String>)
        ensures
            self matches Fs::Model { view } ==> seq_views(r@) == walk_view_spec(*view, root@),
    {
        match self {
            Fs::Model { view } => {
                let mut out: Vec<String> = Vec::new();
                push_walk_matches(&mut out, &view.dirs, root);
                push_walk_matches(&mut out, &view.files, root);
                proof {
                    assert(view.all_views().filter(walk_pred(root@)) == view.dir_views().filter(
                        walk_pred(root@),
                    ) + view.file_views().filter(walk_pred(root@))) by {
                        Seq::filter_distributes_over_add(
                            view.dir_views(),
                            view.file_views(),
                            walk_pred(root@),
                        );
                    }
                }
                out
            },
            Fs::Live => disk_walk_dir(root),
        }
    }
}

} // verus!
