//! Path bookkeeping around the merge: mapping input directories to output
//! directories, and the order in which a tree of directories is visited.
//! A path is modelled as its ordered list of components, each a list of
//! bytes; reading directories off the disk happens outside the library,
//! which only computes with the paths it is handed.

use crate::schema::{bytes_eq, copy_bytes};
use vstd::prelude::*;

verus! {

/// A directory path: its ordered components, root first, each component the
/// bytes of one path segment.
pub struct DirPath {
    pub components: Vec<Vec<u8>>,
}

impl View for DirPath {
    type V = Seq<Seq<u8>>;

    open spec fn view(&self) -> Seq<Seq<u8>> {
        self.components@.map_values(|c: Vec<u8>| c@)
    }
}

/// The views of a list of paths.
pub open spec fn paths_view(paths: Seq<DirPath>) -> Seq<Seq<Seq<u8>>> {
    paths.map_values(|p: DirPath| p@)
}

/// `base` is a prefix of `path`, component for component.
pub open spec fn has_prefix(base: Seq<Seq<u8>>, path: Seq<Seq<u8>>) -> bool {
    base.len() <= path.len() && path.take(base.len() as int) == base
}

/// Why a path computation failed: the path at `index` does not lie under the
/// input base directory, so no relative path can be stripped from it.
pub enum PathError {
    NotAPrefix { index: usize },
}

/// A copy of a path with the same components.
fn copy_path(p: &DirPath) -> (r: DirPath)
    ensures
        r@ == p@,
{
    let mut components: Vec<Vec<u8>> = Vec::with_capacity(p.components.len());
    let mut i: usize = 0;
    while i < p.components.len()
        invariant
            i <= p.components@.len(),
            components@.len() == i,
            forall|k: int| 0 <= k < i ==> (#[trigger] components@[k])@ == p@[k],
        decreases p.components@.len() - i,
    {
        components.push(copy_bytes(&p.components[i]));
        i = i + 1;
    }
    let r = DirPath { components };
    proof {
        assert(r@ =~= p@);
    }
    r
}

/// Whether `path` lies at or under `base`.
fn starts_with(path: &DirPath, base: &DirPath) -> (r: bool)
    ensures
        r == has_prefix(base@, path@),
{
    if path.components.len() < base.components.len() {
        proof {
            assert(base@.len() == base.components@.len());
            assert(path@.len() == path.components@.len());
        }
        return false;
    }
    let mut i: usize = 0;
    while i < base.components.len()
        invariant
            i <= base.components@.len(),
            base.components@.len() <= path.components@.len(),
            forall|k: int| 0 <= k < i ==> path@[k] == base@[k],
        decreases base.components@.len() - i,
    {
        if !bytes_eq(&path.components[i], &base.components[i]) {
            proof {
                assert(path@[i as int] != base@[i as int]);
                assert(path@.take(base@.len() as int)[i as int] == path@[i as int]);
            }
            return false;
        }
        i = i + 1;
    }
    proof {
        assert(path@.take(base@.len() as int) =~= base@);
    }
    true
}

/// Map one path from under the input base to under the output base: the
/// output base followed by the path's part relative to the input base.
fn rebase_path(path: &DirPath, base_in: &DirPath, base_out: &DirPath) -> (r: DirPath)
    requires
        has_prefix(base_in@, path@),
    ensures
        r@ == base_out@ + path@.skip(base_in@.len() as int),
{
    let mut components: Vec<Vec<u8>> = Vec::new();
    let mut i: usize = 0;
    while i < base_out.components.len()
        invariant
            i <= base_out.components@.len(),
            components@.len() == i,
            forall|k: int| 0 <= k < i ==> (#[trigger] components@[k])@ == base_out@[k],
        decreases base_out.components@.len() - i,
    {
        components.push(copy_bytes(&base_out.components[i]));
        i = i + 1;
    }
    let mut j: usize = base_in.components.len();
    while j < path.components.len()
        invariant
            base_in.components@.len() <= j <= path.components@.len(),
            base_out.components@.len() <= components@.len(),
            components@.len() == base_out.components@.len() + j - base_in.components@.len(),
            forall|k: int|
                0 <= k < base_out.components@.len() ==> (#[trigger] components@[k])@
                    == base_out@[k],
            forall|k: int|
                base_out.components@.len() <= k < components@.len() ==> (
                #[trigger] components@[k])@ == path@[k - base_out.components@.len()
                    + base_in.components@.len()],
        decreases path.components@.len() - j,
    {
        components.push(copy_bytes(&path.components[j]));
        j = j + 1;
    }
    let r = DirPath { components };
    proof {
        assert(r@ =~= base_out@ + path@.skip(base_in@.len() as int));
    }
    r
}

/// Map every path in `process_paths` from under `base_in_dir` to the
/// corresponding path under `base_out_dir`, in order.  `len_hint` only sizes
/// the result ahead of time.  The computation stops at the first path that
/// does not lie under the input base and reports its position; paths after
/// it are not examined.
pub fn compute_outdir_paths(
    len_hint: usize,
    base_in_dir: &DirPath,
    base_out_dir: &DirPath,
    process_paths: &Vec<DirPath>,
) -> (r: Result<Vec<DirPath>, PathError>)
    ensures
        match r {
            Ok(v) => {
                &&& v@.len() == process_paths@.len()
                &&& forall|i: int|
                    0 <= i < process_paths@.len() ==> has_prefix(
                        base_in_dir@,
                        (#[trigger] process_paths@[i])@,
                    )
                &&& forall|i: int|
                    0 <= i < process_paths@.len() ==> (#[trigger] v@[i])@ == base_out_dir@
                        + process_paths@[i]@.skip(base_in_dir@.len() as int)
            },
            Err(PathError::NotAPrefix { index }) => {
                &&& index < process_paths@.len()
                &&& !has_prefix(base_in_dir@, process_paths@[index as int]@)
                &&& forall|k: int|
                    0 <= k < index ==> has_prefix(
                        base_in_dir@,
                        (#[trigger] process_paths@[k])@,
                    )
            },
        },
{
    let mut outdir_paths: Vec<DirPath> = Vec::with_capacity(len_hint);
    let mut i: usize = 0;
    while i < process_paths.len()
        invariant
            i <= process_paths@.len(),
            outdir_paths@.len() == i,
            forall|k: int|
                0 <= k < i ==> has_prefix(base_in_dir@, (#[trigger] process_paths@[k])@),
            forall|k: int|
                0 <= k < i ==> (#[trigger] outdir_paths@[k])@ == base_out_dir@
                    + process_paths@[k]@.skip(base_in_dir@.len() as int),
        decreases process_paths@.len() - i,
    {
        let path = &process_paths[i];
        if !starts_with(path, base_in_dir) {
            return Err(PathError::NotAPrefix { index: i });
        }
        outdir_paths.push(rebase_path(path, base_in_dir, base_out_dir));
        i = i + 1;
    }
    Ok(outdir_paths)
}

/// A directory and the directories under it, as discovered on disk; the
/// subdirectories are expected in name order, as a directory listing
/// sorted by the caller yields them.
pub struct DirTree {
    pub path: DirPath,
    pub subdirs: Vec<DirTree>,
}

/// The order in which a worklist traversal visits a tree: the directory
/// itself first, then each subdirectory's subtree, later siblings before
/// earlier ones — the order a stack-driven expansion produces when it pops
/// the most recently pushed directory first.
pub open spec fn traversal_order(t: DirTree) -> Seq<Seq<Seq<u8>>>
    decreases t,
{
    seq![t.path@] + subtrees_order(t.subdirs@)
}

/// The traversal orders of a list of sibling subtrees, last sibling first.
pub open spec fn subtrees_order(subs: Seq<DirTree>) -> Seq<Seq<Seq<u8>>>
    decreases subs,
{
    if subs.len() == 0 {
        Seq::empty()
    } else {
        traversal_order(subs.last()) + subtrees_order(subs.drop_last())
    }
}

/// Peeling a sibling list from the front: everything after the first
/// sibling is visited before it.
proof fn lemma_subtrees_order_front(subs: Seq<DirTree>)
    requires
        subs.len() > 0,
    ensures
        subtrees_order(subs) == subtrees_order(subs.skip(1)) + traversal_order(subs[0]),
    decreases subs.len(),
{
    if subs.len() == 1 {
        assert(subs.drop_last() =~= Seq::<DirTree>::empty());
        assert(subs.skip(1) =~= Seq::<DirTree>::empty());
        assert(subs.last() == subs[0]);
        assert(subtrees_order(Seq::<DirTree>::empty()) == Seq::<Seq<Seq<u8>>>::empty());
        assert(Seq::<Seq<Seq<u8>>>::empty() + traversal_order(subs[0]) =~= traversal_order(
            subs[0],
        ));
        assert(traversal_order(subs.last()) + subtrees_order(subs.drop_last())
            =~= traversal_order(subs[0]));
    } else {
        let dl = subs.drop_last();
        lemma_subtrees_order_front(dl);
        assert(dl[0] == subs[0]);
        assert(dl.skip(1) =~= subs.skip(1).drop_last());
        assert(subs.skip(1).last() == subs.last());
        assert(subtrees_order(subs.skip(1)) == traversal_order(subs.last()) + subtrees_order(
            dl.skip(1),
        ));
        assert(traversal_order(subs.last()) + (subtrees_order(dl.skip(1)) + traversal_order(
            dl[0],
        )) =~= (traversal_order(subs.last()) + subtrees_order(dl.skip(1))) + traversal_order(
            subs[0],
        ));
    }
}

/// Visit one subtree: append the directory itself, then its subdirectories'
/// subtrees, most recently listed first.
fn collect_into(t: &DirTree, out: &mut Vec<DirPath>)
    ensures
        paths_view(final(out)@) == paths_view(old(out)@) + traversal_order(*t),
    decreases *t,
{
    let ghost out0 = out@;
    out.push(copy_path(&t.path));
    proof {
        assert(paths_view(out@) =~= paths_view(out0).push(t.path@));
    }
    let mut k: usize = t.subdirs.len();
    while k > 0
        invariant
            k <= t.subdirs@.len(),
            paths_view(out@) =~= paths_view(out0).push(t.path@) + subtrees_order(
                t.subdirs@.skip(k as int),
            ),
        decreases k,
    {
        proof {
            assert(decreases_to!(*t => t.subdirs));
            assert(decreases_to!(t.subdirs => t.subdirs@));
            assert(decreases_to!(t.subdirs@ => t.subdirs@[k - 1]));
        }
        collect_into(&t.subdirs[k - 1], out);
        proof {
            lemma_subtrees_order_front(t.subdirs@.skip(k - 1));
            assert(t.subdirs@.skip(k - 1).skip(1) =~= t.subdirs@.skip(k as int));
            assert(t.subdirs@.skip(k - 1)[0] == t.subdirs@[k - 1]);
            assert(paths_view(out0).push(t.path@) + subtrees_order(t.subdirs@.skip(k as int))
                + traversal_order(t.subdirs@[k - 1]) =~= paths_view(out0).push(t.path@)
                + subtrees_order(t.subdirs@.skip(k - 1)));
        }
        k = k - 1;
    }
    proof {
        assert(t.subdirs@.skip(0) =~= t.subdirs@);
        assert(paths_view(out0).push(t.path@) + subtrees_order(t.subdirs@) =~= paths_view(out0)
            + traversal_order(*t));
    }
}

/// The paths of every directory in the tree, in the order a stack-driven
/// worklist expansion visits them: a directory before its subdirectories,
/// and among siblings the last-listed subtree first.
pub fn collect_paths(tree: &DirTree) -> (r: Vec<DirPath>)
    ensures
        paths_view(r@) == traversal_order(*tree),
{
    let mut out: Vec<DirPath> = Vec::new();
    proof {
        assert(paths_view(Seq::<DirPath>::empty()) =~= Seq::<Seq<Seq<u8>>>::empty());
    }
    collect_into(tree, &mut out);
    proof {
        assert(Seq::<Seq<Seq<u8>>>::empty() + traversal_order(*tree) =~= traversal_order(*tree));
    }
    out
}

} // verus!
