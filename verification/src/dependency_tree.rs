//! The dependency tree and the traversal that builds it.
//!
//! Starting from one root asset, the builder keeps a work list of nodes not
//! yet expanded. Expanding a node resolves each of its import references;
//! paths not seen before become new nodes and children of the expanded
//! node, failed references join a failure list deduplicated by path.
//! Expansion stops at a configured depth bound. The finished tree keeps,
//! for every node, its asset, its recorded children and its depth, and it
//! satisfies `DepTree::wf`: no two nodes share a path, every edge steps the
//! depth by exactly one, every non-root node is some node's child exactly
//! once, no node at the depth bound has children, and no two failures share
//! a path.

use vstd::prelude::*;
use vstd::string::*;
use crate::asset::{asset_new_spec, source_outcome, Asset, AssetError, AssetErrorView, AssetView, ImportSource};
use crate::asset_dirs::AssetDirs;
use crate::fsmodel::{Fs, FsView};
use crate::locate::{locate_ref_spec, resolve_all_spec};
use crate::pathseg::{opt_view, seq_views};

verus! {

/// A node's identity: its index in the node table. Identifiers are handed
/// out from zero, in creation order, within one build.
pub type NodeID = usize;

/// Whether some node of `nodes` holds the path `p`.
pub open spec fn node_paths_contain(nodes: Seq<Asset>, p: Seq<char>) -> bool {
    exists|i: int| 0 <= i < nodes.len() && nodes[i].path@ == p
}

/// Whether some failure of `fails` names the path `p`.
pub open spec fn failure_paths_contain(fails: Seq<AssetError>, p: Seq<char>) -> bool {
    exists|i: int| 0 <= i < fails.len() && fails[i].path@ == p
}

/// No two nodes share a path.
pub open spec fn paths_unique(nodes: Seq<Asset>) -> bool {
    forall|i: int, j: int|
        0 <= i < j < nodes.len() ==> nodes[i].path@ != nodes[j].path@
}

/// Every recorded child is a later node than its parent, lies in the node
/// table, and sits one level deeper than its parent.
pub open spec fn conn_wf(conn: Seq<Vec<NodeID>>, depths: Seq<u32>, n: int) -> bool {
    forall|i: int, k: int|
        0 <= i < conn.len() && 0 <= k < conn[i]@.len() ==> {
            let c = #[trigger] conn[i]@[k];
            &&& i < c < n
            &&& depths[c as int] == depths[i] + 1
        }
}

/// No node is recorded as a child twice, under one parent or two.
pub open spec fn child_unique(conn: Seq<Vec<NodeID>>) -> bool {
    forall|i1: int, k1: int, i2: int, k2: int|
        #![trigger conn[i1]@[k1], conn[i2]@[k2]]
        0 <= i1 < conn.len() && 0 <= k1 < conn[i1]@.len() && 0 <= i2 < conn.len() && 0 <= k2
            < conn[i2]@.len() && (i1 != i2 || k1 != k2) ==> conn[i1]@[k1] != conn[i2]@[k2]
}

/// Whether node `c` is recorded as somebody's child.
pub open spec fn is_child_of(conn: Seq<Vec<NodeID>>, c: int) -> bool {
    exists|i: int, k: int|
        0 <= i < conn.len() && 0 <= k < conn[i]@.len() && conn[i]@[k] == c
}

/// Every node but the root is recorded as somebody's child.
pub open spec fn nonroots_are_children(conn: Seq<Vec<NodeID>>, n: int) -> bool {
    forall|c: int| 1 <= c < n ==> #[trigger] is_child_of(conn, c)
}

/// No node sits deeper than the bound.
pub open spec fn depths_bounded(depths: Seq<u32>, max: u32) -> bool {
    forall|i: int| 0 <= i < depths.len() ==> #[trigger] depths[i] <= max
}

/// A node at the depth bound or beyond has no recorded children.
pub open spec fn leaves_beyond(conn: Seq<Vec<NodeID>>, depths: Seq<u32>, max: u32) -> bool {
    forall|i: int|
        0 <= i < conn.len() && depths[i] >= max ==> (#[trigger] conn[i]@).len() == 0
}

/// No two failures name the same path.
pub open spec fn failures_unique(fails: Seq<AssetError>) -> bool {
    forall|i: int, j: int|
        0 <= i < j < fails.len() ==> fails[i].path@ != fails[j].path@
}

/// All the structural invariants of a (possibly still growing) graph.
pub open spec fn graph_wf(
    nodes: Seq<Asset>,
    conn: Seq<Vec<NodeID>>,
    depths: Seq<u32>,
    fails: Seq<AssetError>,
    max: u32,
) -> bool {
    &&& nodes.len() >= 1
    &&& conn.len() == nodes.len()
    &&& depths.len() == nodes.len()
    &&& depths[0] == 0
    &&& paths_unique(nodes)
    &&& conn_wf(conn, depths, nodes.len() as int)
    &&& child_unique(conn)
    &&& nonroots_are_children(conn, nodes.len() as int)
    &&& depths_bounded(depths, max)
    &&& leaves_beyond(conn, depths, max)
    &&& failures_unique(fails)
}

/// Every entry of the work list names a node.
pub open spec fn frontier_ok(frontier: Seq<NodeID>, n: int) -> bool {
    forall|x: int| 0 <= x < frontier.len() ==> #[trigger] frontier[x] < n
}

/// Whether one resolution outcome is accounted for in the graph: a
/// resolved path appears as a node or as a failure (the file may exist and
/// still not be a readable asset), a failed resolution appears among the
/// failures under its path.
pub open spec fn ref_accounted(
    nodes: Seq<Asset>,
    fails: Seq<AssetError>,
    outcome: Result<Seq<char>, AssetErrorView>,
) -> bool {
    match outcome {
        Ok(p) => node_paths_contain(nodes, p) || failure_paths_contain(fails, p),
        Err(e) => failure_paths_contain(fails, e.path),
    }
}

/// Whether node `i` has been fully expanded: every one of its import
/// references, resolved against the given directories and file system, is
/// accounted for in the graph.
pub open spec fn node_expanded(
    nodes: Seq<Asset>,
    fails: Seq<AssetError>,
    i: int,
    content_dir: Seq<char>,
    engine_content_dir: Option<Seq<char>>,
    plugins_dirs: Seq<Seq<char>>,
    v: FsView,
) -> bool {
    forall|k: int|
        0 <= k < nodes[i].imports@.len() ==> ref_accounted(
            nodes,
            fails,
            #[trigger] locate_ref_spec(
                nodes[i].imports@[k]@,
                content_dir,
                engine_content_dir,
                plugins_dirs,
                v,
            ),
        )
}

/// Nothing resolvable was left behind: every node below the depth bound
/// has been fully expanded.
pub open spec fn expansion_complete(
    nodes: Seq<Asset>,
    depths: Seq<u32>,
    fails: Seq<AssetError>,
    max: u32,
    content_dir: Seq<char>,
    engine_content_dir: Option<Seq<char>>,
    plugins_dirs: Seq<Seq<char>>,
    v: FsView,
) -> bool {
    forall|i: int|
        0 <= i < nodes.len() && depths[i] < max ==> #[trigger] node_expanded(
            nodes,
            fails,
            i,
            content_dir,
            engine_content_dir,
            plugins_dirs,
            v,
        )
}

/// Whether `p` is the successful resolution of one of `parent`'s import
/// references.
pub open spec fn path_resolved_from(
    parent: Asset,
    p: Seq<char>,
    content_dir: Seq<char>,
    engine_content_dir: Option<Seq<char>>,
    plugins_dirs: Seq<Seq<char>>,
    v: FsView,
) -> bool {
    exists|m: int|
        0 <= m < parent.imports@.len() && #[trigger] locate_ref_spec(
            parent.imports@[m]@,
            content_dir,
            engine_content_dir,
            plugins_dirs,
            v,
        ) == Ok::<Seq<char>, AssetErrorView>(p)
}

/// No edge is invented: the child of every recorded edge holds a path that
/// is the successful resolution of one of its parent's import references.
pub open spec fn edges_resolved(
    nodes: Seq<Asset>,
    conn: Seq<Vec<NodeID>>,
    content_dir: Seq<char>,
    engine_content_dir: Option<Seq<char>>,
    plugins_dirs: Seq<Seq<char>>,
    v: FsView,
) -> bool {
    forall|i: int, k: int|
        #![trigger conn[i]@[k]]
        0 <= i < conn.len() && 0 <= k < conn[i]@.len() && i < nodes.len() && conn[i]@[k]
            < nodes.len() ==> path_resolved_from(
            nodes[i],
            nodes[conn[i]@[k] as int].path@,
            content_dir,
            engine_content_dir,
            plugins_dirs,
            v,
        )
}

/// Whether some entry of `fails` is exactly the failure `e`.
pub open spec fn fail_views_contain(fails: Seq<AssetError>, e: AssetErrorView) -> bool {
    exists|x: int| 0 <= x < fails.len() && fails[x]@ == e
}

/// Whether some reference of a node below the depth bound fails to resolve
/// with exactly the outcome `e`.
pub open spec fn some_ref_errs_to(
    nodes: Seq<Asset>,
    depths: Seq<u32>,
    max: u32,
    e: AssetErrorView,
    content_dir: Seq<char>,
    engine_content_dir: Option<Seq<char>>,
    plugins_dirs: Seq<Seq<char>>,
    v: FsView,
) -> bool {
    exists|i: int, k: int|
        0 <= i < nodes.len() && i < depths.len() && depths[i] < max && 0 <= k < nodes[
            i
        ].imports@.len() && #[trigger] locate_ref_spec(
            nodes[i].imports@[k]@,
            content_dir,
            engine_content_dir,
            plugins_dirs,
            v,
        ) == Err::<Seq<char>, AssetErrorView>(e)
}

/// Whether some reference of a node below the depth bound resolves to the
/// path `p`.
pub open spec fn some_ref_resolves_to(
    nodes: Seq<Asset>,
    depths: Seq<u32>,
    max: u32,
    p: Seq<char>,
    content_dir: Seq<char>,
    engine_content_dir: Option<Seq<char>>,
    plugins_dirs: Seq<Seq<char>>,
    v: FsView,
) -> bool {
    exists|i: int, k: int|
        0 <= i < nodes.len() && i < depths.len() && depths[i] < max && 0 <= k < nodes[
            i
        ].imports@.len() && #[trigger] locate_ref_spec(
            nodes[i].imports@[k]@,
            content_dir,
            engine_content_dir,
            plugins_dirs,
            v,
        ) == Ok::<Seq<char>, AssetErrorView>(p)
}

/// Whether the reader can answer for the failure's path with a source
/// under which building the asset fails exactly so.
pub open spec fn creation_failed_witness<F: Fn(&String) -> ImportSource>(
    reader: F,
    f: AssetError,
    v: FsView,
) -> bool {
    exists|src: ImportSource|
        #[trigger] call_ensures(reader, (&f.path,), src) && asset_new_spec(
            f.path@,
            source_outcome(src),
            v,
        ) == Err::<AssetView, AssetErrorView>(f@)
}

/// A failure is genuine when it is the failed resolution of a reference of
/// an expanded node, or names a path such a reference resolved to whose
/// asset the reader's answer failed to build.
pub open spec fn failure_justified<F: Fn(&String) -> ImportSource>(
    reader: F,
    nodes: Seq<Asset>,
    depths: Seq<u32>,
    max: u32,
    f: AssetError,
    content_dir: Seq<char>,
    engine_content_dir: Option<Seq<char>>,
    plugins_dirs: Seq<Seq<char>>,
    v: FsView,
) -> bool {
    ||| some_ref_errs_to(nodes, depths, max, f@, content_dir, engine_content_dir, plugins_dirs, v)
    ||| (some_ref_resolves_to(
        nodes,
        depths,
        max,
        f.path@,
        content_dir,
        engine_content_dir,
        plugins_dirs,
        v,
    ) && creation_failed_witness(reader, f, v))
}

/// No failure is invented: every recorded failure is genuine.
pub open spec fn failures_sound<F: Fn(&String) -> ImportSource>(
    reader: F,
    nodes: Seq<Asset>,
    depths: Seq<u32>,
    max: u32,
    fails: Seq<AssetError>,
    content_dir: Seq<char>,
    engine_content_dir: Option<Seq<char>>,
    plugins_dirs: Seq<Seq<char>>,
    v: FsView,
) -> bool {
    forall|j: int|
        0 <= j < fails.len() ==> #[trigger] failure_justified(
            reader,
            nodes,
            depths,
            max,
            fails[j],
            content_dir,
            engine_content_dir,
            plugins_dirs,
            v,
        )
}

/// A node is genuine when building the asset at its path from a source the
/// reader can answer yields exactly this node.
pub open spec fn node_justified<F: Fn(&String) -> ImportSource>(
    reader: F,
    node: Asset,
    v: FsView,
) -> bool {
    exists|src: ImportSource|
        #[trigger] call_ensures(reader, (&node.path,), src) && asset_new_spec(
            node.path@,
            source_outcome(src),
            v,
        ) == Ok::<AssetView, AssetErrorView>(node@)
}

/// No node is invented: every node of the table is genuine, so its origin
/// and stored import list are those of its file.
pub open spec fn nodes_justified<F: Fn(&String) -> ImportSource>(
    reader: F,
    nodes: Seq<Asset>,
    v: FsView,
) -> bool {
    forall|i: int| 0 <= i < nodes.len() ==> #[trigger] node_justified(reader, nodes[i], v)
}

/// A genuine failure stays genuine as the graph grows: its witnesses name
/// nodes and depths that appending never changes.
proof fn lemma_failure_justified_monotone<F: Fn(&String) -> ImportSource>(
    reader: F,
    nodes1: Seq<Asset>,
    depths1: Seq<u32>,
    nodes2: Seq<Asset>,
    depths2: Seq<u32>,
    max: u32,
    f: AssetError,
    content_dir: Seq<char>,
    engine_content_dir: Option<Seq<char>>,
    plugins_dirs: Seq<Seq<char>>,
    v: FsView,
)
    requires
        failure_justified(
            reader,
            nodes1,
            depths1,
            max,
            f,
            content_dir,
            engine_content_dir,
            plugins_dirs,
            v,
        ),
        nodes1.len() <= nodes2.len(),
        forall|j: int| 0 <= j < nodes1.len() ==> nodes2[j] == nodes1[j],
        depths1.len() <= depths2.len(),
        forall|j: int| 0 <= j < depths1.len() ==> depths2[j] == depths1[j],
    ensures
        failure_justified(
            reader,
            nodes2,
            depths2,
            max,
            f,
            content_dir,
            engine_content_dir,
            plugins_dirs,
            v,
        ),
{
    if some_ref_errs_to(nodes1, depths1, max, f@, content_dir, engine_content_dir, plugins_dirs, v) {
        let (i, k) = choose|i: int, k: int|
            0 <= i < nodes1.len() && i < depths1.len() && depths1[i] < max && 0 <= k < nodes1[
                i
            ].imports@.len() && #[trigger] locate_ref_spec(
                nodes1[i].imports@[k]@,
                content_dir,
                engine_content_dir,
                plugins_dirs,
                v,
            ) == Err::<Seq<char>, AssetErrorView>(f@);
        assert(nodes2[i] == nodes1[i]);
        assert(depths2[i] == depths1[i]);
        assert(locate_ref_spec(
            nodes2[i].imports@[k]@,
            content_dir,
            engine_content_dir,
            plugins_dirs,
            v,
        ) == Err::<Seq<char>, AssetErrorView>(f@));
    } else {
        let (i, k) = choose|i: int, k: int|
            0 <= i < nodes1.len() && i < depths1.len() && depths1[i] < max && 0 <= k < nodes1[
                i
            ].imports@.len() && #[trigger] locate_ref_spec(
                nodes1[i].imports@[k]@,
                content_dir,
                engine_content_dir,
                plugins_dirs,
                v,
            ) == Ok::<Seq<char>, AssetErrorView>(f.path@);
        assert(nodes2[i] == nodes1[i]);
        assert(depths2[i] == depths1[i]);
        assert(locate_ref_spec(
            nodes2[i].imports@[k]@,
            content_dir,
            engine_content_dir,
            plugins_dirs,
            v,
        ) == Ok::<Seq<char>, AssetErrorView>(f.path@));
    }
}

/// Being accounted for survives growth of the graph: nodes and failures
/// are only ever appended.
proof fn lemma_expanded_monotone(
    nodes1: Seq<Asset>,
    fails1: Seq<AssetError>,
    nodes2: Seq<Asset>,
    fails2: Seq<AssetError>,
    i: int,
    content_dir: Seq<char>,
    engine_content_dir: Option<Seq<char>>,
    plugins_dirs: Seq<Seq<char>>,
    v: FsView,
)
    requires
        0 <= i < nodes1.len(),
        node_expanded(nodes1, fails1, i, content_dir, engine_content_dir, plugins_dirs, v),
        nodes1.len() <= nodes2.len(),
        forall|j: int| 0 <= j < nodes1.len() ==> nodes2[j] == nodes1[j],
        fails1.len() <= fails2.len(),
        forall|j: int| 0 <= j < fails1.len() ==> fails2[j] == fails1[j],
    ensures
        node_expanded(nodes2, fails2, i, content_dir, engine_content_dir, plugins_dirs, v),
{
    assert(nodes2[i] == nodes1[i]);
    assert forall|k: int|
        0 <= k < nodes2[i].imports@.len() implies ref_accounted(
        nodes2,
        fails2,
        #[trigger] locate_ref_spec(
            nodes2[i].imports@[k]@,
            content_dir,
            engine_content_dir,
            plugins_dirs,
            v,
        ),
    ) by {
        let outcome = locate_ref_spec(
            nodes1[i].imports@[k]@,
            content_dir,
            engine_content_dir,
            plugins_dirs,
            v,
        );
        assert(ref_accounted(nodes1, fails1, outcome));
        match outcome {
            Ok(p) => {
                if node_paths_contain(nodes1, p) {
                    let w = choose|w: int| 0 <= w < nodes1.len() && nodes1[w].path@ == p;
                    assert(nodes2[w].path@ == p);
                } else {
                    let w = choose|w: int| 0 <= w < fails1.len() && fails1[w].path@ == p;
                    assert(fails2[w].path@ == p);
                }
            },
            Err(e) => {
                let w = choose|w: int| 0 <= w < fails1.len() && fails1[w].path@ == e.path;
                assert(fails2[w].path@ == e.path);
            },
        }
    }
}

/// The dependency graph of one root asset: the node table, the recorded
/// children and depth of each node, and the references that could not be
/// resolved, deduplicated by path.
pub struct DepTree {
    pub root_node_id: NodeID,
    pub nodes: Vec<Asset>,
    pub node_connections: Vec<Vec<NodeID>>,
    pub failures: Vec<AssetError>,
    pub max_recurse_depth: u32,
    pub recurse_depths: Vec<u32>,
}

impl DepTree {
    /// The invariants every built tree satisfies.
    pub open spec fn wf(&self) -> bool {
        &&& self.root_node_id == 0
        &&& graph_wf(
            self.nodes@,
            self.node_connections@,
            self.recurse_depths@,
            self.failures@,
            self.max_recurse_depth,
        )
    }
}

/// The index of the node holding `path`, if one does.
fn find_node_index_by_path(nodes: &Vec<Asset>, path: &String) -> (r: Option<usize>)
    ensures
        match r {
            Some(i) => i < nodes@.len() && nodes@[i as int].path@ == path@,
            None => !node_paths_contain(nodes@, path@),
        },
{
    let mut i: usize = 0;
    while i < nodes.len()
        invariant
            0 <= i <= nodes@.len(),
            forall|j: int| 0 <= j < i ==> nodes@[j].path@ != path@,
        decreases nodes@.len() - i,
    {
        if crate::pathseg::str_equal(nodes[i].path.as_str(), path.as_str()) {
            return Some(i);
        }
        i = i + 1;
    }
    None
}

/// Whether some recorded failure names `path`.
fn failure_path_known(failures: &Vec<AssetError>, path: &String) -> (r: bool)
    ensures
        r == failure_paths_contain(failures@, path@),
{
    let mut i: usize = 0;
    while i < failures.len()
        invariant
            0 <= i <= failures@.len(),
            forall|j: int| 0 <= j < i ==> failures@[j].path@ != path@,
        decreases failures@.len() - i,
    {
        if crate::pathseg::str_equal(failures[i].path.as_str(), path.as_str()) {
            return true;
        }
        i = i + 1;
    }
    false
}

/// Keeps, of the resolved paths, those that are neither a node already nor
/// a recorded failure, each at most once.
fn collect_new_paths(
    nodes: &Vec<Asset>,
    failures: &Vec<AssetError>,
    dep_paths: &Vec<String>,
) -> (kept: Vec<String>)
    ensures
        forall|x: int|
            0 <= x < kept@.len() ==> !node_paths_contain(nodes@, #[trigger] kept@[x]@)
                && !failure_paths_contain(failures@, kept@[x]@),
        forall|x: int, y: int| 0 <= x < y < kept@.len() ==> kept@[x]@ != kept@[y]@,
        forall|x: int|
            0 <= x < dep_paths@.len() ==> node_paths_contain(nodes@, #[trigger] dep_paths@[x]@)
                || failure_paths_contain(failures@, dep_paths@[x]@) || seq_views(
                kept@,
            ).contains(dep_paths@[x]@),
        forall|x: int|
            0 <= x < kept@.len() ==> seq_views(dep_paths@).contains(#[trigger] kept@[x]@),
{
    let mut kept: Vec<String> = Vec::new();
    let mut i: usize = 0;
    while i < dep_paths.len()
        invariant
            0 <= i <= dep_paths@.len(),
            forall|x: int|
                0 <= x < kept@.len() ==> !node_paths_contain(nodes@, #[trigger] kept@[x]@)
                    && !failure_paths_contain(failures@, kept@[x]@),
            forall|x: int, y: int| 0 <= x < y < kept@.len() ==> kept@[x]@ != kept@[y]@,
            forall|x: int|
                0 <= x < i ==> node_paths_contain(nodes@, #[trigger] dep_paths@[x]@)
                    || failure_paths_contain(failures@, dep_paths@[x]@) || seq_views(
                    kept@,
                ).contains(dep_paths@[x]@),
            forall|x: int|
                0 <= x < kept@.len() ==> seq_views(dep_paths@).contains(#[trigger] kept@[x]@),
        decreases dep_paths@.len() - i,
    {
        let d = &dep_paths[i];
        let is_node = find_node_index_by_path(nodes, d);
        let is_failure = failure_path_known(failures, d);
        let in_kept = crate::pathseg::vec_contains_str(&kept, d);
        if is_node.is_none() && !is_failure && !in_kept {
            let ghost old_kept = kept@;
            kept.push(d.clone());
            proof {
                assert(seq_views(kept@)[old_kept.len() as int] == dep_paths@[i as int]@);
                assert(seq_views(dep_paths@)[i as int] == dep_paths@[i as int]@);
                assert(forall|x: int|
                    0 <= x < old_kept.len() ==> seq_views(kept@)[x] == seq_views(old_kept)[x]);
                assert(forall|x: int| 0 <= x < kept@.len() ==> seq_views(kept@)[x] == kept@[x]@);
                assert(forall|x: int|
                    0 <= x < old_kept.len() ==> seq_views(old_kept)[x] == old_kept[x]@);
                assert forall|x: int, y: int|
                    0 <= x < y < kept@.len() implies kept@[x]@ != kept@[y]@ by {
                    if y == old_kept.len() {
                        assert(seq_views(old_kept)[x] != dep_paths@[i as int]@);
                    }
                }
                assert(forall|x: int|
                    0 <= x < i && seq_views(old_kept).contains(#[trigger] dep_paths@[x]@)
                        ==> seq_views(kept@).contains(dep_paths@[x]@)) by {
                    assert forall|x: int|
                        0 <= x < i && seq_views(old_kept).contains(#[trigger] dep_paths@[x]@)
                        implies seq_views(kept@).contains(dep_paths@[x]@) by {
                        let w = choose|w: int|
                            0 <= w < seq_views(old_kept).len() && seq_views(old_kept)[w]
                                == dep_paths@[x]@;
                        assert(seq_views(kept@)[w] == dep_paths@[x]@);
                    }
                }
            }
        } else {
            proof {
                if in_kept {
                    assert(seq_views(kept@).contains(dep_paths@[i as int]@));
                }
            }
        }
        i = i + 1;
    }
    kept
}

/// Appends each failure whose path is not yet recorded; the list stays
/// deduplicated and what was recorded stays recorded.
fn record_failures(failures: &mut Vec<AssetError>, fails: Vec<AssetError>)
    requires
        failures_unique(old(failures)@),
    ensures
        failures_unique(final(failures)@),
        final(failures)@.len() >= old(failures)@.len(),
        forall|i: int|
            0 <= i < old(failures)@.len() ==> final(failures)@[i] == old(failures)@[i],
        forall|x: int|
            0 <= x < fails@.len() ==> failure_paths_contain(
                final(failures)@,
                #[trigger] fails@[x].path@,
            ),
        forall|j: int|
            old(failures)@.len() <= j < final(failures)@.len() ==> #[trigger] fail_views_contain(
                fails@,
                final(failures)@[j]@,
            ),
{
    let ghost orig = failures@;
    let mut i: usize = 0;
    while i < fails.len()
        invariant
            0 <= i <= fails@.len(),
            failures_unique(failures@),
            failures@.len() >= orig.len(),
            forall|j: int| 0 <= j < orig.len() ==> failures@[j] == orig[j],
            forall|x: int|
                0 <= x < i ==> failure_paths_contain(failures@, #[trigger] fails@[x].path@),
            forall|j: int|
                orig.len() <= j < failures@.len() ==> #[trigger] fail_views_contain(
                    fails@,
                    failures@[j]@,
                ),
        decreases fails@.len() - i,
    {
        let known = failure_path_known(failures, &fails[i].path);
        if !known {
            let ghost before = failures@;
            let item = fails[i].clone();
            failures.push(item);
            proof {
                assert(failures@[before.len() as int].path@ == fails@[i as int].path@);
                assert forall|j: int|
                    orig.len() <= j < failures@.len() implies #[trigger] fail_views_contain(
                    fails@,
                    failures@[j]@,
                ) by {
                    if j < before.len() {
                        assert(failures@[j] == before[j]);
                        assert(fail_views_contain(fails@, before[j]@));
                    } else {
                        assert(failures@[j]@ == fails@[i as int]@);
                    }
                }
                assert(forall|x: int, y: int|
                    0 <= x < y < failures@.len() && y < before.len() ==> failures@[x].path@
                        != failures@[y].path@);
                assert forall|x: int|
                    0 <= x < i implies failure_paths_contain(
                    failures@,
                    #[trigger] fails@[x].path@,
                ) by {
                    let w = choose|w: int|
                        0 <= w < before.len() && before[w].path@ == fails@[x].path@;
                    assert(failures@[w].path@ == fails@[x].path@);
                }
            }
        }
        i = i + 1;
    }
}

/// Creates a node for each kept path: reads its imports, builds the asset,
/// and on success records it as a child of `cur`, one level deeper, and
/// puts it on the work list; a path whose asset cannot be built joins the
/// failures instead. The work list grows by exactly as many entries as the
/// node table.
fn create_nodes<F: Fn(&String) -> ImportSource>(
    nodes: &mut Vec<Asset>,
    conn: &mut Vec<Vec<NodeID>>,
    depths: &mut Vec<u32>,
    failures: &mut Vec<AssetError>,
    frontier: &mut Vec<NodeID>,
    cur: usize,
    kept: Vec<String>,
    fs: &Fs,
    read_asset: &F,
    max: u32,
    cfg: Ghost<(Seq<char>, Option<Seq<char>>, Seq<Seq<char>>)>,
)
    requires
        graph_wf(old(nodes)@, old(conn)@, old(depths)@, old(failures)@, max),
        frontier_ok(old(frontier)@, old(nodes)@.len() as int),
        cur < old(nodes)@.len(),
        old(depths)@[cur as int] < max,
        forall|x: int|
            0 <= x < kept@.len() ==> !node_paths_contain(old(nodes)@, #[trigger] kept@[x]@),
        forall|x: int, y: int| 0 <= x < y < kept@.len() ==> kept@[x]@ != kept@[y]@,
        forall|p: &String| #[trigger] call_requires(*read_asset, (p,)),
        fs matches Fs::Model { view } ==> edges_resolved(
            old(nodes)@,
            old(conn)@,
            cfg@.0,
            cfg@.1,
            cfg@.2,
            *view,
        ),
        fs matches Fs::Model { view } ==> forall|x: int|
            0 <= x < kept@.len() ==> #[trigger] path_resolved_from(
                old(nodes)@[cur as int],
                kept@[x]@,
                cfg@.0,
                cfg@.1,
                cfg@.2,
                *view,
            ),
        fs matches Fs::Model { view } ==> nodes_justified(*read_asset, old(nodes)@, *view),
        fs matches Fs::Model { view } ==> failures_sound(
            *read_asset,
            old(nodes)@,
            old(depths)@,
            max,
            old(failures)@,
            cfg@.0,
            cfg@.1,
            cfg@.2,
            *view,
        ),
    ensures
        graph_wf(final(nodes)@, final(conn)@, final(depths)@, final(failures)@, max),
        frontier_ok(final(frontier)@, final(nodes)@.len() as int),
        final(nodes)@.len() >= old(nodes)@.len(),
        forall|i: int| 0 <= i < old(nodes)@.len() ==> final(nodes)@[i] == old(nodes)@[i],
        final(nodes)@.len() - old(nodes)@.len() == final(frontier)@.len() - old(frontier)@.len(),
        final(failures)@.len() >= old(failures)@.len(),
        forall|i: int| 0 <= i < old(failures)@.len() ==> final(failures)@[i] == old(failures)@[i],
        forall|x: int|
            0 <= x < kept@.len() ==> node_paths_contain(final(nodes)@, #[trigger] kept@[x]@)
                || failure_paths_contain(final(failures)@, kept@[x]@),
        forall|i: int| 0 <= i < old(frontier)@.len() ==> final(frontier)@[i] == old(frontier)@[i],
        forall|i: int|
            old(frontier)@.len() <= i < final(frontier)@.len() ==> final(frontier)@[i] >= old(
                nodes,
            )@.len(),
        forall|c: int|
            old(nodes)@.len() <= c < final(nodes)@.len() ==> #[trigger] final(frontier)@.contains(
                c as usize,
            ),
        forall|i: int| 0 <= i < old(depths)@.len() ==> final(depths)@[i] == old(depths)@[i],
        fs matches Fs::Model { view } ==> edges_resolved(
            final(nodes)@,
            final(conn)@,
            cfg@.0,
            cfg@.1,
            cfg@.2,
            *view,
        ),
        fs matches Fs::Model { view } ==> nodes_justified(*read_asset, final(nodes)@, *view),
        fs matches Fs::Model { view } ==> failures_sound(
            *read_asset,
            final(nodes)@,
            final(depths)@,
            max,
            final(failures)@,
            cfg@.0,
            cfg@.1,
            cfg@.2,
            *view,
        ),
{
    let ghost nodes0 = nodes@;
    let ghost frontier0 = frontier@;
    let ghost failures0 = failures@;
    let ghost depths0 = depths@;
    let mut ci: usize = 0;
    while ci < kept.len()
        invariant
            0 <= ci <= kept@.len(),
            forall|c: int|
                nodes0.len() <= c < nodes@.len() ==> #[trigger] frontier@.contains(c as usize),
            depths0.len() == nodes0.len(),
            forall|i: int| 0 <= i < depths0.len() ==> depths@[i] == depths0[i],
            graph_wf(nodes@, conn@, depths@, failures@, max),
            frontier_ok(frontier@, nodes@.len() as int),
            cur < nodes0.len(),
            cur < nodes@.len(),
            nodes@.len() >= nodes0.len(),
            forall|i: int| 0 <= i < nodes0.len() ==> nodes@[i] == nodes0[i],
            depths@[cur as int] < max,
            nodes@.len() - nodes0.len() == frontier@.len() - frontier0.len(),
            frontier@.len() >= frontier0.len(),
            forall|i: int| 0 <= i < frontier0.len() ==> frontier@[i] == frontier0[i],
            forall|i: int|
                frontier0.len() <= i < frontier@.len() ==> frontier@[i] >= nodes0.len(),
            failures@.len() >= failures0.len(),
            forall|i: int| 0 <= i < failures0.len() ==> failures@[i] == failures0[i],
            forall|x: int|
                0 <= x < ci ==> node_paths_contain(nodes@, #[trigger] kept@[x]@)
                    || failure_paths_contain(failures@, kept@[x]@),
            forall|x: int|
                ci <= x < kept@.len() ==> !node_paths_contain(nodes@, #[trigger] kept@[x]@),
            forall|x: int, y: int| 0 <= x < y < kept@.len() ==> kept@[x]@ != kept@[y]@,
            forall|p: &String| #[trigger] call_requires(*read_asset, (p,)),
            fs matches Fs::Model { view } ==> edges_resolved(
                nodes@,
                conn@,
                cfg@.0,
                cfg@.1,
                cfg@.2,
                *view,
            ),
            fs matches Fs::Model { view } ==> forall|x: int|
                0 <= x < kept@.len() ==> #[trigger] path_resolved_from(
                    nodes0[cur as int],
                    kept@[x]@,
                    cfg@.0,
                    cfg@.1,
                    cfg@.2,
                    *view,
                ),
            fs matches Fs::Model { view } ==> nodes_justified(*read_asset, nodes@, *view),
            fs matches Fs::Model { view } ==> failures_sound(
                *read_asset,
                nodes@,
                depths@,
                max,
                failures@,
                cfg@.0,
                cfg@.1,
                cfg@.2,
                *view,
            ),
        decreases kept@.len() - ci,
    {
        let path = &kept[ci];
        let source = read_asset(path);
        let outcome = Asset::new(path, source, fs);
        match outcome {
            Ok(asset) => {
                let id = nodes.len();
                let ghost nodes_b = nodes@;
                let ghost conn_b = conn@;
                let ghost depths_b = depths@;
                let ghost frontier_b = frontier@;
                let d = depths[cur] + 1;
                nodes.push(asset);
                conn.push(Vec::new());
                depths.push(d);
                let ghost conn_m = conn@;
                conn[cur].push(id);
                frontier.push(id);
                proof {
                    let n1 = nodes@.len() as int;
                    assert(nodes@[id as int].path@ == kept@[ci as int]@);
                    // No other node holds the new path.
                    assert(paths_unique(nodes@)) by {
                        assert forall|i: int, j: int|
                            0 <= i < j < n1 implies nodes@[i].path@ != nodes@[j].path@ by {
                            if j < id {
                                assert(nodes_b[i].path@ != nodes_b[j].path@);
                            } else {
                                assert(!node_paths_contain(nodes_b, kept@[ci as int]@));
                                assert(nodes_b[i].path@ != kept@[ci as int]@);
                            }
                        }
                    }
                    // The grown child list keeps its old entries.
                    assert(conn@[cur as int]@ == conn_b[cur as int]@.push(id));
                    assert(forall|i: int|
                        0 <= i < conn_b.len() && i != cur ==> conn@[i]@ == conn_b[i]@);
                    assert(conn@[id as int]@.len() == 0);
                    assert(conn_wf(conn@, depths@, n1)) by {
                        assert forall|i: int, k: int|
                            0 <= i < conn@.len() && 0 <= k < conn@[i]@.len() implies {
                            let c = #[trigger] conn@[i]@[k];
                            i < c < n1 && depths@[c as int] == depths@[i] + 1
                        } by {
                            if i == cur && k == conn_b[cur as int]@.len() {
                                assert(conn@[i]@[k] == id);
                            } else if i < conn_b.len() {
                                assert(conn@[i]@[k] == conn_b[i]@[k]);
                            }
                        }
                    }
                    assert(child_unique(conn@)) by {
                        assert forall|i1: int, k1: int, i2: int, k2: int|
                            #![trigger conn@[i1]@[k1], conn@[i2]@[k2]]
                            0 <= i1 < conn@.len() && 0 <= k1 < conn@[i1]@.len() && 0 <= i2
                                < conn@.len() && 0 <= k2 < conn@[i2]@.len() && (i1 != i2 || k1
                                != k2) implies conn@[i1]@[k1] != conn@[i2]@[k2] by {
                            let new1 = i1 == cur && k1 == conn_b[cur as int]@.len();
                            let new2 = i2 == cur && k2 == conn_b[cur as int]@.len();
                            if new1 && !new2 {
                                assert(conn@[i2]@[k2] == conn_b[i2]@[k2]);
                                assert(conn_b[i2]@[k2] < id);
                            } else if !new1 && new2 {
                                assert(conn@[i1]@[k1] == conn_b[i1]@[k1]);
                                assert(conn_b[i1]@[k1] < id);
                            } else if !new1 && !new2 {
                                assert(conn@[i1]@[k1] == conn_b[i1]@[k1]);
                                assert(conn@[i2]@[k2] == conn_b[i2]@[k2]);
                            }
                        }
                    }
                    assert(nonroots_are_children(conn@, n1)) by {
                        assert forall|c: int| 1 <= c < n1 implies #[trigger] is_child_of(
                            conn@,
                            c,
                        ) by {
                            if c == id {
                                assert(conn@[cur as int]@[conn_b[cur as int]@.len() as int]
                                    == id);
                            } else {
                                assert(is_child_of(conn_b, c));
                                let (i, k) = choose|i: int, k: int|
                                    0 <= i < conn_b.len() && 0 <= k < conn_b[i]@.len()
                                        && conn_b[i]@[k] == c;
                                if i == cur {
                                    assert(conn@[i]@[k] == c);
                                } else {
                                    assert(conn@[i]@[k] == c);
                                }
                            }
                        }
                    }
                    assert(leaves_beyond(conn@, depths@, max)) by {
                        assert forall|i: int|
                            0 <= i < conn@.len() && depths@[i] >= max implies (
                        #[trigger] conn@[i]@).len() == 0 by {
                            if i < conn_b.len() && i != cur {
                                assert(conn@[i]@ == conn_b[i]@);
                            }
                        }
                    }
                    // Each already-processed path stays accounted for.
                    assert forall|x: int|
                        0 <= x <= ci implies node_paths_contain(nodes@, #[trigger] kept@[x]@)
                        || failure_paths_contain(failures@, kept@[x]@) by {
                        if x == ci {
                            assert(nodes@[id as int].path@ == kept@[ci as int]@);
                        } else if node_paths_contain(nodes_b, kept@[x]@) {
                            let w = choose|w: int|
                                0 <= w < nodes_b.len() && nodes_b[w].path@ == kept@[x]@;
                            assert(nodes@[w].path@ == kept@[x]@);
                        }
                    }
                    // Every node created by this call is on the work list.
                    assert forall|c: int|
                        nodes0.len() <= c < nodes@.len() implies #[trigger] frontier@.contains(
                        c as usize,
                    ) by {
                        if c == id {
                            assert(frontier@[frontier@.len() - 1] == id);
                        } else {
                            assert(frontier_b.contains(c as usize));
                            let w = choose|w: int|
                                0 <= w < frontier_b.len() && frontier_b[w] == c as usize;
                            assert(frontier@[w] == c as usize);
                        }
                    }
                    // Every edge, the new one included, is backed by a
                    // resolution.
                    let fsg = *fs;
                    if fsg is Model {
                        let v = fsg->view;
                        assert forall|i: int, k: int|
                            #![trigger conn@[i]@[k]]
                            0 <= i < conn@.len() && 0 <= k < conn@[i]@.len() && i < nodes@.len()
                                && conn@[i]@[k] < nodes@.len() implies path_resolved_from(
                            nodes@[i],
                            nodes@[conn@[i]@[k] as int].path@,
                            cfg@.0,
                            cfg@.1,
                            cfg@.2,
                            v,
                        ) by {
                            if i == cur && k == conn_b[cur as int]@.len() {
                                assert(conn@[i]@[k] == id);
                                assert(nodes@[id as int].path@ == kept@[ci as int]@);
                                assert(nodes@[cur as int] == nodes_b[cur as int]);
                                assert(nodes_b[cur as int] == nodes0[cur as int]);
                                assert(path_resolved_from(
                                    nodes0[cur as int],
                                    kept@[ci as int]@,
                                    cfg@.0,
                                    cfg@.1,
                                    cfg@.2,
                                    v,
                                ));
                            } else {
                                assert(conn@[i]@[k] == conn_b[i]@[k]);
                                assert(conn_b[i]@[k] < id);
                                assert(nodes@[i] == nodes_b[i]);
                                assert(nodes@[conn_b[i]@[k] as int] == nodes_b[conn_b[i]@[
                                    k
                                ] as int]);
                                assert(path_resolved_from(
                                    nodes_b[i],
                                    nodes_b[conn_b[i]@[k] as int].path@,
                                    cfg@.0,
                                    cfg@.1,
                                    cfg@.2,
                                    v,
                                ));
                            }
                        }
                        // The new node is genuine, and the old ones stay so.
                        assert forall|i: int|
                            0 <= i < nodes@.len() implies #[trigger] node_justified(
                            *read_asset,
                            nodes@[i],
                            v,
                        ) by {
                            if i == id {
                                assert(nodes@[id as int] == asset);
                                assert(asset.path == *path);
                                assert(call_ensures(*read_asset, (path,), source));
                                assert(call_ensures(*read_asset, (&asset.path,), source));
                                assert(asset_new_spec(asset.path@, source_outcome(source), v)
                                    == Ok::<AssetView, AssetErrorView>(asset@));
                            } else {
                                assert(nodes@[i] == nodes_b[i]);
                                assert(node_justified(*read_asset, nodes_b[i], v));
                            }
                        }
                        // The recorded failures stay genuine as the graph
                        // grows.
                        assert forall|j: int|
                            0 <= j < failures@.len() implies #[trigger] failure_justified(
                            *read_asset,
                            nodes@,
                            depths@,
                            max,
                            failures@[j],
                            cfg@.0,
                            cfg@.1,
                            cfg@.2,
                            v,
                        ) by {
                            assert(failure_justified(
                                *read_asset,
                                nodes_b,
                                depths_b,
                                max,
                                failures@[j],
                                cfg@.0,
                                cfg@.1,
                                cfg@.2,
                                v,
                            ));
                            lemma_failure_justified_monotone(
                                *read_asset,
                                nodes_b,
                                depths_b,
                                nodes@,
                                depths@,
                                max,
                                failures@[j],
                                cfg@.0,
                                cfg@.1,
                                cfg@.2,
                                v,
                            );
                        }
                    }
                }
            },
            Err(e) => {
                let known = failure_path_known(failures, &e.path);
                let ghost failures_b = failures@;
                if !known {
                    proof {
                        assert(e.path@ == kept@[ci as int]@);
                    }
                    failures.push(e);
                    proof {
                        assert(forall|x: int, y: int|
                            0 <= x < y < failures@.len() && y < failures_b.len()
                                ==> failures@[x].path@ != failures@[y].path@);
                        let fsg = *fs;
                        if fsg is Model {
                            let v = fsg->view;
                            // The pushed failure is genuine: its path is a
                            // resolution of one of `cur`'s references, and
                            // the reader's answer failed to build it.
                            assert(path_resolved_from(
                                nodes0[cur as int],
                                kept@[ci as int]@,
                                cfg@.0,
                                cfg@.1,
                                cfg@.2,
                                v,
                            ));
                            let m = choose|m: int|
                                0 <= m < nodes0[cur as int].imports@.len()
                                    && #[trigger] locate_ref_spec(
                                    nodes0[cur as int].imports@[m]@,
                                    cfg@.0,
                                    cfg@.1,
                                    cfg@.2,
                                    v,
                                ) == Ok::<Seq<char>, AssetErrorView>(kept@[ci as int]@);
                            assert(nodes@[cur as int] == nodes0[cur as int]);
                            assert(locate_ref_spec(
                                nodes@[cur as int].imports@[m]@,
                                cfg@.0,
                                cfg@.1,
                                cfg@.2,
                                v,
                            ) == Ok::<Seq<char>, AssetErrorView>(e.path@));
                            assert(some_ref_resolves_to(
                                nodes@,
                                depths@,
                                max,
                                e.path@,
                                cfg@.0,
                                cfg@.1,
                                cfg@.2,
                                v,
                            ));
                            assert(e.path == *path);
                            assert(call_ensures(*read_asset, (path,), source));
                            assert(call_ensures(*read_asset, (&e.path,), source));
                            assert(asset_new_spec(e.path@, source_outcome(source), v)
                                == Err::<AssetView, AssetErrorView>(e@));
                            assert(creation_failed_witness(*read_asset, e, v));
                            assert forall|j: int|
                                0 <= j < failures@.len() implies #[trigger] failure_justified(
                                *read_asset,
                                nodes@,
                                depths@,
                                max,
                                failures@[j],
                                cfg@.0,
                                cfg@.1,
                                cfg@.2,
                                v,
                            ) by {
                                if j < failures_b.len() {
                                    assert(failures@[j] == failures_b[j]);
                                    assert(failure_justified(
                                        *read_asset,
                                        nodes@,
                                        depths@,
                                        max,
                                        failures_b[j],
                                        cfg@.0,
                                        cfg@.1,
                                        cfg@.2,
                                        v,
                                    ));
                                } else {
                                    assert(failures@[j] == e);
                                }
                            }
                        }
                    }
                }
                proof {
                    assert forall|x: int|
                        0 <= x <= ci implies node_paths_contain(nodes@, #[trigger] kept@[x]@)
                        || failure_paths_contain(failures@, kept@[x]@) by {
                        if x == ci {
                            if known {
                                assert(failure_paths_contain(failures@, kept@[ci as int]@));
                            } else {
                                assert(failures@[failures_b.len() as int].path@ == kept@[
                                    ci as int
                                ]@);
                            }
                        } else if failure_paths_contain(failures_b, kept@[x]@) {
                            let w = choose|w: int|
                                0 <= w < failures_b.len() && failures_b[w].path@ == kept@[x]@;
                            assert(failures@[w].path@ == kept@[x]@);
                        }
                    }
                }
            },
        }
        ci = ci + 1;
    }
}

impl DepTree {
    /// Builds the dependency tree of the configured root asset. The root's
    /// import list is obtained through `read_asset`, as is each discovered
    /// node's. Only a root that cannot be turned into an asset fails the
    /// build; every later unresolvable reference is collected instead. The
    /// returned tree satisfies every invariant of `wf`, and its root is
    /// node 0 at depth 0. Against a modelled file system the result is
    /// pinned down both ways: every node below the depth bound is fully
    /// expanded (`expansion_complete`), every node was really built from a
    /// source the reader answers for its path (`nodes_justified`), and no
    /// edge or failure is invented (`edges_resolved`, `failures_sound`).
    pub fn build<F: Fn(&String) -> ImportSource>(
        asset_dirs: &AssetDirs,
        max_recurse_depth: u32,
        fs: &Fs,
        read_asset: &F,
    ) -> (r: Result<DepTree, AssetError>)
        requires
            asset_dirs.asset_file_path is Some,
            asset_dirs.content_dir is Some,
            forall|p: &String| #[trigger] call_requires(*read_asset, (p,)),
        ensures
            match r {
                Ok(t) => {
                    &&& t.wf()
                    &&& t.max_recurse_depth == max_recurse_depth
                    &&& (asset_dirs.asset_file_path matches Some(p) ==> t.nodes@[0].path@ == p@)
                    &&& (fs matches Fs::Model { view } ==> (asset_dirs.content_dir matches Some(
                        cd,
                    ) ==> expansion_complete(
                        t.nodes@,
                        t.recurse_depths@,
                        t.failures@,
                        max_recurse_depth,
                        cd@,
                        opt_view(asset_dirs.engine_content_dir),
                        seq_views(asset_dirs.plugins_dirs@),
                        *view,
                    )))
                    &&& (fs matches Fs::Model { view } ==> (asset_dirs.content_dir matches Some(
                        cd,
                    ) ==> edges_resolved(
                        t.nodes@,
                        t.node_connections@,
                        cd@,
                        opt_view(asset_dirs.engine_content_dir),
                        seq_views(asset_dirs.plugins_dirs@),
                        *view,
                    )))
                    &&& (fs matches Fs::Model { view } ==> nodes_justified(
                        *read_asset,
                        t.nodes@,
                        *view,
                    ))
                    &&& (fs matches Fs::Model { view } ==> (asset_dirs.content_dir matches Some(
                        cd,
                    ) ==> failures_sound(
                        *read_asset,
                        t.nodes@,
                        t.recurse_depths@,
                        max_recurse_depth,
                        t.failures@,
                        cd@,
                        opt_view(asset_dirs.engine_content_dir),
                        seq_views(asset_dirs.plugins_dirs@),
                        *view,
                    )))
                },
                Err(e) => {
                    &&& asset_dirs.asset_file_path matches Some(p) && e.path@ == p@
                    &&& (fs matches Fs::Model { view } ==> (asset_dirs.asset_file_path
                        matches Some(p) ==> exists|src: ImportSource|
                        {
                            &&& #[trigger] call_ensures(*read_asset, (&p,), src)
                            &&& asset_new_spec(p@, source_outcome(src), *view)
                                == Err::<AssetView, AssetErrorView>(e@)
                        }))
                },
            },
    {
        let root_path: &String = asset_dirs.asset_file_path.as_ref().unwrap();
        let source = read_asset(root_path);
        let root_asset = match Asset::new(root_path, source, fs) {
            Ok(a) => a,
            Err(e) => {
                proof {
                    let ghost fsg = *fs;
                    if fsg is Model {
                        assert(call_ensures(*read_asset, (root_path,), source));
                    }
                }
                return Err(e);
            },
        };

        let mut nodes: Vec<Asset> = Vec::new();
        let mut conn: Vec<Vec<NodeID>> = Vec::new();
        let mut depths: Vec<u32> = Vec::new();
        let mut failures: Vec<AssetError> = Vec::new();
        let mut frontier: Vec<NodeID> = Vec::new();
        nodes.push(root_asset);
        conn.push(Vec::new());
        depths.push(0);
        frontier.push(0);

        let ghost root_path_view = root_path@;
        proof {
            assert(frontier@[0] == 0usize);
            let fsg = *fs;
            if fsg is Model {
                let v = fsg->view;
                assert(nodes@[0] == root_asset);
                assert(root_asset.path == *root_path);
                assert(call_ensures(*read_asset, (root_path,), source));
                assert(call_ensures(*read_asset, (&root_asset.path,), source));
                assert(asset_new_spec(root_asset.path@, source_outcome(source), v) == Ok::<
                    AssetView,
                    AssetErrorView,
                >(root_asset@));
                assert(node_justified(*read_asset, root_asset, v));
            }
        }
        loop
            invariant
                graph_wf(nodes@, conn@, depths@, failures@, max_recurse_depth),
                frontier_ok(frontier@, nodes@.len() as int),
                nodes@[0].path@ == root_path_view,
                asset_dirs.content_dir is Some,
                forall|p: &String| #[trigger] call_requires(*read_asset, (p,)),
                fs matches Fs::Model { view } ==> (asset_dirs.content_dir matches Some(cd)
                    ==> forall|i: int|
                    0 <= i < nodes@.len() && depths@[i] < max_recurse_depth
                        && !frontier@.contains(i as usize) ==> #[trigger] node_expanded(
                        nodes@,
                        failures@,
                        i,
                        cd@,
                        opt_view(asset_dirs.engine_content_dir),
                        seq_views(asset_dirs.plugins_dirs@),
                        *view,
                    )),
                fs matches Fs::Model { view } ==> (asset_dirs.content_dir matches Some(cd)
                    ==> edges_resolved(
                    nodes@,
                    conn@,
                    cd@,
                    opt_view(asset_dirs.engine_content_dir),
                    seq_views(asset_dirs.plugins_dirs@),
                    *view,
                )),
                fs matches Fs::Model { view } ==> (asset_dirs.content_dir matches Some(cd)
                    ==> failures_sound(
                    *read_asset,
                    nodes@,
                    depths@,
                    max_recurse_depth,
                    failures@,
                    cd@,
                    opt_view(asset_dirs.engine_content_dir),
                    seq_views(asset_dirs.plugins_dirs@),
                    *view,
                )),
                fs matches Fs::Model { view } ==> nodes_justified(*read_asset, nodes@, *view),
            ensures
                frontier@.len() == 0,
            decreases usize::MAX - nodes.len(), frontier.len(),
        {
            let ghost frontier_head = frontier@;
            let cur = match frontier.pop() {
                Some(c) => c,
                None => {
                    break;
                },
            };
            if depths[cur] >= max_recurse_depth {
                proof {
                    assert(frontier_head =~= frontier@.push(cur));
                    assert forall|i: int|
                        0 <= i < nodes@.len() && i != cur && !frontier@.contains(
                            i as usize,
                        ) implies !(#[trigger] frontier_head.contains(i as usize)) by {
                        if frontier_head.contains(i as usize) {
                            let w = choose|w: int|
                                0 <= w < frontier_head.len() && frontier_head[w] == (i as usize);
                            if w < frontier@.len() {
                                assert(frontier@[w] == (i as usize));
                            }
                        }
                    }
                }
                continue;
            }
            let ghost frontier_pop = frontier@;
            let ghost nodes_a = nodes@;
            let ghost failures_a = failures@;
            let content_dir: &String = asset_dirs.content_dir.as_ref().unwrap();
            let (dep_paths, fails) = nodes[cur].get_dependency_asset_paths(
                content_dir,
                &asset_dirs.engine_content_dir,
                &asset_dirs.plugins_dirs,
                fs,
            );
            let kept = collect_new_paths(&nodes, &failures, &dep_paths);
            record_failures(&mut failures, fails);
            let ghost failures_b = failures@;
            proof {
                let fsg0 = *fs;
                if fsg0 is Model {
                    let v0 = fsg0->view;
                    let cd0 = content_dir@;
                    let ecd0 = opt_view(asset_dirs.engine_content_dir);
                    let plugins0 = seq_views(asset_dirs.plugins_dirs@);
                    let names0 = seq_views(nodes@[cur as int].imports@);
                    let rr0 = resolve_all_spec(names0, cd0, ecd0, plugins0, v0);
                    assert(seq_views(dep_paths@) == rr0.0);
                    assert forall|x: int| 0 <= x < kept@.len() implies #[trigger] path_resolved_from(
                        nodes@[cur as int],
                        kept@[x]@,
                        cd0,
                        ecd0,
                        plugins0,
                        v0,
                    ) by {
                        assert(seq_views(dep_paths@).contains(kept@[x]@));
                        let w = choose|w: int|
                            0 <= w < seq_views(dep_paths@).len() && seq_views(dep_paths@)[w]
                                == kept@[x]@;
                        crate::locate::lemma_resolve_all_sound(names0, cd0, ecd0, plugins0, v0, w);
                        let m = choose|m: int|
                            0 <= m < names0.len() && locate_ref_spec(
                                names0[m],
                                cd0,
                                ecd0,
                                plugins0,
                                v0,
                            ) == Ok::<Seq<char>, AssetErrorView>(rr0.0[w]);
                        assert(names0[m] == nodes@[cur as int].imports@[m]@);
                        assert(0 <= m < nodes@[cur as int].imports@.len() && locate_ref_spec(
                            nodes@[cur as int].imports@[m]@,
                            cd0,
                            ecd0,
                            plugins0,
                            v0,
                        ) == Ok::<Seq<char>, AssetErrorView>(kept@[x]@));
                    }
                    // The failures recorded from this node's resolution are
                    // genuine, and the earlier ones stay so unchanged.
                    assert forall|j: int|
                        0 <= j < failures@.len() implies #[trigger] failure_justified(
                        *read_asset,
                        nodes@,
                        depths@,
                        max_recurse_depth,
                        failures@[j],
                        cd0,
                        ecd0,
                        plugins0,
                        v0,
                    ) by {
                        if j < failures_a.len() {
                            assert(failures@[j] == failures_a[j]);
                            assert(failure_justified(
                                *read_asset,
                                nodes@,
                                depths@,
                                max_recurse_depth,
                                failures_a[j],
                                cd0,
                                ecd0,
                                plugins0,
                                v0,
                            ));
                        } else {
                            assert(fail_views_contain(fails@, failures@[j]@));
                            let x = choose|x: int|
                                0 <= x < fails@.len() && fails@[x]@ == failures@[j]@;
                            assert(fails@.map_values(|e: AssetError| e@)[x] == fails@[x]@);
                            assert(rr0.1[x] == fails@[x]@);
                            crate::locate::lemma_resolve_all_sound_err(
                                names0,
                                cd0,
                                ecd0,
                                plugins0,
                                v0,
                                x,
                            );
                            let m = choose|m: int|
                                0 <= m < names0.len() && locate_ref_spec(
                                    names0[m],
                                    cd0,
                                    ecd0,
                                    plugins0,
                                    v0,
                                ) == Err::<Seq<char>, AssetErrorView>(rr0.1[x]);
                            assert(names0[m] == nodes@[cur as int].imports@[m]@);
                            assert(depths@[cur as int] < max_recurse_depth);
                            assert(locate_ref_spec(
                                nodes@[cur as int].imports@[m]@,
                                cd0,
                                ecd0,
                                plugins0,
                                v0,
                            ) == Err::<Seq<char>, AssetErrorView>(failures@[j]@));
                            assert(some_ref_errs_to(
                                nodes@,
                                depths@,
                                max_recurse_depth,
                                failures@[j]@,
                                cd0,
                                ecd0,
                                plugins0,
                                v0,
                            ));
                        }
                    }
                }
            }
            create_nodes(
                &mut nodes,
                &mut conn,
                &mut depths,
                &mut failures,
                &mut frontier,
                cur,
                kept,
                fs,
                read_asset,
                max_recurse_depth,
                Ghost(
                    (
                        content_dir@,
                        opt_view(asset_dirs.engine_content_dir),
                        seq_views(asset_dirs.plugins_dirs@),
                    ),
                ),
            );
            proof {
                let ghost fsg = *fs;
                if fsg is Model {
                    let v = fsg->view;
                    let cd = content_dir@;
                    let ecd = opt_view(asset_dirs.engine_content_dir);
                    let plugins = seq_views(asset_dirs.plugins_dirs@);
                    let names = seq_views(nodes_a[cur as int].imports@);
                    let rr = resolve_all_spec(names, cd, ecd, plugins, v);
                    assert(seq_views(dep_paths@) == rr.0);
                    assert(fails@.map_values(|e: AssetError| e@) == rr.1);
                    // The expanded node's references are all accounted for.
                    assert(node_expanded(nodes@, failures@, cur as int, cd, ecd, plugins, v)) by {
                        assert(nodes@[cur as int] == nodes_a[cur as int]);
                        assert forall|k: int|
                            0 <= k < nodes@[cur as int].imports@.len() implies ref_accounted(
                            nodes@,
                            failures@,
                            #[trigger] locate_ref_spec(
                                nodes@[cur as int].imports@[k]@,
                                cd,
                                ecd,
                                plugins,
                                v,
                            ),
                        ) by {
                            crate::locate::lemma_resolve_all_covers(names, cd, ecd, plugins, v, k);
                            assert(names[k] == nodes@[cur as int].imports@[k]@);
                            match locate_ref_spec(names[k], cd, ecd, plugins, v) {
                                Ok(p) => {
                                    let w = choose|w: int|
                                        0 <= w < rr.0.len() && rr.0[w] == p;
                                    assert(seq_views(dep_paths@)[w] == p);
                                    assert(dep_paths@[w]@ == p);
                                    if node_paths_contain(nodes_a, p) {
                                        let u = choose|u: int|
                                            0 <= u < nodes_a.len() && nodes_a[u].path@ == p;
                                        assert(nodes@[u].path@ == p);
                                    } else if failure_paths_contain(failures_a, p) {
                                        let u = choose|u: int|
                                            0 <= u < failures_a.len() && failures_a[u].path@ == p;
                                        assert(failures_b[u].path@ == p);
                                        assert(failures@[u].path@ == p);
                                    } else {
                                        assert(seq_views(kept@).contains(p));
                                        let u = choose|u: int|
                                            0 <= u < seq_views(kept@).len() && seq_views(
                                                kept@,
                                            )[u] == p;
                                        assert(kept@[u]@ == p);
                                        assert(node_paths_contain(nodes@, kept@[u]@)
                                            || failure_paths_contain(failures@, kept@[u]@));
                                    }
                                },
                                Err(e) => {
                                    let w = choose|w: int|
                                        0 <= w < rr.1.len() && rr.1[w] == e;
                                    assert(fails@.map_values(|x: AssetError| x@)[w] == e);
                                    assert(fails@[w]@ == e);
                                    assert(fails@[w].path@ == e.path);
                                    let u = choose|u: int|
                                        0 <= u < failures_b.len() && failures_b[u].path@
                                            == e.path;
                                    assert(failures@[u].path@ == e.path);
                                },
                            }
                        }
                    }
                    // Every other settled node stays settled.
                    assert forall|i: int|
                        0 <= i < nodes@.len() && depths@[i] < max_recurse_depth
                            && !frontier@.contains(i as usize) implies #[trigger] node_expanded(
                        nodes@,
                        failures@,
                        i,
                        cd,
                        ecd,
                        plugins,
                        v,
                    ) by {
                        if i == cur {
                        } else if i >= nodes_a.len() {
                            assert(frontier@.contains(i as usize));
                        } else {
                            assert(!frontier_pop.contains(i as usize)) by {
                                if frontier_pop.contains(i as usize) {
                                    let w = choose|w: int|
                                        0 <= w < frontier_pop.len() && frontier_pop[w] == (
                                        i as usize);
                                    assert(frontier@[w] == (i as usize));
                                }
                            }
                            assert(!frontier_head.contains(i as usize)) by {
                                assert(frontier_head =~= frontier_pop.push(cur));
                                if frontier_head.contains(i as usize) {
                                    let w = choose|w: int|
                                        0 <= w < frontier_head.len() && frontier_head[w] == (
                                        i as usize);
                                    if w < frontier_pop.len() {
                                        assert(frontier_pop[w] == (i as usize));
                                    }
                                }
                            }
                            assert(node_expanded(nodes_a, failures_a, i, cd, ecd, plugins, v));
                            lemma_expanded_monotone(
                                nodes_a,
                                failures_a,
                                nodes@,
                                failures@,
                                i,
                                cd,
                                ecd,
                                plugins,
                                v,
                            );
                        }
                    }
                }
            }
        }

        proof {
            let ghost fsg = *fs;
            if fsg is Model {
                let v = fsg->view;
                match &asset_dirs.content_dir {
                    Some(cd) => {
                        assert forall|i: int|
                            0 <= i < nodes@.len() && depths@[i]
                                < max_recurse_depth implies #[trigger] node_expanded(
                            nodes@,
                            failures@,
                            i,
                            cd@,
                            opt_view(asset_dirs.engine_content_dir),
                            seq_views(asset_dirs.plugins_dirs@),
                            v,
                        ) by {
                            assert(!frontier@.contains(i as usize));
                        }
                    },
                    None => {},
                }
            }
        }
        Ok(DepTree {
            root_node_id: 0,
            nodes,
            node_connections: conn,
            failures,
            max_recurse_depth,
            recurse_depths: depths,
        })
    }

    /// The node with identifier `id`, if there is one.
    pub fn get_node(&self, id: NodeID) -> (r: Option<&Asset>)
        ensures
            match r {
                Some(a) => id < self.nodes@.len() && *a == self.nodes@[id as int],
                None => id >= self.nodes@.len(),
            },
    {
        if id < self.nodes.len() {
            Some(&self.nodes[id])
        } else {
            None
        }
    }

    /// The root node.
    pub fn get_root_node(&self) -> (r: &Asset)
        requires
            self.wf(),
        ensures
            *r == self.nodes@[self.root_node_id as int],
    {
        &self.nodes[self.root_node_id]
    }

    /// The node holding `path`, if one does.
    pub fn find_node_by_path(&self, path: &String) -> (r: Option<&Asset>)
        ensures
            match r {
                Some(a) => a.path@ == path@ && node_paths_contain(self.nodes@, path@),
                None => !node_paths_contain(self.nodes@, path@),
            },
    {
        match find_node_index_by_path(&self.nodes, path) {
            Some(i) => Some(&self.nodes[i]),
            None => None,
        }
    }

    /// The identifiers of `id`'s recorded children, in discovery order;
    /// empty if none are recorded or `id` names no node.
    pub fn get_node_connections(&self, id: NodeID) -> (r: Vec<NodeID>)
        ensures
            id < self.node_connections@.len() ==> r@ == self.node_connections@[id as int]@,
            id >= self.node_connections@.len() ==> r@.len() == 0,
    {
        let mut r: Vec<NodeID> = Vec::new();
        if id < self.node_connections.len() {
            let list = &self.node_connections[id];
            let mut k: usize = 0;
            while k < list.len()
                invariant
                    0 <= k <= list@.len(),
                    r@ == list@.take(k as int),
            decreases list@.len() - k,
            {
                r.push(list[k]);
                proof {
                    assert(list@.take(k + 1) =~= list@.take(k as int).push(list@[k as int]));
                }
                k = k + 1;
            }
            proof {
                assert(list@.take(list@.len() as int) =~= list@);
            }
        }
        r
    }

    /// The recorded depth of node `id`: zero for the root, one more than
    /// its parent for every other node.
    pub fn get_recurse_depth(&self, id: NodeID) -> (r: Option<u32>)
        ensures
            match r {
                Some(d) => id < self.recurse_depths@.len() && d == self.recurse_depths@[id as int],
                None => id >= self.recurse_depths@.len(),
            },
    {
        if id < self.recurse_depths.len() {
            Some(self.recurse_depths[id])
        } else {
            None
        }
    }

    /// The first node recording `id` as a child. In a well-formed tree
    /// every node but the root has exactly one, and it sits one level
    /// above `id`.
    pub fn get_parent_node_id(&self, id: NodeID) -> (r: Option<NodeID>)
        ensures
            match r {
                Some(p) => p < self.node_connections@.len() && self.node_connections@[
                    p as int
                ]@.contains(id),
                None => forall|i: int|
                    0 <= i < self.node_connections@.len() ==> !(
                    #[trigger] self.node_connections@[i]@).contains(id),
            },
            self.wf() ==> (r matches Some(p) ==> id < self.recurse_depths@.len()
                && self.recurse_depths@[id as int] == self.recurse_depths@[p as int] + 1),
            self.wf() && 0 < id < self.nodes@.len() ==> r is Some,
    {
        let mut i: usize = 0;
        while i < self.node_connections.len()
            invariant
                0 <= i <= self.node_connections@.len(),
                forall|j: int|
                    0 <= j < i ==> !(#[trigger] self.node_connections@[j]@).contains(id),
            decreases self.node_connections@.len() - i,
        {
            if contains_id(&self.node_connections[i], id) {
                proof {
                    if self.wf() {
                        let k = choose|k: int|
                            0 <= k < self.node_connections@[i as int]@.len()
                                && self.node_connections@[i as int]@[k] == id;
                        assert(self.recurse_depths@[id as int] == self.recurse_depths@[
                            i as int
                        ] + 1);
                    }
                }
                return Some(i);
            }
            i = i + 1;
        }
        proof {
            if self.wf() && 0 < id < self.nodes@.len() {
                assert(is_child_of(self.node_connections@, id as int));
                let (p, k) = choose|p: int, k: int|
                    0 <= p < self.node_connections@.len() && 0 <= k < self.node_connections@[
                        p
                    ]@.len() && self.node_connections@[p]@[k] == id;
                assert(self.node_connections@[p]@.contains(id));
                assert(false);
            }
        }
        None
    }

    /// The first node recording `id` as a child, as a node.
    pub fn get_parent_node(&self, id: NodeID) -> (r: Option<&Asset>)
        ensures
            match r {
                Some(a) => exists|p: int|
                    0 <= p < self.node_connections@.len() && (
                    #[trigger] self.node_connections@[p]@).contains(id) && p < self.nodes@.len()
                        && *a == self.nodes@[p],
                None => true,
            },
            self.wf() && 0 < id < self.nodes@.len() ==> r is Some,
    {
        match self.get_parent_node_id(id) {
            Some(p) => {
                if p < self.nodes.len() {
                    let a = &self.nodes[p];
                    proof {
                        assert(self.node_connections@[p as int]@.contains(id));
                    }
                    Some(a)
                } else {
                    proof {
                        if self.wf() {
                            assert(false);
                        }
                    }
                    None
                }
            },
            None => None,
        }
    }
}

/// Whether `v` holds the identifier `x`.
fn contains_id(v: &Vec<NodeID>, x: NodeID) -> (r: bool)
    ensures
        r == v@.contains(x),
{
    let mut i: usize = 0;
    while i < v.len()
        invariant
            0 <= i <= v@.len(),
            forall|j: int| 0 <= j < i ==> v@[j] != x,
        decreases v@.len() - i,
    {
        if v[i] == x {
            return true;
        }
        i = i + 1;
    }
    false
}

/// Law: no two nodes of a built tree hold the same path.
pub proof fn lemma_no_duplicate_nodes(t: &DepTree, i: int, j: int)
    requires
        t.wf(),
        0 <= i < t.nodes@.len(),
        0 <= j < t.nodes@.len(),
        i != j,
    ensures
        t.nodes@[i].path@ != t.nodes@[j].path@,
{
}

/// Law: the root sits at depth zero, and along every recorded edge the
/// depth grows by exactly one.
pub proof fn lemma_depth_monotonic(t: &DepTree, p: int, k: int)
    requires
        t.wf(),
        0 <= p < t.node_connections@.len(),
        0 <= k < t.node_connections@[p]@.len(),
    ensures
        t.recurse_depths@[t.root_node_id as int] == 0,
        t.recurse_depths@[t.node_connections@[p]@[k] as int] == t.recurse_depths@[p] + 1,
{
}

/// Law: every node but the root is recorded as somebody's child, so its
/// depth is its parent's plus one.
pub proof fn lemma_nonroot_has_parent(t: &DepTree, c: int)
    requires
        t.wf(),
        1 <= c < t.nodes@.len(),
    ensures
        is_child_of(t.node_connections@, c),
{
}

/// Law: a node at the depth bound has no recorded children.
pub proof fn lemma_depth_bound_respected(t: &DepTree, i: int)
    requires
        t.wf(),
        0 <= i < t.nodes@.len(),
        t.recurse_depths@[i] >= t.max_recurse_depth,
    ensures
        t.node_connections@[i]@.len() == 0,
{
}

/// Law: no two recorded failures name the same path.
pub proof fn lemma_failures_deduplicated(t: &DepTree, i: int, j: int)
    requires
        t.wf(),
        0 <= i < t.failures@.len(),
        0 <= j < t.failures@.len(),
        i != j,
    ensures
        t.failures@[i].path@ != t.failures@[j].path@,
{
}

} // verus!
