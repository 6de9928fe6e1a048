use uasset_deps::asset::{AssetOrigin, ImportSource};
use uasset_deps::asset_dirs::AssetDirs;
use uasset_deps::dependency_tree::DepTree;
use uasset_deps::fsmodel::{Fs, FsView};

const ROOT: &str = "/proj/Content/Root.uasset";

fn fs_with(dirs: &[&str], files: &[&str]) -> Fs {
    let mut all_dirs = vec!["/proj".to_string(), "/proj/Content".to_string()];
    all_dirs.extend(dirs.iter().map(|s| s.to_string()));
    let mut all_files = vec![ROOT.to_string()];
    all_files.extend(files.iter().map(|s| s.to_string()));
    Fs::Model { view: FsView { dirs: all_dirs, files: all_files } }
}

fn dirs_for(fs: &Fs) -> AssetDirs {
    let dirs = AssetDirs::new(Some(ROOT.to_string()), None, fs);
    assert_eq!(dirs.project_dir, Some("/proj".to_string()));
    assert_eq!(dirs.content_dir, Some("/proj/Content".to_string()));
    dirs
}

fn table(entries: &[(&str, &[&str])]) -> Vec<(String, Vec<String>)> {
    entries
        .iter()
        .map(|(p, refs)| (p.to_string(), refs.iter().map(|r| r.to_string()).collect()))
        .collect()
}

fn reader(table: Vec<(String, Vec<String>)>) -> impl Fn(&String) -> ImportSource {
    move |p: &String| {
        for (path, refs) in table.iter() {
            if path == p {
                return ImportSource::Names(refs.clone());
            }
        }
        ImportSource::Names(vec![])
    }
}

#[test]
fn root_without_references_yields_one_node() {
    let fs = fs_with(&[], &[]);
    let dirs = dirs_for(&fs);
    let read = reader(table(&[(ROOT, &[])]));
    let t = DepTree::build(&dirs, 10, &fs, &read).ok().unwrap();
    assert_eq!(t.nodes.len(), 1);
    assert_eq!(t.root_node_id, 0);
    assert_eq!(t.get_root_node().path, ROOT);
    assert!(t.get_node_connections(0).is_empty());
    assert!(t.failures.is_empty());
    assert_eq!(t.get_recurse_depth(0), Some(0));
}

#[test]
fn game_reference_becomes_a_child_node() {
    let fs = fs_with(&[], &["/proj/Content/Foo/Bar.uasset"]);
    let dirs = dirs_for(&fs);
    let read = reader(table(&[(ROOT, &["/Game/Foo/Bar"])]));
    let t = DepTree::build(&dirs, 10, &fs, &read).ok().unwrap();
    assert_eq!(t.nodes.len(), 2);
    assert_eq!(t.get_node_connections(0), vec![1]);
    let child = t.get_node(1).unwrap();
    assert_eq!(child.path, "/proj/Content/Foo/Bar.uasset");
    assert_eq!(child.origin, AssetOrigin::Project);
    assert_eq!(t.get_recurse_depth(1), Some(1));
    assert!(t.failures.is_empty());
}

#[test]
fn missing_reference_becomes_a_failure_not_a_node() {
    let fs = fs_with(&[], &[]);
    let dirs = dirs_for(&fs);
    let read = reader(table(&[(ROOT, &["/Game/Missing/Thing"])]));
    let t = DepTree::build(&dirs, 10, &fs, &read).ok().unwrap();
    assert_eq!(t.nodes.len(), 1);
    assert_eq!(t.failures.len(), 1);
    assert!(t.failures[0].path.ends_with("Missing/Thing.uasset"));
}

#[test]
fn plugin_reference_becomes_a_plugin_child() {
    let fs = fs_with(
        &[
            "/proj/Plugins",
            "/proj/Plugins/SomePlugin",
            "/proj/Plugins/SomePlugin/Content",
        ],
        &["/proj/Plugins/SomePlugin/Content/Foo.uasset"],
    );
    let dirs = dirs_for(&fs);
    assert_eq!(dirs.plugins_dirs, vec!["/proj/Plugins".to_string()]);
    let read = reader(table(&[(ROOT, &["/SomePlugin/Foo"])]));
    let t = DepTree::build(&dirs, 10, &fs, &read).ok().unwrap();
    assert_eq!(t.nodes.len(), 2);
    let child = t.get_node(1).unwrap();
    assert_eq!(child.path, "/proj/Plugins/SomePlugin/Content/Foo.uasset");
    assert_eq!(child.origin, AssetOrigin::ProjectPlugin);
}

#[test]
fn depth_zero_never_expands_the_root() {
    let fs = fs_with(&[], &["/proj/Content/A.uasset"]);
    let dirs = dirs_for(&fs);
    let read = reader(table(&[(ROOT, &["/Game/A"])]));
    let t = DepTree::build(&dirs, 0, &fs, &read).ok().unwrap();
    assert_eq!(t.nodes.len(), 1);
    assert!(t.get_node_connections(0).is_empty());
    assert!(t.failures.is_empty());
}

#[test]
fn depth_bound_leaves_deep_references_unexpanded() {
    let fs = fs_with(&[], &["/proj/Content/A.uasset", "/proj/Content/B.uasset"]);
    let dirs = dirs_for(&fs);
    let read = reader(table(&[(ROOT, &["/Game/A"]), ("/proj/Content/A.uasset", &["/Game/B"])]));
    let t = DepTree::build(&dirs, 1, &fs, &read).ok().unwrap();
    // A becomes the root's child; A's own reference is never resolved.
    assert_eq!(t.nodes.len(), 2);
    assert_eq!(t.get_node_connections(0), vec![1]);
    assert!(t.get_node_connections(1).is_empty());
    assert!(t.failures.is_empty());
}

#[test]
fn a_shared_reference_appears_exactly_once() {
    let fs = fs_with(
        &[],
        &[
            "/proj/Content/A.uasset",
            "/proj/Content/B.uasset",
            "/proj/Content/C.uasset",
        ],
    );
    let dirs = dirs_for(&fs);
    let read = reader(table(&[
        (ROOT, &["/Game/A", "/Game/B"]),
        ("/proj/Content/A.uasset", &["/Game/C"]),
        ("/proj/Content/B.uasset", &["/Game/C"]),
    ]));
    let t = DepTree::build(&dirs, 10, &fs, &read).ok().unwrap();
    assert_eq!(t.nodes.len(), 4);
    // C exists exactly once.
    let c = t.find_node_by_path(&"/proj/Content/C.uasset".to_string()).unwrap();
    assert_eq!(c.path, "/proj/Content/C.uasset");
    // The work list is popped from the back, so B (id 2) expands first and
    // records C (id 3) as its child; A keeps no edge to C.
    assert_eq!(t.get_node_connections(0), vec![1, 2]);
    assert_eq!(t.get_node_connections(2), vec![3]);
    assert!(t.get_node_connections(1).is_empty());
    assert_eq!(t.get_parent_node_id(3), Some(2));
    assert_eq!(t.get_parent_node(3).unwrap().path, "/proj/Content/B.uasset");
    assert_eq!(t.get_recurse_depth(3), Some(2));
}

#[test]
fn partial_failure_does_not_abort_the_build() {
    let fs = fs_with(&[], &["/proj/Content/A.uasset"]);
    let dirs = dirs_for(&fs);
    let read = reader(table(&[(ROOT, &["/Game/A", "/Game/Missing"])]));
    let t = DepTree::build(&dirs, 10, &fs, &read).ok().unwrap();
    assert_eq!(t.nodes.len(), 2);
    assert_eq!(t.failures.len(), 1);
    assert_eq!(t.failures[0].path, "/proj/Content/Missing.uasset");
}

#[test]
fn an_unreadable_root_fails_the_whole_build() {
    let fs = Fs::Model {
        view: FsView { dirs: vec!["/proj".to_string()], files: vec![] },
    };
    let dirs = AssetDirs {
        asset_file_path: Some(ROOT.to_string()),
        project_dir: Some("/proj".to_string()),
        content_dir: Some("/proj/Content".to_string()),
        engine_dir: None,
        engine_content_dir: None,
        plugins_dirs: vec![],
    };
    let read = reader(table(&[]));
    let r = DepTree::build(&dirs, 10, &fs, &read);
    let e = r.err().unwrap();
    assert_eq!(e.path, ROOT);
    assert_eq!(e.reason, "File does not exist or is not a .uasset file");
}

#[test]
fn equal_failure_paths_are_recorded_once() {
    let fs = fs_with(&[], &[]);
    let dirs = dirs_for(&fs);
    // Both references normalize to the same missing candidate path.
    let read = reader(table(&[(ROOT, &["/Game/M", "/Game/M.uasset"])]));
    let t = DepTree::build(&dirs, 10, &fs, &read).ok().unwrap();
    assert_eq!(t.failures.len(), 1);
    assert_eq!(t.failures[0].path, "/proj/Content/M.uasset");
}

#[test]
fn failures_are_deduplicated_across_nodes() {
    let fs = fs_with(&[], &["/proj/Content/A.uasset", "/proj/Content/B.uasset"]);
    let dirs = dirs_for(&fs);
    let read = reader(table(&[
        (ROOT, &["/Game/A", "/Game/B"]),
        ("/proj/Content/A.uasset", &["/Game/Gone"]),
        ("/proj/Content/B.uasset", &["/Game/Gone"]),
    ]));
    let t = DepTree::build(&dirs, 10, &fs, &read).ok().unwrap();
    assert_eq!(t.failures.len(), 1);
    assert_eq!(t.failures[0].path, "/proj/Content/Gone.uasset");
}

#[test]
fn two_references_to_one_path_make_one_node() {
    let fs = fs_with(&[], &["/proj/Content/A.uasset"]);
    let dirs = dirs_for(&fs);
    let read = reader(table(&[(ROOT, &["/Game/A", "/Game/A.uasset"])]));
    let t = DepTree::build(&dirs, 10, &fs, &read).ok().unwrap();
    assert_eq!(t.nodes.len(), 2);
    assert_eq!(t.get_node_connections(0), vec![1]);
    assert!(t.failures.is_empty());
}

#[test]
fn a_cycle_terminates_and_keeps_one_node_per_path() {
    let fs = fs_with(&[], &["/proj/Content/A.uasset"]);
    let dirs = dirs_for(&fs);
    let read = reader(table(&[
        (ROOT, &["/Game/A"]),
        ("/proj/Content/A.uasset", &["/Game/Root", "/Game/A"]),
    ]));
    let t = DepTree::build(&dirs, 10, &fs, &read).ok().unwrap();
    // Root is known, A is known: the cycle adds nothing.
    assert_eq!(t.nodes.len(), 2);
    assert!(t.failures.is_empty());
}

#[test]
fn queries_answer_for_absent_identifiers() {
    let fs = fs_with(&[], &[]);
    let dirs = dirs_for(&fs);
    let read = reader(table(&[(ROOT, &[])]));
    let t = DepTree::build(&dirs, 10, &fs, &read).ok().unwrap();
    assert!(t.get_node(7).is_none());
    assert!(t.get_recurse_depth(7).is_none());
    assert!(t.get_node_connections(7).is_empty());
    assert!(t.get_parent_node_id(0).is_none());
    assert!(t.get_parent_node(0).is_none());
    assert!(t.find_node_by_path(&"/nowhere".to_string()).is_none());
    assert_eq!(t.max_recurse_depth, 10);
}

#[test]
fn an_unreadable_child_is_a_failure_with_its_reason() {
    let fs = fs_with(&[], &["/proj/Content/A.uasset"]);
    let dirs = dirs_for(&fs);
    let read = move |p: &String| {
        if p.as_str() == ROOT {
            ImportSource::Names(vec!["/Game/A".to_string()])
        } else {
            ImportSource::Missing("permission denied".to_string())
        }
    };
    let t = DepTree::build(&dirs, 10, &fs, &read).ok().unwrap();
    assert_eq!(t.nodes.len(), 1);
    assert_eq!(t.failures.len(), 1);
    assert_eq!(t.failures[0].path, "/proj/Content/A.uasset");
    assert_eq!(t.failures[0].reason, "permission denied");
}

#[test]
fn every_nonroot_node_sits_one_level_under_its_parent() {
    let fs = fs_with(
        &[],
        &[
            "/proj/Content/A.uasset",
            "/proj/Content/B.uasset",
            "/proj/Content/C.uasset",
        ],
    );
    let dirs = dirs_for(&fs);
    let read = reader(table(&[
        (ROOT, &["/Game/A", "/Game/B"]),
        ("/proj/Content/A.uasset", &["/Game/C"]),
        ("/proj/Content/B.uasset", &["/Game/C"]),
    ]));
    let t = DepTree::build(&dirs, 10, &fs, &read).ok().unwrap();
    assert_eq!(t.get_recurse_depth(t.root_node_id), Some(0));
    for id in 0..t.nodes.len() {
        if id == t.root_node_id {
            continue;
        }
        let parent = t.get_parent_node_id(id).unwrap();
        let parent_depth = t.get_recurse_depth(parent).unwrap();
        assert_eq!(t.get_recurse_depth(id), Some(parent_depth + 1));
    }
}

#[test]
fn no_two_nodes_share_a_path() {
    let fs = fs_with(
        &[],
        &["/proj/Content/A.uasset", "/proj/Content/B.uasset"],
    );
    let dirs = dirs_for(&fs);
    let read = reader(table(&[
        (ROOT, &["/Game/A", "/Game/B", "/Game/A.uasset"]),
        ("/proj/Content/A.uasset", &["/Game/B", "/Game/Root"]),
    ]));
    let t = DepTree::build(&dirs, 10, &fs, &read).ok().unwrap();
    for i in 0..t.nodes.len() {
        for j in 0..t.nodes.len() {
            if i != j {
                assert_ne!(t.nodes[i].path, t.nodes[j].path);
            }
        }
    }
}
