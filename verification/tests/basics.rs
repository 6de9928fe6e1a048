use uasset_deps::asset::{Asset, AssetError, AssetOrigin, ImportSource};
use uasset_deps::fsmodel::{Fs, FsView};
use uasset_deps::util::{path_to_str, SortOrder, SplitVecContainer};

#[test]
fn sort_order_toggles() {
    let mut order = SortOrder::Ascending;
    assert!(order.is_ascending());
    assert!(!order.is_descending());
    assert_eq!(order.toggled(), SortOrder::Descending);
    order.toggle();
    assert!(order.is_descending());
    order.toggle();
    assert!(order.is_ascending());
}

#[test]
fn split_vec_container_pushes_to_both_sides() {
    let mut container: SplitVecContainer<u32, String> = SplitVecContainer::new(vec![], vec![]);
    container.push_left(1);
    container.push_left(2);
    container.push_right("no".to_string());
    assert_eq!(container.left, vec![1, 2]);
    assert_eq!(container.right, vec!["no".to_string()]);
}

#[test]
fn split_vec_container_default_is_empty() {
    let container: SplitVecContainer<u32, u32> = Default::default();
    assert!(container.left.is_empty());
    assert!(container.right.is_empty());
}

#[test]
fn path_to_str_returns_the_path() {
    assert_eq!(path_to_str("/a/b"), "/a/b");
}

#[test]
fn asset_error_equality_is_by_path() {
    let a = AssetError::new("/a", "first reason");
    let b = AssetError::new("/a", "second reason");
    let c = AssetError::new("/b", "first reason");
    assert!(a == b);
    assert!(a != c);
}

#[test]
fn asset_error_message_names_path_and_reason() {
    let e = AssetError::new("/a/b.uasset", "gone");
    assert_eq!(e.message(), "Failed to read asset (\"/a/b.uasset\"). Reason: gone");
}

#[test]
fn origin_labels() {
    assert_eq!(AssetOrigin::Project.label(), "Project");
    assert_eq!(AssetOrigin::Engine.label(), "Engine");
    assert_eq!(AssetOrigin::ProjectPlugin.label(), "Project Plugin");
    assert_eq!(AssetOrigin::EnginePlugin.label(), "Engine Plugin");
}

fn project_fs() -> Fs {
    Fs::Model {
        view: FsView {
            dirs: vec!["/proj".to_string(), "/proj/Content".to_string()],
            files: vec!["/proj/Content/Root.uasset".to_string()],
        },
    }
}

#[test]
fn asset_new_rejects_a_missing_file() {
    let fs = project_fs();
    let r = Asset::new(
        &"/proj/Content/Absent.uasset".to_string(),
        ImportSource::Names(vec![]),
        &fs,
    );
    let e = r.err().unwrap();
    assert_eq!(e.path, "/proj/Content/Absent.uasset");
    assert_eq!(e.reason, "File does not exist or is not a .uasset file");
}

#[test]
fn asset_new_rejects_a_directory_or_wrong_extension() {
    let fs = project_fs();
    let r = Asset::new(&"/proj/Content".to_string(), ImportSource::Names(vec![]), &fs);
    assert!(r.is_err());
}

#[test]
fn asset_new_keeps_path_imports_and_origin() {
    let fs = project_fs();
    let a = Asset::new(
        &"/proj/Content/Root.uasset".to_string(),
        ImportSource::Names(vec!["/Game/Foo".to_string()]),
        &fs,
    )
    .ok()
    .unwrap();
    assert_eq!(a.path, "/proj/Content/Root.uasset");
    assert_eq!(a.origin, AssetOrigin::Project);
    assert_eq!(a.imports, vec!["/Game/Foo".to_string()]);
    assert_eq!(a.path_str(), "/proj/Content/Root.uasset");
    assert_eq!(a.file_name_str(), Some("Root.uasset".to_string()));
    assert_eq!(a.get_dependency_names(), &vec!["/Game/Foo".to_string()]);
}

#[test]
fn asset_new_passes_a_read_failure_through() {
    let fs = project_fs();
    let r = Asset::new(
        &"/proj/Content/Root.uasset".to_string(),
        ImportSource::Missing("open failed".to_string()),
        &fs,
    );
    let e = r.err().unwrap();
    assert_eq!(e.reason, "open failed");
    assert_eq!(e.path, "/proj/Content/Root.uasset");
}

#[test]
fn asset_new_keeps_a_parse_failure_reason() {
    // The reading edge reports an unparsable header through `Missing`;
    // the error must carry that reason under the asset's path.
    let fs = project_fs();
    let r = Asset::new(
        &"/proj/Content/Root.uasset".to_string(),
        ImportSource::Missing("Failed to read asset: malformed header".to_string()),
        &fs,
    );
    let e = r.err().unwrap();
    assert!(e.reason.starts_with("Failed to read asset: "));
    assert_eq!(e.path, "/proj/Content/Root.uasset");
}

#[test]
fn classification_is_deterministic() {
    let fs = Fs::Model {
        view: FsView {
            dirs: vec![
                "/ue".to_string(),
                "/ue/Engine".to_string(),
                "/ue/Engine/Content".to_string(),
            ],
            files: vec!["/ue/Engine/Content/A.uasset".to_string()],
        },
    };
    let p = "/ue/Engine/Content/A.uasset".to_string();
    let first = uasset_deps::asset::classify_origin(&p, &fs);
    let second = uasset_deps::asset::classify_origin(&p, &fs);
    assert_eq!(first, AssetOrigin::Engine);
    assert_eq!(first, second);
}

#[test]
fn classification_of_each_origin() {
    let fs = Fs::Model {
        view: FsView {
            dirs: vec![
                "/ue/Engine".to_string(),
                "/ue/Engine/Content".to_string(),
                "/ue/Engine/Plugins".to_string(),
                "/proj/Plugins".to_string(),
            ],
            files: vec![],
        },
    };
    assert_eq!(
        uasset_deps::asset::classify_origin(&"/proj/Content/A.uasset".to_string(), &fs),
        AssetOrigin::Project
    );
    assert_eq!(
        uasset_deps::asset::classify_origin(&"/ue/Engine/Content/A.uasset".to_string(), &fs),
        AssetOrigin::Engine
    );
    assert_eq!(
        uasset_deps::asset::classify_origin(&"/proj/Plugins/P/Content/A.uasset".to_string(), &fs),
        AssetOrigin::ProjectPlugin
    );
    assert_eq!(
        uasset_deps::asset::classify_origin(&"/ue/Engine/Plugins/P/Content/A.uasset".to_string(), &fs),
        AssetOrigin::EnginePlugin
    );
}

#[test]
fn a_folder_merely_named_engine_is_not_the_engine() {
    // The Engine ancestor must really hold a Content directory.
    let fs = Fs::Model {
        view: FsView {
            dirs: vec!["/proj/Engine".to_string()],
            files: vec![],
        },
    };
    assert_eq!(
        uasset_deps::asset::classify_origin(&"/proj/Engine/A.uasset".to_string(), &fs),
        AssetOrigin::Project
    );
}
