use uasset_deps::asset::{Asset, AssetOrigin, ImportSource};
use uasset_deps::asset_dirs::AssetDirs;
use uasset_deps::fsmodel::{Fs, FsView};

fn fs_with(dirs: &[&str], files: &[&str]) -> Fs {
    Fs::Model {
        view: FsView {
            dirs: dirs.iter().map(|s| s.to_string()).collect(),
            files: files.iter().map(|s| s.to_string()).collect(),
        },
    }
}

#[test]
fn project_dirs_derive_from_the_asset_path() {
    let (project, content) = AssetDirs::get_project_dirs(&Some(
        "/work/MyGame/Content/Maps/Level.uasset".to_string(),
    ));
    assert_eq!(project, Some("/work/MyGame".to_string()));
    assert_eq!(content, Some("/work/MyGame/Content".to_string()));
}

#[test]
fn project_dirs_of_nothing_are_nothing() {
    let (project, content) = AssetDirs::get_project_dirs(&None);
    assert!(project.is_none());
    assert!(content.is_none());
}

#[test]
fn engine_dirs_extend_a_plain_directory() {
    let (engine, content) = AssetDirs::get_engine_dirs(&Some("/opt/unreal".to_string()));
    assert_eq!(engine, Some("/opt/unreal/Engine".to_string()));
    assert_eq!(content, Some("/opt/unreal/Engine/Content".to_string()));
}

#[test]
fn engine_dirs_keep_a_directory_already_named_engine() {
    let (engine, content) = AssetDirs::get_engine_dirs(&Some("/opt/unreal/Engine".to_string()));
    assert_eq!(engine, Some("/opt/unreal/Engine".to_string()));
    assert_eq!(content, Some("/opt/unreal/Engine/Content".to_string()));
}

#[test]
fn is_engine_path_needs_a_real_content_dir() {
    let fs = fs_with(&["/ue/Engine", "/ue/Engine/Content"], &[]);
    let (yes, pair) = AssetDirs::is_engine_path(&"/ue/Engine/Content/A.uasset".to_string(), &fs);
    assert!(yes);
    assert_eq!(
        pair,
        Some(("/ue/Engine".to_string(), "/ue/Engine/Content".to_string()))
    );

    let bare = fs_with(&["/proj/Engine"], &[]);
    let (no, none) = AssetDirs::is_engine_path(&"/proj/Engine/A.uasset".to_string(), &bare);
    assert!(!no);
    assert!(none.is_none());
}

#[test]
fn new_for_a_project_asset_sets_project_dirs() {
    let fs = fs_with(&["/proj", "/proj/Content"], &["/proj/Content/R.uasset"]);
    let dirs = AssetDirs::new(Some("/proj/Content/R.uasset".to_string()), None, &fs);
    assert_eq!(dirs.asset_file_path, Some("/proj/Content/R.uasset".to_string()));
    assert_eq!(dirs.project_dir, Some("/proj".to_string()));
    assert_eq!(dirs.content_dir, Some("/proj/Content".to_string()));
    assert!(dirs.engine_dir.is_none());
    assert!(dirs.engine_content_dir.is_none());
    assert_eq!(dirs.plugins_dirs, vec!["/proj/Plugins".to_string()]);
    assert_eq!(dirs.asset_file_name_str(), Some("R.uasset".to_string()));
    assert_eq!(dirs.project_dir_str(), Some("/proj".to_string()));
}

#[test]
fn new_for_an_engine_asset_sets_engine_dirs_only() {
    let fs = fs_with(&["/ue/Engine", "/ue/Engine/Content"], &["/ue/Engine/Content/A.uasset"]);
    let dirs = AssetDirs::new(Some("/ue/Engine/Content/A.uasset".to_string()), None, &fs);
    assert!(dirs.project_dir.is_none());
    assert!(dirs.content_dir.is_none());
    assert_eq!(dirs.engine_dir, Some("/ue/Engine".to_string()));
    assert_eq!(dirs.engine_content_dir, Some("/ue/Engine/Content".to_string()));
    assert_eq!(dirs.plugins_dirs, vec!["/ue/Engine/Plugins".to_string()]);
}

#[test]
fn a_configured_engine_dir_fills_what_the_asset_did_not() {
    let fs = fs_with(&["/proj", "/proj/Content"], &["/proj/Content/R.uasset"]);
    let dirs = AssetDirs::new(
        Some("/proj/Content/R.uasset".to_string()),
        Some("/opt/unreal".to_string()),
        &fs,
    );
    assert_eq!(dirs.project_dir, Some("/proj".to_string()));
    assert_eq!(dirs.engine_dir, Some("/opt/unreal/Engine".to_string()));
    assert_eq!(dirs.engine_content_dir, Some("/opt/unreal/Engine/Content".to_string()));
    assert_eq!(
        dirs.plugins_dirs,
        vec!["/proj/Plugins".to_string(), "/opt/unreal/Engine/Plugins".to_string()]
    );
}

#[test]
fn update_asset_file_rederives_the_directories() {
    let fs = fs_with(&["/proj", "/proj/Content", "/other", "/other/Content"], &[]);
    let mut dirs = AssetDirs::new(Some("/proj/Content/R.uasset".to_string()), None, &fs);
    dirs.update_asset_file(Some("/other/Content/S.uasset".to_string()), &fs);
    assert_eq!(dirs.project_dir, Some("/other".to_string()));
    assert_eq!(dirs.content_dir, Some("/other/Content".to_string()));
    assert_eq!(dirs.plugins_dirs, vec!["/other/Plugins".to_string()]);
}

#[test]
fn update_engine_dir_rederives_engine_and_plugins() {
    let fs = fs_with(&["/proj", "/proj/Content"], &[]);
    let mut dirs = AssetDirs::new(Some("/proj/Content/R.uasset".to_string()), None, &fs);
    dirs.update_engine_dir(Some("/opt/unreal".to_string()));
    assert_eq!(dirs.engine_dir, Some("/opt/unreal/Engine".to_string()));
    assert_eq!(
        dirs.plugins_dirs,
        vec!["/proj/Plugins".to_string(), "/opt/unreal/Engine/Plugins".to_string()]
    );
}

#[test]
fn relative_paths_strip_the_owning_directory() {
    let fs = fs_with(&["/proj", "/proj/Content"], &["/proj/Content/R.uasset"]);
    let dirs = AssetDirs::new(Some("/proj/Content/R.uasset".to_string()), None, &fs);
    let asset = Asset::new(
        &"/proj/Content/R.uasset".to_string(),
        ImportSource::Names(vec![]),
        &fs,
    )
    .ok()
    .unwrap();
    assert_eq!(asset.origin, AssetOrigin::Project);
    assert_eq!(dirs.get_relative_path(&asset), Some("Content/R.uasset".to_string()));
}

#[test]
fn relative_paths_need_the_matching_directory() {
    let fs = fs_with(&[], &["/proj/Content/R.uasset"]);
    let dirs = AssetDirs {
        asset_file_path: None,
        project_dir: None,
        content_dir: None,
        engine_dir: None,
        engine_content_dir: None,
        plugins_dirs: vec![],
    };
    let asset = Asset::new(
        &"/proj/Content/R.uasset".to_string(),
        ImportSource::Names(vec![]),
        &fs,
    )
    .ok()
    .unwrap();
    assert!(dirs.get_relative_path(&asset).is_none());
}
