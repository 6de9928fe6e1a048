use uasset_deps::fsmodel::{Fs, FsView};
use uasset_deps::locate::locate_ref;

fn fs_with(dirs: &[&str], files: &[&str]) -> Fs {
    Fs::Model {
        view: FsView {
            dirs: dirs.iter().map(|s| s.to_string()).collect(),
            files: files.iter().map(|s| s.to_string()).collect(),
        },
    }
}

fn game_roots() -> (String, Option<String>, Vec<String>) {
    ("/proj/Content".to_string(), Some("/ue/Engine/Content".to_string()), vec![
        "/proj/Plugins".to_string(),
    ])
}

#[test]
fn game_reference_resolves_under_the_content_dir() {
    let fs = fs_with(&["/proj/Content"], &["/proj/Content/Foo/Bar.uasset"]);
    let (content, engine, plugins) = game_roots();
    let r = locate_ref(&"/Game/Foo/Bar".to_string(), &content, &engine, &plugins, &fs);
    assert_eq!(r.ok().unwrap(), "/proj/Content/Foo/Bar.uasset");
}

#[test]
fn game_reference_keeps_an_existing_suffix() {
    let fs = fs_with(&[], &["/proj/Content/Foo.uasset"]);
    let (content, engine, plugins) = game_roots();
    let r = locate_ref(&"/Game/Foo.uasset".to_string(), &content, &engine, &plugins, &fs);
    assert_eq!(r.ok().unwrap(), "/proj/Content/Foo.uasset");
}

#[test]
fn missing_game_reference_names_the_candidate() {
    let fs = fs_with(&["/proj/Content"], &[]);
    let (content, engine, plugins) = game_roots();
    let r = locate_ref(&"/Game/Missing/Thing".to_string(), &content, &engine, &plugins, &fs);
    let e = r.err().unwrap();
    assert_eq!(e.path, "/proj/Content/Missing/Thing.uasset");
    assert_eq!(e.reason, "The asset doesn't exist in the game content directory");
}

#[test]
fn engine_reference_resolves_under_the_engine_content_dir() {
    let fs = fs_with(&[], &["/ue/Engine/Content/E.uasset"]);
    let (content, engine, plugins) = game_roots();
    let r = locate_ref(&"/Engine/E".to_string(), &content, &engine, &plugins, &fs);
    assert_eq!(r.ok().unwrap(), "/ue/Engine/Content/E.uasset");
}

#[test]
fn missing_engine_reference_names_the_candidate() {
    let fs = fs_with(&[], &[]);
    let (content, engine, plugins) = game_roots();
    let r = locate_ref(&"/Engine/E".to_string(), &content, &engine, &plugins, &fs);
    let e = r.err().unwrap();
    assert_eq!(e.path, "/ue/Engine/Content/E.uasset");
    assert_eq!(e.reason, "The asset doesn't exist in the engine content directory");
}

#[test]
fn engine_reference_without_an_engine_dir_fails() {
    let fs = fs_with(&[], &["/ue/Engine/Content/E.uasset"]);
    let (content, _, plugins) = game_roots();
    let r = locate_ref(&"/Engine/E".to_string(), &content, &None, &plugins, &fs);
    let e = r.err().unwrap();
    assert_eq!(e.path, "/Engine/E.uasset");
    assert_eq!(e.reason, "Engine content directory is not set!");
}

#[test]
fn script_references_are_not_supported() {
    let fs = fs_with(&[], &[]);
    let (content, engine, plugins) = game_roots();
    let r = locate_ref(&"/Script/CoreUObject".to_string(), &content, &engine, &plugins, &fs);
    let e = r.err().unwrap();
    assert_eq!(e.path, "/Script/CoreUObject.uasset");
    assert_eq!(e.reason, "The Script namespace is not supported");
}

#[test]
fn plugin_reference_resolves_under_a_found_plugin() {
    let fs = fs_with(
        &[
            "/proj/Plugins",
            "/proj/Plugins/SomePlugin",
            "/proj/Plugins/SomePlugin/Content",
        ],
        &["/proj/Plugins/SomePlugin/Content/Foo.uasset"],
    );
    let (content, engine, plugins) = game_roots();
    let r = locate_ref(&"/SomePlugin/Foo".to_string(), &content, &engine, &plugins, &fs);
    assert_eq!(r.ok().unwrap(), "/proj/Plugins/SomePlugin/Content/Foo.uasset");
}

#[test]
fn plugin_dir_without_content_subdir_is_skipped() {
    let fs = fs_with(
        &["/proj/Plugins", "/proj/Plugins/SomePlugin"],
        &["/proj/Plugins/SomePlugin/Content/Foo.uasset"],
    );
    // The plugin directory itself exists but holds no Content directory,
    // so the search must not use it.
    let (content, engine, plugins) = game_roots();
    let r = locate_ref(&"/SomePlugin/Foo".to_string(), &content, &engine, &plugins, &fs);
    let e = r.err().unwrap();
    assert_eq!(e.path, "/SomePlugin/Foo.uasset");
    assert_eq!(e.reason, "Couldn't find the asset in any of the plugins directories");
}

#[test]
fn unknown_plugin_fails_with_the_reference_path() {
    let fs = fs_with(&["/proj/Plugins"], &[]);
    let (content, engine, plugins) = game_roots();
    let r = locate_ref(&"/NoSuchPlugin/Foo".to_string(), &content, &engine, &plugins, &fs);
    let e = r.err().unwrap();
    assert_eq!(e.path, "/NoSuchPlugin/Foo.uasset");
    assert_eq!(e.reason, "Couldn't find the asset in any of the plugins directories");
}

#[test]
fn plugin_search_prefers_the_earlier_root() {
    let fs = fs_with(
        &[
            "/proj/Plugins",
            "/proj/Plugins/P",
            "/proj/Plugins/P/Content",
            "/ue/Engine/Plugins",
            "/ue/Engine/Plugins/P",
            "/ue/Engine/Plugins/P/Content",
        ],
        &[
            "/proj/Plugins/P/Content/X.uasset",
            "/ue/Engine/Plugins/P/Content/X.uasset",
        ],
    );
    let content = "/proj/Content".to_string();
    let engine = Some("/ue/Engine/Content".to_string());
    let plugins = vec!["/proj/Plugins".to_string(), "/ue/Engine/Plugins".to_string()];
    let r = locate_ref(&"/P/X".to_string(), &content, &engine, &plugins, &fs);
    assert_eq!(r.ok().unwrap(), "/proj/Plugins/P/Content/X.uasset");
}

#[test]
fn resolution_is_idempotent_on_the_same_inputs() {
    let fs = fs_with(&["/proj/Content"], &["/proj/Content/Foo/Bar.uasset"]);
    let (content, engine, plugins) = game_roots();
    let name = "/Game/Foo/Bar".to_string();
    let first = locate_ref(&name, &content, &engine, &plugins, &fs);
    let second = locate_ref(&name, &content, &engine, &plugins, &fs);
    assert_eq!(first.ok(), second.ok());
}

#[test]
fn an_empty_reference_fails_without_aborting() {
    let fs = fs_with(&[], &[]);
    let (content, engine, plugins) = game_roots();
    let r = locate_ref(&"".to_string(), &content, &engine, &plugins, &fs);
    assert!(r.is_err());
}

#[test]
fn resolve_references_splits_successes_and_failures() {
    let fs = fs_with(&["/proj/Content"], &["/proj/Content/A.uasset"]);
    let (content, engine, plugins) = game_roots();
    let names = vec!["/Game/A".to_string(), "/Game/B".to_string()];
    let (paths, fails) = uasset_deps::locate::resolve_references(
        &names, &content, &engine, &plugins, &fs,
    );
    assert_eq!(paths, vec!["/proj/Content/A.uasset".to_string()]);
    assert_eq!(fails.len(), 1);
    assert_eq!(fails[0].path, "/proj/Content/B.uasset");
}
