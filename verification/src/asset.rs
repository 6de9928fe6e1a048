//! Assets, their origin, and the directory configuration of a build.
//!
//! An asset is one `.uasset` file: its path, its origin classification, and
//! the list of import references its header names. The import list itself
//! comes from an outside binary parser at the file-reading edge; this
//! module consumes the parsed names, or the reason none could be had.

use vstd::prelude::*;
use vstd::string::*;
use crate::fsmodel::{Fs, FsView};
use crate::pathseg::{
    content_seg, engine_seg, has_uasset_ext, has_uasset_ext_spec, last_segment,
    last_segment_spec, lemma_words, plugins_seg, prefix_through_segment, prefix_through_spec,
    seq_views, str_equal,
};

verus! {

/// The mathematical content of an `AssetError`.
pub struct AssetErrorView {
    pub path: Seq<char>,
    pub reason: Seq<char>,
}

/// A reference or file that could not be turned into an asset: the path
/// concerned and a human-readable reason. Collected as data, never thrown;
/// two errors count as equal when their paths are equal.
#[derive(Debug)]
pub struct AssetError {
    pub path: String,
    pub reason: String,
}

impl Clone for AssetError {
    fn clone(&self) -> (r: Self)
        ensures
            r@ == self@,
    {
        AssetError { path: self.path.clone(), reason: self.reason.clone() }
    }
}

impl View for AssetError {
    type V = AssetErrorView;

    open spec fn view(&self) -> AssetErrorView {
        AssetErrorView { path: self.path@, reason: self.reason@ }
    }
}

impl AssetError {
    pub fn new(path: &str, reason: &str) -> (r: Self)
        ensures
            r.path@ == path@,
            r.reason@ == reason@,
    {
        Self { path: path.to_owned(), reason: reason.to_owned() }
    }

    /// The error as one readable line.
    pub fn message(&self) -> (r: String)
        ensures
            r@ == "Failed to read asset (\""@ + self.path@ + "\"). Reason: "@ + self.reason@,
    {
        let mut r = "Failed to read asset (\"".to_owned();
        r.append(self.path.as_str());
        r.append("\"). Reason: ");
        r.append(self.reason.as_str());
        r
    }
}

impl PartialEq for AssetError {
    fn eq(&self, other: &Self) -> (r: bool) {
        str_equal(self.path.as_str(), other.path.as_str())
    }
}

impl vstd::std_specs::cmp::PartialEqSpecImpl for AssetError {
    open spec fn obeys_eq_spec() -> bool {
        true
    }

    open spec fn eq_spec(&self, other: &Self) -> bool {
        self.path@ == other.path@
    }
}

/// Where an asset belongs: the project itself, the engine, or a plugin of
/// either.
#[derive(Debug, Copy, Clone, PartialEq, Eq, Structural)]
pub enum AssetOrigin {
    Project,
    Engine,
    ProjectPlugin,
    EnginePlugin,
}

impl AssetOrigin {
    /// The origin's display name.
    pub fn label(&self) -> (r: String)
        ensures
            r@ == match *self {
                AssetOrigin::Project => "Project"@,
                AssetOrigin::Engine => "Engine"@,
                AssetOrigin::ProjectPlugin => "Project Plugin"@,
                AssetOrigin::EnginePlugin => "Engine Plugin"@,
            },
    {
        match self {
            AssetOrigin::Project => "Project".to_owned(),
            AssetOrigin::Engine => "Engine".to_owned(),
            AssetOrigin::ProjectPlugin => "Project Plugin".to_owned(),
            AssetOrigin::EnginePlugin => "Engine Plugin".to_owned(),
        }
    }
}

/// Whether `path` lies under a real `Plugins` directory: some ancestor
/// segment is literally `Plugins` (not the path itself) and that ancestor
/// exists on the file system.
pub open spec fn is_plugin_spec(path: Seq<char>, v: FsView) -> bool {
    let pp = prefix_through_spec(path, plugins_seg());
    pp != path && v.exists_spec(pp)
}

/// Whether `path` lies under a real engine tree: some ancestor segment is
/// literally `Engine` (not the path itself), that ancestor exists, and it
/// holds a `Content` directory.
pub open spec fn is_engine_spec(path: Seq<char>, v: FsView) -> bool {
    let ep = prefix_through_spec(path, engine_seg());
    &&& ep != path
    &&& v.exists_spec(ep)
    &&& v.exists_spec(ep + seq!['/'] + content_seg())
}

/// The origin of an asset at `path`: a pure function of the path and of the
/// file system it is classified against.
pub open spec fn origin_spec(path: Seq<char>, v: FsView) -> AssetOrigin {
    if is_engine_spec(path, v) {
        if is_plugin_spec(path, v) {
            AssetOrigin::EnginePlugin
        } else {
            AssetOrigin::Engine
        }
    } else {
        if is_plugin_spec(path, v) {
            AssetOrigin::ProjectPlugin
        } else {
            AssetOrigin::Project
        }
    }
}

/// Classifies the asset at `asset_path` by origin.
pub fn classify_origin(asset_path: &String, fs: &Fs) -> (r: AssetOrigin)
    ensures
        fs matches Fs::Model { view } ==> r == origin_spec(asset_path@, *view),
{
    proof {
        lemma_words();
    }
    let plugin_path = prefix_through_segment(asset_path.as_str(), "Plugins");
    let is_plugin = !str_equal(plugin_path.as_str(), asset_path.as_str()) && fs.path_exists(
        &plugin_path,
    );
    let (is_engine, _) = crate::asset_dirs::AssetDirs::is_engine_path(asset_path, fs);
    match (is_engine, is_plugin) {
        (true, true) => AssetOrigin::EnginePlugin,
        (true, false) => AssetOrigin::Engine,
        (false, true) => AssetOrigin::ProjectPlugin,
        (false, false) => AssetOrigin::Project,
    }
}

/// Classification is deterministic: two classifications of one path against
/// one file system agree.
pub proof fn lemma_origin_deterministic(path: Seq<char>, v: FsView, o1: AssetOrigin, o2: AssetOrigin)
    requires
        o1 == origin_spec(path, v),
        o2 == origin_spec(path, v),
    ensures
        o1 == o2,
{
}

/// How the import list of an asset file reaches the library: as the list
/// the outside binary parser produced at the file-reading edge, or not at
/// all, with the reason the file could not be read or parsed.
pub enum ImportSource {
    Names(Vec<String>),
    Missing(String),
}

/// The import names an `ImportSource` yields, or the failure reason.
pub open spec fn source_outcome(src: ImportSource) -> Result<Seq<Seq<char>>, Seq<char>> {
    match src {
        ImportSource::Names(v) => Ok(seq_views(v@)),
        ImportSource::Missing(m) => Err(m@),
    }
}

/// Reason given for a path that is not an existing `.uasset` file.
pub open spec fn bad_file_reason() -> Seq<char> {
    "File does not exist or is not a .uasset file"@
}

/// The mathematical content of an `Asset`.
pub struct AssetView {
    pub path: Seq<char>,
    pub origin: AssetOrigin,
    pub imports: Seq<Seq<char>>,
}

/// One discovered asset file: its path, its origin, and the import
/// references its header names.
#[derive(Debug, Clone)]
pub struct Asset {
    pub path: String,
    pub origin: AssetOrigin,
    pub imports: Vec<String>,
}

impl View for Asset {
    type V = AssetView;

    open spec fn view(&self) -> AssetView {
        AssetView { path: self.path@, origin: self.origin, imports: seq_views(self.imports@) }
    }
}

/// What creating an asset at `path` yields, given the import-list outcome
/// `names` and the file system `v`.
pub open spec fn asset_new_spec(
    path: Seq<char>,
    names: Result<Seq<Seq<char>>, Seq<char>>,
    v: FsView,
) -> Result<AssetView, AssetErrorView> {
    if !(v.is_file_spec(path) && has_uasset_ext_spec(path)) {
        Err(AssetErrorView { path, reason: bad_file_reason() })
    } else {
        match names {
            Ok(ns) => Ok(AssetView { path, origin: origin_spec(path, v), imports: ns }),
            Err(m) => Err(AssetErrorView { path, reason: m }),
        }
    }
}

impl Asset {
    /// Creates the asset at `asset_path`. Fails if the path is not an
    /// existing `.uasset` file or if its import list could not be obtained;
    /// on success the asset carries its classified origin and its imports.
    /// Whatever the file system answers, a path without the `.uasset`
    /// extension is rejected with the fixed reason, and an unreadable file
    /// never yields an asset.
    pub fn new(asset_path: &String, source: ImportSource, fs: &Fs) -> (r: Result<Asset, AssetError>)
        ensures
            fs matches Fs::Model { view } ==> match r {
                Ok(a) => asset_new_spec(asset_path@, source_outcome(source), *view) == Ok::<
                    AssetView,
                    AssetErrorView,
                >(a@),
                Err(e) => asset_new_spec(asset_path@, source_outcome(source), *view) == Err::<
                    AssetView,
                    AssetErrorView,
                >(e@),
            },
            r matches Ok(a) ==> a.path == *asset_path,
            r matches Err(e) ==> e.path == *asset_path,
            !has_uasset_ext_spec(asset_path@) ==> (r matches Err(e) && e@ == (AssetErrorView {
                path: asset_path@,
                reason: bad_file_reason(),
            })),
            source matches ImportSource::Missing(m) ==> (r matches Err(e) && (e.reason@ == m@
                || e.reason@ == bad_file_reason())),
    {
        let ok_file = fs.path_is_file(asset_path);
        let ok_ext = has_uasset_ext(asset_path.as_str());
        if !ok_file || !ok_ext {
            return Err(AssetError {
                path: asset_path.clone(),
                reason: "File does not exist or is not a .uasset file".to_owned(),
            });
        }
        let names = match source {
            ImportSource::Names(v) => v,
            ImportSource::Missing(m) => {
                return Err(AssetError { path: asset_path.clone(), reason: m });
            },
        };
        let origin = classify_origin(asset_path, fs);
        Ok(Asset { path: asset_path.clone(), origin, imports: names })
    }

    /// The asset's full path.
    pub fn path(&self) -> (r: String)
        ensures
            r@ == self.path@,
    {
        self.path.clone()
    }

    /// The asset's full path, as a string.
    pub fn path_str(&self) -> (r: String)
        ensures
            r@ == self.path@,
    {
        self.path()
    }

    /// The asset's file name: the last segment of its path, if it is not
    /// empty.
    pub fn file_name(&self) -> (r: Option<String>)
        ensures
            match r {
                Some(n) => n@ == last_segment_spec(self.path@) && last_segment_spec(
                    self.path@,
                ).len() > 0,
                None => last_segment_spec(self.path@).len() == 0,
            },
    {
        let n = last_segment(self.path.as_str());
        if n.as_str().unicode_len() > 0 {
            Some(n)
        } else {
            None
        }
    }

    /// The asset's file name, as a string.
    pub fn file_name_str(&self) -> (r: Option<String>)
        ensures
            match r {
                Some(n) => n@ == last_segment_spec(self.path@) && last_segment_spec(
                    self.path@,
                ).len() > 0,
                None => last_segment_spec(self.path@).len() == 0,
            },
    {
        self.file_name()
    }

    /// The names of the packages this asset imports.
    pub fn get_dependency_names(&self) -> (r: &Vec<String>)
        ensures
            seq_views(r@) == self@.imports,
    {
        &self.imports
    }

    /// Resolves every import reference of this asset against the given
    /// directories: the paths that resolved, and the failures.
    pub fn get_dependency_asset_paths(
        &self,
        content_dir: &String,
        engine_content_dir: &Option<String>,
        plugins_dirs: &Vec<String>,
        fs: &Fs,
    ) -> (r: (Vec<String>, Vec<AssetError>))
        ensures
            fs matches Fs::Model { view } ==> crate::locate::resolve_outcome_views(r.0@, r.1@)
                == crate::locate::resolve_all_spec(
                seq_views(self.imports@),
                content_dir@,
                crate::pathseg::opt_view(*engine_content_dir),
                seq_views(plugins_dirs@),
                *view,
            ),
    {
        crate::locate::resolve_references(
            &self.imports,
            content_dir,
            engine_content_dir,
            plugins_dirs,
            fs,
        )
    }
}

} // verus!
