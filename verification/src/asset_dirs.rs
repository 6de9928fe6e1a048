//! The directory configuration a build resolves against.
//!
//! From a chosen asset file and an optional engine directory, `AssetDirs`
//! derives the project directory (everything before the first `Content`
//! segment), the content directories, and the plugin roots.

use vstd::prelude::*;
use vstd::string::*;
use crate::asset::{is_engine_spec, Asset, AssetOrigin};
use crate::fsmodel::{Fs, FsView};
use crate::pathseg::{
    concat_path, content_seg, engine_seg, find_segment, join_path_range, join_path_spec,
    last_segment, last_segment_spec, lemma_words, opt_view, plugins_seg,
    prefix_through_segment, prefix_through_spec, seq_views, split_path, split_path_spec,
    seg_index_spec, str_equal, strip_path_prefix, strip_prefix_spec,
};

verus! {

/// The directory everything before the first `Content` segment of `p`
/// names: the project's root.
pub open spec fn project_dir_spec(p: Seq<char>) -> Seq<char> {
    let parts = split_path_spec(p);
    let k = seg_index_spec(parts, content_seg());
    join_path_spec(parts.take(k))
}

/// The project's content directory.
pub open spec fn content_dir_spec(p: Seq<char>) -> Seq<char> {
    project_dir_spec(p) + seq!['/'] + content_seg()
}

/// An engine directory as configured: taken as given when its last segment
/// is already `Engine`, else extended by one.
pub open spec fn engine_norm_spec(d: Seq<char>) -> Seq<char> {
    if last_segment_spec(d) == engine_seg() {
        d
    } else {
        d + seq!['/'] + engine_seg()
    }
}

/// The project and content directory derived from an asset path, when one
/// is chosen.
pub open spec fn project_dirs_spec(afp: Option<Seq<char>>) -> (Option<Seq<char>>, Option<
    Seq<char>,
>) {
    match afp {
        Some(p) => (Some(project_dir_spec(p)), Some(content_dir_spec(p))),
        None => (None, None),
    }
}

/// The engine and engine-content directory derived from a configured
/// engine path, when one is given.
pub open spec fn engine_dirs_spec(ep: Option<Seq<char>>) -> (Option<Seq<char>>, Option<
    Seq<char>,
>) {
    match ep {
        Some(d) => (
            Some(engine_norm_spec(d)),
            Some(engine_norm_spec(d) + seq!['/'] + content_seg()),
        ),
        None => (None, None),
    }
}

/// All four derived directories. An asset path under a real engine tree
/// yields the engine directories and no project ones; any other asset path
/// yields the project directories; the configured engine path fills the
/// engine directories where the asset path did not.
pub open spec fn get_dirs_spec(afp: Option<Seq<char>>, ep: Option<Seq<char>>, v: FsView) -> (
    Option<Seq<char>>,
    Option<Seq<char>>,
    Option<Seq<char>>,
    Option<Seq<char>>,
) {
    let base = match afp {
        Some(p) => {
            if is_engine_spec(p, v) {
                let e = prefix_through_spec(p, engine_seg());
                (
                    None,
                    None,
                    Some(e),
                    Some(e + seq!['/'] + content_seg()),
                )
            } else {
                (Some(project_dir_spec(p)), Some(content_dir_spec(p)), None, None)
            }
        },
        None => (None, None, None, None),
    };
    if base.2 is Some && base.3 is Some {
        base
    } else {
        let e = engine_dirs_spec(ep);
        (base.0, base.1, e.0, e.1)
    }
}

/// The plugin roots: a `Plugins` directory under the project and one under
/// the engine, where each is configured.
pub open spec fn plugins_dirs_spec(pd: Option<Seq<char>>, ed: Option<Seq<char>>) -> Seq<
    Seq<char>,
> {
    let a: Seq<Seq<char>> = match pd {
        Some(p) => seq![p + seq!['/'] + plugins_seg()],
        None => Seq::empty(),
    };
    let b: Seq<Seq<char>> = match ed {
        Some(e) => seq![e + seq!['/'] + plugins_seg()],
        None => Seq::empty(),
    };
    a + b
}

/// The directories one build resolves references against.
#[derive(Debug, Clone)]
pub struct AssetDirs {
    pub asset_file_path: Option<String>,
    pub project_dir: Option<String>,
    pub content_dir: Option<String>,
    pub engine_dir: Option<String>,
    pub engine_content_dir: Option<String>,
    pub plugins_dirs: Vec<String>,
}

impl AssetDirs {
    /// Derives every directory from the chosen asset file and the
    /// configured engine directory.
    pub fn new(asset_file_path: Option<String>, engine_dir: Option<String>, fs: &Fs) -> (r: Self)
        ensures
            r.asset_file_path == asset_file_path,
            fs matches Fs::Model { view } ==> {
                let dirs = get_dirs_spec(opt_view(asset_file_path), opt_view(engine_dir), *view);
                &&& opt_view(r.project_dir) == dirs.0
                &&& opt_view(r.content_dir) == dirs.1
                &&& opt_view(r.engine_dir) == dirs.2
                &&& opt_view(r.engine_content_dir) == dirs.3
                &&& seq_views(r.plugins_dirs@) == plugins_dirs_spec(dirs.0, dirs.2)
            },
    {
        let (project_dir, content_dir, engine_dir_full, engine_content_dir) = Self::get_dirs(
            &asset_file_path,
            &engine_dir,
            fs,
        );
        let plugins_dirs = Self::get_plugins_dirs(&project_dir, &engine_dir_full);
        Self {
            asset_file_path,
            project_dir,
            content_dir,
            engine_dir: engine_dir_full,
            engine_content_dir,
            plugins_dirs,
        }
    }

    /// The chosen asset file's name.
    pub fn asset_file_name(&self) -> (r: Option<String>)
        ensures
            match r {
                Some(n) => self.asset_file_path matches Some(p) && n@ == last_segment_spec(p@),
                None => self.asset_file_path is None,
            },
    {
        match &self.asset_file_path {
            Some(p) => Some(last_segment(p.as_str())),
            None => None,
        }
    }

    /// The chosen asset file's name, as a string.
    pub fn asset_file_name_str(&self) -> (r: Option<String>)
        ensures
            match r {
                Some(n) => self.asset_file_path matches Some(p) && n@ == last_segment_spec(p@),
                None => self.asset_file_path is None,
            },
    {
        self.asset_file_name()
    }

    /// The chosen asset file's path, as a string.
    pub fn asset_file_path_str(&self) -> (r: Option<String>)
        ensures
            opt_view(r) == opt_view(self.asset_file_path),
    {
        self.asset_file_path.clone()
    }

    /// The project directory, as a string.
    pub fn project_dir_str(&self) -> (r: Option<String>)
        ensures
            opt_view(r) == opt_view(self.project_dir),
    {
        self.project_dir.clone()
    }

    /// The content directory, as a string.
    pub fn content_dir_str(&self) -> (r: Option<String>)
        ensures
            opt_view(r) == opt_view(self.content_dir),
    {
        self.content_dir.clone()
    }

    /// The engine directory, as a string.
    pub fn engine_dir_str(&self) -> (r: Option<String>)
        ensures
            opt_view(r) == opt_view(self.engine_dir),
    {
        self.engine_dir.clone()
    }

    /// The engine content directory, as a string.
    pub fn engine_content_dir_str(&self) -> (r: Option<String>)
        ensures
            opt_view(r) == opt_view(self.engine_content_dir),
    {
        self.engine_content_dir.clone()
    }

    /// The plugin roots, as strings.
    pub fn plugins_dirs_str(&self) -> (r: Vec<String>)
        ensures
            seq_views(r@) == seq_views(self.plugins_dirs@),
    {
        self.plugins_dirs.clone()
    }

    /// The project and content directory an asset path determines: the
    /// segments before the first `Content`, and that prefix extended by
    /// `Content`.
    pub fn get_project_dirs(asset_file_path: &Option<String>) -> (r: (
        Option<String>,
        Option<String>,
    ))
        ensures
            (opt_view(r.0), opt_view(r.1)) == project_dirs_spec(opt_view(*asset_file_path)),
    {
        match asset_file_path {
            Some(p) => {
                proof {
                    lemma_words();
                }
                let parts = split_path(p.as_str());
                let k = match find_segment(&parts, "Content") {
                    Some(k) => k,
                    None => parts.len(),
                };
                let project = join_path_range(&parts, 0, k);
                proof {
                    assert(seq_views(parts@).subrange(0, k as int) =~= seq_views(parts@).take(
                        k as int,
                    ));
                }
                let content = concat_path(project.as_str(), "Content");
                (Some(project), Some(content))
            },
            None => (None, None),
        }
    }

    /// The engine and engine-content directory a configured engine path
    /// determines.
    pub fn get_engine_dirs(engine_dir: &Option<String>) -> (r: (Option<String>, Option<String>))
        ensures
            (opt_view(r.0), opt_view(r.1)) == engine_dirs_spec(opt_view(*engine_dir)),
    {
        match engine_dir {
            Some(d) => {
                proof {
                    lemma_words();
                }
                let name = last_segment(d.as_str());
                let full = if str_equal(name.as_str(), "Engine") {
                    d.clone()
                } else {
                    concat_path(d.as_str(), "Engine")
                };
                let content = concat_path(full.as_str(), "Content");
                (Some(full), Some(content))
            },
            None => (None, None),
        }
    }

    /// All four directories, derived as `get_dirs_spec` says.
    pub fn get_dirs(
        asset_file_path: &Option<String>,
        engine_path: &Option<String>,
        fs: &Fs,
    ) -> (r: (Option<String>, Option<String>, Option<String>, Option<String>))
        ensures
            fs matches Fs::Model { view } ==> {
                let dirs = get_dirs_spec(opt_view(*asset_file_path), opt_view(*engine_path), *view);
                &&& opt_view(r.0) == dirs.0
                &&& opt_view(r.1) == dirs.1
                &&& opt_view(r.2) == dirs.2
                &&& opt_view(r.3) == dirs.3
            },
    {
        let (project_dir, content_dir, engine_dir, engine_content_dir) = match asset_file_path {
            Some(p) => {
                match Self::is_engine_path(p, fs) {
                    (true, Some(pair)) => {
                        let (engine_dir, engine_content_dir) = pair;
                        (None, None, Some(engine_dir), Some(engine_content_dir))
                    },
                    (false, _) => {
                        let (project_dir, content_dir) = Self::get_project_dirs(asset_file_path);
                        (project_dir, content_dir, None, None)
                    },
                    _ => (None, None, None, None),
                }
            },
            None => (None, None, None, None),
        };
        match (engine_dir, engine_content_dir) {
            (Some(engine_dir), Some(engine_content_dir)) => (
                project_dir,
                content_dir,
                Some(engine_dir),
                Some(engine_content_dir),
            ),
            _ => {
                let (engine_dir, engine_content_dir) = Self::get_engine_dirs(engine_path);
                (project_dir, content_dir, engine_dir, engine_content_dir)
            },
        }
    }

    /// Whether `asset_file_path` lies under a real engine tree, and if so,
    /// the engine directory and its content directory.
    pub fn is_engine_path(asset_file_path: &String, fs: &Fs) -> (r: (
        bool,
        Option<(String, String)>,
    ))
        ensures
            r.0 == (r.1 is Some),
            fs matches Fs::Model { view } ==> {
                let ep = prefix_through_spec(asset_file_path@, engine_seg());
                if is_engine_spec(asset_file_path@, *view) {
                    r.1 matches Some(pair) && pair.0@ == ep && pair.1@ == ep + seq!['/']
                        + content_seg()
                } else {
                    r.1 is None
                }
            },
    {
        proof {
            lemma_words();
        }
        let engine_path = prefix_through_segment(asset_file_path.as_str(), "Engine");
        if str_equal(engine_path.as_str(), asset_file_path.as_str()) || !fs.path_exists(
            &engine_path,
        ) {
            (false, None)
        } else {
            let engine_content_dir = concat_path(engine_path.as_str(), "Content");
            if fs.path_exists(&engine_content_dir) {
                (true, Some((engine_path, engine_content_dir)))
            } else {
                (false, None)
            }
        }
    }

    /// The plugin roots under the given project and engine directories.
    pub fn get_plugins_dirs(project_dir: &Option<String>, engine_dir: &Option<String>) -> (r: Vec<
        String,
    >)
        ensures
            seq_views(r@) == plugins_dirs_spec(opt_view(*project_dir), opt_view(*engine_dir)),
    {
        proof {
            lemma_words();
        }
        let mut res: Vec<String> = Vec::new();
        if let Some(project_dir) = project_dir {
            res.push(concat_path(project_dir.as_str(), "Plugins"));
        }
        if let Some(engine_dir) = engine_dir {
            res.push(concat_path(engine_dir.as_str(), "Plugins"));
        }
        proof {
            assert(seq_views(res@) =~= plugins_dirs_spec(
                opt_view(*project_dir),
                opt_view(*engine_dir),
            ));
        }
        res
    }

    /// Points the configuration at another asset file and re-derives every
    /// directory from it.
    pub fn update_asset_file(&mut self, asset_file_path: Option<String>, fs: &Fs)
        ensures
            final(self).asset_file_path == asset_file_path,
            fs matches Fs::Model { view } ==> {
                let dirs = get_dirs_spec(
                    opt_view(asset_file_path),
                    opt_view(old(self).engine_dir),
                    *view,
                );
                &&& opt_view(final(self).project_dir) == dirs.0
                &&& opt_view(final(self).content_dir) == dirs.1
                &&& opt_view(final(self).engine_dir) == dirs.2
                &&& opt_view(final(self).engine_content_dir) == dirs.3
                &&& seq_views(final(self).plugins_dirs@) == plugins_dirs_spec(dirs.0, dirs.2)
            },
    {
        self.asset_file_path = asset_file_path;
        let (project_dir, content_dir, engine_dir, engine_content_dir) = Self::get_dirs(
            &self.asset_file_path,
            &self.engine_dir,
            fs,
        );
        self.project_dir = project_dir;
        self.content_dir = content_dir;
        self.engine_dir = engine_dir;
        self.engine_content_dir = engine_content_dir;
        self.update_plugin_dirs();
    }

    /// Points the configuration at another engine directory.
    pub fn update_engine_dir(&mut self, engine_dir: Option<String>)
        ensures
            ({
                let dirs = engine_dirs_spec(opt_view(engine_dir));
                &&& opt_view(final(self).engine_dir) == dirs.0
                &&& opt_view(final(self).engine_content_dir) == dirs.1
            }),
            final(self).asset_file_path == old(self).asset_file_path,
            final(self).project_dir == old(self).project_dir,
            final(self).content_dir == old(self).content_dir,
            seq_views(final(self).plugins_dirs@) == plugins_dirs_spec(
                opt_view(old(self).project_dir),
                opt_view(final(self).engine_dir),
            ),
    {
        let (engine_dir, engine_content_dir) = Self::get_engine_dirs(&engine_dir);
        self.engine_dir = engine_dir;
        self.engine_content_dir = engine_content_dir;
        self.update_plugin_dirs();
    }

    /// Re-derives the plugin roots from the current directories.
    pub fn update_plugin_dirs(&mut self)
        ensures
            seq_views(final(self).plugins_dirs@) == plugins_dirs_spec(
                opt_view(old(self).project_dir),
                opt_view(old(self).engine_dir),
            ),
            final(self).asset_file_path == old(self).asset_file_path,
            final(self).project_dir == old(self).project_dir,
            final(self).content_dir == old(self).content_dir,
            final(self).engine_dir == old(self).engine_dir,
            final(self).engine_content_dir == old(self).engine_content_dir,
    {
        self.plugins_dirs = Self::get_plugins_dirs(&self.project_dir, &self.engine_dir);
    }

    /// The asset's path relative to the directory its origin places it
    /// under: the project directory for project assets, the engine
    /// directory for engine ones.
    pub fn get_relative_path(&self, asset: &Asset) -> (r: Option<String>)
        ensures
            ({
                let base = match asset.origin {
                    AssetOrigin::Project | AssetOrigin::ProjectPlugin => opt_view(self.project_dir),
                    AssetOrigin::Engine | AssetOrigin::EnginePlugin => opt_view(self.engine_dir),
                };
                match base {
                    Some(d) => match r {
                        Some(t) => strip_prefix_spec(asset.path@, d) == Some(t@),
                        None => strip_prefix_spec(asset.path@, d) is None,
                    },
                    None => r is None,
                }
            }),
    {
        let base = match asset.origin {
            AssetOrigin::Project | AssetOrigin::ProjectPlugin => &self.project_dir,
            AssetOrigin::Engine | AssetOrigin::EnginePlugin => &self.engine_dir,
        };
        match base {
            Some(d) => strip_path_prefix(asset.path.as_str(), d.as_str()),
            None => None,
        }
    }
}

} // verus!
