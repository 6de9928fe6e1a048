//! Resolution of import references to concrete file paths.
//!
//! An import reference such as `/Game/Foo/Bar` names an asset through one
//! of four namespaces: `Game` resolves under the project's content
//! directory, `Engine` under the engine's, `Script` is not supported, and
//! any other namespace is taken as a plugin name and searched for under the
//! plugin roots. A reference that resolves yields a path; one that does not
//! yields an `AssetError`, never a panic or an abort.

use vstd::prelude::*;
use vstd::string::*;
use crate::asset::{AssetError, AssetErrorView};
use crate::fsmodel::{walk_view_spec, Fs, FsView};
use crate::pathseg::{
    concat_path, concat_str, content_seg, engine_seg, game_seg, join_path_range, join_path_spec,
    last_segment, last_segment_spec, lemma_words, opt_view, script_seg, seq_views, split_path,
    split_path_spec, str_ends_with, str_equal, uasset_ext, vec_contains_str,
};
use crate::util::SplitVecContainer;

verus! {

/// Reason given for a `Game` reference whose target does not exist.
pub open spec fn game_missing_reason() -> Seq<char> {
    "The asset doesn't exist in the game content directory"@
}

/// Reason given for an `Engine` reference whose target does not exist.
pub open spec fn engine_missing_reason() -> Seq<char> {
    "The asset doesn't exist in the engine content directory"@
}

/// Reason given for an `Engine` reference when no engine content directory
/// is configured.
pub open spec fn engine_unset_reason() -> Seq<char> {
    "Engine content directory is not set!"@
}

/// Reason given for a `Script` reference: that namespace is a documented
/// non-goal.
pub open spec fn script_reason() -> Seq<char> {
    "The Script namespace is not supported"@
}

/// Reason given for a plugin reference found under no plugin root.
pub open spec fn plugins_missing_reason() -> Seq<char> {
    "Couldn't find the asset in any of the plugins directories"@
}

/// The reference with the `.uasset` suffix ensured.
pub open spec fn normalize_ref_spec(name: Seq<char>) -> Seq<char> {
    if uasset_ext().is_suffix_of(name) {
        name
    } else {
        name + uasset_ext()
    }
}

/// Everything the walks of all plugin roots yield, in root order.
pub open spec fn plugin_walk_all(v: FsView, roots: Seq<Seq<char>>) -> Seq<Seq<char>>
    decreases roots.len(),
{
    if roots.len() == 0 {
        Seq::empty()
    } else {
        plugin_walk_all(v, roots.drop_last()) + walk_view_spec(v, roots.last())
    }
}

/// The `Content` directories of the walked entries named `ns`, keeping
/// those that exist, in walk order.
pub open spec fn plugin_content_candidates(
    entries: Seq<Seq<char>>,
    ns: Seq<char>,
    v: FsView,
) -> Seq<Seq<char>>
    decreases entries.len(),
{
    if entries.len() == 0 {
        Seq::empty()
    } else {
        let front = plugin_content_candidates(entries.drop_last(), ns, v);
        let c = entries.last() + seq!['/'] + content_seg();
        if last_segment_spec(entries.last()) == ns && v.exists_spec(c) {
            front.push(c)
        } else {
            front
        }
    }
}

/// The sequence with later repetitions removed: each element keeps its
/// first occurrence only.
pub open spec fn dedup_spec(s: Seq<Seq<char>>) -> Seq<Seq<char>>
    decreases s.len(),
{
    if s.len() == 0 {
        s
    } else {
        let front = dedup_spec(s.drop_last());
        if s.drop_last().contains(s.last()) {
            front
        } else {
            front.push(s.last())
        }
    }
}

/// Deduplication keeps exactly the members.
pub proof fn lemma_dedup_contains(s: Seq<Seq<char>>, x: Seq<char>)
    ensures
        dedup_spec(s).contains(x) == s.contains(x),
    decreases s.len(),
{
    if s.len() != 0 {
        lemma_dedup_contains(s.drop_last(), x);
        let front = dedup_spec(s.drop_last());
        if s.drop_last().contains(s.last()) {
            if s.contains(x) {
                let i = choose|i: int| 0 <= i < s.len() && s[i] == x;
                if i == s.len() - 1 {
                    assert(s.drop_last().contains(x));
                } else {
                    assert(s.drop_last()[i] == x);
                }
            }
            if s.drop_last().contains(x) {
                let i = choose|i: int| 0 <= i < s.drop_last().len() && s.drop_last()[i] == x;
                assert(s[i] == x);
            }
        } else {
            if s.contains(x) {
                let i = choose|i: int| 0 <= i < s.len() && s[i] == x;
                if i == s.len() - 1 {
                    assert(front.push(s.last())[front.len() as int] == x);
                } else {
                    assert(s.drop_last()[i] == x);
                    let j = choose|j: int| 0 <= j < front.len() && front[j] == x;
                    assert(front.push(s.last())[j] == x);
                }
            }
            if front.push(s.last()).contains(x) {
                let i = choose|i: int|
                    0 <= i < front.push(s.last()).len() && front.push(s.last())[i] == x;
                if i == front.len() {
                    assert(s[s.len() - 1] == x);
                } else {
                    assert(front[i] == x);
                    let j = choose|j: int|
                        0 <= j < s.drop_last().len() && s.drop_last()[j] == x;
                    assert(s[j] == x);
                }
            }
        }
    }
}

/// The first candidate directory under which `rest` exists, extended by
/// it, if any.
pub open spec fn first_hit_spec(cands: Seq<Seq<char>>, rest: Seq<char>, v: FsView) -> Option<
    Seq<char>,
>
    decreases cands.len(),
{
    if cands.len() == 0 {
        None
    } else {
        let p = cands[0] + seq!['/'] + rest;
        if v.exists_spec(p) {
            Some(p)
        } else {
            first_hit_spec(cands.skip(1), rest, v)
        }
    }
}

/// What resolving one reference yields against the given directories and
/// file system: the path of the asset it names, or the failure that names
/// the reference (or candidate path) and the reason.
pub open spec fn locate_ref_spec(
    name: Seq<char>,
    content_dir: Seq<char>,
    engine_content_dir: Option<Seq<char>>,
    plugins_dirs: Seq<Seq<char>>,
    v: FsView,
) -> Result<Seq<char>, AssetErrorView> {
    let dep = normalize_ref_spec(name);
    let segs = split_path_spec(dep.skip(1));
    let ns = segs[0];
    let rest = join_path_spec(segs.skip(1));
    if ns == game_seg() {
        let cand = content_dir + seq!['/'] + rest;
        if v.exists_spec(cand) {
            Ok(cand)
        } else {
            Err(AssetErrorView { path: cand, reason: game_missing_reason() })
        }
    } else if ns == engine_seg() {
        match engine_content_dir {
            Some(e) => {
                let cand = e + seq!['/'] + rest;
                if v.exists_spec(cand) {
                    Ok(cand)
                } else {
                    Err(AssetErrorView { path: cand, reason: engine_missing_reason() })
                }
            },
            None => Err(AssetErrorView { path: dep, reason: engine_unset_reason() }),
        }
    } else if ns == script_seg() {
        Err(AssetErrorView { path: dep, reason: script_reason() })
    } else {
        let cands = dedup_spec(
            plugin_content_candidates(plugin_walk_all(v, plugins_dirs), ns, v),
        );
        match first_hit_spec(cands, rest, v) {
            Some(p) => Ok(p),
            None => Err(AssetErrorView { path: dep, reason: plugins_missing_reason() }),
        }
    }
}

/// Law: resolution is idempotent. Resolving one reference twice against
/// one configuration and one file system yields the same outcome, because
/// the outcome is a function of those arguments alone.
pub proof fn lemma_resolution_idempotent(
    name: Seq<char>,
    content_dir: Seq<char>,
    engine_content_dir: Option<Seq<char>>,
    plugins_dirs: Seq<Seq<char>>,
    v: FsView,
    r1: Result<Seq<char>, AssetErrorView>,
    r2: Result<Seq<char>, AssetErrorView>,
)
    requires
        r1 == locate_ref_spec(name, content_dir, engine_content_dir, plugins_dirs, v),
        r2 == locate_ref_spec(name, content_dir, engine_content_dir, plugins_dirs, v),
    ensures
        r1 == r2,
{
}

/// The view of a resolution result.
pub open spec fn locate_result_view(r: Result<String, AssetError>) -> Result<
    Seq<char>,
    AssetErrorView,
> {
    match r {
        Ok(p) => Ok(p@),
        Err(e) => Err(e@),
    }
}

/// Resolves one import reference. Resolution is read-only and, against a
/// modelled file system, a pure function of its arguments: resolving the
/// same reference against the same configuration twice yields the same
/// outcome. Two outcomes need no file system at all and hold whatever the
/// disk answers: a `Script` reference always fails, and an `Engine`
/// reference fails when no engine content directory is configured.
pub fn locate_ref(
    name: &String,
    content_dir: &String,
    engine_content_dir: &Option<String>,
    plugins_dirs: &Vec<String>,
    fs: &Fs,
) -> (r: Result<String, AssetError>)
    ensures
        fs matches Fs::Model { view } ==> locate_result_view(r) == locate_ref_spec(
            name@,
            content_dir@,
            opt_view(*engine_content_dir),
            seq_views(plugins_dirs@),
            *view,
        ),
        ({
            let dep = normalize_ref_spec(name@);
            let ns = split_path_spec(dep.skip(1))[0];
            &&& (ns == script_seg() ==> (r matches Err(e) && e@ == (AssetErrorView {
                path: dep,
                reason: script_reason(),
            })))
            &&& (ns == engine_seg() && engine_content_dir is None ==> (r matches Err(e) && e@
                == (AssetErrorView { path: dep, reason: engine_unset_reason() })))
        }),
{
    proof {
        lemma_words();
    }
    let dep = if !str_ends_with(name.as_str(), ".uasset") {
        concat_str(name.as_str(), ".uasset")
    } else {
        name.clone()
    };
    assert(dep@ == normalize_ref_spec(name@));
    assert(dep@.len() >= 7);
    let n = dep.as_str().unicode_len();
    let tail = dep.as_str().substring_char(1, n).to_owned();
    proof {
        assert(tail@ =~= dep@.skip(1));
    }
    let segs = split_path(tail.as_str());
    let rest = join_path_range(&segs, 1, segs.len());
    proof {
        assert(seq_views(segs@).subrange(1, seq_views(segs@).len() as int) =~= seq_views(
            segs@,
        ).skip(1));
        assert(seq_views(segs@)[0] == segs@[0]@);
    }
    let ns = &segs[0];
    if str_equal(ns.as_str(), "Game") {
        let cand = concat_path(content_dir.as_str(), rest.as_str());
        if fs.path_exists(&cand) {
            Ok(cand)
        } else {
            Err(AssetError::new(
                cand.as_str(),
                "The asset doesn't exist in the game content directory",
            ))
        }
    } else if str_equal(ns.as_str(), "Engine") {
        match engine_content_dir {
            Some(e) => {
                let cand = concat_path(e.as_str(), rest.as_str());
                if fs.path_exists(&cand) {
                    Ok(cand)
                } else {
                    Err(AssetError::new(
                        cand.as_str(),
                        "The asset doesn't exist in the engine content directory",
                    ))
                }
            },
            None => Err(AssetError::new(dep.as_str(), "Engine content directory is not set!")),
        }
    } else if str_equal(ns.as_str(), "Script") {
        Err(AssetError::new(dep.as_str(), "The Script namespace is not supported"))
    } else {
        locate_in_plugins(ns, &rest, &dep, plugins_dirs, fs)
    }
}

/// Searches every plugin root for a directory named `ns` that holds a
/// `Content` directory, and resolves `rest` under the first such content
/// directory it exists in.
fn locate_in_plugins(
    ns: &String,
    rest: &String,
    dep: &String,
    plugins_dirs: &Vec<String>,
    fs: &Fs,
) -> (r: Result<String, AssetError>)
    ensures
        fs matches Fs::Model { view } ==> locate_result_view(r) == {
            let cands = dedup_spec(
                plugin_content_candidates(
                    plugin_walk_all(*view, seq_views(plugins_dirs@)),
                    ns@,
                    *view,
                ),
            );
            match first_hit_spec(cands, rest@, *view) {
                Some(p) => Ok::<Seq<char>, AssetErrorView>(p),
                None => Err::<Seq<char>, AssetErrorView>(
                    AssetErrorView { path: dep@, reason: plugins_missing_reason() },
                ),
            }
        },
{
    proof {
        lemma_words();
    }
    // Walk every plugin root.
    let mut entries: Vec<String> = Vec::new();
    let mut i: usize = 0;
    proof {
        assert(seq_views(plugins_dirs@).take(0) =~= Seq::<Seq<char>>::empty());
        assert(seq_views(entries@) =~= Seq::<Seq<char>>::empty());
    }
    while i < plugins_dirs.len()
        invariant
            0 <= i <= plugins_dirs@.len(),
            fs matches Fs::Model { view } ==> seq_views(entries@) == plugin_walk_all(
                *view,
                seq_views(plugins_dirs@).take(i as int),
            ),
        decreases plugins_dirs@.len() - i,
    {
        let mut w = fs.walk_dir(&plugins_dirs[i]);
        proof {
            let taken = seq_views(plugins_dirs@).take(i + 1);
            assert(taken.drop_last() =~= seq_views(plugins_dirs@).take(i as int));
            assert(taken.last() == plugins_dirs@[i as int]@);
            assert(seq_views(entries@ + w@) =~= seq_views(entries@) + seq_views(w@));
        }
        entries.append(&mut w);
        i = i + 1;
    }
    proof {
        assert(seq_views(plugins_dirs@).take(seq_views(plugins_dirs@).len() as int) =~= seq_views(
            plugins_dirs@,
        ));
    }
    // Keep the Content directories of the entries named `ns`.
    let mut cands: Vec<String> = Vec::new();
    let mut j: usize = 0;
    proof {
        assert(seq_views(entries@).take(0) =~= Seq::<Seq<char>>::empty());
        assert(seq_views(cands@) =~= Seq::<Seq<char>>::empty());
    }
    while j < entries.len()
        invariant
            0 <= j <= entries@.len(),
            fs matches Fs::Model { view } ==> seq_views(cands@) == plugin_content_candidates(
                seq_views(entries@).take(j as int),
                ns@,
                *view,
            ),
        decreases entries@.len() - j,
    {
        let entry_name = last_segment(entries[j].as_str());
        let c = concat_path(entries[j].as_str(), "Content");
        let mut keep = false;
        if str_equal(entry_name.as_str(), ns.as_str()) {
            if fs.path_exists(&c) {
                keep = true;
            }
        }
        proof {
            lemma_words();
            let taken = seq_views(entries@).take(j + 1);
            assert(taken.drop_last() =~= seq_views(entries@).take(j as int));
            assert(taken.last() == entries@[j as int]@);
            if keep {
                assert(seq_views(cands@.push(c)) =~= seq_views(cands@).push(c@));
            }
        }
        if keep {
            cands.push(c);
        }
        j = j + 1;
    }
    proof {
        assert(seq_views(entries@).take(seq_views(entries@).len() as int) =~= seq_views(entries@));
    }
    // Deduplicate the candidate content directories, keeping first
    // occurrences.
    let mut unique: Vec<String> = Vec::new();
    let mut k: usize = 0;
    proof {
        assert(seq_views(cands@).take(0) =~= Seq::<Seq<char>>::empty());
        assert(seq_views(unique@) =~= Seq::<Seq<char>>::empty());
    }
    while k < cands.len()
        invariant
            0 <= k <= cands@.len(),
            seq_views(unique@) == dedup_spec(seq_views(cands@).take(k as int)),
        decreases cands@.len() - k,
    {
        let seen = vec_contains_str(&unique, &cands[k]);
        proof {
            let taken = seq_views(cands@).take(k + 1);
            assert(taken.drop_last() =~= seq_views(cands@).take(k as int));
            assert(taken.last() == cands@[k as int]@);
            lemma_dedup_contains(seq_views(cands@).take(k as int), cands@[k as int]@);
            if !seen {
                assert(seq_views(unique@.push(cands@[k as int])) =~= seq_views(unique@).push(
                    cands@[k as int]@,
                ));
            }
        }
        if !seen {
            let item = cands[k].clone();
            unique.push(item);
        }
        k = k + 1;
    }
    proof {
        assert(seq_views(cands@).take(seq_views(cands@).len() as int) =~= seq_views(cands@));
    }
    // Resolve under the first candidate that has the asset.
    let ghost all_cands = seq_views(unique@);
    let mut m: usize = 0;
    proof {
        assert(all_cands.skip(0) =~= all_cands);
    }
    while m < unique.len()
        invariant
            0 <= m <= unique@.len(),
            all_cands == seq_views(unique@),
            fs matches Fs::Model { view } ==> all_cands == dedup_spec(
                plugin_content_candidates(
                    plugin_walk_all(*view, seq_views(plugins_dirs@)),
                    ns@,
                    *view,
                ),
            ),
            fs matches Fs::Model { view } ==> first_hit_spec(all_cands, rest@, *view)
                == first_hit_spec(all_cands.skip(m as int), rest@, *view),
        decreases unique@.len() - m,
    {
        let p = concat_path(unique[m].as_str(), rest.as_str());
        let hit = fs.path_exists(&p);
        proof {
            let suffix = all_cands.skip(m as int);
            assert(suffix.len() > 0);
            assert(suffix[0] == unique@[m as int]@);
            assert(suffix.skip(1) =~= all_cands.skip(m + 1));
        }
        if hit {
            return Ok(p);
        }
        m = m + 1;
    }
    proof {
        assert(all_cands.skip(all_cands.len() as int) =~= Seq::<Seq<char>>::empty());
    }
    Err(AssetError::new(
        dep.as_str(),
        "Couldn't find the asset in any of the plugins directories",
    ))
}

/// The views of a pair of resolution outcome vectors.
pub open spec fn resolve_outcome_views(paths: Seq<String>, fails: Seq<AssetError>) -> (
    Seq<Seq<char>>,
    Seq<AssetErrorView>,
) {
    (seq_views(paths), fails.map_values(|e: AssetError| e@))
}

/// What resolving a list of references yields: the resolved paths and the
/// failures, each in reference order.
pub open spec fn resolve_all_spec(
    names: Seq<Seq<char>>,
    content_dir: Seq<char>,
    engine_content_dir: Option<Seq<char>>,
    plugins_dirs: Seq<Seq<char>>,
    v: FsView,
) -> (Seq<Seq<char>>, Seq<AssetErrorView>)
    decreases names.len(),
{
    if names.len() == 0 {
        (Seq::empty(), Seq::empty())
    } else {
        let front = resolve_all_spec(
            names.drop_last(),
            content_dir,
            engine_content_dir,
            plugins_dirs,
            v,
        );
        match locate_ref_spec(names.last(), content_dir, engine_content_dir, plugins_dirs, v) {
            Ok(p) => (front.0.push(p), front.1),
            Err(e) => (front.0, front.1.push(e)),
        }
    }
}

/// Every reference's outcome lands in one of the two lists: a resolved
/// path among the paths, a failure among the failures.
pub proof fn lemma_resolve_all_covers(
    names: Seq<Seq<char>>,
    content_dir: Seq<char>,
    engine_content_dir: Option<Seq<char>>,
    plugins_dirs: Seq<Seq<char>>,
    v: FsView,
    k: int,
)
    requires
        0 <= k < names.len(),
    ensures
        match locate_ref_spec(names[k], content_dir, engine_content_dir, plugins_dirs, v) {
            Ok(p) => resolve_all_spec(
                names,
                content_dir,
                engine_content_dir,
                plugins_dirs,
                v,
            ).0.contains(p),
            Err(e) => resolve_all_spec(
                names,
                content_dir,
                engine_content_dir,
                plugins_dirs,
                v,
            ).1.contains(e),
        },
    decreases names.len(),
{
    let r = resolve_all_spec(names, content_dir, engine_content_dir, plugins_dirs, v);
    let front = resolve_all_spec(
        names.drop_last(),
        content_dir,
        engine_content_dir,
        plugins_dirs,
        v,
    );
    if k == names.len() - 1 {
        match locate_ref_spec(names[k], content_dir, engine_content_dir, plugins_dirs, v) {
            Ok(p) => {
                assert(r.0[front.0.len() as int] == p);
            },
            Err(e) => {
                assert(r.1[front.1.len() as int] == e);
            },
        }
    } else {
        lemma_resolve_all_covers(
            names.drop_last(),
            content_dir,
            engine_content_dir,
            plugins_dirs,
            v,
            k,
        );
        assert(names.drop_last()[k] == names[k]);
        match locate_ref_spec(names[k], content_dir, engine_content_dir, plugins_dirs, v) {
            Ok(p) => {
                let w = choose|w: int| 0 <= w < front.0.len() && front.0[w] == p;
                assert(r.0[w] == p);
            },
            Err(e) => {
                let w = choose|w: int| 0 <= w < front.1.len() && front.1[w] == e;
                assert(r.1[w] == e);
            },
        }
    }
}

/// No path is invented: every entry of the resolved list is the successful
/// outcome of one of the references.
pub proof fn lemma_resolve_all_sound(
    names: Seq<Seq<char>>,
    content_dir: Seq<char>,
    engine_content_dir: Option<Seq<char>>,
    plugins_dirs: Seq<Seq<char>>,
    v: FsView,
    w: int,
)
    requires
        0 <= w < resolve_all_spec(names, content_dir, engine_content_dir, plugins_dirs, v).0.len(),
    ensures
        exists|m: int|
            0 <= m < names.len() && locate_ref_spec(
                names[m],
                content_dir,
                engine_content_dir,
                plugins_dirs,
                v,
            ) == Ok::<Seq<char>, AssetErrorView>(
                resolve_all_spec(names, content_dir, engine_content_dir, plugins_dirs, v).0[w],
            ),
    decreases names.len(),
{
    let r = resolve_all_spec(names, content_dir, engine_content_dir, plugins_dirs, v);
    let front = resolve_all_spec(
        names.drop_last(),
        content_dir,
        engine_content_dir,
        plugins_dirs,
        v,
    );
    let last_outcome = locate_ref_spec(
        names.last(),
        content_dir,
        engine_content_dir,
        plugins_dirs,
        v,
    );
    if last_outcome is Ok && w == front.0.len() {
        let m = names.len() - 1;
        assert(0 <= m < names.len() && locate_ref_spec(
            names[m],
            content_dir,
            engine_content_dir,
            plugins_dirs,
            v,
        ) == Ok::<Seq<char>, AssetErrorView>(r.0[w]));
    } else {
        lemma_resolve_all_sound(
            names.drop_last(),
            content_dir,
            engine_content_dir,
            plugins_dirs,
            v,
            w,
        );
        let m = choose|m: int|
            0 <= m < names.drop_last().len() && locate_ref_spec(
                names.drop_last()[m],
                content_dir,
                engine_content_dir,
                plugins_dirs,
                v,
            ) == Ok::<Seq<char>, AssetErrorView>(front.0[w]);
        assert(names.drop_last()[m] == names[m]);
        assert(r.0[w] == front.0[w]);
        assert(0 <= m < names.len() && locate_ref_spec(
            names[m],
            content_dir,
            engine_content_dir,
            plugins_dirs,
            v,
        ) == Ok::<Seq<char>, AssetErrorView>(r.0[w]));
    }
}

/// No failure is invented either: every entry of the failure list is the
/// failed outcome of one of the references.
pub proof fn lemma_resolve_all_sound_err(
    names: Seq<Seq<char>>,
    content_dir: Seq<char>,
    engine_content_dir: Option<Seq<char>>,
    plugins_dirs: Seq<Seq<char>>,
    v: FsView,
    w: int,
)
    requires
        0 <= w < resolve_all_spec(names, content_dir, engine_content_dir, plugins_dirs, v).1.len(),
    ensures
        exists|m: int|
            0 <= m < names.len() && locate_ref_spec(
                names[m],
                content_dir,
                engine_content_dir,
                plugins_dirs,
                v,
            ) == Err::<Seq<char>, AssetErrorView>(
                resolve_all_spec(names, content_dir, engine_content_dir, plugins_dirs, v).1[w],
            ),
    decreases names.len(),
{
    let r = resolve_all_spec(names, content_dir, engine_content_dir, plugins_dirs, v);
    let front = resolve_all_spec(
        names.drop_last(),
        content_dir,
        engine_content_dir,
        plugins_dirs,
        v,
    );
    let last_outcome = locate_ref_spec(
        names.last(),
        content_dir,
        engine_content_dir,
        plugins_dirs,
        v,
    );
    if last_outcome is Err && w == front.1.len() {
        let m = names.len() - 1;
        assert(0 <= m < names.len() && locate_ref_spec(
            names[m],
            content_dir,
            engine_content_dir,
            plugins_dirs,
            v,
        ) == Err::<Seq<char>, AssetErrorView>(r.1[w]));
    } else {
        lemma_resolve_all_sound_err(
            names.drop_last(),
            content_dir,
            engine_content_dir,
            plugins_dirs,
            v,
            w,
        );
        let m = choose|m: int|
            0 <= m < names.drop_last().len() && locate_ref_spec(
                names.drop_last()[m],
                content_dir,
                engine_content_dir,
                plugins_dirs,
                v,
            ) == Err::<Seq<char>, AssetErrorView>(front.1[w]);
        assert(names.drop_last()[m] == names[m]);
        assert(r.1[w] == front.1[w]);
        assert(0 <= m < names.len() && locate_ref_spec(
            names[m],
            content_dir,
            engine_content_dir,
            plugins_dirs,
            v,
        ) == Err::<Seq<char>, AssetErrorView>(r.1[w]));
    }
}

/// Resolves every reference of `names` in order, splitting the outcomes
/// into resolved paths and failures.
pub fn resolve_references(
    names: &Vec<String>,
    content_dir: &String,
    engine_content_dir: &Option<String>,
    plugins_dirs: &Vec<String>,
    fs: &Fs,
) -> (r: (Vec<String>, Vec<AssetError>))
    ensures
        fs matches Fs::Model { view } ==> resolve_outcome_views(r.0@, r.1@) == resolve_all_spec(
            seq_views(names@),
            content_dir@,
            opt_view(*engine_content_dir),
            seq_views(plugins_dirs@),
            *view,
        ),
{
    let mut container: SplitVecContainer<String, AssetError> = SplitVecContainer::default();
    let mut i: usize = 0;
    proof {
        assert(seq_views(names@).take(0) =~= Seq::<Seq<char>>::empty());
        assert(seq_views(container.left@) =~= Seq::<Seq<char>>::empty());
        assert(container.right@.map_values(|e: AssetError| e@) =~= Seq::<AssetErrorView>::empty());
    }
    while i < names.len()
        invariant
            0 <= i <= names@.len(),
            fs matches Fs::Model { view } ==> resolve_outcome_views(
                container.left@,
                container.right@,
            ) == resolve_all_spec(
                seq_views(names@).take(i as int),
                content_dir@,
                opt_view(*engine_content_dir),
                seq_views(plugins_dirs@),
                *view,
            ),
        decreases names@.len() - i,
    {
        let outcome = locate_ref(&names[i], content_dir, engine_content_dir, plugins_dirs, fs);
        proof {
            let taken = seq_views(names@).take(i + 1);
            assert(taken.drop_last() =~= seq_views(names@).take(i as int));
            assert(taken.last() == names@[i as int]@);
        }
        match outcome {
            Ok(p) => {
                proof {
                    assert(seq_views(container.left@.push(p)) =~= seq_views(
                        container.left@,
                    ).push(p@));
                }
                container.push_left(p);
            },
            Err(e) => {
                proof {
                    assert(container.right@.push(e).map_values(|x: AssetError| x@)
                        =~= container.right@.map_values(|x: AssetError| x@).push(e@));
                }
                container.push_right(e);
            },
        }
        i = i + 1;
    }
    proof {
        assert(seq_views(names@).take(seq_views(names@).len() as int) =~= seq_views(names@));
    }
    (container.left, container.right)
}

} // verus!
