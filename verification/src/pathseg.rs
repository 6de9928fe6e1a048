//! Path strings and their segment structure.
//!
//! Paths and import references are `/`-separated strings. This module gives
//! the segment structure a mathematical definition (`split_path_spec`,
//! `join_path_spec`) and verified executable operations over it.

use vstd::prelude::*;
use vstd::string::*;

verus! {

/// The views of a vector of strings.
pub open spec fn seq_views(v: Seq<String>) -> Seq<Seq<char>> {
    v.map_values(|s: String| s@)
}

/// The view of an optional string.
pub open spec fn opt_view(o: Option<String>) -> Option<Seq<char>> {
    match o {
        Some(s) => Some(s@),
        None => None,
    }
}

/// Index of the first `/` in `s`, or `s.len()` if there is none.
pub open spec fn first_sep(s: Seq<char>) -> nat
    decreases s.len(),
{
    if s.len() == 0 {
        0
    } else if s[0] == '/' {
        0
    } else {
        1 + first_sep(s.skip(1))
    }
}

/// The segments of `s`, split on `/`. Empty segments are kept, so the
/// result is never empty and joining it back with `/` restores `s`.
pub open spec fn split_path_spec(s: Seq<char>) -> Seq<Seq<char>>
    decreases s.len(),
{
    let i = first_sep(s);
    if i >= s.len() {
        seq![s]
    } else {
        seq![s.take(i as int)] + split_path_spec(s.skip(i + 1 as int))
    }
}

/// Joins segments with `/`.
pub open spec fn join_path_spec(parts: Seq<Seq<char>>) -> Seq<char>
    decreases parts.len(),
{
    if parts.len() == 0 {
        Seq::empty()
    } else if parts.len() == 1 {
        parts[0]
    } else {
        parts[0] + seq!['/'] + join_path_spec(parts.skip(1))
    }
}

/// The last segment of `s`: the file name of a file path.
pub open spec fn last_segment_spec(s: Seq<char>) -> Seq<char> {
    split_path_spec(s).last()
}

/// The `.uasset` file extension.
pub open spec fn uasset_ext() -> Seq<char> {
    seq!['.', 'u', 'a', 's', 's', 'e', 't']
}

/// The `Game` import namespace.
pub open spec fn game_seg() -> Seq<char> {
    seq!['G', 'a', 'm', 'e']
}

/// The `Engine` directory segment and import namespace.
pub open spec fn engine_seg() -> Seq<char> {
    seq!['E', 'n', 'g', 'i', 'n', 'e']
}

/// The `Script` import namespace.
pub open spec fn script_seg() -> Seq<char> {
    seq!['S', 'c', 'r', 'i', 'p', 't']
}

/// The `Content` directory segment.
pub open spec fn content_seg() -> Seq<char> {
    seq!['C', 'o', 'n', 't', 'e', 'n', 't']
}

/// The `Plugins` directory segment.
pub open spec fn plugins_seg() -> Seq<char> {
    seq!['P', 'l', 'u', 'g', 'i', 'n', 's']
}

/// Ties the directory-name string literals to their segment constants.
pub proof fn lemma_words()
    ensures
        "Game"@ == game_seg(),
        "Engine"@ == engine_seg(),
        "Script"@ == script_seg(),
        "Content"@ == content_seg(),
        "Plugins"@ == plugins_seg(),
        ".uasset"@ == uasset_ext(),
{
    reveal_strlit("Game");
    reveal_strlit("Engine");
    reveal_strlit("Script");
    reveal_strlit("Content");
    reveal_strlit("Plugins");
    reveal_strlit(".uasset");
    assert("Game"@ =~= game_seg());
    assert("Engine"@ =~= engine_seg());
    assert("Script"@ =~= script_seg());
    assert("Content"@ =~= content_seg());
    assert("Plugins"@ =~= plugins_seg());
    assert(".uasset"@ =~= uasset_ext());
}

/// Whether the last segment of `s` names a `.uasset` file: it ends in the
/// extension and has a non-empty stem before it.
pub open spec fn has_uasset_ext_spec(s: Seq<char>) -> bool {
    &&& uasset_ext().is_suffix_of(last_segment_spec(s))
    &&& last_segment_spec(s).len() > uasset_ext().len()
}

/// Index of the first segment equal to `name`, or `parts.len()` if none is.
pub open spec fn seg_index_spec(parts: Seq<Seq<char>>, name: Seq<char>) -> int
    decreases parts.len(),
{
    if parts.len() == 0 {
        0
    } else if parts[0] == name {
        0
    } else {
        1 + seg_index_spec(parts.skip(1), name)
    }
}

/// The prefix of `s` up to and including its first segment equal to `name`,
/// or `s` extended by a final segment `name` if no segment of `s` equals it.
pub open spec fn prefix_through_spec(s: Seq<char>, name: Seq<char>) -> Seq<char> {
    let parts = split_path_spec(s);
    let k = seg_index_spec(parts, name);
    if k < parts.len() {
        join_path_spec(parts.take(k + 1))
    } else {
        s + seq!['/'] + name
    }
}

/// What remains of `path` after removing the leading directory `prefix`,
/// if `prefix` is a segment-wise prefix of `path`.
pub open spec fn strip_prefix_spec(path: Seq<char>, prefix: Seq<char>) -> Option<Seq<char>> {
    if path == prefix {
        Some(Seq::<char>::empty())
    } else if (prefix + seq!['/']).is_prefix_of(path) {
        Some(path.skip(prefix.len() as int + 1))
    } else {
        None
    }
}

proof fn lemma_first_sep_bounds(s: Seq<char>)
    ensures
        0 <= first_sep(s) <= s.len(),
        first_sep(s) < s.len() ==> s[first_sep(s) as int] == '/',
        forall|j: int| 0 <= j < first_sep(s) ==> s[j] != '/',
    decreases s.len(),
{
    if s.len() != 0 && s[0] != '/' {
        lemma_first_sep_bounds(s.skip(1));
        assert(forall|j: int| 1 <= j < first_sep(s) ==> s[j] == s.skip(1)[j - 1]);
    }
}

/// If the first `k` characters of `s` are not `/` and the character at `k`
/// is `/` (or `k` is the length), then `k` is the first separator.
proof fn lemma_first_sep_at(s: Seq<char>, k: int)
    requires
        0 <= k <= s.len(),
        forall|j: int| 0 <= j < k ==> s[j] != '/',
        k == s.len() || s[k] == '/',
    ensures
        first_sep(s) == k,
    decreases k,
{
    if k == 0 {
        if s.len() == 0 {
        } else {
            assert(s[0] == '/');
        }
    } else {
        assert(s[0] != '/');
        assert(forall|j: int| 0 <= j < k - 1 ==> s.skip(1)[j] != '/');
        if k < s.len() {
            assert(s.skip(1)[k - 1] == '/');
        }
        lemma_first_sep_at(s.skip(1), k - 1);
    }
}

/// Unfolds one segment off the front of a split whose first separator
/// stands at `k`.
proof fn lemma_split_step(s: Seq<char>, k: int)
    requires
        0 <= k < s.len(),
        forall|j: int| 0 <= j < k ==> s[j] != '/',
        s[k] == '/',
    ensures
        split_path_spec(s) == seq![s.take(k)] + split_path_spec(s.skip(k + 1)),
{
    lemma_first_sep_at(s, k);
}

/// Joining one more segment appends a separator and the segment.
proof fn lemma_join_push(parts: Seq<Seq<char>>, x: Seq<char>)
    requires
        parts.len() >= 1,
    ensures
        join_path_spec(parts.push(x)) == join_path_spec(parts) + seq!['/'] + x,
    decreases parts.len(),
{
    if parts.len() == 1 {
        assert(parts.push(x).skip(1) =~= seq![x]);
        assert(parts.push(x)[0] == parts[0]);
        assert(join_path_spec(seq![x]) == x);
        assert(join_path_spec(parts.push(x)) == parts[0] + seq!['/'] + x);
    } else {
        assert(parts.push(x).skip(1) =~= parts.skip(1).push(x));
        lemma_join_push(parts.skip(1), x);
        assert(join_path_spec(parts.push(x)) == parts[0] + seq!['/'] + join_path_spec(
            parts.skip(1).push(x),
        ));
        assert(join_path_spec(parts) + seq!['/'] + x == parts[0] + seq!['/'] + (join_path_spec(
            parts.skip(1),
        ) + seq!['/'] + x));
    }
}

/// Whether some string of `v` views to `p`.
pub fn vec_contains_str(v: &Vec<String>, p: &String) -> (r: bool)
    ensures
        r == seq_views(v@).contains(p@),
{
    let mut i: usize = 0;
    while i < v.len()
        invariant
            0 <= i <= v@.len(),
            forall|j: int| 0 <= j < i ==> seq_views(v@)[j] != p@,
        decreases v@.len() - i,
    {
        if str_equal(v[i].as_str(), p.as_str()) {
            assert(seq_views(v@)[i as int] == p@);
            return true;
        }
        i = i + 1;
    }
    assert(forall|j: int| 0 <= j < seq_views(v@).len() ==> seq_views(v@)[j] != p@);
    false
}

/// Splits a path string into its `/`-separated segments.
pub fn split_path(s: &str) -> (r: Vec<String>)
    ensures
        seq_views(r@) == split_path_spec(s@),
        r@.len() >= 1,
{
    let n = s.unicode_len();
    let mut r: Vec<String> = Vec::new();
    let mut start: usize = 0;
    let mut i: usize = 0;
    proof {
        assert(seq_views(r@) =~= Seq::<Seq<char>>::empty());
        assert(s@.skip(0) =~= s@);
        assert(seq_views(r@) + split_path_spec(s@) =~= split_path_spec(s@));
    }
    while i < n
        invariant
            n == s@.len(),
            0 <= start <= i <= n,
            forall|j: int| start <= j < i ==> s@[j] != '/',
            split_path_spec(s@) == seq_views(r@) + split_path_spec(s@.skip(start as int)),
        decreases n - i,
    {
        if s.get_char(i) == '/' {
            let seg = s.substring_char(start, i).to_owned();
            proof {
                let tail = s@.skip(start as int);
                assert(forall|j: int| 0 <= j < i - start ==> tail[j] != '/');
                assert(tail[i - start] == '/');
                lemma_split_step(tail, i - start);
                assert(tail.take(i - start) =~= s@.subrange(start as int, i as int));
                assert(tail.skip(i - start + 1) =~= s@.skip(i + 1));
                assert(seq_views(r@.push(seg)) =~= seq_views(r@).push(seg@));
                assert(seq_views(r@) + (seq![seg@] + split_path_spec(s@.skip(i + 1)))
                    =~= seq_views(r@).push(seg@) + split_path_spec(s@.skip(i + 1)));
            }
            r.push(seg);
            start = i + 1;
        }
        i = i + 1;
    }
    let seg = s.substring_char(start, n).to_owned();
    proof {
        let tail = s@.skip(start as int);
        assert(forall|j: int| 0 <= j < tail.len() ==> tail[j] != '/');
        lemma_first_sep_at(tail, tail.len() as int);
        assert(split_path_spec(tail) == seq![tail]);
        assert(tail =~= s@.subrange(start as int, n as int));
        assert(seq_views(r@.push(seg)) =~= seq_views(r@).push(seg@));
        assert(seq_views(r@) + seq![seg@] =~= seq_views(r@).push(seg@));
    }
    r.push(seg);
    r
}

/// Joins `parts[from..to]` with `/` separators.
pub fn join_path_range(parts: &Vec<String>, from: usize, to: usize) -> (r: String)
    requires
        from <= to <= parts@.len(),
    ensures
        r@ == join_path_spec(seq_views(parts@).subrange(from as int, to as int)),
{
    let mut r = String::new();
    let mut i: usize = from;
    proof {
        assert(seq_views(parts@).subrange(from as int, from as int) =~= Seq::<Seq<char>>::empty());
    }
    while i < to
        invariant
            from <= i <= to <= parts@.len(),
            r@ == join_path_spec(seq_views(parts@).subrange(from as int, i as int)),
        decreases to - i,
    {
        if i > from {
            r.append("/");
        }
        r.append(parts[i].as_str());
        proof {
            let before = seq_views(parts@).subrange(from as int, i as int);
            let after = seq_views(parts@).subrange(from as int, i + 1);
            assert(after =~= before.push(parts@[i as int]@));
            if i > from {
                lemma_join_push(before, parts@[i as int]@);
                assert("/"@ =~= seq!['/']) by {
                    reveal_strlit("/");
                }
            }
        }
        i = i + 1;
    }
    r
}

/// Whether `suffix` ends `s`.
pub fn str_ends_with(s: &str, suffix: &str) -> (r: bool)
    ensures
        r == suffix@.is_suffix_of(s@),
{
    let n = s.unicode_len();
    let m = suffix.unicode_len();
    if m > n {
        return false;
    }
    let mut i: usize = 0;
    while i < m
        invariant
            m <= n,
            n == s@.len(),
            m == suffix@.len(),
            0 <= i <= m,
            forall|j: int| 0 <= j < i ==> s@[n - m + j] == suffix@[j],
        decreases m - i,
    {
        if s.get_char(n - m + i) != suffix.get_char(i) {
            assert(s@.subrange(n - m, n as int)[i as int] != suffix@[i as int]);
            return false;
        }
        i = i + 1;
    }
    assert(suffix@ =~= s@.subrange(n - m, n as int));
    true
}

/// Whether `prefix` begins `s`.
pub fn str_starts_with(s: &str, prefix: &str) -> (r: bool)
    ensures
        r == prefix@.is_prefix_of(s@),
{
    let n = s.unicode_len();
    let m = prefix.unicode_len();
    if m > n {
        return false;
    }
    let mut i: usize = 0;
    while i < m
        invariant
            m <= n,
            n == s@.len(),
            m == prefix@.len(),
            0 <= i <= m,
            forall|j: int| 0 <= j < i ==> s@[j] == prefix@[j],
        decreases m - i,
    {
        if s.get_char(i) != prefix.get_char(i) {
            assert(s@.subrange(0, m as int)[i as int] != prefix@[i as int]);
            return false;
        }
        i = i + 1;
    }
    assert(prefix@ =~= s@.subrange(0, m as int));
    true
}

/// The last `/`-separated segment of `s`.
pub fn last_segment(s: &str) -> (r: String)
    ensures
        r@ == last_segment_spec(s@),
{
    let parts = split_path(s);
    let r = parts[parts.len() - 1].clone();
    proof {
        assert(r@ == seq_views(parts@).last());
    }
    r
}

/// Whether `s` names a `.uasset` file.
pub fn has_uasset_ext(s: &str) -> (r: bool)
    ensures
        r == has_uasset_ext_spec(s@),
{
    let last = last_segment(s);
    let suffix_ok = str_ends_with(last.as_str(), ".uasset");
    proof {
        assert(".uasset"@ =~= uasset_ext()) by {
            reveal_strlit(".uasset");
        }
    }
    suffix_ok && last.as_str().unicode_len() > 7
}

/// Concatenates two strings.
pub fn concat_str(a: &str, b: &str) -> (r: String)
    ensures
        r@ == a@ + b@,
{
    let mut r = a.to_owned();
    r.append(b);
    r
}

/// Joins two path fragments with a `/` separator.
pub fn concat_path(a: &str, b: &str) -> (r: String)
    ensures
        r@ == a@ + seq!['/'] + b@,
{
    let mut r = a.to_owned();
    r.append("/");
    r.append(b);
    proof {
        assert("/"@ =~= seq!['/']) by {
            reveal_strlit("/");
        }
    }
    r
}

/// Index of the first segment of `parts` equal to `name`, if any is.
pub fn find_segment(parts: &Vec<String>, name: &str) -> (r: Option<usize>)
    ensures
        match r {
            Some(k) => k == seg_index_spec(seq_views(parts@), name@) && k < parts@.len(),
            None => seg_index_spec(seq_views(parts@), name@) == parts@.len(),
        },
{
    let mut i: usize = 0;
    proof {
        lemma_seg_index_bounds(seq_views(parts@), name@);
    }
    while i < parts.len()
        invariant
            0 <= i <= parts@.len(),
            forall|j: int| 0 <= j < i ==> seq_views(parts@)[j] != name@,
            seg_index_spec(seq_views(parts@), name@) >= i,
        decreases parts@.len() - i,
    {
        let eq = str_equal(parts[i].as_str(), name);
        proof {
            lemma_seg_index_step(seq_views(parts@), name@, i as int);
        }
        if eq {
            return Some(i);
        }
        i = i + 1;
    }
    proof {
        lemma_seg_index_bounds(seq_views(parts@), name@);
    }
    None
}

proof fn lemma_seg_index_bounds(parts: Seq<Seq<char>>, name: Seq<char>)
    ensures
        0 <= seg_index_spec(parts, name) <= parts.len(),
    decreases parts.len(),
{
    if parts.len() != 0 && parts[0] != name {
        lemma_seg_index_bounds(parts.skip(1), name);
    }
}

/// If the first `k` segments differ from `name`, the first match is at `k`
/// exactly when segment `k` equals `name`.
proof fn lemma_seg_index_step(parts: Seq<Seq<char>>, name: Seq<char>, k: int)
    requires
        0 <= k < parts.len(),
        forall|j: int| 0 <= j < k ==> parts[j] != name,
    ensures
        parts[k] == name ==> seg_index_spec(parts, name) == k,
        parts[k] != name ==> seg_index_spec(parts, name) >= k + 1,
    decreases k,
{
    if k == 0 {
        if parts[0] != name {
            lemma_seg_index_bounds(parts.skip(1), name);
        }
    } else {
        assert(parts[0] != name);
        assert(forall|j: int| 0 <= j < k - 1 ==> parts.skip(1)[j] != name);
        assert(parts.skip(1)[k - 1] == parts[k]);
        lemma_seg_index_step(parts.skip(1), name, k - 1);
    }
}

/// Character-wise string equality.
pub fn str_equal(a: &str, b: &str) -> (r: bool)
    ensures
        r == (a@ == b@),
{
    let n = a.unicode_len();
    if n != b.unicode_len() {
        return false;
    }
    let mut i: usize = 0;
    while i < n
        invariant
            n == a@.len() == b@.len(),
            0 <= i <= n,
            forall|j: int| 0 <= j < i ==> a@[j] == b@[j],
        decreases n - i,
    {
        if a.get_char(i) != b.get_char(i) {
            return false;
        }
        i = i + 1;
    }
    assert(a@ =~= b@);
    true
}

/// The prefix of `s` through its first segment equal to `name`, per
/// `prefix_through_spec`.
pub fn prefix_through_segment(s: &str, name: &str) -> (r: String)
    ensures
        r@ == prefix_through_spec(s@, name@),
{
    let parts = split_path(s);
    let n = parts.len();
    match find_segment(&parts, name) {
        Some(k) => {
            assert(k < n);
            join_path_range(&parts, 0, k + 1)
        },
        None => concat_path(s, name),
    }
}

/// Removes the leading directory `prefix` from `path`, per
/// `strip_prefix_spec`.
pub fn strip_path_prefix(path: &str, prefix: &str) -> (r: Option<String>)
    ensures
        match r {
            Some(t) => strip_prefix_spec(path@, prefix@) == Some(t@),
            None => strip_prefix_spec(path@, prefix@) is None,
        },
{
    if str_equal(path, prefix) {
        return Some(String::new());
    }
    let slashed = concat_path(prefix, "");
    proof {
        assert(""@ =~= Seq::<char>::empty()) by {
            reveal_strlit("");
        }
        assert(slashed@ =~= prefix@ + seq!['/']);
    }
    if str_starts_with(path, slashed.as_str()) {
        let n = path.unicode_len();
        let m = slashed.as_str().unicode_len();
        let rest = path.substring_char(m, n).to_owned();
        proof {
            assert(rest@ =~= path@.skip(prefix@.len() as int + 1));
        }
        Some(rest)
    } else {
        None
    }
}

} // verus!
