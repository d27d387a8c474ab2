//! Where lyric sidecar files are looked for, and how near each folder is:
//! the folders of the track and of its origin and their ancestors, lyric
//! folders beside them, the folders the user names, and the usual folders
//! of the home directory, each with a rank (lower is nearer).
use vstd::prelude::*;
use crate::text::{chars_of, lower_seq, string_from_chars};

verus! {

/// How many ancestors of a track's folder are searched.
pub const SIDECAR_SEARCH_ANCESTOR_DEPTH: u8 = 2;

/// The names of lyric folders looked for inside each searched folder.
pub open spec fn directory_hint_names() -> Seq<Seq<char>> {
    seq![
        "Lyrics"@,
        "lyrics"@,
        "Lyric"@,
        "lyric"@,
        "LRC"@,
        "lrc"@,
        "歌词"@,
        "歌詞"@,
    ]
}

/// The names of lyric folders looked for inside each searched folder.
pub fn sidecar_directory_hints() -> (r: Vec<&'static str>)
    ensures
        r@.map_values(|h: &str| h@) == directory_hint_names(),
{
    let hints: Vec<&'static str> = vec!["Lyrics", "lyrics", "Lyric", "lyric", "LRC", "lrc", "歌词", "歌詞"];
    assert(hints@.map_values(|h: &str| h@) =~= directory_hint_names());
    hints
}

/// A path as a key that ignores the kind of slash and ASCII case.
pub open spec fn path_key(path: Seq<char>) -> Seq<char> {
    lower_seq(path.map_values(|c: char| if c == '\\' { '/' } else { c }))
}

/// A path as a key that ignores the kind of slash and ASCII case.
pub fn normalize_path_key(path: &str) -> (r: String)
    ensures
        r@ == path_key(path@),
{
    let v = chars_of(path);
    let ghost slashed = v@.map_values(|c: char| if c == '\\' { '/' } else { c });
    let mut out: Vec<char> = Vec::new();
    let mut i: usize = 0;
    while i < v.len()
        invariant
            i <= v.len(),
            slashed == v@.map_values(|c: char| if c == '\\' { '/' } else { c }),
            out@ == slashed.take(i as int),
        decreases v.len() - i,
    {
        if v[i] == '\\' {
            out.push('/');
        } else {
            out.push(v[i]);
        }
        assert(slashed.take(i + 1) =~= slashed.take(i as int).push(slashed[i as int]));
        i += 1;
    }
    assert(slashed.take(v@.len() as int) =~= slashed);
    let unified = string_from_chars(&out);
    crate::text::to_ascii_lowercase(unified.as_str())
}


/// What `Path::parent` gives for the path written as `p`.
pub uninterp spec fn path_parent(p: Seq<char>) -> Option<Seq<char>>;

/// The parent of the path written as `path` (`Path::parent`), as text.
/// The contract names it by `path_parent`.
#[verifier::external_body]
fn parent_of(path: &str) -> (r: Option<String>)
    ensures
        crate::text::opt_text(r) == path_parent(path@),
{
    match std::path::Path::new(path).parent() {
        Some(parent) => Some(parent.to_string_lossy().into_owned()),
        None => None,
    }
}

/// What `Path::join` gives for `base` and `name`.
pub uninterp spec fn path_joined(base: Seq<char>, name: Seq<char>) -> Seq<char>;

/// `name` joined onto `base` (`Path::join`), as text. The contract names it
/// by `path_joined`.
#[verifier::external_body]
fn join_path(base: &str, name: &str) -> (r: String)
    ensures
        r@ == path_joined(base@, name@),
{
    std::path::Path::new(base).join(name).to_string_lossy().into_owned()
}

/// Whether two paths are equal as `Path` compares them (by components).
pub uninterp spec fn same_path(a: Seq<char>, b: Seq<char>) -> bool;

/// Whether two paths are equal by components (`Path`'s `==`). The contract
/// names the answer by `same_path`.
#[verifier::external_body]
fn paths_equal(a: &str, b: &str) -> (r: bool)
    ensures
        r == same_path(a@, b@),
{
    std::path::Path::new(a) == std::path::Path::new(b)
}

/// Whether `a` sorts before `b` as `Path` orders them (by components).
pub uninterp spec fn path_before(a: Seq<char>, b: Seq<char>) -> bool;

/// Whether `a` sorts before `b` by components (`Path`'s `<`). The contract
/// names the answer by `path_before`.
#[verifier::external_body]
fn path_sorts_before(a: &str, b: &str) -> (r: bool)
    ensures
        r == path_before(a@, b@),
{
    std::path::Path::new(a) < std::path::Path::new(b)
}

/// What `Path::strip_prefix` leaves of `p` after `base`, if `base` is a
/// prefix of it by components.
pub uninterp spec fn path_stripped(p: Seq<char>, base: Seq<char>) -> Option<Seq<char>>;

/// `p` relative to `base` (`Path::strip_prefix`), as text; `None` when
/// `base` is no prefix of it. The contract names it by `path_stripped`.
#[verifier::external_body]
fn strip_path_prefix(p: &str, base: &str) -> (r: Option<String>)
    ensures
        crate::text::opt_text(r) == path_stripped(p@, base@),
{
    match std::path::Path::new(p).strip_prefix(base) {
        Ok(rest) => Some(rest.to_string_lossy().into_owned()),
        Err(_) => None,
    }
}

/// How many components `Path::components` finds in `p`.
pub uninterp spec fn component_count(p: Seq<char>) -> nat;

/// The number of components of the path written as `p`
/// (`Path::components`). The contract names it by `component_count`.
#[verifier::external_body]
fn count_components(p: &str) -> (r: usize)
    ensures
        r as nat == component_count(p@),
{
    std::path::Path::new(p).components().count()
}

/// A folder to search for sidecars: its path, its rank (lower is nearer),
/// and whether its subfolders are searched too.
pub struct SidecarSearchDirectory {
    pub path: String,
    pub rank: u8,
    pub recursive: bool,
}

/// The model of a search folder.
pub struct SearchDirectoryView {
    pub path: Seq<char>,
    pub rank: nat,
    pub recursive: bool,
}

impl View for SidecarSearchDirectory {
    type V = SearchDirectoryView;

    open spec fn view(&self) -> SearchDirectoryView {
        SearchDirectoryView { path: self.path@, rank: self.rank as nat, recursive: self.recursive }
    }
}

/// The models of a list of search folders.
pub open spec fn directories_view(dirs: Seq<SidecarSearchDirectory>) -> Seq<SearchDirectoryView> {
    dirs.map_values(|d: SidecarSearchDirectory| d@)
}

/// The first folder whose path has the key `key`.
pub open spec fn first_with_key(dirs: Seq<SearchDirectoryView>, key: Seq<char>) -> Option<int>
    decreases dirs.len(),
{
    if dirs.len() == 0 {
        None
    } else if path_key(dirs[0].path) == key {
        Some(0)
    } else {
        match first_with_key(dirs.drop_first(), key) {
            Some(i) => Some(i + 1),
            None => None,
        }
    }
}

/// A folder added to the search: when a folder with the same key is there,
/// it keeps the better rank (and the path that came with it) and is
/// searched recursively if either asks it; otherwise the folder is added
/// at the end.
pub open spec fn pushed_directory(
    dirs: Seq<SearchDirectoryView>,
    path: Seq<char>,
    rank: nat,
    recursive: bool,
) -> Seq<SearchDirectoryView> {
    match first_with_key(dirs, path_key(path)) {
        Some(k) => dirs.update(
            k,
            SearchDirectoryView {
                path: if rank < dirs[k].rank {
                    path
                } else {
                    dirs[k].path
                },
                rank: if rank < dirs[k].rank {
                    rank
                } else {
                    dirs[k].rank
                },
                recursive: dirs[k].recursive || recursive,
            },
        ),
        None => dirs.push(SearchDirectoryView { path, rank, recursive }),
    }
}

/// Adds a folder to the search (see `pushed_directory`).
pub fn push_sidecar_search_directory(
    directories: &mut Vec<SidecarSearchDirectory>,
    path: String,
    rank: u8,
    recursive: bool,
)
    ensures
        directories_view(final(directories)@) == pushed_directory(
            directories_view(old(directories)@),
            path@,
            rank as nat,
            recursive,
        ),
{
    let ghost dv = directories_view(directories@);
    let ghost p = path@;
    let key = normalize_path_key(path.as_str());
    let mut i: usize = 0;
    assert(dv.skip(0) =~= dv);
    while i < directories.len()
        invariant
            i <= directories@.len(),
            dv == directories_view(directories@),
            p == path@,
            dv == directories_view(old(directories)@),
            key@ == path_key(p),
            first_with_key(dv, key@) == match first_with_key(dv.skip(i as int), key@) {
                Some(j) => Some(j + i),
                None => None,
            },
        decreases directories@.len() - i,
    {
        assert(dv.skip(i as int)[0] == directories@[i as int]@);
        assert(dv.skip(i as int).drop_first() =~= dv.skip(i + 1));
        let existing_key = normalize_path_key(directories[i].path.as_str());
        if crate::text::str_eq(existing_key.as_str(), key.as_str()) {
            assert(first_with_key(dv.skip(i as int), key@) == Some(0int));
            assert(first_with_key(dv, key@) == Some(i as int));
            let old_rank = directories[i].rank;
            let old_recursive = directories[i].recursive;
            let old_path = directories[i].path.clone();
            let entry = if rank < old_rank {
                SidecarSearchDirectory { path, rank, recursive: old_recursive || recursive }
            } else {
                SidecarSearchDirectory { path: old_path, rank: old_rank, recursive: old_recursive || recursive }
            };
            directories.set(i, entry);
            assert(directories_view(directories@) =~= dv.update(i as int, entry@));
            return;
        }
        i += 1;
    }
    assert(dv.skip(i as int) =~= Seq::<SearchDirectoryView>::empty());
    let ghost before = directories@;
    directories.push(SidecarSearchDirectory { path, rank, recursive });
    assert(directories_view(directories@) =~= directories_view(before).push(
        SearchDirectoryView { path: path@, rank: rank as nat, recursive },
    ));
}


/// `n`, or 255 when larger (`u8` saturation).
pub open spec fn saturated_rank(n: nat) -> nat {
    if n <= 255 {
        n
    } else {
        255
    }
}

/// The lyric folders inside `dir`, each added with `rank`.
pub open spec fn hint_pushes(
    dirs: Seq<SearchDirectoryView>,
    dir: Seq<char>,
    hints: Seq<Seq<char>>,
    rank: nat,
) -> Seq<SearchDirectoryView>
    decreases hints.len(),
{
    if hints.len() == 0 {
        dirs
    } else {
        pushed_directory(
            hint_pushes(dirs, dir, hints.drop_last(), rank),
            path_joined(dir, hints.last()),
            rank,
            false,
        )
    }
}

/// A folder added with `rank`, then the lyric folders inside it with the
/// next rank.
pub open spec fn level_pushes(dirs: Seq<SearchDirectoryView>, dir: Seq<char>, rank: nat) -> Seq<SearchDirectoryView> {
    hint_pushes(
        pushed_directory(dirs, dir, rank, false),
        dir,
        directory_hint_names(),
        saturated_rank(rank + 1),
    )
}

/// The folder `dir` at `depth` above a file, then its ancestors up to the
/// searched depth: each level costs two ranks, and the walk stops at the
/// top or where the parent is the folder itself.
pub open spec fn scope_from(
    dirs: Seq<SearchDirectoryView>,
    dir: Seq<char>,
    base: nat,
    depth: nat,
) -> Seq<SearchDirectoryView>
    decreases 2 - depth,
{
    let after = level_pushes(dirs, dir, saturated_rank(base + depth * 2));
    if depth >= SIDECAR_SEARCH_ANCESTOR_DEPTH {
        after
    } else {
        match path_parent(dir) {
            None => after,
            Some(parent) => if same_path(parent, dir) {
                after
            } else {
                scope_from(after, parent, base, depth + 1)
            },
        }
    }
}

/// The folders searched around a file: its folder and the ancestors above
/// it, from `base` on; nothing when the file has no folder.
pub open spec fn search_scope(dirs: Seq<SearchDirectoryView>, file_path: Seq<char>, base: nat) -> Seq<SearchDirectoryView> {
    match path_parent(file_path) {
        None => dirs,
        Some(dir) => scope_from(dirs, dir, base, 0),
    }
}

/// Adds the lyric folders inside `dir` with `rank`.
fn push_hint_directories(directories: &mut Vec<SidecarSearchDirectory>, dir: &str, rank: u8)
    ensures
        directories_view(final(directories)@) == hint_pushes(
            directories_view(old(directories)@),
            dir@,
            directory_hint_names(),
            rank as nat,
        ),
{
    let hints = sidecar_directory_hints();
    let ghost names = hints@.map_values(|h: &str| h@);
    let ghost start = directories_view(directories@);
    let mut k: usize = 0;
    assert(names.take(0) =~= Seq::<Seq<char>>::empty());
    while k < hints.len()
        invariant
            k <= hints@.len(),
            names == hints@.map_values(|h: &str| h@),
            names == directory_hint_names(),
            start == directories_view(old(directories)@),
            directories_view(directories@) == hint_pushes(start, dir@, names.take(k as int), rank as nat),
        decreases hints@.len() - k,
    {
        assert(names.take(k + 1).drop_last() =~= names.take(k as int));
        assert(names.take(k + 1).last() == hints@[k as int]@);
        let joined = join_path(dir, hints[k]);
        push_sidecar_search_directory(directories, joined, rank, false);
        k += 1;
    }
    assert(names.take(hints@.len() as int) =~= names);
}

/// Adds the folders searched around a file (see `search_scope`).
pub fn collect_sidecar_search_scope(
    directories: &mut Vec<SidecarSearchDirectory>,
    file_path: &str,
    base_rank: u8,
)
    ensures
        directories_view(final(directories)@) == search_scope(
            directories_view(old(directories)@),
            file_path@,
            base_rank as nat,
        ),
{
    let mut directory = match parent_of(file_path) {
        Some(d) => d,
        None => return,
    };
    let ghost start = directories_view(directories@);
    let mut depth: u8 = 0;
    loop
        invariant_except_break
            search_scope(start, file_path@, base_rank as nat) == scope_from(
                directories_view(directories@),
                directory@,
                base_rank as nat,
                depth as nat,
            ),
        invariant
            depth <= SIDECAR_SEARCH_ANCESTOR_DEPTH,
            path_parent(file_path@) is Some,
            start == directories_view(old(directories)@),
        ensures
            directories_view(directories@) == search_scope(start, file_path@, base_rank as nat),
        decreases SIDECAR_SEARCH_ANCESTOR_DEPTH - depth,
    {
        let wide: u16 = (base_rank as u16) + (depth as u16) * 2;
        let rank: u8 = if wide > 255 {
            255
        } else {
            wide as u8
        };
        let next_rank: u8 = if rank == 255 {
            255
        } else {
            rank + 1
        };
        let ghost before = directories_view(directories@);
        push_sidecar_search_directory(directories, crate::text::to_owned(directory.as_str()), rank, false);
        push_hint_directories(directories, directory.as_str(), next_rank);
        assert(directories_view(directories@) == level_pushes(
            before,
            directory@,
            saturated_rank(base_rank as nat + depth as nat * 2),
        ));
        if depth >= SIDECAR_SEARCH_ANCESTOR_DEPTH {
            break;
        }
        let parent = match parent_of(directory.as_str()) {
            Some(p) => p,
            None => {
                break;
            },
        };
        if paths_equal(parent.as_str(), directory.as_str()) {
            break;
        }
        directory = parent;
        depth += 1;
    }
}


/// The folders the user names, each added recursively with rank 8.
pub open spec fn configured_pushes(dirs: Seq<SearchDirectoryView>, paths: Seq<Seq<char>>) -> Seq<SearchDirectoryView>
    decreases paths.len(),
{
    if paths.len() == 0 {
        dirs
    } else {
        pushed_directory(configured_pushes(dirs, paths.drop_last()), paths.last(), 8, true)
    }
}

/// The usual folders of the home directory, each added with rank 12 and
/// the lyric folders inside them with rank 13.
pub open spec fn common_pushes(dirs: Seq<SearchDirectoryView>, paths: Seq<Seq<char>>) -> Seq<SearchDirectoryView>
    decreases paths.len(),
{
    if paths.len() == 0 {
        dirs
    } else {
        let before = common_pushes(dirs, paths.drop_last());
        hint_pushes(
            pushed_directory(before, paths.last(), 12, false),
            paths.last(),
            directory_hint_names(),
            13,
        )
    }
}

/// Whether folder `a` sorts before `b`: by rank, then by path.
pub open spec fn directory_before(a: SearchDirectoryView, b: SearchDirectoryView) -> bool {
    a.rank < b.rank || (a.rank == b.rank && path_before(a.path, b.path))
}

/// How many of `sorted` sort no later than `d` (`d` is not before them).
pub open spec fn count_directories_not_after(sorted: Seq<SearchDirectoryView>, d: SearchDirectoryView) -> nat
    decreases sorted.len(),
{
    if sorted.len() == 0 {
        0
    } else {
        count_directories_not_after(sorted.drop_last(), d) + if !directory_before(
            d,
            sorted.last(),
        ) {
            1nat
        } else {
            0nat
        }
    }
}

/// The folders ordered by rank, then path: each placed after every
/// earlier folder that sorts no later.
pub open spec fn sorted_directories(dirs: Seq<SearchDirectoryView>) -> Seq<SearchDirectoryView>
    decreases dirs.len(),
{
    if dirs.len() == 0 {
        seq![]
    } else {
        let prev = sorted_directories(dirs.drop_last());
        prev.insert(count_directories_not_after(prev, dirs.last()) as int, dirs.last())
    }
}

proof fn lemma_count_directories_bound(sorted: Seq<SearchDirectoryView>, d: SearchDirectoryView)
    ensures
        count_directories_not_after(sorted, d) <= sorted.len(),
    decreases sorted.len(),
{
    if sorted.len() > 0 {
        lemma_count_directories_bound(sorted.drop_last(), d);
    }
}

/// The folders ordered by rank, then path (see `sorted_directories`).
fn sort_directories(dirs: Vec<SidecarSearchDirectory>) -> (r: Vec<SidecarSearchDirectory>)
    ensures
        directories_view(r@) == sorted_directories(directories_view(dirs@)),
{
    let ghost all = directories_view(dirs@);
    let mut out: Vec<SidecarSearchDirectory> = Vec::new();
    let mut i: usize = 0;
    assert(all.take(0) =~= Seq::<SearchDirectoryView>::empty());
    assert(directories_view(out@) =~= Seq::<SearchDirectoryView>::empty());
    while i < dirs.len()
        invariant
            i <= dirs@.len(),
            all == directories_view(dirs@),
            directories_view(out@) == sorted_directories(all.take(i as int)),
        decreases dirs@.len() - i,
    {
        assert(all.take(i + 1).drop_last() =~= all.take(i as int));
        assert(all.take(i + 1).last() == dirs@[i as int]@);
        let ghost prev = directories_view(out@);
        proof {
            lemma_count_directories_bound(prev, dirs@[i as int]@);
        }
        let mut at: usize = 0;
        let mut k: usize = 0;
        assert(prev.take(0) =~= Seq::<SearchDirectoryView>::empty());
        while k < out.len()
            invariant
                k <= out@.len(),
                i < dirs@.len(),
                prev == directories_view(out@),
                at <= k,
                at == count_directories_not_after(prev.take(k as int), dirs@[i as int]@),
            decreases out@.len() - k,
        {
            assert(prev.take(k + 1).drop_last() =~= prev.take(k as int));
            assert(prev.take(k + 1).last() == out@[k as int]@);
            let later = dirs[i].rank < out[k].rank || (dirs[i].rank == out[k].rank
                && path_sorts_before(dirs[i].path.as_str(), out[k].path.as_str()));
            if !later {
                at += 1;
            }
            k += 1;
        }
        assert(prev.take(out@.len() as int) =~= prev);
        let entry = SidecarSearchDirectory {
            path: crate::text::to_owned(dirs[i].path.as_str()),
            rank: dirs[i].rank,
            recursive: dirs[i].recursive,
        };
        let ghost before = out@;
        out.insert(at, entry);
        assert(directories_view(out@) =~= directories_view(before).insert(at as int, entry@));
        i += 1;
    }
    assert(all.take(dirs@.len() as int) =~= all);
    out
}


/// The folders searched for a track's sidecars, nearest first: around the
/// origin file (from rank 0), around the audio file (from rank 4 when the
/// origin is another file, else 0), the folders the user names (8, with
/// their subfolders) and the usual home folders (12, their lyric folders
/// 13); ordered by rank, then path.
pub open spec fn search_directories(
    audio: Seq<char>,
    origin: Option<Seq<char>>,
    lyrics_dirs: Seq<Seq<char>>,
    common: Seq<Seq<char>>,
) -> Seq<SearchDirectoryView> {
    let distinct = origin matches Some(o) && !same_path(o, audio);
    let around_origin = match origin {
        Some(o) => search_scope(seq![], o, 0),
        None => seq![],
    };
    let around_audio = search_scope(
        around_origin,
        audio,
        if distinct {
            4
        } else {
            0
        },
    );
    sorted_directories(common_pushes(configured_pushes(around_audio, lyrics_dirs), common))
}

/// The folders searched for a track's sidecars (see `search_directories`).
/// The caller hands over the named folders and the usual home folders that
/// exist.
pub fn collect_sidecar_search_directories(
    audio_path: &str,
    origin_path: Option<&str>,
    lyrics_directories: &Vec<String>,
    common_directories: &Vec<String>,
) -> (r: Vec<SidecarSearchDirectory>)
    ensures
        directories_view(r@) == search_directories(
            audio_path@,
            match origin_path {
                Some(o) => Some(o@),
                None => None,
            },
            crate::text::texts(lyrics_directories@),
            crate::text::texts(common_directories@),
        ),
{
    let mut directories: Vec<SidecarSearchDirectory> = Vec::new();
    let distinct = match origin_path {
        Some(o) => !paths_equal(o, audio_path),
        None => false,
    };
    assert(directories_view(directories@) =~= Seq::<SearchDirectoryView>::empty());
    match origin_path {
        Some(o) => collect_sidecar_search_scope(&mut directories, o, 0),
        None => {},
    }
    collect_sidecar_search_scope(
        &mut directories,
        audio_path,
        if distinct {
            4
        } else {
            0
        },
    );
    let ghost after_scopes = directories_view(directories@);
    let ghost named = crate::text::texts(lyrics_directories@);
    let mut i: usize = 0;
    assert(named.take(0) =~= Seq::<Seq<char>>::empty());
    while i < lyrics_directories.len()
        invariant
            i <= lyrics_directories@.len(),
            named == crate::text::texts(lyrics_directories@),
            directories_view(directories@) == configured_pushes(after_scopes, named.take(i as int)),
        decreases lyrics_directories@.len() - i,
    {
        assert(named.take(i + 1).drop_last() =~= named.take(i as int));
        assert(named.take(i + 1).last() == lyrics_directories@[i as int]@);
        push_sidecar_search_directory(
            &mut directories,
            crate::text::to_owned(lyrics_directories[i].as_str()),
            8,
            true,
        );
        i += 1;
    }
    assert(named.take(lyrics_directories@.len() as int) =~= named);
    let ghost after_named = directories_view(directories@);
    let ghost common = crate::text::texts(common_directories@);
    let mut j: usize = 0;
    assert(common.take(0) =~= Seq::<Seq<char>>::empty());
    while j < common_directories.len()
        invariant
            j <= common_directories@.len(),
            common == crate::text::texts(common_directories@),
            directories_view(directories@) == common_pushes(after_named, common.take(j as int)),
        decreases common_directories@.len() - j,
    {
        assert(common.take(j + 1).drop_last() =~= common.take(j as int));
        assert(common.take(j + 1).last() == common_directories@[j as int]@);
        push_sidecar_search_directory(
            &mut directories,
            crate::text::to_owned(common_directories[j].as_str()),
            12,
            false,
        );
        push_hint_directories(&mut directories, common_directories[j].as_str(), 13);
        j += 1;
    }
    assert(common.take(common_directories@.len() as int) =~= common);
    sort_directories(directories)
}

/// The rank that folder `d` gives to files in `parent`: its own rank for
/// the folder itself (compared by key); for a recursive folder holding
/// `parent`, its rank plus the depth of `parent` below it; none otherwise.
pub open spec fn rank_in(d: SearchDirectoryView, parent: Seq<char>) -> Option<nat> {
    if path_key(parent) == path_key(d.path) {
        Some(d.rank)
    } else if !d.recursive {
        None
    } else {
        match path_stripped(parent, d.path) {
            None => None,
            Some(rest) => Some(saturated_rank(d.rank + saturated_rank(component_count(rest)))),
        }
    }
}

/// The best rank that the folders give to files in `parent` (255 when
/// none does).
pub open spec fn best_rank(dirs: Seq<SearchDirectoryView>, parent: Seq<char>) -> nat
    decreases dirs.len(),
{
    if dirs.len() == 0 {
        255
    } else {
        let before = best_rank(dirs.drop_last(), parent);
        match rank_in(dirs.last(), parent) {
            Some(r) => if r < before {
                r
            } else {
                before
            },
            None => before,
        }
    }
}

/// The rank of the folder of a sidecar file among the searched folders
/// (255 when it has no folder or none of them reaches it).
pub open spec fn sidecar_directory_rank(dirs: Seq<SearchDirectoryView>, sidecar_path: Seq<char>) -> nat {
    match path_parent(sidecar_path) {
        None => 255,
        Some(parent) => best_rank(dirs, parent),
    }
}

/// The rank of the folder of a sidecar file (see `sidecar_directory_rank`).
pub fn resolve_search_directory_rank(directories: &Vec<SidecarSearchDirectory>, sidecar_path: &str) -> (r: u8)
    ensures
        r as nat == sidecar_directory_rank(directories_view(directories@), sidecar_path@),
{
    let parent = match parent_of(sidecar_path) {
        Some(p) => p,
        None => return 255,
    };
    let ghost dv = directories_view(directories@);
    let parent_key = normalize_path_key(parent.as_str());
    let mut best: u8 = 255;
    let mut i: usize = 0;
    assert(dv.take(0) =~= Seq::<SearchDirectoryView>::empty());
    while i < directories.len()
        invariant
            i <= directories@.len(),
            dv == directories_view(directories@),
            parent_key@ == path_key(parent@),
            best as nat == best_rank(dv.take(i as int), parent@),
        decreases directories@.len() - i,
    {
        assert(dv.take(i + 1).drop_last() =~= dv.take(i as int));
        assert(dv.take(i + 1).last() == directories@[i as int]@);
        let d = &directories[i];
        let key = normalize_path_key(d.path.as_str());
        if crate::text::str_eq(parent_key.as_str(), key.as_str()) {
            if d.rank < best {
                best = d.rank;
            }
        } else if d.recursive {
            match strip_path_prefix(parent.as_str(), d.path.as_str()) {
                Some(rest) => {
                    let count = count_components(rest.as_str());
                    let depth: u8 = if count > 255 {
                        255
                    } else {
                        count as u8
                    };
                    let wide: u16 = (d.rank as u16) + (depth as u16);
                    let rank: u8 = if wide > 255 {
                        255
                    } else {
                        wide as u8
                    };
                    if rank < best {
                        best = rank;
                    }
                },
                None => {},
            }
        }
        i += 1;
    }
    assert(dv.take(directories@.len() as int) =~= dv);
    best
}


/// What `Path::extension` gives for the path written as `p`.
pub uninterp spec fn path_extension_text(p: Seq<char>) -> Option<Seq<char>>;

/// The extension of the path written as `path` (`Path::extension`), as
/// text. The contract names it by `path_extension_text`.
#[verifier::external_body]
pub(crate) fn extension_of(path: &str) -> (r: Option<String>)
    ensures
        crate::text::opt_text(r) == path_extension_text(path@),
{
    match std::path::Path::new(path).extension() {
        Some(extension) => Some(extension.to_string_lossy().into_owned()),
        None => None,
    }
}

/// How well the sidecar at `sidecar_path` matches the track at
/// `audio_path`: the match of their stems and the sidecar's extension,
/// with the rank that the searched folders give the sidecar's folder.
pub open spec fn sidecar_path_score(
    audio_path: Seq<char>,
    sidecar_path: Seq<char>,
    hints: crate::sidecar_match::LyricsLookupHints,
    dirs: Seq<SearchDirectoryView>,
) -> nat {
    crate::sidecar_match::sidecar_score(
        crate::sidecar_match::path_file_stem(sidecar_path),
        crate::sidecar_match::path_file_stem(audio_path),
        path_extension_text(sidecar_path),
        sidecar_directory_rank(dirs, sidecar_path),
        hints,
    )
}

/// How well a sidecar file matches a track (see `sidecar_path_score`).
pub fn score_sidecar_path(
    audio_path: &str,
    sidecar_path: &str,
    hints: &crate::sidecar_match::LyricsLookupHints,
    directories: &Vec<SidecarSearchDirectory>,
) -> (r: u16)
    ensures
        r as nat == sidecar_path_score(
            audio_path@,
            sidecar_path@,
            *hints,
            directories_view(directories@),
        ),
{
    let candidate_stem = crate::sidecar_match::file_stem_of(sidecar_path);
    let audio_stem = crate::sidecar_match::file_stem_of(audio_path);
    let extension = extension_of(sidecar_path);
    let rank = resolve_search_directory_rank(directories, sidecar_path);
    let c = match &candidate_stem {
        Some(s) => Some(s.as_str()),
        None => None,
    };
    let a = match &audio_stem {
        Some(s) => Some(s.as_str()),
        None => None,
    };
    let e = match &extension {
        Some(s) => Some(s.as_str()),
        None => None,
    };
    crate::sidecar_match::score_sidecar_match(c, a, e, rank, hints)
}

/// Whether a path names a file of a sidecar kind: its extension is `lrc`
/// or `txt` in any ASCII case.
pub open spec fn is_sidecar_file(path: Seq<char>) -> bool {
    path_extension_text(path) matches Some(e) && (lower_seq(e) == "lrc"@ || lower_seq(e) == "txt"@)
}

/// Whether a path names a file of a sidecar kind (see `is_sidecar_file`).
pub fn is_supported_sidecar_file(path: &str) -> (r: bool)
    ensures
        r == is_sidecar_file(path@),
{
    match extension_of(path) {
        Some(e) => {
            let lower = crate::text::to_ascii_lowercase(e.as_str());
            crate::text::str_eq(lower.as_str(), "lrc") || crate::text::str_eq(lower.as_str(), "txt")
        },
        None => false,
    }
}


/// The keys of a list of paths.
pub open spec fn path_keys(paths: Seq<Seq<char>>) -> Seq<Seq<char>> {
    paths.map_values(|p: Seq<char>| path_key(p))
}

/// The sidecar files among the files found, in the order found: of a
/// sidecar kind, matching the track at all, and each path once by key.
pub open spec fn kept_sidecars(
    found: Seq<Seq<char>>,
    audio_path: Seq<char>,
    hints: crate::sidecar_match::LyricsLookupHints,
    dirs: Seq<SearchDirectoryView>,
) -> Seq<Seq<char>>
    decreases found.len(),
{
    if found.len() == 0 {
        seq![]
    } else {
        let before = kept_sidecars(found.drop_last(), audio_path, hints, dirs);
        let p = found.last();
        if is_sidecar_file(p) && sidecar_path_score(audio_path, p, hints, dirs) > 0 && !path_keys(
            before,
        ).contains(path_key(p)) {
            before.push(p)
        } else {
            before
        }
    }
}

/// How an extension ranks among sidecars: `lrc` first, `txt` next.
pub open spec fn extension_priority(extension: Option<Seq<char>>) -> nat {
    match extension {
        Some(e) => if lower_seq(e) == "lrc"@ {
            0
        } else if lower_seq(e) == "txt"@ {
            1
        } else {
            9
        },
        None => 9,
    }
}

/// Whether sidecar `a` comes before `b`: by higher score, then by
/// extension, then by path.
pub open spec fn sidecar_before(
    a: Seq<char>,
    b: Seq<char>,
    audio_path: Seq<char>,
    hints: crate::sidecar_match::LyricsLookupHints,
    dirs: Seq<SearchDirectoryView>,
) -> bool {
    let sa = sidecar_path_score(audio_path, a, hints, dirs);
    let sb = sidecar_path_score(audio_path, b, hints, dirs);
    let pa = extension_priority(path_extension_text(a));
    let pb = extension_priority(path_extension_text(b));
    sa > sb || (sa == sb && (pa < pb || (pa == pb && path_before(a, b))))
}

/// How many of `sorted` come no later than `p`.
pub open spec fn count_sidecars_not_after(
    sorted: Seq<Seq<char>>,
    p: Seq<char>,
    audio_path: Seq<char>,
    hints: crate::sidecar_match::LyricsLookupHints,
    dirs: Seq<SearchDirectoryView>,
) -> nat
    decreases sorted.len(),
{
    if sorted.len() == 0 {
        0
    } else {
        count_sidecars_not_after(sorted.drop_last(), p, audio_path, hints, dirs) + if !sidecar_before(
            p,
            sorted.last(),
            audio_path,
            hints,
            dirs,
        ) {
            1nat
        } else {
            0nat
        }
    }
}

/// The sidecars in order (see `sidecar_before`): each placed after every
/// earlier one that comes no later.
pub open spec fn ordered_sidecars(
    paths: Seq<Seq<char>>,
    audio_path: Seq<char>,
    hints: crate::sidecar_match::LyricsLookupHints,
    dirs: Seq<SearchDirectoryView>,
) -> Seq<Seq<char>>
    decreases paths.len(),
{
    if paths.len() == 0 {
        seq![]
    } else {
        let prev = ordered_sidecars(paths.drop_last(), audio_path, hints, dirs);
        prev.insert(
            count_sidecars_not_after(prev, paths.last(), audio_path, hints, dirs) as int,
            paths.last(),
        )
    }
}

proof fn lemma_count_sidecars_bound(
    sorted: Seq<Seq<char>>,
    p: Seq<char>,
    audio_path: Seq<char>,
    hints: crate::sidecar_match::LyricsLookupHints,
    dirs: Seq<SearchDirectoryView>,
)
    ensures
        count_sidecars_not_after(sorted, p, audio_path, hints, dirs) <= sorted.len(),
    decreases sorted.len(),
{
    if sorted.len() > 0 {
        lemma_count_sidecars_bound(sorted.drop_last(), p, audio_path, hints, dirs);
    }
}

/// A sidecar with what orders it.
struct RankedSidecar {
    path: String,
    score: u16,
    priority: u8,
}

/// The extension rank of a path (see `extension_priority`).
fn extension_priority_of(path: &str) -> (r: u8)
    ensures
        r as nat == extension_priority(path_extension_text(path@)),
{
    match extension_of(path) {
        Some(e) => {
            let lower = crate::text::to_ascii_lowercase(e.as_str());
            if crate::text::str_eq(lower.as_str(), "lrc") {
                0
            } else if crate::text::str_eq(lower.as_str(), "txt") {
                1
            } else {
                9
            }
        },
        None => 9,
    }
}

/// The sidecars for a track among the files found in the searched folders
/// (in the order found): those kept (see `kept_sidecars`), in order (see
/// `ordered_sidecars`).
pub fn collect_sidecar_paths(
    found: &Vec<String>,
    audio_path: &str,
    hints: &crate::sidecar_match::LyricsLookupHints,
    directories: &Vec<SidecarSearchDirectory>,
) -> (r: Vec<String>)
    ensures
        crate::text::texts(r@) == ordered_sidecars(
            kept_sidecars(crate::text::texts(found@), audio_path@, *hints, directories_view(directories@)),
            audio_path@,
            *hints,
            directories_view(directories@),
        ),
{
    let ghost dv = directories_view(directories@);
    let ghost fs = crate::text::texts(found@);
    let mut kept: Vec<RankedSidecar> = Vec::new();
    let mut keys: Vec<String> = Vec::new();
    let mut i: usize = 0;
    assert(fs.take(0) =~= Seq::<Seq<char>>::empty());
    while i < found.len()
        invariant
            i <= found@.len(),
            fs == crate::text::texts(found@),
            dv == directories_view(directories@),
            kept@.len() == keys@.len(),
            kept@.map_values(|k: RankedSidecar| k.path@) == kept_sidecars(
                fs.take(i as int),
                audio_path@,
                *hints,
                dv,
            ),
            crate::text::texts(keys@) == path_keys(kept@.map_values(|k: RankedSidecar| k.path@)),
            forall|k: int|
                #![trigger kept@[k]]
                0 <= k < kept@.len() ==> kept@[k].score as nat == sidecar_path_score(
                    audio_path@,
                    kept@[k].path@,
                    *hints,
                    dv,
                ) && kept@[k].priority as nat == extension_priority(
                    path_extension_text(kept@[k].path@),
                ),
        decreases found@.len() - i,
    {
        assert(fs.take(i + 1).drop_last() =~= fs.take(i as int));
        assert(fs.take(i + 1).last() == found@[i as int]@);
        let path = found[i].as_str();
        if is_supported_sidecar_file(path) {
            let score = score_sidecar_path(audio_path, path, hints, directories);
            if score > 0 {
                let key = normalize_path_key(path);
                if !crate::text::contains_text(&keys, key.as_str()) {
                    let ghost before = kept@;
                    let ghost before_keys = keys@;
                    let priority = extension_priority_of(path);
                    let owned = crate::text::to_owned(path);
                    assert(owned@ == found@[i as int]@);
                    assert(score as nat == sidecar_path_score(audio_path@, owned@, *hints, dv));
                    kept.push(RankedSidecar { path: owned, score, priority });
                    keys.push(key);
                    assert(kept@.map_values(|k: RankedSidecar| k.path@) =~= before.map_values(
                        |k: RankedSidecar| k.path@,
                    ).push(found@[i as int]@));
                    assert(crate::text::texts(keys@) =~= crate::text::texts(before_keys).push(
                        path_key(found@[i as int]@),
                    ));
                    assert(path_keys(kept@.map_values(|k: RankedSidecar| k.path@)) =~= path_keys(
                        before.map_values(|k: RankedSidecar| k.path@),
                    ).push(path_key(found@[i as int]@)));
                    assert forall|k: int| #![trigger kept@[k]] 0 <= k < kept@.len() implies kept@[k].score as nat
                        == sidecar_path_score(audio_path@, kept@[k].path@, *hints, dv)
                        && kept@[k].priority as nat == extension_priority(
                        path_extension_text(kept@[k].path@),
                    ) by {
                        if k < before.len() {
                            assert(kept@[k] == before[k]);
                            assert(before[k].score as nat == sidecar_path_score(
                                audio_path@,
                                before[k].path@,
                                *hints,
                                dv,
                            ));
                        } else {
                            assert(kept@[k].path@ == found@[i as int]@);
                            assert(kept@[k].score == score);
                            assert(kept@[k].priority == priority);
                        }
                    }
                }
            }
        }
        i += 1;
    }
    assert(fs.take(found@.len() as int) =~= fs);
    let ghost kp = kept@.map_values(|k: RankedSidecar| k.path@);
    let mut out: Vec<RankedSidecar> = Vec::new();
    let mut j: usize = 0;
    assert(kp.take(0) =~= Seq::<Seq<char>>::empty());
    assert(out@.map_values(|k: RankedSidecar| k.path@) =~= Seq::<Seq<char>>::empty());
    while j < kept.len()
        invariant
            j <= kept@.len(),
            kp == kept@.map_values(|k: RankedSidecar| k.path@),
            dv == directories_view(directories@),
            forall|k: int|
                #![trigger kept@[k]]
                0 <= k < kept@.len() ==> kept@[k].score as nat == sidecar_path_score(
                    audio_path@,
                    kept@[k].path@,
                    *hints,
                    dv,
                ) && kept@[k].priority as nat == extension_priority(
                    path_extension_text(kept@[k].path@),
                ),
            forall|k: int|
                #![trigger out@[k]]
                0 <= k < out@.len() ==> out@[k].score as nat == sidecar_path_score(
                    audio_path@,
                    out@[k].path@,
                    *hints,
                    dv,
                ) && out@[k].priority as nat == extension_priority(
                    path_extension_text(out@[k].path@),
                ),
            out@.map_values(|k: RankedSidecar| k.path@) == ordered_sidecars(
                kp.take(j as int),
                audio_path@,
                *hints,
                dv,
            ),
        decreases kept@.len() - j,
    {
        assert(kp.take(j + 1).drop_last() =~= kp.take(j as int));
        assert(kp.take(j + 1).last() == kept@[j as int].path@);
        let ghost prev = out@.map_values(|k: RankedSidecar| k.path@);
        proof {
            lemma_count_sidecars_bound(prev, kept@[j as int].path@, audio_path@, *hints, dv);
        }
        let mut at: usize = 0;
        let mut k: usize = 0;
        assert(prev.take(0) =~= Seq::<Seq<char>>::empty());
        while k < out.len()
            invariant
                k <= out@.len(),
                j < kept@.len(),
                prev == out@.map_values(|k: RankedSidecar| k.path@),
                at <= k,
                kept@[j as int].score as nat == sidecar_path_score(
                    audio_path@,
                    kept@[j as int].path@,
                    *hints,
                    dv,
                ),
                kept@[j as int].priority as nat == extension_priority(
                    path_extension_text(kept@[j as int].path@),
                ),
                forall|q: int|
                    #![trigger out@[q]]
                    0 <= q < out@.len() ==> out@[q].score as nat == sidecar_path_score(
                        audio_path@,
                        out@[q].path@,
                        *hints,
                        dv,
                    ) && out@[q].priority as nat == extension_priority(
                        path_extension_text(out@[q].path@),
                    ),
                at == count_sidecars_not_after(
                    prev.take(k as int),
                    kept@[j as int].path@,
                    audio_path@,
                    *hints,
                    dv,
                ),
            decreases out@.len() - k,
        {
            assert(prev.take(k + 1).drop_last() =~= prev.take(k as int));
            assert(prev.take(k + 1).last() == out@[k as int].path@);
            let a = &kept[j];
            let b = &out[k];
            let before = a.score > b.score || (a.score == b.score && (a.priority < b.priority || (
            a.priority == b.priority && path_sorts_before(a.path.as_str(), b.path.as_str()))));
            if !before {
                at += 1;
            }
            k += 1;
        }
        assert(prev.take(out@.len() as int) =~= prev);
        let entry = RankedSidecar {
            path: crate::text::to_owned(kept[j].path.as_str()),
            score: kept[j].score,
            priority: kept[j].priority,
        };
        let ghost before_out = out@;
        out.insert(at, entry);
        assert(out@.map_values(|k: RankedSidecar| k.path@) =~= before_out.map_values(
            |k: RankedSidecar| k.path@,
        ).insert(at as int, entry.path@));
        assert forall|q: int| #![trigger out@[q]] 0 <= q < out@.len() implies out@[q].score as nat
            == sidecar_path_score(audio_path@, out@[q].path@, *hints, dv) && out@[q].priority as nat
            == extension_priority(path_extension_text(out@[q].path@)) by {
            if q < at {
                assert(out@[q] == before_out[q]);
            } else if q > at {
                assert(out@[q] == before_out[q - 1]);
            }
        }
        j += 1;
    }
    assert(kp.take(kept@.len() as int) =~= kp);
    let mut paths: Vec<String> = Vec::new();
    let mut m: usize = 0;
    let ghost op = out@.map_values(|k: RankedSidecar| k.path@);
    while m < out.len()
        invariant
            m <= out@.len(),
            op == out@.map_values(|k: RankedSidecar| k.path@),
            crate::text::texts(paths@) == op.take(m as int),
        decreases out@.len() - m,
    {
        let ghost before = paths@;
        paths.push(crate::text::to_owned(out[m].path.as_str()));
        assert(crate::text::texts(paths@) =~= crate::text::texts(before).push(op[m as int]));
        assert(op.take(m + 1) =~= op.take(m as int).push(op[m as int]));
        m += 1;
    }
    assert(op.take(out@.len() as int) =~= op);
    paths
}

/// A sidecar named after the track's own stem (in any ASCII case, with words
/// to match) scores at least as high as any other sidecar of the same
/// extension in a folder of the same or a worse rank.
pub proof fn law_own_stem_sidecar_scores_highest(
    audio_path: Seq<char>,
    own_sidecar: Seq<char>,
    other_sidecar: Seq<char>,
    hints: crate::sidecar_match::LyricsLookupHints,
    dirs: Seq<SearchDirectoryView>,
)
    requires
        crate::sidecar_match::path_file_stem(audio_path) matches Some(au) && crate::sidecar_match::path_file_stem(
            own_sidecar,
        ) matches Some(own) && lower_seq(own) == lower_seq(au)
            && crate::sidecar_match::sidecar_match_text(own).len() > 0,
        path_extension_text(own_sidecar) == path_extension_text(other_sidecar),
        sidecar_directory_rank(dirs, own_sidecar) <= sidecar_directory_rank(dirs, other_sidecar),
    ensures
        sidecar_path_score(audio_path, other_sidecar, hints, dirs) <= sidecar_path_score(
            audio_path,
            own_sidecar,
            hints,
            dirs,
        ),
{
    let au = crate::sidecar_match::path_file_stem(audio_path)->0;
    let own = crate::sidecar_match::path_file_stem(own_sidecar)->0;
    crate::sidecar_match::law_own_stem_scores_highest(
        own,
        crate::sidecar_match::path_file_stem(other_sidecar),
        au,
        path_extension_text(own_sidecar),
        sidecar_directory_rank(dirs, own_sidecar),
        sidecar_directory_rank(dirs, other_sidecar),
        hints,
    );
}

} // verus!
