//! The decisions of a Subsonic track listing: how the album list is paged,
//! which albums are opened, which songs become tracks, and what each track
//! record holds. The caller performs the `getAlbumList2` and `getAlbum`
//! requests and hands over the album and song fields it read.
use vstd::prelude::*;
use crate::external_sources::{
    basename_from_path, extension_from_name, file_extension, first_nonzero, first_nonzero_u64,
    limit_reached, path_basename, sanitize_track_title, sanitized_track_title,
    subsonic_bitrate_bps,
};
use crate::text::{concat, opt_text, present_seq, to_owned, trim, trim_seq, u64_to_decimal};
use crate::webdav_scan::trimmed_or_none;

verus! {

/// How many albums one `getAlbumList2` page asks for.
pub const SUBSONIC_ALBUM_PAGE_SIZE: usize = 100;

/// The fields of a Subsonic album that a listing reads (text fields empty
/// when absent, numbers zero).
#[derive(Debug, Clone, Default)]
pub struct SubsonicAlbum {
    pub id: String,
    pub name: String,
    pub title: String,
    pub artist: String,
    pub genre: String,
    pub year: u64,
    pub cover_art: String,
}

/// The fields of a Subsonic song that a listing reads (text fields empty
/// when absent, numbers zero; the bit rate in kbit/s).
#[derive(Debug, Clone, Default)]
pub struct SubsonicSong {
    pub id: String,
    pub path: String,
    pub suffix: String,
    pub title: String,
    pub artist: String,
    pub album_artist: String,
    pub album: String,
    pub genre: String,
    pub year: u64,
    pub track: u64,
    pub disc_number: u64,
    pub size: u64,
    pub bit_rate: u64,
    pub sampling_rate: u64,
    pub sample_rate: u64,
    pub bit_depth: u64,
    pub content_type: String,
    pub created: String,
    pub cover_art: String,
}

/// A Subsonic song as a catalog track.
#[derive(Debug, Clone)]
pub struct SubsonicTrackRecord {
    pub remote_id: String,
    pub title: String,
    pub artist: String,
    pub album_artist: String,
    pub album: String,
    pub genre: String,
    pub year: u64,
    pub track_number: u64,
    pub track_total: u64,
    pub disc_number: u64,
    pub disc_total: u64,
    pub file_name: String,
    pub file_size: u64,
    pub format: String,
    pub bitrate: u64,
    pub sample_rate: u64,
    pub bit_depth: u64,
    pub mime_type: String,
    pub imported_at: Option<String>,
    pub path: String,
    pub album_id: String,
    pub cover_art: String,
    pub content_type: String,
}

/// `value`, or `fallback` when `value` is blank.
pub open spec fn or_if_blank(value: Seq<char>, fallback: Seq<char>) -> Seq<char> {
    if trim_seq(value).len() == 0 {
        fallback
    } else {
        value
    }
}

fn if_blank(value: String, fallback: String) -> (r: String)
    ensures
        r@ == or_if_blank(value@, fallback@),
{
    if trim(value.as_str()).as_str().is_empty() {
        fallback
    } else {
        value
    }
}

/// The next offset of the album list after a page of `page_len` albums,
/// and whether another page follows: none after an empty page or one that
/// leaves the offset off a multiple of the page size.
pub fn subsonic_album_page_step(offset: usize, page_len: usize) -> (r: (usize, bool))
    requires
        offset + page_len <= usize::MAX,
    ensures
        page_len == 0 ==> r == (offset, false),
        page_len > 0 ==> r == ((offset + page_len) as usize, (offset + page_len) % (
        SUBSONIC_ALBUM_PAGE_SIZE as int) == 0),
{
    if page_len == 0 {
        return (offset, false);
    }
    let next = offset + page_len;
    (next, next % SUBSONIC_ALBUM_PAGE_SIZE == 0)
}

/// The query of one album list page: alphabetical, a page of albums from
/// `offset`, within the music folder when one is configured.
pub open spec fn album_list_query(offset: usize, music_folder: Option<Seq<char>>) -> Seq<(Seq<char>, Seq<char>)> {
    let base = seq![
        ("type"@, "alphabeticalByName"@),
        ("size"@, crate::text::decimal(SUBSONIC_ALBUM_PAGE_SIZE as nat)),
        ("offset"@, crate::text::decimal(offset as nat)),
    ];
    match present_seq(music_folder) {
        Some(folder) => base.push(("musicFolderId"@, folder)),
        None => base,
    }
}

/// The query of the album list page at `offset` (the music folder is the
/// connection's root path).
pub fn subsonic_album_list_query(offset: usize, music_folder: Option<&str>) -> (r: Vec<(String, String)>)
    ensures
        r@.map_values(|p: (String, String)| (p.0@, p.1@)) == album_list_query(
            offset,
            match music_folder {
                Some(m) => Some(m@),
                None => None,
            },
        ),
{
    let mut out: Vec<(String, String)> = Vec::new();
    out.push((to_owned("type"), to_owned("alphabeticalByName")));
    out.push((to_owned("size"), u64_to_decimal(SUBSONIC_ALBUM_PAGE_SIZE as u64)));
    out.push((to_owned("offset"), u64_to_decimal(offset as u64)));
    let folder = crate::catalog_db::normalized_optional_text(music_folder);
    match folder {
        Some(f) => {
            out.push((to_owned("musicFolderId"), f));
        },
        None => {},
    }
    let ghost m = match music_folder {
        Some(m) => Some(m@),
        None => None,
    };
    assert(out@.map_values(|p: (String, String)| (p.0@, p.1@)) =~= album_list_query(offset, m));
    out
}

/// What a listing does with the next album.
#[derive(Debug, Clone, Copy, PartialEq, Eq, Structural)]
pub enum SubsonicAlbumStep {
    /// The tracks reached the limit: the listing ends.
    Stop,
    /// The album has no id: it is passed over.
    Skip,
    /// The album's songs are to be fetched.
    Fetch,
}

/// What a listing with `track_count` tracks does with `album`.
pub fn subsonic_album_step(album: &SubsonicAlbum, track_count: usize, limit: Option<usize>) -> (r:
    SubsonicAlbumStep)
    ensures
        r == (if crate::webdav_scan::limit_hit(track_count as int, limit) {
            SubsonicAlbumStep::Stop
        } else if album.id@.len() == 0 {
            SubsonicAlbumStep::Skip
        } else {
            SubsonicAlbumStep::Fetch
        }),
{
    if limit_reached(track_count, limit) {
        SubsonicAlbumStep::Stop
    } else if album.id.as_str().is_empty() {
        SubsonicAlbumStep::Skip
    } else {
        SubsonicAlbumStep::Fetch
    }
}

/// The largest disc number of an album's songs (zero without songs).
pub open spec fn max_disc(songs: Seq<SubsonicSong>) -> u64
    decreases songs.len(),
{
    if songs.len() == 0 {
        0
    } else {
        let rest = max_disc(songs.drop_last());
        if songs.last().disc_number > rest {
            songs.last().disc_number
        } else {
            rest
        }
    }
}

/// The number of discs of an album, read from its songs.
pub fn subsonic_disc_total(songs: &Vec<SubsonicSong>) -> (r: u64)
    ensures
        r == max_disc(songs@),
{
    let mut best: u64 = 0;
    let mut i: usize = 0;
    while i < songs.len()
        invariant
            i <= songs@.len(),
            best == max_disc(songs@.take(i as int)),
        decreases songs@.len() - i,
    {
        assert(songs@.take(i + 1).drop_last() =~= songs@.take(i as int));
        if songs[i].disc_number > best {
            best = songs[i].disc_number;
        }
        i += 1;
    }
    assert(songs@.take(songs@.len() as int) =~= songs@);
    best
}

/// The file name of a song: the last segment of its path; else its title
/// (else its id) with its suffix.
pub open spec fn song_file_name(song: SubsonicSong) -> Seq<char> {
    let title = or_if_blank(song.title@, song.id@);
    or_if_blank(
        path_basename(song.path@),
        if song.suffix@.len() == 0 {
            title
        } else {
            title + "."@ + song.suffix@
        },
    )
}

/// The file name of a song.
pub fn subsonic_file_name(song: &SubsonicSong) -> (r: String)
    ensures
        r@ == song_file_name(*song),
{
    let title = if_blank(song.title.clone(), song.id.clone());
    let fallback = if song.suffix.as_str().is_empty() {
        title
    } else {
        let dotted = concat(title.as_str(), ".");
        concat(dotted.as_str(), song.suffix.as_str())
    };
    proof {
        reveal_strlit(".");
    }
    if_blank(basename_from_path(song.path.as_str()), fallback)
}

/// The track a song of `album` stands for, in an album of `track_total`
/// songs on `disc_total` discs: the song's fields, with the album's where
/// the song leaves one blank, the title falling back to the file's stem and
/// the format to the path's extension.
pub open spec fn is_subsonic_track(
    t: SubsonicTrackRecord,
    album: SubsonicAlbum,
    song: SubsonicSong,
    track_total: u64,
    disc_total: u64,
) -> bool {
    let file_name = song_file_name(song);
    &&& t.remote_id@ == song.id@
    &&& t.title@ == or_if_blank(song.title@, sanitized_track_title(file_name))
    &&& t.artist@ == song.artist@
    &&& t.album_artist@ == or_if_blank(song.album_artist@, album.artist@)
    &&& t.album@ == or_if_blank(or_if_blank(song.album@, album.name@), album.title@)
    &&& t.genre@ == or_if_blank(song.genre@, album.genre@)
    &&& t.year == first_nonzero(seq![song.year, album.year])
    &&& t.track_number == song.track
    &&& t.track_total == track_total
    &&& t.disc_number == song.disc_number
    &&& t.disc_total == disc_total
    &&& t.file_name@ == file_name
    &&& t.file_size == song.size
    &&& t.format@ == or_if_blank(song.suffix@, file_extension(song.path@))
    &&& t.bitrate == (if song.bit_rate * 1000 > u64::MAX {
        u64::MAX
    } else {
        (song.bit_rate * 1000) as u64
    })
    &&& t.sample_rate == first_nonzero(seq![song.sampling_rate, song.sample_rate])
    &&& t.bit_depth == song.bit_depth
    &&& t.mime_type@ == song.content_type@
    &&& opt_text(t.imported_at) == trimmed_or_none(song.created@)
    &&& t.path@ == song.path@
    &&& t.album_id@ == album.id@
    &&& t.cover_art@ == or_if_blank(song.cover_art@, album.cover_art@)
    &&& t.content_type@ == song.content_type@
}

/// The track record of a song of `album`.
pub fn build_subsonic_track(
    album: &SubsonicAlbum,
    song: &SubsonicSong,
    track_total: u64,
    disc_total: u64,
) -> (r: SubsonicTrackRecord)
    ensures
        is_subsonic_track(r, *album, *song, track_total, disc_total),
{
    let file_name = subsonic_file_name(song);
    let title = if_blank(song.title.clone(), sanitize_track_title(file_name.as_str()));
    let album_name = if_blank(if_blank(song.album.clone(), album.name.clone()), album.title.clone());
    let extension = extension_from_name(song.path.as_str());
    let years: [u64; 2] = [song.year, album.year];
    let rates: [u64; 2] = [song.sampling_rate, song.sample_rate];
    let created = trim(song.created.as_str());
    let imported_at = if created.as_str().is_empty() {
        None
    } else {
        Some(created)
    };
    let year = first_nonzero_u64(&years);
    let sample_rate = first_nonzero_u64(&rates);
    assert(years@ =~= seq![song.year, album.year]);
    assert(rates@ =~= seq![song.sampling_rate, song.sample_rate]);
    SubsonicTrackRecord {
        remote_id: song.id.clone(),
        title,
        artist: song.artist.clone(),
        album_artist: if_blank(song.album_artist.clone(), album.artist.clone()),
        album: album_name,
        genre: if_blank(song.genre.clone(), album.genre.clone()),
        year,
        track_number: song.track,
        track_total,
        disc_number: song.disc_number,
        disc_total,
        file_name,
        file_size: song.size,
        format: if_blank(song.suffix.clone(), extension),
        bitrate: subsonic_bitrate_bps(song.bit_rate),
        sample_rate,
        bit_depth: song.bit_depth,
        mime_type: song.content_type.clone(),
        imported_at,
        path: song.path.clone(),
        album_id: album.id.clone(),
        cover_art: if_blank(song.cover_art.clone(), album.cover_art.clone()),
        content_type: song.content_type.clone(),
    }
}

/// The songs that become tracks when a listing that holds `count` tracks
/// opens an album: in order, those with an id, until the tracks reach the
/// limit.
pub open spec fn listed_songs(songs: Seq<SubsonicSong>, count: int, limit: Option<usize>) -> Seq<SubsonicSong>
    decreases songs.len(),
{
    if songs.len() == 0 || crate::webdav_scan::limit_hit(count, limit) {
        seq![]
    } else if songs[0].id@.len() == 0 {
        listed_songs(songs.drop_first(), count, limit)
    } else {
        seq![songs[0]] + listed_songs(songs.drop_first(), count + 1, limit)
    }
}

/// The tracks of an album whose songs were fetched, for a listing that holds
/// `track_count` tracks so far.
pub fn subsonic_album_tracks(
    album: &SubsonicAlbum,
    songs: &Vec<SubsonicSong>,
    track_count: usize,
    limit: Option<usize>,
) -> (r: Vec<SubsonicTrackRecord>)
    requires
        track_count + songs@.len() <= usize::MAX,
    ensures
        r@.len() == listed_songs(songs@, track_count as int, limit).len(),
        forall|i: int|
            0 <= i < r@.len() ==> is_subsonic_track(
                #[trigger] r@[i],
                *album,
                listed_songs(songs@, track_count as int, limit)[i],
                songs@.len() as u64,
                max_disc(songs@),
            ),
{
    let track_total = songs.len() as u64;
    let disc_total = subsonic_disc_total(songs);
    let mut out: Vec<SubsonicTrackRecord> = Vec::new();
    let ghost mut chosen: Seq<SubsonicSong> = seq![];
    let mut i: usize = 0;
    assert(songs@.skip(0) =~= songs@);
    while i < songs.len()
        invariant_except_break
            listed_songs(songs@, track_count as int, limit) == chosen + listed_songs(
                songs@.skip(i as int),
                track_count + out@.len(),
                limit,
            ),
        invariant
            i <= songs@.len(),
            out@.len() == chosen.len(),
            out@.len() <= i,
            track_count + songs@.len() <= usize::MAX,
            track_total == songs@.len() as u64,
            disc_total == max_disc(songs@),
            forall|k: int|
                0 <= k < out@.len() ==> is_subsonic_track(
                    #[trigger] out@[k],
                    *album,
                    chosen[k],
                    track_total,
                    disc_total,
                ),
        ensures
            listed_songs(songs@, track_count as int, limit) == chosen,
        decreases songs@.len() - i,
    {
        let ghost rest = songs@.skip(i as int);
        if limit_reached(track_count + out.len(), limit) {
            assert(listed_songs(rest, track_count + out@.len(), limit) =~= seq![]);
            assert(chosen + seq![] =~= chosen);
            break;
        }
        assert(rest[0] == songs@[i as int]);
        assert(rest.drop_first() =~= songs@.skip(i + 1));
        if !songs[i].id.as_str().is_empty() {
            let track = build_subsonic_track(album, &songs[i], track_total, disc_total);
            out.push(track);
            proof {
                assert((chosen + seq![songs@[i as int]]) + listed_songs(songs@.skip(i + 1), track_count + out@.len(), limit)
                    =~= chosen + (seq![songs@[i as int]] + listed_songs(songs@.skip(i + 1), track_count + out@.len(), limit)));
                chosen = chosen + seq![songs@[i as int]];
            }
        }
        i += 1;
    }
    proof {
        if i == songs@.len() {
            assert(songs@.skip(i as int) =~= seq![]);
            assert(chosen + seq![] =~= chosen);
        }
    }
    out
}

} // verus!
