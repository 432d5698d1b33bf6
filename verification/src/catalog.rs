//! The catalog: idempotent persistence of artists, albums and tracks via
//! natural-key upserts.
//!
//! Natural keys — artist name, (album title, artist id), track path — make
//! re-ingestion idempotent: upserting the same data twice leaves the
//! catalog unchanged. An album's release year is filled only when
//! previously unset, never overwritten. A track's sync status resets to
//! pending exactly when its incoming lyric text differs from the stored
//! text.

use vstd::prelude::*;

verus! {

use crate::error::AppError;

// ---------------------------------------------------------------------
// Rows and their mathematical views
// ---------------------------------------------------------------------

/// Where a track's lyrics came from.
#[derive(Debug, Clone, Copy, PartialEq, Eq, Structural)]
pub enum LyricsSource {
    /// No lyrics were found.
    Absent,
    /// Lyrics came from an external sibling file.
    File,
    /// Lyrics came from an embedded tag field.
    Embedded,
}

/// The lyric synchronization status of a track.
#[derive(Debug, Clone, Copy, PartialEq, Eq, Structural)]
pub enum SyncStatus {
    /// Never considered for synchronization.
    NotSynced,
    /// Waiting to be synchronized.
    Pending,
    /// Being synchronized right now.
    Processing,
    /// Synchronized successfully.
    Completed,
    /// Synchronization failed.
    Failed,
}

/// An artist row. Natural key: the name.
#[derive(Debug, Clone, PartialEq, Eq)]
pub struct Artist {
    pub id: u64,
    pub name: String,
    /// The external metadata provider's identifier, once enriched.
    pub provider_id: Option<String>,
    /// A path or URL of the artist's image.
    pub image: Option<String>,
}

/// An album row. Natural key: (title, artist id).
#[derive(Debug, Clone, PartialEq, Eq)]
pub struct Album {
    pub id: u64,
    pub title: String,
    pub artist_id: u64,
    /// Release year; filled once, never overwritten.
    pub year: Option<u32>,
    /// A path or URL of the album's cover.
    pub cover: Option<String>,
    /// The external metadata provider's identifier, once enriched.
    pub provider_id: Option<String>,
}

/// A track row. Natural key: the file path.
#[derive(Debug, Clone, PartialEq, Eq)]
pub struct Track {
    pub id: u64,
    pub title: String,
    pub album_id: u64,
    pub artist_id: u64,
    /// Duration in seconds.
    pub duration: u32,
    pub track_number: Option<u32>,
    pub disc_number: u32,
    pub path: String,
    pub bitrate: Option<u32>,
    pub format: String,
    /// File size in bytes.
    pub size: u64,
    pub lyrics: Option<String>,
    pub lyrics_source: LyricsSource,
    pub sync_status: SyncStatus,
}

/// The fields a file visit hands to the track upsert.
#[derive(Debug, Clone, PartialEq, Eq)]
pub struct TrackInput {
    pub title: String,
    pub album_id: u64,
    pub artist_id: u64,
    pub duration: u32,
    pub track_number: Option<u32>,
    pub path: String,
    pub bitrate: Option<u32>,
    pub format: String,
    pub size: u64,
    pub lyrics: Option<String>,
    pub lyrics_source: LyricsSource,
}

/// The view of an optional string.
pub open spec fn osv(o: Option<String>) -> Option<Seq<char>> {
    match o {
        Some(s) => Some(s@),
        None => None,
    }
}

/// Mathematical view of an artist row.
#[verifier::ext_equal]
pub struct ArtistV {
    pub id: u64,
    pub name: Seq<char>,
    pub provider_id: Option<Seq<char>>,
    pub image: Option<Seq<char>>,
}

/// Mathematical view of an album row.
#[verifier::ext_equal]
pub struct AlbumV {
    pub id: u64,
    pub title: Seq<char>,
    pub artist_id: u64,
    pub year: Option<u32>,
    pub cover: Option<Seq<char>>,
    pub provider_id: Option<Seq<char>>,
}

/// Mathematical view of a track row.
#[verifier::ext_equal]
pub struct TrackV {
    pub id: u64,
    pub title: Seq<char>,
    pub album_id: u64,
    pub artist_id: u64,
    pub duration: u32,
    pub track_number: Option<u32>,
    pub disc_number: u32,
    pub path: Seq<char>,
    pub bitrate: Option<u32>,
    pub format: Seq<char>,
    pub size: u64,
    pub lyrics: Option<Seq<char>>,
    pub lyrics_source: LyricsSource,
    pub sync_status: SyncStatus,
}

/// Mathematical view of the track upsert input.
#[verifier::ext_equal]
pub struct TrackInputV {
    pub title: Seq<char>,
    pub album_id: u64,
    pub artist_id: u64,
    pub duration: u32,
    pub track_number: Option<u32>,
    pub path: Seq<char>,
    pub bitrate: Option<u32>,
    pub format: Seq<char>,
    pub size: u64,
    pub lyrics: Option<Seq<char>>,
    pub lyrics_source: LyricsSource,
}

impl View for Artist {
    type V = ArtistV;

    open spec fn view(&self) -> ArtistV {
        ArtistV {
            id: self.id,
            name: self.name@,
            provider_id: osv(self.provider_id),
            image: osv(self.image),
        }
    }
}

impl View for Album {
    type V = AlbumV;

    open spec fn view(&self) -> AlbumV {
        AlbumV {
            id: self.id,
            title: self.title@,
            artist_id: self.artist_id,
            year: self.year,
            cover: osv(self.cover),
            provider_id: osv(self.provider_id),
        }
    }
}

impl View for Track {
    type V = TrackV;

    open spec fn view(&self) -> TrackV {
        TrackV {
            id: self.id,
            title: self.title@,
            album_id: self.album_id,
            artist_id: self.artist_id,
            duration: self.duration,
            track_number: self.track_number,
            disc_number: self.disc_number,
            path: self.path@,
            bitrate: self.bitrate,
            format: self.format@,
            size: self.size,
            lyrics: osv(self.lyrics),
            lyrics_source: self.lyrics_source,
            sync_status: self.sync_status,
        }
    }
}

impl View for TrackInput {
    type V = TrackInputV;

    open spec fn view(&self) -> TrackInputV {
        TrackInputV {
            title: self.title@,
            album_id: self.album_id,
            artist_id: self.artist_id,
            duration: self.duration,
            track_number: self.track_number,
            path: self.path@,
            bitrate: self.bitrate,
            format: self.format@,
            size: self.size,
            lyrics: osv(self.lyrics),
            lyrics_source: self.lyrics_source,
        }
    }
}

// ---------------------------------------------------------------------
// The catalog and its view
// ---------------------------------------------------------------------

/// The in-memory catalog: three tables and a fresh-id counter.
#[derive(Debug, Clone, PartialEq, Eq)]
pub struct Catalog {
    pub artists: Vec<Artist>,
    pub albums: Vec<Album>,
    pub tracks: Vec<Track>,
    pub next_id: u64,
}

/// Mathematical view of the whole catalog.
#[verifier::ext_equal]
pub struct CatalogV {
    pub artists: Seq<ArtistV>,
    pub albums: Seq<AlbumV>,
    pub tracks: Seq<TrackV>,
    pub next_id: u64,
}

impl View for Catalog {
    type V = CatalogV;

    open spec fn view(&self) -> CatalogV {
        CatalogV {
            artists: self.artists@.map_values(|a: Artist| a@),
            albums: self.albums@.map_values(|a: Album| a@),
            tracks: self.tracks@.map_values(|t: Track| t@),
            next_id: self.next_id,
        }
    }
}

// ---------------------------------------------------------------------
// Lookups by natural key and by id
// ---------------------------------------------------------------------

/// Index of the first artist named `name`, or -1.
pub open spec fn artist_index_of(s: Seq<ArtistV>, name: Seq<char>) -> int
    decreases s.len(),
{
    if s.len() == 0 {
        -1
    } else if s[0].name == name {
        0
    } else {
        let r = artist_index_of(s.drop_first(), name);
        if r == -1 {
            -1
        } else {
            1 + r
        }
    }
}

/// Index of the first album with key (`title`, `artist_id`), or -1.
pub open spec fn album_index_of(s: Seq<AlbumV>, title: Seq<char>, artist_id: u64) -> int
    decreases s.len(),
{
    if s.len() == 0 {
        -1
    } else if s[0].title == title && s[0].artist_id == artist_id {
        0
    } else {
        let r = album_index_of(s.drop_first(), title, artist_id);
        if r == -1 {
            -1
        } else {
            1 + r
        }
    }
}

/// Index of the first track at `path`, or -1.
pub open spec fn track_index_of(s: Seq<TrackV>, path: Seq<char>) -> int
    decreases s.len(),
{
    if s.len() == 0 {
        -1
    } else if s[0].path == path {
        0
    } else {
        let r = track_index_of(s.drop_first(), path);
        if r == -1 {
            -1
        } else {
            1 + r
        }
    }
}

/// Index of the first artist with id `id`, or -1.
pub open spec fn artist_id_index_of(s: Seq<ArtistV>, id: u64) -> int
    decreases s.len(),
{
    if s.len() == 0 {
        -1
    } else if s[0].id == id {
        0
    } else {
        let r = artist_id_index_of(s.drop_first(), id);
        if r == -1 {
            -1
        } else {
            1 + r
        }
    }
}

/// Index of the first album with id `id`, or -1.
pub open spec fn album_id_index_of(s: Seq<AlbumV>, id: u64) -> int
    decreases s.len(),
{
    if s.len() == 0 {
        -1
    } else if s[0].id == id {
        0
    } else {
        let r = album_id_index_of(s.drop_first(), id);
        if r == -1 {
            -1
        } else {
            1 + r
        }
    }
}

/// Index of the first track with id `id`, or -1.
pub open spec fn track_id_index_of(s: Seq<TrackV>, id: u64) -> int
    decreases s.len(),
{
    if s.len() == 0 {
        -1
    } else if s[0].id == id {
        0
    } else {
        let r = track_id_index_of(s.drop_first(), id);
        if r == -1 {
            -1
        } else {
            1 + r
        }
    }
}

/// `artist_index_of` finds the first match, and -1 means no match.
pub proof fn lemma_artist_index(s: Seq<ArtistV>, name: Seq<char>)
    ensures
        -1 <= artist_index_of(s, name) < s.len(),
        artist_index_of(s, name) >= 0 ==> s[artist_index_of(s, name)].name == name,
        artist_index_of(s, name) == -1 ==> forall|j: int|
            0 <= j < s.len() ==> (#[trigger] s[j]).name != name,
    decreases s.len(),
{
    if s.len() > 0 && !(s[0].name == name) {
        lemma_artist_index(s.drop_first(), name);
        assert forall|j: int| 0 <= j < s.len() && artist_index_of(s, name) == -1 implies (
        #[trigger] s[j]).name != name by {
            if j > 0 {
                assert(s.drop_first()[j - 1] == s[j]);
            }
        }
    }
}

/// `album_index_of` finds the first match, and -1 means no match.
pub proof fn lemma_album_index(s: Seq<AlbumV>, title: Seq<char>, artist_id: u64)
    ensures
        -1 <= album_index_of(s, title, artist_id) < s.len(),
        album_index_of(s, title, artist_id) >= 0 ==> s[album_index_of(s, title, artist_id)].title
            == title && s[album_index_of(s, title, artist_id)].artist_id == artist_id,
        album_index_of(s, title, artist_id) == -1 ==> forall|j: int|
            0 <= j < s.len() ==> !((#[trigger] s[j]).title == title && s[j].artist_id == artist_id),
    decreases s.len(),
{
    if s.len() > 0 && !(s[0].title == title && s[0].artist_id == artist_id) {
        lemma_album_index(s.drop_first(), title, artist_id);
        assert forall|j: int|
            0 <= j < s.len() && album_index_of(s, title, artist_id) == -1 implies !((
        #[trigger] s[j]).title == title && s[j].artist_id == artist_id) by {
            if j > 0 {
                assert(s.drop_first()[j - 1] == s[j]);
            }
        }
    }
}

/// `track_index_of` finds the first match, and -1 means no match.
pub proof fn lemma_track_index(s: Seq<TrackV>, path: Seq<char>)
    ensures
        -1 <= track_index_of(s, path) < s.len(),
        track_index_of(s, path) >= 0 ==> s[track_index_of(s, path)].path == path,
        track_index_of(s, path) == -1 ==> forall|j: int|
            0 <= j < s.len() ==> (#[trigger] s[j]).path != path,
    decreases s.len(),
{
    if s.len() > 0 && !(s[0].path == path) {
        lemma_track_index(s.drop_first(), path);
        assert forall|j: int| 0 <= j < s.len() && track_index_of(s, path) == -1 implies (
        #[trigger] s[j]).path != path by {
            if j > 0 {
                assert(s.drop_first()[j - 1] == s[j]);
            }
        }
    }
}

/// `artist_id_index_of` finds the first match, and -1 means no match.
pub proof fn lemma_artist_id_index(s: Seq<ArtistV>, id: u64)
    ensures
        -1 <= artist_id_index_of(s, id) < s.len(),
        artist_id_index_of(s, id) >= 0 ==> s[artist_id_index_of(s, id)].id == id,
        artist_id_index_of(s, id) == -1 ==> forall|j: int|
            0 <= j < s.len() ==> (#[trigger] s[j]).id != id,
    decreases s.len(),
{
    if s.len() > 0 && !(s[0].id == id) {
        lemma_artist_id_index(s.drop_first(), id);
        assert forall|j: int| 0 <= j < s.len() && artist_id_index_of(s, id) == -1 implies (
        #[trigger] s[j]).id != id by {
            if j > 0 {
                assert(s.drop_first()[j - 1] == s[j]);
            }
        }
    }
}

/// `album_id_index_of` finds the first match, and -1 means no match.
pub proof fn lemma_album_id_index(s: Seq<AlbumV>, id: u64)
    ensures
        -1 <= album_id_index_of(s, id) < s.len(),
        album_id_index_of(s, id) >= 0 ==> s[album_id_index_of(s, id)].id == id,
        album_id_index_of(s, id) == -1 ==> forall|j: int|
            0 <= j < s.len() ==> (#[trigger] s[j]).id != id,
    decreases s.len(),
{
    if s.len() > 0 && !(s[0].id == id) {
        lemma_album_id_index(s.drop_first(), id);
        assert forall|j: int| 0 <= j < s.len() && album_id_index_of(s, id) == -1 implies (
        #[trigger] s[j]).id != id by {
            if j > 0 {
                assert(s.drop_first()[j - 1] == s[j]);
            }
        }
    }
}

/// `track_id_index_of` finds the first match, and -1 means no match.
pub proof fn lemma_track_id_index(s: Seq<TrackV>, id: u64)
    ensures
        -1 <= track_id_index_of(s, id) < s.len(),
        track_id_index_of(s, id) >= 0 ==> s[track_id_index_of(s, id)].id == id,
        track_id_index_of(s, id) == -1 ==> forall|j: int|
            0 <= j < s.len() ==> (#[trigger] s[j]).id != id,
    decreases s.len(),
{
    if s.len() > 0 && !(s[0].id == id) {
        lemma_track_id_index(s.drop_first(), id);
        assert forall|j: int| 0 <= j < s.len() && track_id_index_of(s, id) == -1 implies (
        #[trigger] s[j]).id != id by {
            if j > 0 {
                assert(s.drop_first()[j - 1] == s[j]);
            }
        }
    }
}

// ---------------------------------------------------------------------
// Well-formedness
// ---------------------------------------------------------------------

/// Natural keys and ids are unique, and every id is below the counter.
pub open spec fn wf_v(c: CatalogV) -> bool {
    &&& forall|i: int, j: int|
        0 <= i < j < c.artists.len() ==> (#[trigger] c.artists[i]).name != (
        #[trigger] c.artists[j]).name
    &&& forall|i: int, j: int|
        0 <= i < j < c.albums.len() ==> !((#[trigger] c.albums[i]).title == (
        #[trigger] c.albums[j]).title && c.albums[i].artist_id == c.albums[j].artist_id)
    &&& forall|i: int, j: int|
        0 <= i < j < c.tracks.len() ==> (#[trigger] c.tracks[i]).path != (
        #[trigger] c.tracks[j]).path
    &&& forall|i: int, j: int|
        0 <= i < j < c.artists.len() ==> (#[trigger] c.artists[i]).id != (
        #[trigger] c.artists[j]).id
    &&& forall|i: int, j: int|
        0 <= i < j < c.albums.len() ==> (#[trigger] c.albums[i]).id != (
        #[trigger] c.albums[j]).id
    &&& forall|i: int, j: int|
        0 <= i < j < c.tracks.len() ==> (#[trigger] c.tracks[i]).id != (
        #[trigger] c.tracks[j]).id
    &&& forall|i: int| 0 <= i < c.artists.len() ==> (#[trigger] c.artists[i]).id < c.next_id
    &&& forall|i: int| 0 <= i < c.albums.len() ==> (#[trigger] c.albums[i]).id < c.next_id
    &&& forall|i: int| 0 <= i < c.tracks.len() ==> (#[trigger] c.tracks[i]).id < c.next_id
}

// ---------------------------------------------------------------------
// Transitions, as mathematical functions
// ---------------------------------------------------------------------

/// A fresh artist row, before enrichment.
pub open spec fn new_artist_v(id: u64, name: Seq<char>) -> ArtistV {
    ArtistV { id, name, provider_id: None, image: None }
}

/// A fresh album row.
pub open spec fn new_album_v(id: u64, title: Seq<char>, artist_id: u64, year: Option<u32>) -> AlbumV {
    AlbumV { id, title, artist_id, year, cover: None, provider_id: None }
}

/// A fresh track row built from the upsert input: its sync status is
/// pending exactly when it arrives with lyrics.
pub open spec fn new_track_v(id: u64, i: TrackInputV) -> TrackV {
    TrackV {
        id,
        title: i.title,
        album_id: i.album_id,
        artist_id: i.artist_id,
        duration: i.duration,
        track_number: i.track_number,
        disc_number: 1,
        path: i.path,
        bitrate: i.bitrate,
        format: i.format,
        size: i.size,
        lyrics: i.lyrics,
        lyrics_source: i.lyrics_source,
        sync_status: if i.lyrics is Some {
            SyncStatus::Pending
        } else {
            SyncStatus::NotSynced
        },
    }
}

/// An existing track row overwritten by the upsert input: the mutable
/// fields are replaced; the sync status resets to pending exactly when
/// the incoming lyric text differs from the stored text.
pub open spec fn overwrite_track_v(t: TrackV, i: TrackInputV) -> TrackV {
    TrackV {
        id: t.id,
        title: i.title,
        album_id: t.album_id,
        artist_id: t.artist_id,
        duration: i.duration,
        track_number: i.track_number,
        disc_number: t.disc_number,
        path: t.path,
        bitrate: i.bitrate,
        format: t.format,
        size: t.size,
        lyrics: i.lyrics,
        lyrics_source: i.lyrics_source,
        sync_status: if i.lyrics != t.lyrics {
            SyncStatus::Pending
        } else {
            t.sync_status
        },
    }
}

/// Upsert of an artist by name: the existing row's id, or a fresh row.
pub open spec fn upsert_artist_v(c: CatalogV, name: Seq<char>) -> (CatalogV, u64) {
    let i = artist_index_of(c.artists, name);
    if i >= 0 {
        (c, c.artists[i].id)
    } else {
        (
            CatalogV {
                artists: c.artists.push(new_artist_v(c.next_id, name)),
                albums: c.albums,
                tracks: c.tracks,
                next_id: (c.next_id + 1) as u64,
            },
            c.next_id,
        )
    }
}

/// Upsert of an album by (title, artist id): on conflict the release
/// year is filled only when previously unset.
pub open spec fn upsert_album_v(c: CatalogV, title: Seq<char>, artist_id: u64, year: Option<u32>) -> (
    CatalogV,
    u64,
) {
    let i = album_index_of(c.albums, title, artist_id);
    if i >= 0 {
        let row = c.albums[i];
        let updated = AlbumV {
            id: row.id,
            title: row.title,
            artist_id: row.artist_id,
            year: if row.year is Some {
                row.year
            } else {
                year
            },
            cover: row.cover,
            provider_id: row.provider_id,
        };
        (
            CatalogV {
                artists: c.artists,
                albums: c.albums.update(i, updated),
                tracks: c.tracks,
                next_id: c.next_id,
            },
            row.id,
        )
    } else {
        (
            CatalogV {
                artists: c.artists,
                albums: c.albums.push(new_album_v(c.next_id, title, artist_id, year)),
                tracks: c.tracks,
                next_id: (c.next_id + 1) as u64,
            },
            c.next_id,
        )
    }
}

/// Upsert of a track by path: insert, or overwrite the mutable fields.
pub open spec fn upsert_track_v(c: CatalogV, i: TrackInputV) -> (CatalogV, u64) {
    let k = track_index_of(c.tracks, i.path);
    if k >= 0 {
        (
            CatalogV {
                artists: c.artists,
                albums: c.albums,
                tracks: c.tracks.update(k, overwrite_track_v(c.tracks[k], i)),
                next_id: c.next_id,
            },
            c.tracks[k].id,
        )
    } else {
        (
            CatalogV {
                artists: c.artists,
                albums: c.albums,
                tracks: c.tracks.push(new_track_v(c.next_id, i)),
                next_id: (c.next_id + 1) as u64,
            },
            c.next_id,
        )
    }
}

/// The catalog after the track at `old_path` is recorded as moved to
/// `new_path`, with a flag telling whether the update succeeded. A
/// collision with another row's path fails and changes nothing; a
/// missing row succeeds and changes nothing.
pub open spec fn move_track_path_v(c: CatalogV, old_path: Seq<char>, new_path: Seq<char>) -> (
    CatalogV,
    bool,
) {
    let k = track_index_of(c.tracks, old_path);
    if k < 0 {
        (c, true)
    } else if old_path == new_path {
        (c, true)
    } else if track_index_of(c.tracks, new_path) >= 0 {
        (c, false)
    } else {
        let row = c.tracks[k];
        let moved = TrackV {
            id: row.id,
            title: row.title,
            album_id: row.album_id,
            artist_id: row.artist_id,
            duration: row.duration,
            track_number: row.track_number,
            disc_number: row.disc_number,
            path: new_path,
            bitrate: row.bitrate,
            format: row.format,
            size: row.size,
            lyrics: row.lyrics,
            lyrics_source: row.lyrics_source,
            sync_status: row.sync_status,
        };
        (
            CatalogV {
                artists: c.artists,
                albums: c.albums,
                tracks: c.tracks.update(k, moved),
                next_id: c.next_id,
            },
            true,
        )
    }
}

/// The catalog after a cover reference is recorded on the album with
/// the given id; unchanged if no album has that id.
pub open spec fn set_album_cover_v(c: CatalogV, album_id: u64, cover: Seq<char>) -> CatalogV {
    let k = album_id_index_of(c.albums, album_id);
    if k < 0 {
        c
    } else {
        let row = c.albums[k];
        let updated = AlbumV {
            id: row.id,
            title: row.title,
            artist_id: row.artist_id,
            year: row.year,
            cover: Some(cover),
            provider_id: row.provider_id,
        };
        CatalogV {
            artists: c.artists,
            albums: c.albums.update(k, updated),
            tracks: c.tracks,
            next_id: c.next_id,
        }
    }
}

/// The catalog after an image reference is recorded on the artist with
/// the given id; unchanged if no artist has that id.
pub open spec fn set_artist_image_v(c: CatalogV, artist_id: u64, image: Seq<char>) -> CatalogV {
    let k = artist_id_index_of(c.artists, artist_id);
    if k < 0 {
        c
    } else {
        let row = c.artists[k];
        let updated = ArtistV {
            id: row.id,
            name: row.name,
            provider_id: row.provider_id,
            image: Some(image),
        };
        CatalogV {
            artists: c.artists.update(k, updated),
            albums: c.albums,
            tracks: c.tracks,
            next_id: c.next_id,
        }
    }
}

/// The catalog after the provider identifier is recorded on the artist
/// with the given id; unchanged if no artist has that id.
pub open spec fn set_artist_provider_v(c: CatalogV, artist_id: u64, provider: Seq<char>) -> CatalogV {
    let k = artist_id_index_of(c.artists, artist_id);
    if k < 0 {
        c
    } else {
        let row = c.artists[k];
        let updated = ArtistV {
            id: row.id,
            name: row.name,
            provider_id: Some(provider),
            image: row.image,
        };
        CatalogV {
            artists: c.artists.update(k, updated),
            albums: c.albums,
            tracks: c.tracks,
            next_id: c.next_id,
        }
    }
}

/// The catalog after provider enrichment of the album with the given
/// id: the provider identifier is recorded and the release year filled
/// only if previously unset; unchanged if no album has that id.
pub open spec fn enrich_album_v(c: CatalogV, album_id: u64, provider: Seq<char>, year: Option<
    u32,
>) -> CatalogV {
    let k = album_id_index_of(c.albums, album_id);
    if k < 0 {
        c
    } else {
        let row = c.albums[k];
        let updated = AlbumV {
            id: row.id,
            title: row.title,
            artist_id: row.artist_id,
            year: if row.year is Some {
                row.year
            } else {
                year
            },
            cover: row.cover,
            provider_id: Some(provider),
        };
        CatalogV {
            artists: c.artists,
            albums: c.albums.update(k, updated),
            tracks: c.tracks,
            next_id: c.next_id,
        }
    }
}

/// The catalog after the lyrics of the track with the given id are
/// overwritten; its sync status is untouched (this is the cloud-fetch
/// path, not the scan upsert). Unchanged if no track has that id.
pub open spec fn set_track_lyrics_v(c: CatalogV, track_id: u64, lyrics: Seq<char>) -> CatalogV {
    let k = track_id_index_of(c.tracks, track_id);
    if k < 0 {
        c
    } else {
        let row = c.tracks[k];
        let updated = TrackV {
            id: row.id,
            title: row.title,
            album_id: row.album_id,
            artist_id: row.artist_id,
            duration: row.duration,
            track_number: row.track_number,
            disc_number: row.disc_number,
            path: row.path,
            bitrate: row.bitrate,
            format: row.format,
            size: row.size,
            lyrics: Some(lyrics),
            lyrics_source: row.lyrics_source,
            sync_status: row.sync_status,
        };
        CatalogV {
            artists: c.artists,
            albums: c.albums,
            tracks: c.tracks.update(k, updated),
            next_id: c.next_id,
        }
    }
}

/// The paths of a track table, in order.
pub open spec fn track_paths_v(ts: Seq<TrackV>) -> Seq<Seq<char>> {
    ts.map_values(|t: TrackV| t.path)
}

/// Replacing an album row by one with the same id and natural key
/// preserves well-formedness.
pub proof fn lemma_wf_update_album(c: CatalogV, k: int, u: AlbumV)
    requires
        wf_v(c),
        0 <= k < c.albums.len(),
        u.id == c.albums[k].id,
        u.title == c.albums[k].title,
        u.artist_id == c.albums[k].artist_id,
    ensures
        wf_v(
            CatalogV {
                artists: c.artists,
                albums: c.albums.update(k, u),
                tracks: c.tracks,
                next_id: c.next_id,
            },
        ),
{
    let a2 = c.albums.update(k, u);
    assert forall|x: int| 0 <= x < a2.len() implies (#[trigger] a2[x]).id == c.albums[x].id && a2[x].title
        == c.albums[x].title && a2[x].artist_id == c.albums[x].artist_id by {}
}

/// Replacing an artist row by one with the same id and name preserves
/// well-formedness.
pub proof fn lemma_wf_update_artist(c: CatalogV, k: int, u: ArtistV)
    requires
        wf_v(c),
        0 <= k < c.artists.len(),
        u.id == c.artists[k].id,
        u.name == c.artists[k].name,
    ensures
        wf_v(
            CatalogV {
                artists: c.artists.update(k, u),
                albums: c.albums,
                tracks: c.tracks,
                next_id: c.next_id,
            },
        ),
{
    let a2 = c.artists.update(k, u);
    assert forall|x: int| 0 <= x < a2.len() implies (#[trigger] a2[x]).id == c.artists[x].id
        && a2[x].name == c.artists[x].name by {}
}

/// Replacing a track row by one with the same id and path preserves
/// well-formedness.
pub proof fn lemma_wf_update_track(c: CatalogV, k: int, u: TrackV)
    requires
        wf_v(c),
        0 <= k < c.tracks.len(),
        u.id == c.tracks[k].id,
        u.path == c.tracks[k].path,
    ensures
        wf_v(
            CatalogV {
                artists: c.artists,
                albums: c.albums,
                tracks: c.tracks.update(k, u),
                next_id: c.next_id,
            },
        ),
{
    let a2 = c.tracks.update(k, u);
    assert forall|x: int| 0 <= x < a2.len() implies (#[trigger] a2[x]).id == c.tracks[x].id
        && a2[x].path == c.tracks[x].path by {}
}

/// The tracks that survive the orphan sweep: those whose path is among
/// the present ones.
pub open spec fn sweep_tracks_v(ts: Seq<TrackV>, present: Seq<Seq<char>>) -> Seq<TrackV>
    decreases ts.len(),
{
    if ts.len() == 0 {
        Seq::empty()
    } else if present.contains(ts.last().path) {
        sweep_tracks_v(ts.drop_last(), present) + seq![ts.last()]
    } else {
        sweep_tracks_v(ts.drop_last(), present)
    }
}

/// The views of a vector of path strings.
pub open spec fn paths_of(v: Seq<String>) -> Seq<Seq<char>> {
    v.map_values(|s: String| s@)
}

/// A copy of an optional string with the same view.
pub fn opt_str_copy(o: &Option<String>) -> (r: Option<String>)
    ensures
        osv(r) == osv(*o),
{
    match o {
        Some(s) => Some(s.clone()),
        None => None,
    }
}

impl Track {
    /// A copy of the row with the same view.
    pub fn duplicate(&self) -> (r: Track)
        ensures
            r@ == self@,
    {
        Track {
            id: self.id,
            title: self.title.clone(),
            album_id: self.album_id,
            artist_id: self.artist_id,
            duration: self.duration,
            track_number: self.track_number,
            disc_number: self.disc_number,
            path: self.path.clone(),
            bitrate: self.bitrate,
            format: self.format.clone(),
            size: self.size,
            lyrics: opt_str_copy(&self.lyrics),
            lyrics_source: self.lyrics_source,
            sync_status: self.sync_status,
        }
    }
}

/// Whether one of the strings in `v` reads `p`.
pub fn contains_path(v: &Vec<String>, p: &String) -> (r: bool)
    ensures
        r == paths_of(v@).contains(p@),
{
    let n = v.len();
    let mut i: usize = 0;
    while i < n
        invariant
            i <= n,
            n == v@.len(),
            forall|j: int| 0 <= j < i ==> (#[trigger] v@[j])@ != p@,
        decreases n - i,
    {
        if v[i] == *p {
            proof {
                assert(paths_of(v@)[i as int] == p@);
            }
            return true;
        }
        i += 1;
    }
    proof {
        assert forall|j: int| 0 <= j < paths_of(v@).len() implies #[trigger] paths_of(v@)[j]
            != p@ by {
            assert(paths_of(v@)[j] == v@[j]@);
        }
    }
    false
}

/// The sweep keeps only rows of the original table, with their order,
/// so distinct paths stay distinct.
pub proof fn lemma_sweep_props(ts: Seq<TrackV>, present: Seq<Seq<char>>)
    requires
        forall|i: int, j: int|
            0 <= i < j < ts.len() ==> (#[trigger] ts[i]).path != (#[trigger] ts[j]).path,
    ensures
        sweep_tracks_v(ts, present).len() <= ts.len(),
        forall|x: int|
            0 <= x < sweep_tracks_v(ts, present).len() ==> exists|y: int|
                0 <= y < ts.len() && ts[y] == (#[trigger] sweep_tracks_v(ts, present)[x]),
        forall|x: int, y: int|
            0 <= x < y < sweep_tracks_v(ts, present).len() ==> (#[trigger] sweep_tracks_v(
                ts,
                present,
            )[x]).path != (#[trigger] sweep_tracks_v(ts, present)[y]).path,
    decreases ts.len(),
{
    if ts.len() > 0 {
        let dl = ts.drop_last();
        lemma_sweep_props(dl, present);
        let sw = sweep_tracks_v(ts, present);
        let swd = sweep_tracks_v(dl, present);
        assert forall|x: int| 0 <= x < sw.len() implies exists|y: int|
            0 <= y < ts.len() && ts[y] == (#[trigger] sw[x]) by {
            if x < swd.len() {
                assert(sw[x] == swd[x]);
                let y = choose|y: int| 0 <= y < dl.len() && dl[y] == swd[x];
                assert(ts[y] == sw[x]);
            } else {
                assert(sw[x] == ts.last());
                assert(ts[ts.len() - 1] == sw[x]);
            }
        }
        assert forall|x: int, y: int| 0 <= x < y < sw.len() implies (#[trigger] sw[x]).path != (
        #[trigger] sw[y]).path by {
            if y < swd.len() {
                assert(sw[x] == swd[x] && sw[y] == swd[y]);
            } else if y == swd.len() && y < sw.len() {
                assert(sw[y] == ts.last());
                assert(sw[x] == swd[x]);
                let a = choose|a: int| 0 <= a < dl.len() && dl[a] == swd[x];
                assert(ts[a].path != ts[ts.len() - 1].path);
            }
        }
    }
}

/// Equality of two optional strings, as their views.
pub fn opt_str_eq(a: &Option<String>, b: &Option<String>) -> (r: bool)
    ensures
        r == (osv(*a) == osv(*b)),
{
    match (a, b) {
        (Some(x), Some(y)) => *x == *y,
        (None, None) => true,
        _ => false,
    }
}

impl Catalog {
    /// Well-formedness of the catalog, stated over its view.
    pub open spec fn wf(&self) -> bool {
        wf_v(self@)
    }

    /// Index of the artist named `name`, if any.
    fn find_artist_index(&self, name: &String) -> (r: Option<usize>)
        ensures
            match r {
                Some(i) => artist_index_of(self@.artists, name@) == i as int,
                None => artist_index_of(self@.artists, name@) == -1,
            },
    {
        let n = self.artists.len();
        let mut i: usize = 0;
        proof {
            assert(self@.artists.skip(0) =~= self@.artists);
        }
        while i < n
            invariant
                i <= n,
                n == self@.artists.len(),
                artist_index_of(self@.artists, name@) == (if artist_index_of(
                    self@.artists.skip(i as int),
                    name@,
                ) == -1 {
                    -1int
                } else {
                    i + artist_index_of(self@.artists.skip(i as int), name@)
                }),
            decreases n - i,
        {
            proof {
                assert(self@.artists.skip(i as int)[0] == self@.artists[i as int]);
            }
            if self.artists[i].name == *name {
                return Some(i);
            }
            proof {
                assert(self@.artists.skip(i as int).drop_first() =~= self@.artists.skip(
                    i + 1 as int,
                ));
                lemma_artist_index(self@.artists.skip(i + 1 as int), name@);
            }
            i += 1;
        }
        None
    }

    /// Index of the album with key (`title`, `artist_id`), if any.
    fn find_album_index(&self, title: &String, artist_id: u64) -> (r: Option<usize>)
        ensures
            match r {
                Some(i) => album_index_of(self@.albums, title@, artist_id) == i as int,
                None => album_index_of(self@.albums, title@, artist_id) == -1,
            },
    {
        let n = self.albums.len();
        let mut i: usize = 0;
        proof {
            assert(self@.albums.skip(0) =~= self@.albums);
        }
        while i < n
            invariant
                i <= n,
                n == self@.albums.len(),
                album_index_of(self@.albums, title@, artist_id) == (if album_index_of(
                    self@.albums.skip(i as int),
                    title@,
                    artist_id,
                ) == -1 {
                    -1int
                } else {
                    i + album_index_of(self@.albums.skip(i as int), title@, artist_id)
                }),
            decreases n - i,
        {
            proof {
                assert(self@.albums.skip(i as int)[0] == self@.albums[i as int]);
            }
            if self.albums[i].title == *title && self.albums[i].artist_id == artist_id {
                return Some(i);
            }
            proof {
                assert(self@.albums.skip(i as int).drop_first() =~= self@.albums.skip(i + 1 as int));
                lemma_album_index(self@.albums.skip(i + 1 as int), title@, artist_id);
            }
            i += 1;
        }
        None
    }

    /// Index of the track at `path`, if any.
    fn find_track_index(&self, path: &String) -> (r: Option<usize>)
        ensures
            match r {
                Some(i) => track_index_of(self@.tracks, path@) == i as int,
                None => track_index_of(self@.tracks, path@) == -1,
            },
    {
        let n = self.tracks.len();
        let mut i: usize = 0;
        proof {
            assert(self@.tracks.skip(0) =~= self@.tracks);
        }
        while i < n
            invariant
                i <= n,
                n == self@.tracks.len(),
                track_index_of(self@.tracks, path@) == (if track_index_of(
                    self@.tracks.skip(i as int),
                    path@,
                ) == -1 {
                    -1int
                } else {
                    i + track_index_of(self@.tracks.skip(i as int), path@)
                }),
            decreases n - i,
        {
            proof {
                assert(self@.tracks.skip(i as int)[0] == self@.tracks[i as int]);
            }
            if self.tracks[i].path == *path {
                return Some(i);
            }
            proof {
                assert(self@.tracks.skip(i as int).drop_first() =~= self@.tracks.skip(i + 1 as int));
                lemma_track_index(self@.tracks.skip(i + 1 as int), path@);
            }
            i += 1;
        }
        None
    }

    /// Looks the artist up by name in the store (standing in for the
    /// per-scan cache plus the conflict-free insert): returns the
    /// existing row's id, or creates the row.
    pub fn get_or_create_artist(&mut self, name: &String) -> (id: u64)
        requires
            old(self).wf(),
            old(self).next_id < u64::MAX,
        ensures
            final(self).wf(),
            final(self)@ == upsert_artist_v(old(self)@, name@).0,
            id == upsert_artist_v(old(self)@, name@).1,
    {
        proof {
            lemma_artist_index(self@.artists, name@);
        }
        match self.find_artist_index(name) {
            Some(i) => self.artists[i].id,
            None => {
                let id = self.next_id;
                self.artists.push(
                    Artist { id, name: name.clone(), provider_id: None, image: None },
                );
                self.next_id = id + 1;
                proof {
                    let ghost prev = old(self)@;
                    assert(self@.artists =~= prev.artists.push(new_artist_v(id, name@)));
                    assert(self@ =~= upsert_artist_v(prev, name@).0);
                    assert forall|x: int, y: int|
                        0 <= x < y < self@.artists.len() implies (#[trigger] self@.artists[x]).name
                        != (#[trigger] self@.artists[y]).name && self@.artists[x].id
                        != self@.artists[y].id by {
                        if y == prev.artists.len() {
                            assert(self@.artists[x] == prev.artists[x]);
                        }
                    }
                    assert forall|x: int| 0 <= x < self@.artists.len() implies (
                    #[trigger] self@.artists[x]).id < self@.next_id by {
                        if x < prev.artists.len() {
                            assert(self@.artists[x] == prev.artists[x]);
                        }
                    }
                }
                id
            },
        }
    }

    /// Looks the album up by its natural key (standing in for the
    /// per-scan cache plus the conflict-free insert): returns the
    /// existing row's id, filling its release year only if previously
    /// unset, or creates the row.
    pub fn get_or_create_album(&mut self, title: &String, artist_id: u64, year: Option<u32>) -> (id:
        u64)
        requires
            old(self).wf(),
            old(self).next_id < u64::MAX,
        ensures
            final(self).wf(),
            final(self)@ == upsert_album_v(old(self)@, title@, artist_id, year).0,
            id == upsert_album_v(old(self)@, title@, artist_id, year).1,
    {
        proof {
            lemma_album_index(self@.albums, title@, artist_id);
        }
        match self.find_album_index(title, artist_id) {
            Some(i) => {
                let ghost prev = old(self)@;
                let id = self.albums[i].id;
                if self.albums[i].year.is_none() {
                    self.albums[i].year = year;
                }
                proof {
                    assert(self@.albums =~= prev.albums.update(
                        album_index_of(prev.albums, title@, artist_id),
                        upsert_album_v(prev, title@, artist_id, year).0.albums[i as int],
                    ));
                    assert(self@ =~= upsert_album_v(prev, title@, artist_id, year).0);
                    assert forall|x: int, y: int|
                        0 <= x < y < self@.albums.len() implies !((
                    #[trigger] self@.albums[x]).title == (#[trigger] self@.albums[y]).title
                        && self@.albums[x].artist_id == self@.albums[y].artist_id) by {
                        assert(prev.albums[x].title == self@.albums[x].title && prev.albums[x].artist_id
                            == self@.albums[x].artist_id);
                        assert(prev.albums[y].title == self@.albums[y].title && prev.albums[y].artist_id
                            == self@.albums[y].artist_id);
                    }
                }
                id
            },
            None => {
                let id = self.next_id;
                self.albums.push(
                    Album {
                        id,
                        title: title.clone(),
                        artist_id,
                        year,
                        cover: None,
                        provider_id: None,
                    },
                );
                self.next_id = id + 1;
                proof {
                    let ghost prev = old(self)@;
                    assert(self@.albums =~= prev.albums.push(
                        new_album_v(id, title@, artist_id, year),
                    ));
                    assert(self@ =~= upsert_album_v(prev, title@, artist_id, year).0);
                    assert forall|x: int, y: int|
                        0 <= x < y < self@.albums.len() implies !((
                    #[trigger] self@.albums[x]).title == (#[trigger] self@.albums[y]).title
                        && self@.albums[x].artist_id == self@.albums[y].artist_id) && self@.albums[x].id
                        != self@.albums[y].id by {
                        if y == prev.albums.len() {
                            assert(self@.albums[x] == prev.albums[x]);
                        }
                    }
                    assert forall|x: int| 0 <= x < self@.albums.len() implies (
                    #[trigger] self@.albums[x]).id < self@.next_id by {
                        if x < prev.albums.len() {
                            assert(self@.albums[x] == prev.albums[x]);
                        }
                    }
                }
                id
            },
        }
    }

    /// Inserts the track, or overwrites the mutable fields of the row
    /// sharing its path; the sync status resets to pending exactly when
    /// the lyric text changes.
    pub fn upsert_track(&mut self, input: TrackInput) -> (id: u64)
        requires
            old(self).wf(),
            old(self).next_id < u64::MAX,
        ensures
            final(self).wf(),
            final(self)@ == upsert_track_v(old(self)@, input@).0,
            id == upsert_track_v(old(self)@, input@).1,
    {
        proof {
            lemma_track_index(self@.tracks, input@.path);
        }
        match self.find_track_index(&input.path) {
            Some(k) => {
                let ghost prev = old(self)@;
                let id = self.tracks[k].id;
                let lyrics_changed = !opt_str_eq(&input.lyrics, &self.tracks[k].lyrics);
                self.tracks[k].title = input.title;
                self.tracks[k].duration = input.duration;
                self.tracks[k].track_number = input.track_number;
                self.tracks[k].bitrate = input.bitrate;
                self.tracks[k].lyrics = input.lyrics;
                self.tracks[k].lyrics_source = input.lyrics_source;
                if lyrics_changed {
                    self.tracks[k].sync_status = SyncStatus::Pending;
                }
                proof {
                    let ghost ki = track_index_of(prev.tracks, input@.path);
                    assert(self@.tracks =~= prev.tracks.update(
                        ki,
                        overwrite_track_v(prev.tracks[ki], input@),
                    ));
                    assert(self@ =~= upsert_track_v(prev, input@).0);
                    assert forall|x: int, y: int|
                        0 <= x < y < self@.tracks.len() implies (#[trigger] self@.tracks[x]).path
                        != (#[trigger] self@.tracks[y]).path by {
                        assert(prev.tracks[x].path == self@.tracks[x].path);
                        assert(prev.tracks[y].path == self@.tracks[y].path);
                    }
                }
                id
            },
            None => {
                let id = self.next_id;
                let sync_status = if input.lyrics.is_some() {
                    SyncStatus::Pending
                } else {
                    SyncStatus::NotSynced
                };
                self.tracks.push(
                    Track {
                        id,
                        title: input.title,
                        album_id: input.album_id,
                        artist_id: input.artist_id,
                        duration: input.duration,
                        track_number: input.track_number,
                        disc_number: 1,
                        path: input.path,
                        bitrate: input.bitrate,
                        format: input.format,
                        size: input.size,
                        lyrics: input.lyrics,
                        lyrics_source: input.lyrics_source,
                        sync_status,
                    },
                );
                self.next_id = id + 1;
                proof {
                    let ghost prev = old(self)@;
                    assert(self@.tracks =~= prev.tracks.push(new_track_v(id, input@)));
                    assert(self@ =~= upsert_track_v(prev, input@).0);
                    assert forall|x: int, y: int|
                        0 <= x < y < self@.tracks.len() implies (#[trigger] self@.tracks[x]).path
                        != (#[trigger] self@.tracks[y]).path && self@.tracks[x].id
                        != self@.tracks[y].id by {
                        if y == prev.tracks.len() {
                            assert(self@.tracks[x] == prev.tracks[x]);
                        }
                    }
                    assert forall|x: int| 0 <= x < self@.tracks.len() implies (
                    #[trigger] self@.tracks[x]).id < self@.next_id by {
                        if x < prev.tracks.len() {
                            assert(self@.tracks[x] == prev.tracks[x]);
                        }
                    }
                }
                id
            },
        }
    }

    /// Deletes every track whose backing file is gone: only rows whose
    /// path is among `present` survive. Runs once per full scan.
    pub fn orphan_sweep(&mut self, present: &Vec<String>)
        requires
            old(self).wf(),
        ensures
            final(self).wf(),
            final(self)@.tracks == sweep_tracks_v(old(self)@.tracks, paths_of(present@)),
            final(self)@.artists == old(self)@.artists,
            final(self)@.albums == old(self)@.albums,
            final(self)@.next_id == old(self)@.next_id,
    {
        let ghost prev = old(self)@;
        let n = self.tracks.len();
        let mut kept: Vec<Track> = Vec::new();
        let mut i: usize = 0;
        proof {
            assert(kept@.map_values(|t: Track| t@) =~= sweep_tracks_v(
                prev.tracks.take(0),
                paths_of(present@),
            ));
        }
        while i < n
            invariant
                i <= n,
                n == self.tracks.len(),
                self == old(self),
                prev == self@,
                kept@.map_values(|t: Track| t@) == sweep_tracks_v(
                    prev.tracks.take(i as int),
                    paths_of(present@),
                ),
            decreases n - i,
        {
            proof {
                assert(prev.tracks.take(i + 1 as int).drop_last() =~= prev.tracks.take(i as int));
                assert(prev.tracks.take(i + 1 as int).last() == prev.tracks[i as int]);
            }
            if contains_path(present, &self.tracks[i].path) {
                let row = self.tracks[i].duplicate();
                kept.push(row);
                proof {
                    assert(kept@.map_values(|t: Track| t@) =~= sweep_tracks_v(
                        prev.tracks.take(i + 1 as int),
                        paths_of(present@),
                    ));
                }
            }
            i += 1;
        }
        proof {
            assert(prev.tracks.take(n as int) =~= prev.tracks);
        }
        self.tracks = kept;
        proof {
            let sw = sweep_tracks_v(prev.tracks, paths_of(present@));
            lemma_sweep_props(prev.tracks, paths_of(present@));
            assert forall|x: int| 0 <= x < sw.len() implies (#[trigger] sw[x]).id
                < self@.next_id by {
                let y = choose|y: int| 0 <= y < prev.tracks.len() && prev.tracks[y] == sw[x];
            }
            assert forall|x: int, y: int| 0 <= x < y < sw.len() implies (#[trigger] sw[x]).id != (
            #[trigger] sw[y]).id by {
                let a = choose|a: int| 0 <= a < prev.tracks.len() && prev.tracks[a] == sw[x];
                let b = choose|b: int| 0 <= b < prev.tracks.len() && prev.tracks[b] == sw[y];
                assert(sw[x].path != sw[y].path);
                assert(a != b);
            }
        }
    }

    /// Records the new physical path of the track previously at
    /// `old_path`, after the organizer moved the file. A path collision
    /// with another row is a store error; a missing row is a silent
    /// no-op, as an update matching nothing.
    pub fn update_track_path(&mut self, old_path: &String, new_path: &String) -> (r: Result<
        (),
        AppError,
    >)
        requires
            old(self).wf(),
        ensures
            final(self).wf(),
            final(self)@ == move_track_path_v(old(self)@, old_path@, new_path@).0,
            r is Ok <==> move_track_path_v(old(self)@, old_path@, new_path@).1,
            r is Err ==> r->Err_0 is Database,
    {
        let ghost prev = old(self)@;
        proof {
            lemma_track_index(self@.tracks, old_path@);
            lemma_track_index(self@.tracks, new_path@);
        }
        let k = match self.find_track_index(old_path) {
            Some(k) => k,
            None => {
                return Ok(());
            },
        };
        if *old_path == *new_path {
            proof {
                assert(prev.tracks.update(k as int, prev.tracks[k as int]) =~= prev.tracks);
                assert(self@ =~= move_track_path_v(prev, old_path@, new_path@).0);
            }
            return Ok(());
        }
        if self.find_track_index(new_path).is_some() {
            return Err(
                AppError::Database(String::from_str("duplicate path: another track occupies it")),
            );
        }
        self.tracks[k].path = new_path.clone();
        proof {
            let ghost ki = track_index_of(prev.tracks, old_path@);
            assert(self@.tracks =~= prev.tracks.update(
                ki,
                move_track_path_v(prev, old_path@, new_path@).0.tracks[ki],
            ));
            assert(self@ =~= move_track_path_v(prev, old_path@, new_path@).0);
            assert forall|x: int, y: int|
                0 <= x < y < self@.tracks.len() implies (#[trigger] self@.tracks[x]).path != (
            #[trigger] self@.tracks[y]).path by {
                if x != ki && y != ki {
                    assert(self@.tracks[x] == prev.tracks[x]);
                    assert(self@.tracks[y] == prev.tracks[y]);
                } else if x == ki {
                    assert(self@.tracks[y] == prev.tracks[y]);
                    assert(prev.tracks[y].path != new_path@);
                } else {
                    assert(self@.tracks[x] == prev.tracks[x]);
                    assert(prev.tracks[x].path != new_path@);
                }
            }
        }
        Ok(())
    }

    /// Records a cover reference on the album with the given id; a
    /// missing row is a silent no-op.
    pub fn set_album_cover(&mut self, album_id: u64, cover: &String)
        requires
            old(self).wf(),
        ensures
            final(self).wf(),
            final(self)@ == set_album_cover_v(old(self)@, album_id, cover@),
    {
        let ghost prev = old(self)@;
        proof {
            lemma_album_id_index(self@.albums, album_id);
        }
        let n = self.albums.len();
        let mut i: usize = 0;
        proof {
            assert(self@.albums.skip(0) =~= self@.albums);
        }
        while i < n
            invariant
                i <= n,
                n == self@.albums.len(),
                self == old(self),
                prev == self@,
                wf_v(prev),
                album_id_index_of(self@.albums, album_id) == (if album_id_index_of(
                    self@.albums.skip(i as int),
                    album_id,
                ) == -1 {
                    -1int
                } else {
                    i + album_id_index_of(self@.albums.skip(i as int), album_id)
                }),
            decreases n - i,
        {
            proof {
                assert(self@.albums.skip(i as int)[0] == self@.albums[i as int]);
            }
            if self.albums[i].id == album_id {
                proof {
                    assert(album_id_index_of(self@.albums.skip(i as int), album_id) == 0);
                    assert(album_id_index_of(self@.albums, album_id) == i as int);
                    assert(self@.albums == prev.albums);
                    assert(album_id_index_of(prev.albums, album_id) == i as int);
                }
                self.albums[i].cover = Some(cover.clone());
                proof {
                    let u = set_album_cover_v(prev, album_id, cover@).albums[i as int];
                    assert(self@.albums =~= prev.albums.update(i as int, u));
                    assert(self@ =~= set_album_cover_v(prev, album_id, cover@));
                    lemma_wf_update_album(prev, i as int, u);
                    assert(wf_v(self@));
                }
                return ;
            }
            proof {
                assert(self@.albums.skip(i as int).drop_first() =~= self@.albums.skip(i + 1 as int));
                lemma_album_id_index(self@.albums.skip(i + 1 as int), album_id);
            }
            i += 1;
        }
    }

    /// Records an image reference on the artist with the given id; a
    /// missing row is a silent no-op.
    pub fn set_artist_image(&mut self, artist_id: u64, image: &String)
        requires
            old(self).wf(),
        ensures
            final(self).wf(),
            final(self)@ == set_artist_image_v(old(self)@, artist_id, image@),
    {
        let ghost prev = old(self)@;
        proof {
            lemma_artist_id_index(self@.artists, artist_id);
        }
        let n = self.artists.len();
        let mut i: usize = 0;
        proof {
            assert(self@.artists.skip(0) =~= self@.artists);
        }
        while i < n
            invariant
                i <= n,
                n == self@.artists.len(),
                self == old(self),
                prev == self@,
                wf_v(prev),
                artist_id_index_of(self@.artists, artist_id) == (if artist_id_index_of(
                    self@.artists.skip(i as int),
                    artist_id,
                ) == -1 {
                    -1int
                } else {
                    i + artist_id_index_of(self@.artists.skip(i as int), artist_id)
                }),
            decreases n - i,
        {
            proof {
                assert(self@.artists.skip(i as int)[0] == self@.artists[i as int]);
            }
            if self.artists[i].id == artist_id {
                proof {
                    assert(artist_id_index_of(self@.artists.skip(i as int), artist_id) == 0);
                    assert(artist_id_index_of(self@.artists, artist_id) == i as int);
                    assert(self@.artists == prev.artists);
                    assert(artist_id_index_of(prev.artists, artist_id) == i as int);
                }
                self.artists[i].image = Some(image.clone());
                proof {
                    let u = set_artist_image_v(prev, artist_id, image@).artists[i as int];
                    assert(self@.artists =~= prev.artists.update(i as int, u));
                    assert(self@ =~= set_artist_image_v(prev, artist_id, image@));
                    lemma_wf_update_artist(prev, i as int, u);
                    assert(wf_v(self@));
                }
                return ;
            }
            proof {
                assert(self@.artists.skip(i as int).drop_first() =~= self@.artists.skip(
                    i + 1 as int,
                ));
                lemma_artist_id_index(self@.artists.skip(i + 1 as int), artist_id);
            }
            i += 1;
        }
    }

    /// Records the external provider's identifier on the artist with the
    /// given id; a missing row is a silent no-op.
    pub fn set_artist_provider(&mut self, artist_id: u64, provider: &String)
        requires
            old(self).wf(),
        ensures
            final(self).wf(),
            final(self)@ == set_artist_provider_v(old(self)@, artist_id, provider@),
    {
        let ghost prev = old(self)@;
        proof {
            lemma_artist_id_index(self@.artists, artist_id);
        }
        let n = self.artists.len();
        let mut i: usize = 0;
        proof {
            assert(self@.artists.skip(0) =~= self@.artists);
        }
        while i < n
            invariant
                i <= n,
                n == self@.artists.len(),
                self == old(self),
                prev == self@,
                wf_v(prev),
                artist_id_index_of(self@.artists, artist_id) == (if artist_id_index_of(
                    self@.artists.skip(i as int),
                    artist_id,
                ) == -1 {
                    -1int
                } else {
                    i + artist_id_index_of(self@.artists.skip(i as int), artist_id)
                }),
            decreases n - i,
        {
            proof {
                assert(self@.artists.skip(i as int)[0] == self@.artists[i as int]);
            }
            if self.artists[i].id == artist_id {
                proof {
                    assert(artist_id_index_of(self@.artists.skip(i as int), artist_id) == 0);
                    assert(artist_id_index_of(prev.artists, artist_id) == i as int);
                }
                self.artists[i].provider_id = Some(provider.clone());
                proof {
                    let u = set_artist_provider_v(prev, artist_id, provider@).artists[i as int];
                    assert(self@.artists =~= prev.artists.update(i as int, u));
                    assert(self@ =~= set_artist_provider_v(prev, artist_id, provider@));
                    lemma_wf_update_artist(prev, i as int, u);
                    assert(wf_v(self@));
                }
                return ;
            }
            proof {
                assert(self@.artists.skip(i as int).drop_first() =~= self@.artists.skip(
                    i + 1 as int,
                ));
                lemma_artist_id_index(self@.artists.skip(i + 1 as int), artist_id);
            }
            i += 1;
        }
    }

    /// Records the provider's identifier on the album with the given id
    /// and fills its release year only if previously unset; a missing
    /// row is a silent no-op.
    pub fn enrich_album(&mut self, album_id: u64, provider: &String, year: Option<u32>)
        requires
            old(self).wf(),
        ensures
            final(self).wf(),
            final(self)@ == enrich_album_v(old(self)@, album_id, provider@, year),
    {
        let ghost prev = old(self)@;
        proof {
            lemma_album_id_index(self@.albums, album_id);
        }
        let n = self.albums.len();
        let mut i: usize = 0;
        proof {
            assert(self@.albums.skip(0) =~= self@.albums);
        }
        while i < n
            invariant
                i <= n,
                n == self@.albums.len(),
                self == old(self),
                prev == self@,
                wf_v(prev),
                album_id_index_of(self@.albums, album_id) == (if album_id_index_of(
                    self@.albums.skip(i as int),
                    album_id,
                ) == -1 {
                    -1int
                } else {
                    i + album_id_index_of(self@.albums.skip(i as int), album_id)
                }),
            decreases n - i,
        {
            proof {
                assert(self@.albums.skip(i as int)[0] == self@.albums[i as int]);
            }
            if self.albums[i].id == album_id {
                proof {
                    assert(album_id_index_of(self@.albums.skip(i as int), album_id) == 0);
                    assert(album_id_index_of(prev.albums, album_id) == i as int);
                }
                self.albums[i].provider_id = Some(provider.clone());
                if self.albums[i].year.is_none() {
                    self.albums[i].year = year;
                }
                proof {
                    let u = enrich_album_v(prev, album_id, provider@, year).albums[i as int];
                    assert(self@.albums =~= prev.albums.update(i as int, u));
                    assert(self@ =~= enrich_album_v(prev, album_id, provider@, year));
                    lemma_wf_update_album(prev, i as int, u);
                    assert(wf_v(self@));
                }
                return ;
            }
            proof {
                assert(self@.albums.skip(i as int).drop_first() =~= self@.albums.skip(i + 1 as int));
                lemma_album_id_index(self@.albums.skip(i + 1 as int), album_id);
            }
            i += 1;
        }
    }

    /// Overwrites the lyrics of the track with the given id, leaving its
    /// sync status alone; a missing row is a silent no-op.
    pub fn update_track_lyrics(&mut self, track_id: u64, lyrics: &String)
        requires
            old(self).wf(),
        ensures
            final(self).wf(),
            final(self)@ == set_track_lyrics_v(old(self)@, track_id, lyrics@),
    {
        let ghost prev = old(self)@;
        proof {
            lemma_track_id_index(self@.tracks, track_id);
        }
        let n = self.tracks.len();
        let mut i: usize = 0;
        proof {
            assert(self@.tracks.skip(0) =~= self@.tracks);
        }
        while i < n
            invariant
                i <= n,
                n == self@.tracks.len(),
                self == old(self),
                prev == self@,
                wf_v(prev),
                track_id_index_of(self@.tracks, track_id) == (if track_id_index_of(
                    self@.tracks.skip(i as int),
                    track_id,
                ) == -1 {
                    -1int
                } else {
                    i + track_id_index_of(self@.tracks.skip(i as int), track_id)
                }),
            decreases n - i,
        {
            proof {
                assert(self@.tracks.skip(i as int)[0] == self@.tracks[i as int]);
            }
            if self.tracks[i].id == track_id {
                proof {
                    assert(track_id_index_of(self@.tracks.skip(i as int), track_id) == 0);
                    assert(track_id_index_of(prev.tracks, track_id) == i as int);
                }
                self.tracks[i].lyrics = Some(lyrics.clone());
                proof {
                    let u = set_track_lyrics_v(prev, track_id, lyrics@).tracks[i as int];
                    assert(self@.tracks =~= prev.tracks.update(i as int, u));
                    assert(self@ =~= set_track_lyrics_v(prev, track_id, lyrics@));
                    lemma_wf_update_track(prev, i as int, u);
                    assert(wf_v(self@));
                }
                return ;
            }
            proof {
                assert(self@.tracks.skip(i as int).drop_first() =~= self@.tracks.skip(i + 1 as int));
                lemma_track_id_index(self@.tracks.skip(i + 1 as int), track_id);
            }
            i += 1;
        }
    }

    /// The artist with the given id, if any.
    pub fn artist_by_id(&self, id: u64) -> (r: Option<&Artist>)
        ensures
            match r {
                Some(a) => artist_id_index_of(self@.artists, id) >= 0 && a@ == self@.artists[artist_id_index_of(
                    self@.artists,
                    id,
                )],
                None => artist_id_index_of(self@.artists, id) == -1,
            },
    {
        let n = self.artists.len();
        let mut i: usize = 0;
        proof {
            assert(self@.artists.skip(0) =~= self@.artists);
        }
        while i < n
            invariant
                i <= n,
                n == self@.artists.len(),
                artist_id_index_of(self@.artists, id) == (if artist_id_index_of(
                    self@.artists.skip(i as int),
                    id,
                ) == -1 {
                    -1int
                } else {
                    i + artist_id_index_of(self@.artists.skip(i as int), id)
                }),
            decreases n - i,
        {
            proof {
                assert(self@.artists.skip(i as int)[0] == self@.artists[i as int]);
            }
            if self.artists[i].id == id {
                return Some(&self.artists[i]);
            }
            proof {
                assert(self@.artists.skip(i as int).drop_first() =~= self@.artists.skip(
                    i + 1 as int,
                ));
                lemma_artist_id_index(self@.artists.skip(i + 1 as int), id);
            }
            i += 1;
        }
        None
    }

    /// The album with the given id, if any.
    pub fn album_by_id(&self, id: u64) -> (r: Option<&Album>)
        ensures
            match r {
                Some(a) => album_id_index_of(self@.albums, id) >= 0 && a@ == self@.albums[album_id_index_of(
                    self@.albums,
                    id,
                )],
                None => album_id_index_of(self@.albums, id) == -1,
            },
    {
        let n = self.albums.len();
        let mut i: usize = 0;
        proof {
            assert(self@.albums.skip(0) =~= self@.albums);
        }
        while i < n
            invariant
                i <= n,
                n == self@.albums.len(),
                album_id_index_of(self@.albums, id) == (if album_id_index_of(
                    self@.albums.skip(i as int),
                    id,
                ) == -1 {
                    -1int
                } else {
                    i + album_id_index_of(self@.albums.skip(i as int), id)
                }),
            decreases n - i,
        {
            proof {
                assert(self@.albums.skip(i as int)[0] == self@.albums[i as int]);
            }
            if self.albums[i].id == id {
                return Some(&self.albums[i]);
            }
            proof {
                assert(self@.albums.skip(i as int).drop_first() =~= self@.albums.skip(i + 1 as int));
                lemma_album_id_index(self@.albums.skip(i + 1 as int), id);
            }
            i += 1;
        }
        None
    }

    /// The track with the given id, if any.
    pub fn track_by_id(&self, id: u64) -> (r: Option<&Track>)
        ensures
            match r {
                Some(t) => track_id_index_of(self@.tracks, id) >= 0 && t@ == self@.tracks[track_id_index_of(
                    self@.tracks,
                    id,
                )],
                None => track_id_index_of(self@.tracks, id) == -1,
            },
    {
        let n = self.tracks.len();
        let mut i: usize = 0;
        proof {
            assert(self@.tracks.skip(0) =~= self@.tracks);
        }
        while i < n
            invariant
                i <= n,
                n == self@.tracks.len(),
                track_id_index_of(self@.tracks, id) == (if track_id_index_of(
                    self@.tracks.skip(i as int),
                    id,
                ) == -1 {
                    -1int
                } else {
                    i + track_id_index_of(self@.tracks.skip(i as int), id)
                }),
            decreases n - i,
        {
            proof {
                assert(self@.tracks.skip(i as int)[0] == self@.tracks[i as int]);
            }
            if self.tracks[i].id == id {
                return Some(&self.tracks[i]);
            }
            proof {
                assert(self@.tracks.skip(i as int).drop_first() =~= self@.tracks.skip(i + 1 as int));
                lemma_track_id_index(self@.tracks.skip(i + 1 as int), id);
            }
            i += 1;
        }
        None
    }

    /// The track at the given path, if any.
    pub fn track_by_path(&self, path: &String) -> (r: Option<&Track>)
        ensures
            match r {
                Some(t) => track_index_of(self@.tracks, path@) >= 0 && t@ == self@.tracks[track_index_of(
                    self@.tracks,
                    path@,
                )],
                None => track_index_of(self@.tracks, path@) == -1,
            },
    {
        proof {
            lemma_track_index(self@.tracks, path@);
        }
        match self.find_track_index(path) {
            Some(i) => Some(&self.tracks[i]),
            None => None,
        }
    }

    /// The path under which the track with the given id is re-processed
    /// by a single-track rescan; unknown ids are a not-found error.
    pub fn track_path_for_rescan(&self, track_id: u64) -> (r: Result<String, AppError>)
        ensures
            match r {
                Ok(p) => track_id_index_of(self@.tracks, track_id) >= 0 && p@
                    == self@.tracks[track_id_index_of(self@.tracks, track_id)].path,
                Err(e) => track_id_index_of(self@.tracks, track_id) == -1 && e is NotFound,
            },
    {
        match self.track_by_id(track_id) {
            Some(t) => Ok(t.path.clone()),
            None => Err(AppError::NotFound(String::from_str("track not found"))),
        }
    }

    /// How many track rows the catalog holds: the authoritative count
    /// that the final progress reconciliation reports.
    pub fn track_count(&self) -> (r: usize)
        ensures
            r == self@.tracks.len(),
    {
        self.tracks.len()
    }

    /// The paths of all track rows, in table order.
    pub fn track_paths(&self) -> (r: Vec<String>)
        ensures
            paths_of(r@) == track_paths_v(self@.tracks),
    {
        let n = self.tracks.len();
        let mut r: Vec<String> = Vec::new();
        let mut i: usize = 0;
        proof {
            assert(paths_of(r@) =~~= track_paths_v(self@.tracks.take(0)));
        }
        while i < n
            invariant
                i <= n,
                n == self@.tracks.len(),
                paths_of(r@) == track_paths_v(self@.tracks.take(i as int)),
            decreases n - i,
        {
            let p = self.tracks[i].path.clone();
            proof {
                assert(p@ == self@.tracks[i as int].path);
                assert(paths_of(r@).len() == r@.len());
                assert(track_paths_v(self@.tracks.take(i as int)).len() == i);
                assert(r@.len() == i);
            }
            let ghost r_old = r@;
            r.push(p);
            proof {
                assert(r@.len() == i + 1);
                assert(r@[i as int]@ == self@.tracks[i as int].path);
                assert forall|j: int| 0 <= j < i implies #[trigger] paths_of(r@)[j] == paths_of(
                    r_old,
                )[j] by {
                    assert(r@[j] == r_old[j]);
                }
                assert forall|j: int|
                    0 <= j < i + 1 implies #[trigger] paths_of(r@)[j] == track_paths_v(
                    self@.tracks.take(i + 1 as int),
                )[j] by {
                    assert(self@.tracks.take(i + 1 as int)[j] == self@.tracks[j]);
                    if j < i {
                        assert(paths_of(r_old)[j] == track_paths_v(self@.tracks.take(i as int))[j]);
                        assert(track_paths_v(self@.tracks.take(i as int))[j] == self@.tracks.take(
                            i as int,
                        )[j].path);
                    }
                }
                assert(paths_of(r@) =~= track_paths_v(self@.tracks.take(i + 1 as int)));
            }
            i += 1;
        }
        proof {
            assert(self@.tracks.take(n as int) =~= self@.tracks);
        }
        r
    }

    /// An empty catalog.
    pub fn new() -> (r: Catalog)
        ensures
            r.wf(),
            r@.artists.len() == 0,
            r@.albums.len() == 0,
            r@.tracks.len() == 0,
            r@.next_id == 1,
    {
        let r = Catalog { artists: Vec::new(), albums: Vec::new(), tracks: Vec::new(), next_id: 1 };
        proof {
            assert(r@.artists =~= Seq::<ArtistV>::empty());
            assert(r@.albums =~= Seq::<AlbumV>::empty());
            assert(r@.tracks =~= Seq::<TrackV>::empty());
        }
        r
    }
}

// ---------------------------------------------------------------------
// Laws
// ---------------------------------------------------------------------

/// Upserting an artist twice by the same name is the same as doing it
/// once: the second upsert changes nothing and returns the same id.
pub proof fn lemma_upsert_artist_idempotent(c: CatalogV, name: Seq<char>)
    requires
        wf_v(c),
        c.next_id < u64::MAX,
    ensures
        upsert_artist_v(upsert_artist_v(c, name).0, name).0 == upsert_artist_v(c, name).0,
        upsert_artist_v(upsert_artist_v(c, name).0, name).1 == upsert_artist_v(c, name).1,
{
    lemma_artist_index(c.artists, name);
    let c1 = upsert_artist_v(c, name).0;
    if artist_index_of(c.artists, name) < 0 {
        lemma_artist_index_after_push(c.artists, new_artist_v(c.next_id, name), name);
    }
}

/// After pushing an artist with the searched name onto a table that
/// lacks it, the search finds exactly the pushed row.
pub proof fn lemma_artist_index_after_push(s: Seq<ArtistV>, a: ArtistV, name: Seq<char>)
    requires
        artist_index_of(s, name) == -1,
        a.name == name,
    ensures
        artist_index_of(s.push(a), name) == s.len(),
    decreases s.len(),
{
    lemma_artist_index(s, name);
    if s.len() == 0 {
        assert(s.push(a)[0] == a);
    } else {
        assert(s.push(a)[0] == s[0]);
        assert(s.push(a).drop_first() =~= s.drop_first().push(a));
        lemma_artist_index(s.drop_first(), name);
        lemma_artist_index_after_push(s.drop_first(), a, name);
    }
}

/// After pushing an album with the searched key onto a table that lacks
/// it, the search finds exactly the pushed row.
pub proof fn lemma_album_index_after_push(s: Seq<AlbumV>, a: AlbumV, title: Seq<char>, artist_id: u64)
    requires
        album_index_of(s, title, artist_id) == -1,
        a.title == title,
        a.artist_id == artist_id,
    ensures
        album_index_of(s.push(a), title, artist_id) == s.len(),
    decreases s.len(),
{
    lemma_album_index(s, title, artist_id);
    if s.len() == 0 {
        assert(s.push(a)[0] == a);
    } else {
        assert(s.push(a)[0] == s[0]);
        assert(s.push(a).drop_first() =~= s.drop_first().push(a));
        lemma_album_index(s.drop_first(), title, artist_id);
        lemma_album_index_after_push(s.drop_first(), a, title, artist_id);
    }
}

/// After pushing a track with the searched path onto a table that lacks
/// it, the search finds exactly the pushed row.
pub proof fn lemma_track_index_after_push(s: Seq<TrackV>, t: TrackV, path: Seq<char>)
    requires
        track_index_of(s, path) == -1,
        t.path == path,
    ensures
        track_index_of(s.push(t), path) == s.len(),
    decreases s.len(),
{
    lemma_track_index(s, path);
    if s.len() == 0 {
        assert(s.push(t)[0] == t);
    } else {
        assert(s.push(t)[0] == s[0]);
        assert(s.push(t).drop_first() =~= s.drop_first().push(t));
        lemma_track_index(s.drop_first(), path);
        lemma_track_index_after_push(s.drop_first(), t, path);
    }
}

/// Updating a row does not move where a key search lands, as long as the
/// key fields are preserved.
pub proof fn lemma_album_index_after_update(s: Seq<AlbumV>, k: int, u: AlbumV, title: Seq<char>, artist_id: u64)
    requires
        0 <= k < s.len(),
        u.title == s[k].title,
        u.artist_id == s[k].artist_id,
    ensures
        album_index_of(s.update(k, u), title, artist_id) == album_index_of(s, title, artist_id),
    decreases s.len(),
{
    let s2 = s.update(k, u);
    assert(s2[0] == (if k == 0 { u } else { s[0] }));
    if !(s[0].title == title && s[0].artist_id == artist_id) {
        if k == 0 {
            assert(s2.drop_first() =~= s.drop_first());
        } else {
            assert(s2.drop_first() =~= s.drop_first().update(k - 1, u));
            lemma_album_index_after_update(s.drop_first(), k - 1, u, title, artist_id);
        }
    }
}

/// The same for a track row.
pub proof fn lemma_track_index_after_update(s: Seq<TrackV>, k: int, u: TrackV, path: Seq<char>)
    requires
        0 <= k < s.len(),
        u.path == s[k].path,
    ensures
        track_index_of(s.update(k, u), path) == track_index_of(s, path),
    decreases s.len(),
{
    let s2 = s.update(k, u);
    assert(s2[0] == (if k == 0 { u } else { s[0] }));
    if !(s[0].path == path) {
        if k == 0 {
            assert(s2.drop_first() =~= s.drop_first());
        } else {
            assert(s2.drop_first() =~= s.drop_first().update(k - 1, u));
            lemma_track_index_after_update(s.drop_first(), k - 1, u, path);
        }
    }
}

/// A search that already finds a row is not moved by a push at the end.
pub proof fn lemma_artist_index_push_stable(s: Seq<ArtistV>, x: ArtistV, name: Seq<char>)
    requires
        artist_index_of(s, name) >= 0,
    ensures
        artist_index_of(s.push(x), name) == artist_index_of(s, name),
    decreases s.len(),
{
    if s.len() > 0 {
        assert(s.push(x)[0] == s[0]);
        if !(s[0].name == name) {
            assert(s.push(x).drop_first() =~= s.drop_first().push(x));
            lemma_artist_index(s.drop_first(), name);
            lemma_artist_index_push_stable(s.drop_first(), x, name);
        }
    }
}

/// The same for an album search.
pub proof fn lemma_album_index_push_stable(s: Seq<AlbumV>, x: AlbumV, title: Seq<char>, artist_id: u64)
    requires
        album_index_of(s, title, artist_id) >= 0,
    ensures
        album_index_of(s.push(x), title, artist_id) == album_index_of(s, title, artist_id),
    decreases s.len(),
{
    if s.len() > 0 {
        assert(s.push(x)[0] == s[0]);
        if !(s[0].title == title && s[0].artist_id == artist_id) {
            assert(s.push(x).drop_first() =~= s.drop_first().push(x));
            lemma_album_index(s.drop_first(), title, artist_id);
            lemma_album_index_push_stable(s.drop_first(), x, title, artist_id);
        }
    }
}

/// The same for a track search.
pub proof fn lemma_track_index_push_stable(s: Seq<TrackV>, x: TrackV, path: Seq<char>)
    requires
        track_index_of(s, path) >= 0,
    ensures
        track_index_of(s.push(x), path) == track_index_of(s, path),
    decreases s.len(),
{
    if s.len() > 0 {
        assert(s.push(x)[0] == s[0]);
        if !(s[0].path == path) {
            assert(s.push(x).drop_first() =~= s.drop_first().push(x));
            lemma_track_index(s.drop_first(), path);
            lemma_track_index_push_stable(s.drop_first(), x, path);
        }
    }
}

/// Upserting an album twice with the same key and year is the same as
/// doing it once: the second upsert changes nothing.
pub proof fn lemma_upsert_album_idempotent(c: CatalogV, title: Seq<char>, artist_id: u64, year: Option<u32>)
    requires
        wf_v(c),
        c.next_id < u64::MAX,
    ensures
        upsert_album_v(upsert_album_v(c, title, artist_id, year).0, title, artist_id, year).0
            == upsert_album_v(c, title, artist_id, year).0,
        upsert_album_v(upsert_album_v(c, title, artist_id, year).0, title, artist_id, year).1
            == upsert_album_v(c, title, artist_id, year).1,
{
    lemma_album_index(c.albums, title, artist_id);
    let k = album_index_of(c.albums, title, artist_id);
    let c1 = upsert_album_v(c, title, artist_id, year).0;
    if k >= 0 {
        lemma_album_index_after_update(c.albums, k, c1.albums[k], title, artist_id);
        let row1 = c1.albums[k];
        assert(c1.albums.update(k, row1) =~= c1.albums);
        assert(upsert_album_v(c1, title, artist_id, year).0 =~= c1);
    } else {
        lemma_album_index_after_push(
            c.albums,
            new_album_v(c.next_id, title, artist_id, year),
            title,
            artist_id,
        );
        let k1 = album_index_of(c1.albums, title, artist_id);
        let row1 = c1.albums[k1];
        assert(upsert_album_v(c1, title, artist_id, year).0.albums =~= c1.albums.update(k1, row1));
        assert(c1.albums.update(k1, row1) =~= c1.albums);
        assert(upsert_album_v(c1, title, artist_id, year).0 =~= c1);
    }
}

/// The album's release year is filled once and never overwritten:
/// whatever order a concrete year and a missing year arrive in, the row
/// ends with the first concrete year ever given.
pub proof fn lemma_album_year_fill_once(c: CatalogV, title: Seq<char>, artist_id: u64, y1: Option<u32>, y2: Option<u32>)
    requires
        wf_v(c),
        c.next_id < u64::MAX,
        album_index_of(c.albums, title, artist_id) == -1,
    ensures
        ({
            let c1 = upsert_album_v(c, title, artist_id, y1).0;
            let c2 = upsert_album_v(c1, title, artist_id, y2).0;
            let k = album_index_of(c2.albums, title, artist_id);
            &&& 0 <= k < c2.albums.len()
            &&& c2.albums[k].year == (if y1 is Some {
                y1
            } else {
                y2
            })
        }),
{
    lemma_album_index(c.albums, title, artist_id);
    lemma_album_index_after_push(
        c.albums,
        new_album_v(c.next_id, title, artist_id, y1),
        title,
        artist_id,
    );
    let c1 = upsert_album_v(c, title, artist_id, y1).0;
    let k1 = album_index_of(c1.albums, title, artist_id);
    let c2 = upsert_album_v(c1, title, artist_id, y2).0;
    lemma_album_index_after_update(c1.albums, k1, c2.albums[k1], title, artist_id);
}

/// Upserting a track twice with the same input is the same as doing it
/// once: the overwrite writes back the very same values and the lyric
/// text has not changed, so the sync status is preserved too.
pub proof fn lemma_upsert_track_idempotent(c: CatalogV, i: TrackInputV)
    requires
        wf_v(c),
        c.next_id < u64::MAX,
    ensures
        upsert_track_v(upsert_track_v(c, i).0, i).0 == upsert_track_v(c, i).0,
        upsert_track_v(upsert_track_v(c, i).0, i).1 == upsert_track_v(c, i).1,
{
    lemma_track_index(c.tracks, i.path);
    let k = track_index_of(c.tracks, i.path);
    let c1 = upsert_track_v(c, i).0;
    if k >= 0 {
        lemma_track_index_after_update(c.tracks, k, c1.tracks[k], i.path);
        let row1 = c1.tracks[k];
        assert(overwrite_track_v(row1, i) =~= row1);
        assert(c1.tracks.update(k, row1) =~= c1.tracks);
        assert(upsert_track_v(c1, i).0 =~= c1);
    } else {
        lemma_track_index_after_push(c.tracks, new_track_v(c.next_id, i), i.path);
        let k1 = track_index_of(c1.tracks, i.path);
        let row1 = c1.tracks[k1];
        assert(overwrite_track_v(row1, i) =~= row1);
        assert(upsert_track_v(c1, i).0.tracks =~= c1.tracks.update(k1, row1));
        assert(c1.tracks.update(k1, row1) =~= c1.tracks);
        assert(upsert_track_v(c1, i).0 =~= c1);
    }
}

/// Updating a track's lyrics to a different text resets its sync status
/// to pending; handing back the identical text preserves the status,
/// whatever it was.
pub proof fn lemma_sync_status_reset(c: CatalogV, i: TrackInputV)
    requires
        wf_v(c),
        c.next_id < u64::MAX,
        track_index_of(c.tracks, i.path) >= 0,
    ensures
        ({
            let k = track_index_of(c.tracks, i.path);
            let c1 = upsert_track_v(c, i).0;
            &&& i.lyrics != c.tracks[k].lyrics ==> c1.tracks[k].sync_status == SyncStatus::Pending
            &&& i.lyrics == c.tracks[k].lyrics ==> c1.tracks[k].sync_status
                == c.tracks[k].sync_status
        }),
{
    lemma_track_index(c.tracks, i.path);
}

/// After the orphan sweep, no track whose path is absent from the
/// present paths remains in the catalog.
pub proof fn lemma_sweep_removes_orphans(ts: Seq<TrackV>, present: Seq<Seq<char>>, path: Seq<char>)
    requires
        !present.contains(path),
    ensures
        track_index_of(sweep_tracks_v(ts, present), path) == -1,
    decreases ts.len(),
{
    if ts.len() > 0 {
        lemma_sweep_removes_orphans(ts.drop_last(), present, path);
        let sw = sweep_tracks_v(ts, present);
        let swd = sweep_tracks_v(ts.drop_last(), present);
        lemma_track_index(sw, path);
        lemma_track_index(swd, path);
        if track_index_of(sw, path) >= 0 {
            let x = track_index_of(sw, path);
            if present.contains(ts.last().path) {
                if x < swd.len() {
                    assert(sw[x] == swd[x]);
                } else {
                    assert(sw[x] == ts.last());
                }
            } else {
                assert(sw[x] == swd[x]);
            }
        }
    }
}

/// And the sweep never removes a track whose path is present.
pub proof fn lemma_sweep_keeps_present(ts: Seq<TrackV>, present: Seq<Seq<char>>, path: Seq<char>)
    requires
        present.contains(path),
        track_index_of(ts, path) >= 0,
    ensures
        track_index_of(sweep_tracks_v(ts, present), path) >= 0,
    decreases ts.len(),
{
    lemma_track_index(ts, path);
    let sw = sweep_tracks_v(ts, present);
    lemma_track_index(sw, path);
    if ts.len() > 0 {
        let k = track_index_of(ts, path);
        if k < ts.len() - 1 {
            assert(track_index_of(ts.drop_last(), path) >= 0) by {
                lemma_track_index_in_prefix(ts, path);
            }
            lemma_sweep_keeps_present(ts.drop_last(), present, path);
            let swd = sweep_tracks_v(ts.drop_last(), present);
            let j = track_index_of(swd, path);
            lemma_track_index(swd, path);
            assert(sw[j] == swd[j]);
            if track_index_of(sw, path) == -1 {
                assert(sw[j].path != path);
            }
        } else {
            assert(ts.last().path == path);
            assert(sw[sw.len() - 1] == ts.last());
            if track_index_of(sw, path) == -1 {
                assert(sw[sw.len() - 1].path != path);
            }
        }
    }
}

/// A match found before the last row is still found after dropping it,
/// at the very same position (the search takes the first match).
proof fn lemma_track_index_in_prefix(ts: Seq<TrackV>, path: Seq<char>)
    requires
        0 <= track_index_of(ts, path) < ts.len() - 1,
    ensures
        track_index_of(ts.drop_last(), path) == track_index_of(ts, path),
    decreases ts.len(),
{
    lemma_track_index(ts, path);
    lemma_track_index(ts.drop_last(), path);
    let dl = ts.drop_last();
    if ts[0].path == path {
        assert(dl[0] == ts[0]);
    } else {
        assert(dl[0] == ts[0]);
        assert(ts.drop_first().drop_last() =~= dl.drop_first());
        lemma_track_index(ts.drop_first(), path);
        assert(track_index_of(ts, path) == 1 + track_index_of(ts.drop_first(), path));
        lemma_track_index_in_prefix(ts.drop_first(), path);
    }
}

/// The search returns the first match: nothing before it has the path.
pub proof fn lemma_track_index_first(s: Seq<TrackV>, path: Seq<char>)
    ensures
        forall|j: int| 0 <= j < track_index_of(s, path) ==> (#[trigger] s[j]).path != path,
    decreases s.len(),
{
    lemma_track_index(s, path);
    if s.len() > 0 && !(s[0].path == path) {
        lemma_track_index(s.drop_first(), path);
        lemma_track_index_first(s.drop_first(), path);
        assert forall|j: int| 0 <= j < track_index_of(s, path) implies (#[trigger] s[j]).path
            != path by {
            if j > 0 {
                assert(s.drop_first()[j - 1] == s[j]);
            }
        }
    }
}

/// Every row of the sweep is a row of the original table.
proof fn lemma_sweep_rows_membership(ts: Seq<TrackV>, present: Seq<Seq<char>>)
    ensures
        forall|x: int|
            0 <= x < sweep_tracks_v(ts, present).len() ==> ts.contains(
                #[trigger] sweep_tracks_v(ts, present)[x],
            ),
    decreases ts.len(),
{
    if ts.len() > 0 {
        let dl = ts.drop_last();
        lemma_sweep_rows_membership(dl, present);
        let sw = sweep_tracks_v(ts, present);
        let swd = sweep_tracks_v(dl, present);
        assert forall|x: int| 0 <= x < sw.len() implies ts.contains(#[trigger] sw[x]) by {
            if x < swd.len() {
                assert(sw[x] == swd[x]);
                let y = choose|y: int| 0 <= y < dl.len() && dl[y] == swd[x];
                assert(ts[y] == sw[x]);
            } else {
                assert(sw[x] == ts.last());
                assert(ts[ts.len() - 1] == sw[x]);
            }
        }
    }
}

/// The sweep keeps a present path's first row exactly where the search
/// finds it: same row, found again in the swept table.
pub proof fn lemma_sweep_preserves_row(ts: Seq<TrackV>, present: Seq<Seq<char>>, path: Seq<char>)
    requires
        present.contains(path),
        track_index_of(ts, path) >= 0,
    ensures
        track_index_of(sweep_tracks_v(ts, present), path) >= 0,
        sweep_tracks_v(ts, present)[track_index_of(sweep_tracks_v(ts, present), path)]
            == ts[track_index_of(ts, path)],
    decreases ts.len(),
{
    lemma_track_index(ts, path);
    let sw = sweep_tracks_v(ts, present);
    let k = track_index_of(ts, path);
    let dl = ts.drop_last();
    let swd = sweep_tracks_v(dl, present);
    if k == ts.len() - 1 {
        // the first match is the last row: nothing before it has the
        // path, so the swept prefix has no match either and the kept
        // last row is found first
        assert(ts.last().path == path);
        assert(sw =~= swd.push(ts.last()));
        lemma_track_index(dl, path);
        lemma_track_index_first(ts, path);
        if track_index_of(dl, path) >= 0 {
            let kd = track_index_of(dl, path);
            assert(ts[kd] == dl[kd]);
            assert(ts[kd].path != path);
            assert(false);
        }
        lemma_sweep_rows_membership(dl, present);
        lemma_track_index(swd, path);
        if track_index_of(swd, path) >= 0 {
            let j = track_index_of(swd, path);
            let y = choose|y: int| 0 <= y < dl.len() && dl[y] == swd[j];
            assert(dl[y].path != path);
            assert(false);
        }
        lemma_track_index_after_push(swd, ts.last(), path);
    } else {
        lemma_track_index_in_prefix(ts, path);
        lemma_sweep_preserves_row(dl, present, path);
        let j = track_index_of(swd, path);
        lemma_track_index(swd, path);
        if present.contains(ts.last().path) {
            assert(sw =~= swd.push(ts.last()));
            lemma_track_index_push_stable(swd, ts.last(), path);
            assert(sw[j] == swd[j]);
        } else {
            assert(sw == swd);
        }
        assert(dl[k] == ts[k]);
    }
}

/// Sweeping a table whose every row's path is present keeps everything.
pub proof fn lemma_sweep_all_present(ts: Seq<TrackV>, present: Seq<Seq<char>>)
    requires
        forall|i: int| 0 <= i < ts.len() ==> present.contains((#[trigger] ts[i]).path),
    ensures
        sweep_tracks_v(ts, present) == ts,
    decreases ts.len(),
{
    if ts.len() > 0 {
        let dl = ts.drop_last();
        assert(forall|i: int| 0 <= i < dl.len() ==> present.contains((#[trigger] dl[i]).path))
            by {
            assert(forall|i: int| 0 <= i < dl.len() ==> #[trigger] dl[i] == ts[i]);
        }
        lemma_sweep_all_present(dl, present);
        assert(present.contains(ts.last().path));
        assert(sweep_tracks_v(ts, present) =~= ts);
    }
}

/// Every row the sweep keeps has its path among the present ones.
pub proof fn lemma_sweep_rows_present(ts: Seq<TrackV>, present: Seq<Seq<char>>)
    ensures
        forall|x: int|
            0 <= x < sweep_tracks_v(ts, present).len() ==> present.contains(
                (#[trigger] sweep_tracks_v(ts, present)[x]).path,
            ),
    decreases ts.len(),
{
    if ts.len() > 0 {
        let dl = ts.drop_last();
        lemma_sweep_rows_present(dl, present);
        let sw = sweep_tracks_v(ts, present);
        let swd = sweep_tracks_v(dl, present);
        assert forall|x: int| 0 <= x < sw.len() implies present.contains(
            (#[trigger] sw[x]).path,
        ) by {
            if x < swd.len() {
                assert(sw[x] == swd[x]);
            } else {
                assert(sw[x] == ts.last());
            }
        }
    }
}

} // verus!
