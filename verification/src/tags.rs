//! Tag-block field selection: one audio file carries zero or more tag
//! blocks (differing container formats), each offering the same optional
//! fields. For every scalar field the first non-empty value across the
//! blocks, in container-declared order, wins; unresolved fields fall back
//! to the file stem and the unknown-artist / unknown-album placeholders.

use vstd::prelude::*;

verus! {

use crate::catalog::osv;

/// One tag block, already read from the container: the capability set
/// {title, artist, album, track, year, lyrics, picture} that every
/// concrete tag format offers.
#[derive(Debug, Clone, PartialEq, Eq)]
pub struct TagBlock {
    pub title: Option<String>,
    pub artist: Option<String>,
    pub album: Option<String>,
    pub track_number: Option<u32>,
    pub year: Option<u32>,
    pub lyrics: Option<String>,
    /// Whether the block embeds at least one picture.
    pub has_picture: bool,
}

/// Mathematical view of a tag block.
#[verifier::ext_equal]
pub struct TagBlockV {
    pub title: Option<Seq<char>>,
    pub artist: Option<Seq<char>>,
    pub album: Option<Seq<char>>,
    pub track_number: Option<u32>,
    pub year: Option<u32>,
    pub lyrics: Option<Seq<char>>,
    pub has_picture: bool,
}

impl View for TagBlock {
    type V = TagBlockV;

    open spec fn view(&self) -> TagBlockV {
        TagBlockV {
            title: osv(self.title),
            artist: osv(self.artist),
            album: osv(self.album),
            track_number: self.track_number,
            year: self.year,
            lyrics: osv(self.lyrics),
            has_picture: self.has_picture,
        }
    }
}

/// The views of a vector of tag blocks.
pub open spec fn blocks_of(v: Seq<TagBlock>) -> Seq<TagBlockV> {
    v.map_values(|b: TagBlock| b@)
}

/// Whether an optional text field holds a non-empty value: an empty tag
/// frame counts as unresolved, so the defaults apply.
pub open spec fn non_empty(o: Option<Seq<char>>) -> bool {
    o is Some && o->Some_0.len() > 0
}

/// The first non-empty title offered by any block, in order.
pub open spec fn first_title(s: Seq<TagBlockV>) -> Option<Seq<char>>
    decreases s.len(),
{
    if s.len() == 0 {
        None
    } else if non_empty(s[0].title) {
        s[0].title
    } else {
        first_title(s.drop_first())
    }
}

/// The first non-empty artist offered by any block, in order.
pub open spec fn first_artist(s: Seq<TagBlockV>) -> Option<Seq<char>>
    decreases s.len(),
{
    if s.len() == 0 {
        None
    } else if non_empty(s[0].artist) {
        s[0].artist
    } else {
        first_artist(s.drop_first())
    }
}

/// The first non-empty album offered by any block, in order.
pub open spec fn first_album(s: Seq<TagBlockV>) -> Option<Seq<char>>
    decreases s.len(),
{
    if s.len() == 0 {
        None
    } else if non_empty(s[0].album) {
        s[0].album
    } else {
        first_album(s.drop_first())
    }
}

/// The first track number offered by any block, in order.
pub open spec fn first_track_number(s: Seq<TagBlockV>) -> Option<u32>
    decreases s.len(),
{
    if s.len() == 0 {
        None
    } else if s[0].track_number is Some {
        s[0].track_number
    } else {
        first_track_number(s.drop_first())
    }
}

/// The first year offered by any block, in order.
pub open spec fn first_year(s: Seq<TagBlockV>) -> Option<u32>
    decreases s.len(),
{
    if s.len() == 0 {
        None
    } else if s[0].year is Some {
        s[0].year
    } else {
        first_year(s.drop_first())
    }
}

/// The first embedded lyric text offered by any block, in order.
pub open spec fn first_lyrics(s: Seq<TagBlockV>) -> Option<Seq<char>>
    decreases s.len(),
{
    if s.len() == 0 {
        None
    } else if s[0].lyrics is Some {
        s[0].lyrics
    } else {
        first_lyrics(s.drop_first())
    }
}

/// The scalar fields selected from the blocks, before defaults.
#[derive(Debug, Clone, PartialEq, Eq)]
pub struct SelectedFields {
    pub title: Option<String>,
    pub artist: Option<String>,
    pub album: Option<String>,
    pub track_number: Option<u32>,
    pub year: Option<u32>,
}

/// Walks the blocks once and takes, for each text field, the first
/// non-empty value, and for each numeric field the first value present,
/// in block order.
pub fn select_fields(blocks: &Vec<TagBlock>) -> (r: SelectedFields)
    ensures
        osv(r.title) == first_title(blocks_of(blocks@)),
        osv(r.artist) == first_artist(blocks_of(blocks@)),
        osv(r.album) == first_album(blocks_of(blocks@)),
        r.track_number == first_track_number(blocks_of(blocks@)),
        r.year == first_year(blocks_of(blocks@)),
{
    let ghost bs = blocks_of(blocks@);
    let n = blocks.len();
    let mut title: Option<String> = None;
    let mut artist: Option<String> = None;
    let mut album: Option<String> = None;
    let mut track_number: Option<u32> = None;
    let mut year: Option<u32> = None;
    let mut i: usize = 0;
    proof {
        assert(bs.skip(0) =~= bs);
    }
    while i < n
        invariant
            i <= n,
            n == bs.len(),
            bs == blocks_of(blocks@),
            first_title(bs) == (if osv(title) is Some {
                osv(title)
            } else {
                first_title(bs.skip(i as int))
            }),
            first_artist(bs) == (if osv(artist) is Some {
                osv(artist)
            } else {
                first_artist(bs.skip(i as int))
            }),
            first_album(bs) == (if osv(album) is Some {
                osv(album)
            } else {
                first_album(bs.skip(i as int))
            }),
            first_track_number(bs) == (if track_number is Some {
                track_number
            } else {
                first_track_number(bs.skip(i as int))
            }),
            first_year(bs) == (if year is Some {
                year
            } else {
                first_year(bs.skip(i as int))
            }),
        decreases n - i,
    {
        proof {
            assert(bs.skip(i as int)[0] == bs[i as int]);
            assert(bs.skip(i as int).drop_first() =~= bs.skip(i + 1 as int));
        }
        if title.is_none() {
            title = match &blocks[i].title {
                Some(t) if t.unicode_len() > 0 => Some(t.clone()),
                _ => None,
            };
        }
        if artist.is_none() {
            artist = match &blocks[i].artist {
                Some(a) if a.unicode_len() > 0 => Some(a.clone()),
                _ => None,
            };
        }
        if album.is_none() {
            album = match &blocks[i].album {
                Some(a) if a.unicode_len() > 0 => Some(a.clone()),
                _ => None,
            };
        }
        if track_number.is_none() {
            track_number = blocks[i].track_number;
        }
        if year.is_none() {
            year = blocks[i].year;
        }
        i += 1;
    }
    SelectedFields { title, artist, album, track_number, year }
}

/// The resolved title after defaults: the selected tag value, else the
/// file stem, else the unknown placeholder for a file with no stem.
pub open spec fn default_title_v(title: Option<Seq<char>>, stem: Seq<char>) -> Seq<char> {
    match title {
        Some(t) => t,
        None => if stem.len() == 0 {
            "Unknown"@
        } else {
            stem
        },
    }
}

/// The resolved artist after defaults.
pub open spec fn default_artist_v(artist: Option<Seq<char>>) -> Seq<char> {
    match artist {
        Some(a) => a,
        None => "Unknown Artist"@,
    }
}

/// The resolved album after defaults.
pub open spec fn default_album_v(album: Option<Seq<char>>) -> Seq<char> {
    match album {
        Some(a) => a,
        None => "Unknown Album"@,
    }
}

/// Applies the fallback rules to the selected text fields: an
/// unresolved title becomes the file stem, an unresolved artist and
/// album their unknown placeholders.
pub fn apply_field_defaults(sel: &SelectedFields, stem: &String) -> (r: (String, String, String))
    ensures
        r.0@ == default_title_v(osv(sel.title), stem@),
        r.1@ == default_artist_v(osv(sel.artist)),
        r.2@ == default_album_v(osv(sel.album)),
{
    let title = match &sel.title {
        Some(t) => t.clone(),
        None => {
            if stem.unicode_len() == 0 {
                String::from_str("Unknown")
            } else {
                stem.clone()
            }
        },
    };
    let artist = match &sel.artist {
        Some(a) => a.clone(),
        None => String::from_str("Unknown Artist"),
    };
    let album = match &sel.album {
        Some(a) => a.clone(),
        None => String::from_str("Unknown Album"),
    };
    (title, artist, album)
}

/// The first embedded lyric text across the blocks, if any: the last
/// resort of the lyric resolver.
pub fn embedded_lyrics(blocks: &Vec<TagBlock>) -> (r: Option<String>)
    ensures
        osv(r) == first_lyrics(blocks_of(blocks@)),
{
    let ghost bs = blocks_of(blocks@);
    let n = blocks.len();
    let mut i: usize = 0;
    proof {
        assert(bs.skip(0) =~= bs);
    }
    while i < n
        invariant
            i <= n,
            n == bs.len(),
            bs == blocks_of(blocks@),
            first_lyrics(bs) == first_lyrics(bs.skip(i as int)),
        decreases n - i,
    {
        proof {
            assert(bs.skip(i as int)[0] == bs[i as int]);
            assert(bs.skip(i as int).drop_first() =~= bs.skip(i + 1 as int));
        }
        match &blocks[i].lyrics {
            Some(l) => {
                return Some(l.clone());
            },
            None => {},
        }
        i += 1;
    }
    None
}

} // verus!
