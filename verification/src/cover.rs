//! Cover-art resolution for one track or album, and artist-image
//! backfill.
//!
//! Order of sources: nothing at all if the album already has a recorded
//! cover; else an embedded picture (the primary tag block first, else
//! the first block with a picture); else an external image file in the
//! audio file's directory — a prioritized name-prefix match, then a
//! stem-exact match against the audio file, then, if exactly one
//! image-like file exists there, that one by elimination.

use vstd::prelude::*;

verus! {

use crate::catalog::{
    paths_of, set_album_cover_v, album_id_index_of, artist_id_index_of, lemma_album_id_index,
    lemma_artist_id_index,
};
use crate::error::AppError;
use crate::fsmodel::{MemFs, FsFileV, fs_wf, fs_contains, fs_size, fs_put_v};
use crate::pathutil::{
    lower_of, spec_stem, spec_join, ascii_lowercase, ends_with_str, starts_with_str, file_stem,
};
use crate::sanitize::{sanitized_of, safe_component_of, sanitize_component, safe_component};
use crate::tags::{TagBlock, TagBlockV, blocks_of};

// ---------------------------------------------------------------------
// External cover files
// ---------------------------------------------------------------------

/// Whether the name, lowercased, looks like an image file.
pub open spec fn is_image_name(n: Seq<char>) -> bool {
    ||| ".jpg"@.is_suffix_of(lower_of(n))
    ||| ".jpeg"@.is_suffix_of(lower_of(n))
    ||| ".png"@.is_suffix_of(lower_of(n))
    ||| ".webp"@.is_suffix_of(lower_of(n))
}

/// The first image name starting (lowercased) with the given prefix,
/// or -1.
pub open spec fn first_prefixed_image(names: Seq<Seq<char>>, p: Seq<char>) -> int
    decreases names.len(),
{
    if names.len() == 0 {
        -1
    } else if is_image_name(names[0]) && p.is_prefix_of(lower_of(names[0])) {
        0
    } else {
        let r = first_prefixed_image(names.drop_first(), p);
        if r == -1 {
            -1
        } else {
            1 + r
        }
    }
}

/// The first image name whose stem, lowercased, equals the audio file's
/// stem, lowercased; or -1.
pub open spec fn first_stem_image(names: Seq<Seq<char>>, stem: Seq<char>) -> int
    decreases names.len(),
{
    if names.len() == 0 {
        -1
    } else if is_image_name(names[0]) && lower_of(spec_stem(names[0])) == lower_of(stem) {
        0
    } else {
        let r = first_stem_image(names.drop_first(), stem);
        if r == -1 {
            -1
        } else {
            1 + r
        }
    }
}

/// How many of the names look like images.
pub open spec fn count_images(names: Seq<Seq<char>>) -> int
    decreases names.len(),
{
    if names.len() == 0 {
        0
    } else {
        count_images(names.drop_last()) + (if is_image_name(names.last()) {
            1int
        } else {
            0int
        })
    }
}

/// The first image name, or -1.
pub open spec fn first_image(names: Seq<Seq<char>>) -> int
    decreases names.len(),
{
    if names.len() == 0 {
        -1
    } else if is_image_name(names[0]) {
        0
    } else {
        let r = first_image(names.drop_first());
        if r == -1 {
            -1
        } else {
            1 + r
        }
    }
}

/// The index of the external cover chosen among the directory's file
/// names, given the audio file's stem: prioritized prefixes in order,
/// then the stem-exact match, then a single image by elimination.
pub open spec fn pick_cover_v(names: Seq<Seq<char>>, stem: Seq<char>) -> Option<int> {
    if first_prefixed_image(names, "cover."@) >= 0 {
        Some(first_prefixed_image(names, "cover."@))
    } else if first_prefixed_image(names, "folder."@) >= 0 {
        Some(first_prefixed_image(names, "folder."@))
    } else if first_prefixed_image(names, "front."@) >= 0 {
        Some(first_prefixed_image(names, "front."@))
    } else if first_prefixed_image(names, "album."@) >= 0 {
        Some(first_prefixed_image(names, "album."@))
    } else if first_prefixed_image(names, "art."@) >= 0 {
        Some(first_prefixed_image(names, "art."@))
    } else if first_stem_image(names, stem) >= 0 {
        Some(first_stem_image(names, stem))
    } else if count_images(names) == 1 {
        Some(first_image(names))
    } else {
        None
    }
}

/// `first_prefixed_image` finds a prefixed image, and -1 means none.
pub proof fn lemma_first_prefixed_image(names: Seq<Seq<char>>, p: Seq<char>)
    ensures
        -1 <= first_prefixed_image(names, p) < names.len(),
        first_prefixed_image(names, p) >= 0 ==> is_image_name(names[first_prefixed_image(names, p)])
            && p.is_prefix_of(lower_of(names[first_prefixed_image(names, p)])),
    decreases names.len(),
{
    if names.len() > 0 && !(is_image_name(names[0]) && p.is_prefix_of(lower_of(names[0]))) {
        lemma_first_prefixed_image(names.drop_first(), p);
    }
}

/// `first_stem_image` finds a stem match, and -1 means none.
pub proof fn lemma_first_stem_image(names: Seq<Seq<char>>, stem: Seq<char>)
    ensures
        -1 <= first_stem_image(names, stem) < names.len(),
        first_stem_image(names, stem) >= 0 ==> is_image_name(names[first_stem_image(names, stem)]),
    decreases names.len(),
{
    if names.len() > 0 && !(is_image_name(names[0]) && lower_of(spec_stem(names[0])) == lower_of(
        stem,
    )) {
        lemma_first_stem_image(names.drop_first(), stem);
    }
}

/// `first_image` finds an image, and -1 means none.
pub proof fn lemma_first_image(names: Seq<Seq<char>>)
    ensures
        -1 <= first_image(names) < names.len(),
        first_image(names) >= 0 ==> is_image_name(names[first_image(names)]),
    decreases names.len(),
{
    if names.len() > 0 && !is_image_name(names[0]) {
        lemma_first_image(names.drop_first());
    }
}

/// Whether the name, lowercased, looks like an image file.
fn is_image(name: &String) -> (r: bool)
    ensures
        r == is_image_name(name@),
{
    let low = ascii_lowercase(name.as_str());
    let r = ends_with_str(low.as_str(), ".jpg") || ends_with_str(low.as_str(), ".jpeg")
        || ends_with_str(low.as_str(), ".png") || ends_with_str(low.as_str(), ".webp");
    proof {
        reveal_strlit(".jpg");
        reveal_strlit(".jpeg");
        reveal_strlit(".png");
        reveal_strlit(".webp");
    }
    r
}

/// The first image name starting (lowercased) with `p`, if any.
fn find_prefixed_image(names: &Vec<String>, p: &str) -> (r: Option<usize>)
    ensures
        match r {
            Some(i) => first_prefixed_image(paths_of(names@), p@) == i as int,
            None => first_prefixed_image(paths_of(names@), p@) == -1,
        },
{
    let ghost ns = paths_of(names@);
    let n = names.len();
    let mut i: usize = 0;
    proof {
        assert(ns.skip(0) =~= ns);
    }
    while i < n
        invariant
            i <= n,
            n == names@.len(),
            ns == paths_of(names@),
            first_prefixed_image(ns, p@) == (if first_prefixed_image(ns.skip(i as int), p@) == -1 {
                -1int
            } else {
                i + first_prefixed_image(ns.skip(i as int), p@)
            }),
        decreases n - i,
    {
        proof {
            assert(ns.skip(i as int)[0] == ns[i as int]);
            assert(ns.skip(i as int).drop_first() =~= ns.skip(i + 1 as int));
            lemma_first_prefixed_image(ns.skip(i + 1 as int), p@);
        }
        let name = &names[i];
        if is_image(name) {
            let low = ascii_lowercase(name.as_str());
            if starts_with_str(low.as_str(), p) {
                return Some(i);
            }
        }
        i += 1;
    }
    None
}

/// The first image name whose stem matches the audio stem, lowercased.
fn find_stem_image(names: &Vec<String>, stem: &String) -> (r: Option<usize>)
    ensures
        match r {
            Some(i) => first_stem_image(paths_of(names@), stem@) == i as int,
            None => first_stem_image(paths_of(names@), stem@) == -1,
        },
{
    let ghost ns = paths_of(names@);
    let n = names.len();
    let stem_low = ascii_lowercase(stem.as_str());
    let mut i: usize = 0;
    proof {
        assert(ns.skip(0) =~= ns);
    }
    while i < n
        invariant
            i <= n,
            n == names@.len(),
            ns == paths_of(names@),
            stem_low@ == lower_of(stem@),
            first_stem_image(ns, stem@) == (if first_stem_image(ns.skip(i as int), stem@) == -1 {
                -1int
            } else {
                i + first_stem_image(ns.skip(i as int), stem@)
            }),
        decreases n - i,
    {
        proof {
            assert(ns.skip(i as int)[0] == ns[i as int]);
            assert(ns.skip(i as int).drop_first() =~= ns.skip(i + 1 as int));
            lemma_first_stem_image(ns.skip(i + 1 as int), stem@);
        }
        let name = &names[i];
        if is_image(name) {
            let name_stem = file_stem(name.as_str());
            let name_stem_low = ascii_lowercase(name_stem.as_str());
            if name_stem_low == stem_low {
                return Some(i);
            }
        }
        i += 1;
    }
    None
}

/// Picks the external cover among the directory's file names for an
/// audio file with the given stem: the prioritized prefixes cover.,
/// folder., front., album., art. in that order; else a stem-exact
/// image; else, if the directory holds exactly one image, that one.
pub fn pick_external_cover(names: &Vec<String>, stem: &String) -> (r: Option<String>)
    ensures
        match r {
            Some(name) => {
                &&& pick_cover_v(paths_of(names@), stem@) is Some
                &&& 0 <= pick_cover_v(paths_of(names@), stem@)->Some_0 < names@.len()
                &&& name@ == paths_of(names@)[pick_cover_v(paths_of(names@), stem@)->Some_0]
            },
            None => pick_cover_v(paths_of(names@), stem@) is None,
        },
{
    let ghost ns = paths_of(names@);
    proof {
        reveal_strlit("cover.");
        reveal_strlit("folder.");
        reveal_strlit("front.");
        reveal_strlit("album.");
        reveal_strlit("art.");
        lemma_first_prefixed_image(ns, "cover."@);
        lemma_first_prefixed_image(ns, "folder."@);
        lemma_first_prefixed_image(ns, "front."@);
        lemma_first_prefixed_image(ns, "album."@);
        lemma_first_prefixed_image(ns, "art."@);
        lemma_first_stem_image(ns, stem@);
        lemma_first_image(ns);
    }
    if let Some(i) = find_prefixed_image(names, "cover.") {
        return Some(names[i].clone());
    }
    if let Some(i) = find_prefixed_image(names, "folder.") {
        return Some(names[i].clone());
    }
    if let Some(i) = find_prefixed_image(names, "front.") {
        return Some(names[i].clone());
    }
    if let Some(i) = find_prefixed_image(names, "album.") {
        return Some(names[i].clone());
    }
    if let Some(i) = find_prefixed_image(names, "art.") {
        return Some(names[i].clone());
    }
    if let Some(i) = find_stem_image(names, stem) {
        return Some(names[i].clone());
    }
    // by elimination: a single image in the directory
    let n = names.len();
    let mut image_count: usize = 0;
    let mut first_found: Option<usize> = None;
    let mut i: usize = 0;
    proof {
        assert(count_images(ns.take(0)) == 0);
        assert(ns.skip(0) =~= ns);
    }
    while i < n
        invariant
            i <= n,
            n == names@.len(),
            ns == paths_of(names@),
            image_count as int == count_images(ns.take(i as int)),
            image_count <= i,
            first_image(ns) == (if first_image(ns.skip(i as int)) == -1 || first_found is Some {
                (match first_found {
                    Some(j) => j as int,
                    None => -1int,
                })
            } else {
                i + first_image(ns.skip(i as int))
            }),
            first_found is Some ==> image_count >= 1,
            image_count >= 1 ==> first_found is Some,
        decreases n - i,
    {
        proof {
            assert(ns.take(i + 1 as int).drop_last() =~= ns.take(i as int));
            assert(ns.take(i + 1 as int).last() == ns[i as int]);
            assert(ns.skip(i as int)[0] == ns[i as int]);
            assert(ns.skip(i as int).drop_first() =~= ns.skip(i + 1 as int));
            lemma_first_image(ns.skip(i + 1 as int));
        }
        if is_image(&names[i]) {
            image_count = image_count + 1;
            if first_found.is_none() {
                first_found = Some(i);
            }
        }
        i += 1;
    }
    proof {
        assert(ns.take(n as int) =~= ns);
    }
    if image_count == 1 {
        match first_found {
            Some(j) => Some(names[j].clone()),
            None => None,
        }
    } else {
        None
    }
}

// ---------------------------------------------------------------------
// Embedded pictures
// ---------------------------------------------------------------------

/// The first block with an embedded picture, or -1.
pub open spec fn first_picture_block(blocks: Seq<TagBlockV>) -> int
    decreases blocks.len(),
{
    if blocks.len() == 0 {
        -1
    } else if blocks[0].has_picture {
        0
    } else {
        let r = first_picture_block(blocks.drop_first());
        if r == -1 {
            -1
        } else {
            1 + r
        }
    }
}

/// The block whose embedded picture is persisted: the primary block if
/// it has one, else the first block that has one.
pub open spec fn pick_picture_v(blocks: Seq<TagBlockV>, primary: Option<int>) -> Option<int> {
    if primary is Some && 0 <= primary->Some_0 < blocks.len() && blocks[primary->Some_0].has_picture {
        primary
    } else if first_picture_block(blocks) >= 0 {
        Some(first_picture_block(blocks))
    } else {
        None
    }
}

/// `first_picture_block` finds a picture, and -1 means none.
pub proof fn lemma_first_picture_block(blocks: Seq<TagBlockV>)
    ensures
        -1 <= first_picture_block(blocks) < blocks.len(),
        first_picture_block(blocks) >= 0 ==> blocks[first_picture_block(blocks)].has_picture,
    decreases blocks.len(),
{
    if blocks.len() > 0 && !blocks[0].has_picture {
        lemma_first_picture_block(blocks.drop_first());
    }
}

/// Chooses the tag block whose embedded picture is persisted: the
/// container's primary block first, else the first block carrying one.
pub fn pick_picture_block(blocks: &Vec<TagBlock>, primary: Option<usize>) -> (r: Option<usize>)
    ensures
        match r {
            Some(i) => {
                &&& pick_picture_v(
                    blocks_of(blocks@),
                    match primary {
                        Some(p) => Some(p as int),
                        None => None,
                    },
                ) == Some(i as int)
                &&& i < blocks@.len()
            },
            None => pick_picture_v(
                blocks_of(blocks@),
                match primary {
                    Some(p) => Some(p as int),
                    None => None,
                },
            ) is None,
        },
{
    let ghost bs = blocks_of(blocks@);
    if let Some(p) = primary {
        if p < blocks.len() && blocks[p].has_picture {
            return Some(p);
        }
    }
    proof {
        lemma_first_picture_block(bs);
        assert(bs.skip(0) =~= bs);
    }
    let n = blocks.len();
    let mut i: usize = 0;
    while i < n
        invariant
            i <= n,
            n == blocks@.len(),
            bs == blocks_of(blocks@),
            match primary {
                Some(p) => !(p < blocks@.len() && bs[p as int].has_picture),
                None => true,
            },
            first_picture_block(bs) == (if first_picture_block(bs.skip(i as int)) == -1 {
                -1int
            } else {
                i + first_picture_block(bs.skip(i as int))
            }),
        decreases n - i,
    {
        proof {
            assert(bs.skip(i as int)[0] == bs[i as int]);
            assert(bs.skip(i as int).drop_first() =~= bs.skip(i + 1 as int));
            lemma_first_picture_block(bs.skip(i + 1 as int));
        }
        if blocks[i].has_picture {
            proof {
                assert(first_picture_block(bs.skip(i as int)) == 0);
                assert(first_picture_block(bs) == i as int);
            }
            return Some(i);
        }
        i += 1;
    }
    None
}

// ---------------------------------------------------------------------
// Destination paths and artist avatars
// ---------------------------------------------------------------------

/// The canonical album-cover path:
/// `{root}/{sanitize(artist)}/{sanitize(album)}/cover.{ext}`.
pub fn cover_dest_path(root: &str, artist: &str, album: &str, ext: &str) -> (r: String)
    ensures
        r@ == spec_join(
            spec_join(spec_join(root@, sanitized_of(artist@)), sanitized_of(album@)),
            "cover."@ + ext@,
        ),
{
    let safe_artist = sanitize_component(artist);
    let safe_album = sanitize_component(album);
    let dir = crate::pathutil::join(
        crate::pathutil::join(root, safe_artist.as_str()).as_str(),
        safe_album.as_str(),
    );
    let mut name = String::from_str("cover.");
    name.append(ext);
    proof {
        reveal_strlit("cover.");
    }
    crate::pathutil::join(dir.as_str(), name.as_str())
}

/// The album-cover path used when an embedded picture is written out:
/// the same shape, but with the light character-map sanitizer.
pub fn embedded_cover_dest(root: &str, artist: &str, album: &str, ext: &str) -> (r: String)
    ensures
        r@ == spec_join(
            spec_join(spec_join(root@, safe_component_of(artist@)), safe_component_of(album@)),
            "cover."@ + ext@,
        ),
{
    let safe_artist = safe_component(artist);
    let safe_album = safe_component(album);
    let dir = crate::pathutil::join(
        crate::pathutil::join(root, safe_artist.as_str()).as_str(),
        safe_album.as_str(),
    );
    let mut name = String::from_str("cover.");
    name.append(ext);
    proof {
        reveal_strlit("cover.");
    }
    crate::pathutil::join(dir.as_str(), name.as_str())
}

/// The stored extension of an embedded picture, from its MIME type:
/// png pictures keep their type, everything else (the original
/// containers carry jpeg here) is stored as jpg.
pub open spec fn picture_ext_v(mime: Option<Seq<char>>) -> Seq<char> {
    match mime {
        Some(m) => if m == "image/png"@ {
            "png"@
        } else {
            "jpg"@
        },
        None => "jpg"@,
    }
}

/// Derives the stored extension of an embedded picture from its MIME
/// type.
pub fn embedded_picture_ext(mime: Option<&String>) -> (r: String)
    ensures
        r@ == picture_ext_v(
            match mime {
                Some(m) => Some(m@),
                None => None,
            },
        ),
{
    proof {
        reveal_strlit("image/png");
        reveal_strlit("png");
        reveal_strlit("jpg");
    }
    match mime {
        Some(m) => {
            if *m == String::from_str("image/png") {
                String::from_str("png")
            } else {
                String::from_str("jpg")
            }
        },
        None => String::from_str("jpg"),
    }
}

/// What persisting one embedded picture during a scan does: nothing at
/// all for an unknown album or artist; otherwise the album row records
/// the root-relative canonical reference, and the picture bytes are
/// written to the canonical path only when no non-empty file already
/// sits there — an existing non-empty cover file is never overwritten.
pub open spec fn save_cover_v(
    s: Seq<FsFileV>,
    c: crate::catalog::CatalogV,
    album_id: u64,
    ext: Seq<char>,
    root: Seq<char>,
    pic_content: u64,
    pic_size: u64,
) -> (Seq<FsFileV>, crate::catalog::CatalogV, bool) {
    let bi = album_id_index_of(c.albums, album_id);
    if bi < 0 {
        (s, c, false)
    } else {
        let ai = artist_id_index_of(c.artists, c.albums[bi].artist_id);
        if ai < 0 {
            (s, c, false)
        } else {
            let dest = spec_join(
                spec_join(
                    spec_join(root, safe_component_of(c.artists[ai].name)),
                    safe_component_of(c.albums[bi].title),
                ),
                "cover."@ + ext,
            );
            let rel = crate::pathutil::spec_strip_root(dest, root);
            let s2 = if fs_contains(s, dest) && fs_size(s, dest) > 0 {
                s
            } else {
                fs_put_v(s, dest, pic_content, pic_size)
            };
            (s2, set_album_cover_v(c, album_id, rel), true)
        }
    }
}

/// Persists one embedded picture for an album during a scan: the bytes
/// (their identity and size given) go to the canonical cover path — but
/// only if no non-empty file already exists there, sparing the write —
/// and the album row records the root-relative reference either way. A
/// missing album or artist row is a store error and changes nothing.
pub fn save_cover_step(
    fs: &mut MemFs,
    catalog: &mut crate::catalog::Catalog,
    album_id: u64,
    mime: Option<&String>,
    root: &String,
    pic_content: u64,
    pic_size: u64,
) -> (r: Result<(), AppError>)
    requires
        fs_wf(old(fs)@),
        old(catalog).wf(),
    ensures
        fs_wf(final(fs)@),
        final(catalog).wf(),
        ({
            let ext = picture_ext_v(
                match mime {
                    Some(m) => Some(m@),
                    None => None,
                },
            );
            let step = save_cover_v(
                old(fs)@,
                old(catalog)@,
                album_id,
                ext,
                root@,
                pic_content,
                pic_size,
            );
            &&& final(fs)@ == step.0
            &&& final(catalog)@ == step.1
            &&& (r is Ok <==> step.2)
            &&& (r is Err ==> r->Err_0 is Database)
        }),
{
    proof {
        lemma_album_id_index(catalog@.albums, album_id);
    }
    let (album_title, album_artist_id) = match catalog.album_by_id(album_id) {
        Some(a) => (a.title.clone(), a.artist_id),
        None => {
            return Err(AppError::Database(String::from_str("album row not found")));
        },
    };
    proof {
        lemma_artist_id_index(catalog@.artists, album_artist_id);
    }
    let artist_name = match catalog.artist_by_id(album_artist_id) {
        Some(a) => a.name.clone(),
        None => {
            return Err(AppError::Database(String::from_str("artist row not found")));
        },
    };
    let ext = embedded_picture_ext(mime);
    let dest = embedded_cover_dest(
        root.as_str(),
        artist_name.as_str(),
        album_title.as_str(),
        ext.as_str(),
    );
    let rel = crate::pathutil::strip_root(dest.as_str(), root.as_str());
    let occupied = match fs.size_at(&dest) {
        Some(z) => z > 0,
        None => false,
    };
    if !occupied {
        fs.put(&dest, pic_content, pic_size);
    }
    catalog.set_album_cover(album_id, &rel);
    Ok(())
}

/// The canonical artist-image path: `{root}/{sanitize(artist)}/folder.{ext}`.
pub fn avatar_dest_path(root: &str, artist: &str, ext: &str) -> (r: String)
    ensures
        r@ == spec_join(spec_join(root@, sanitized_of(artist@)), "folder."@ + ext@),
{
    let safe_artist = sanitize_component(artist);
    let dir = crate::pathutil::join(root, safe_artist.as_str());
    let mut name = String::from_str("folder.");
    name.append(ext);
    proof {
        reveal_strlit("folder.");
    }
    crate::pathutil::join(dir.as_str(), name.as_str())
}

/// The conventional artist-avatar file names, probed in this order in
/// each directory up to two levels above the audio file.
pub open spec fn avatar_pattern_v(k: int) -> Seq<char> {
    if k == 0 {
        "folder.jpg"@
    } else if k == 1 {
        "folder.png"@
    } else if k == 2 {
        "artist.jpg"@
    } else if k == 3 {
        "artist.png"@
    } else if k == 4 {
        "logo.jpg"@
    } else {
        "logo.png"@
    }
}

/// The first conventional avatar name present among the directory's
/// file names, in pattern order.
pub open spec fn pick_avatar_v(names: Seq<Seq<char>>) -> Option<Seq<char>> {
    if names.contains(avatar_pattern_v(0)) {
        Some(avatar_pattern_v(0))
    } else if names.contains(avatar_pattern_v(1)) {
        Some(avatar_pattern_v(1))
    } else if names.contains(avatar_pattern_v(2)) {
        Some(avatar_pattern_v(2))
    } else if names.contains(avatar_pattern_v(3)) {
        Some(avatar_pattern_v(3))
    } else if names.contains(avatar_pattern_v(4)) {
        Some(avatar_pattern_v(4))
    } else if names.contains(avatar_pattern_v(5)) {
        Some(avatar_pattern_v(5))
    } else {
        None
    }
}

/// What backfilling one artist's image from nearby directories does:
/// nothing if the artist is unknown or already has a non-empty image;
/// else the first conventional avatar name found in the audio file's
/// directory, then one level up, is recorded as a root-relative
/// reference (unless that reference would be empty).
pub open spec fn backfill_artist_image_v(
    c: crate::catalog::CatalogV,
    artist_id: u64,
    dir1: Seq<char>,
    names1: Seq<Seq<char>>,
    dir2: Seq<char>,
    names2: Seq<Seq<char>>,
    root: Seq<char>,
) -> crate::catalog::CatalogV {
    let ai = crate::catalog::artist_id_index_of(c.artists, artist_id);
    if ai < 0 {
        c
    } else if !(c.artists[ai].image is None || c.artists[ai].image == Some(Seq::<char>::empty())) {
        c
    } else {
        match pick_avatar_v(names1) {
            Some(n) => {
                let rel = crate::pathutil::spec_strip_root(spec_join(dir1, n), root);
                if rel.len() > 0 {
                    crate::catalog::set_artist_image_v(c, artist_id, rel)
                } else {
                    c
                }
            },
            None => match pick_avatar_v(names2) {
                Some(n) => {
                    let rel = crate::pathutil::spec_strip_root(spec_join(dir2, n), root);
                    if rel.len() > 0 {
                        crate::catalog::set_artist_image_v(c, artist_id, rel)
                    } else {
                        c
                    }
                },
                None => c,
            },
        }
    }
}

/// Backfills a still-unset artist image from conventional avatar file
/// names found beside the audio file or one directory above it: the
/// secondary pass of cover resolution. `dir1`/`names1` list the audio
/// file's directory, `dir2`/`names2` its parent.
pub fn backfill_artist_image(
    catalog: &mut crate::catalog::Catalog,
    artist_id: u64,
    dir1: &String,
    names1: &Vec<String>,
    dir2: &String,
    names2: &Vec<String>,
    root: &String,
)
    requires
        old(catalog).wf(),
    ensures
        final(catalog).wf(),
        final(catalog)@ == backfill_artist_image_v(
            old(catalog)@,
            artist_id,
            dir1@,
            paths_of(names1@),
            dir2@,
            paths_of(names2@),
            root@,
        ),
{
    proof {
        crate::catalog::lemma_artist_id_index(catalog@.artists, artist_id);
    }
    let has_image = match catalog.artist_by_id(artist_id) {
        Some(a) => match &a.image {
            Some(s) => s.unicode_len() > 0,
            None => false,
        },
        None => {
            return ;
        },
    };
    proof {
        let ai = crate::catalog::artist_id_index_of(catalog@.artists, artist_id);
        match catalog@.artists[ai].image {
            Some(img) => {
                if img.len() == 0 {
                    assert(img =~= Seq::<char>::empty());
                }
            },
            None => {},
        }
    }
    if has_image {
        return ;
    }
    if let Some(n) = pick_avatar(names1) {
        let rel = crate::pathutil::strip_root(
            crate::pathutil::join(dir1.as_str(), n.as_str()).as_str(),
            root.as_str(),
        );
        if rel.unicode_len() > 0 {
            catalog.set_artist_image(artist_id, &rel);
        }
        return ;
    }
    if let Some(n) = pick_avatar(names2) {
        let rel = crate::pathutil::strip_root(
            crate::pathutil::join(dir2.as_str(), n.as_str()).as_str(),
            root.as_str(),
        );
        if rel.unicode_len() > 0 {
            catalog.set_artist_image(artist_id, &rel);
        }
        return ;
    }
}

/// Probes the directory's file names for a conventional artist-avatar
/// name, used to backfill a still-unset artist image.
pub fn pick_avatar(names: &Vec<String>) -> (r: Option<String>)
    ensures
        match r {
            Some(n) => pick_avatar_v(paths_of(names@)) == Some(n@),
            None => pick_avatar_v(paths_of(names@)) is None,
        },
{
    let p0 = String::from_str("folder.jpg");
    let p1 = String::from_str("folder.png");
    let p2 = String::from_str("artist.jpg");
    let p3 = String::from_str("artist.png");
    let p4 = String::from_str("logo.jpg");
    let p5 = String::from_str("logo.png");
    if crate::catalog::contains_path(names, &p0) {
        return Some(p0);
    }
    if crate::catalog::contains_path(names, &p1) {
        return Some(p1);
    }
    if crate::catalog::contains_path(names, &p2) {
        return Some(p2);
    }
    if crate::catalog::contains_path(names, &p3) {
        return Some(p3);
    }
    if crate::catalog::contains_path(names, &p4) {
        return Some(p4);
    }
    if crate::catalog::contains_path(names, &p5) {
        return Some(p5);
    }
    None
}

} // verus!
