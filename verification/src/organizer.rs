//! The organizer: reorganizes the on-disk layout to the canonical
//! taxonomy, carries sidecar files along, recovers orphaned internal
//! asset caches and loose lyric files, and keeps the catalog's paths in
//! step — all under the same structural-operation lock as the scanner.

use vstd::prelude::*;

verus! {

use crate::catalog::{
    Catalog, CatalogV, TrackV, move_track_path_v, set_artist_image_v, set_album_cover_v,
    artist_id_index_of, album_id_index_of, lemma_artist_id_index, lemma_album_id_index, osv,
    paths_of,
};
use crate::error::AppError;
use crate::fsmodel::{MemFs, FsFileV, fs_wf, fs_contains, fs_move_v, fs_remove_v};
use crate::lock::StructuralLock;
use crate::pathutil::{
    spec_with_extension, spec_join, spec_parent, spec_file_name, spec_extension, spec_stem,
    spec_first_token, lower_of, contains_sub, with_extension, join, parent, file_name, extension,
    file_stem, first_token, contains_ci,
};
use crate::sanitize::{sanitized_of, sanitize_component};
use crate::status::ScanStatus;
use crate::tags::{
    TagBlock, TagBlockV, blocks_of, first_title, first_artist, first_album, select_fields,
};

// ---------------------------------------------------------------------
// The canonical destination
// ---------------------------------------------------------------------

/// The extension under which an audio file is organized: its own, or
/// the lossless default where it has none.
pub open spec fn organize_ext_v(path: Seq<char>) -> Seq<char> {
    match spec_extension(path) {
        Some(e) => e,
        None => "flac"@,
    }
}

/// The canonical destination of an audio file:
/// `{root}/{sanitize(artist)}/{sanitize(album)}/{sanitize(title)}.{ext}`
/// when all three tags resolved to non-empty text, else the unsorted
/// bucket `{root}/Unsorted/{file name}`.
pub open spec fn organize_dest_v(
    root: Seq<char>,
    title: Option<Seq<char>>,
    artist: Option<Seq<char>>,
    album: Option<Seq<char>>,
    path: Seq<char>,
) -> Seq<char> {
    if title is Some && artist is Some && album is Some {
        spec_join(
            spec_join(spec_join(root, sanitized_of(artist->Some_0)), sanitized_of(album->Some_0)),
            sanitized_of(title->Some_0) + seq!['.'] + organize_ext_v(path),
        )
    } else {
        spec_join(spec_join(root, "Unsorted"@), spec_file_name(path))
    }
}

/// Computes the canonical destination for an audio file from its
/// selected tag fields.
pub fn organize_dest(root: &str, sel: &crate::tags::SelectedFields, path: &String) -> (r: String)
    ensures
        r@ == organize_dest_v(root@, osv(sel.title), osv(sel.artist), osv(sel.album), path@),
{
    match (&sel.title, &sel.artist, &sel.album) {
        (Some(title), Some(artist), Some(album)) => {
            let ext = match extension(path.as_str()) {
                Some(e) => e,
                None => String::from_str("flac"),
            };
            let safe_artist = sanitize_component(artist.as_str());
            let safe_album = sanitize_component(album.as_str());
            let mut name = sanitize_component(title.as_str());
            name.append(".");
            proof {
                reveal_strlit(".");
                reveal_strlit("flac");
                assert(name@ =~= sanitized_of(title@) + seq!['.']);
            }
            name.append(ext.as_str());
            let dir = join(join(root, safe_artist.as_str()).as_str(), safe_album.as_str());
            proof {
                assert(name@ =~= sanitized_of(title@) + seq!['.'] + organize_ext_v(path@));
            }
            join(dir.as_str(), name.as_str())
        },
        _ => {
            let bucket = join(root, "Unsorted");
            proof {
                reveal_strlit("Unsorted");
            }
            let fname = file_name(path.as_str());
            join(bucket.as_str(), fname.as_str())
        },
    }
}

// ---------------------------------------------------------------------
// Sidecar propagation
// ---------------------------------------------------------------------

/// One conditional sidecar move: performed only when the source exists
/// and the destination is still free.
pub open spec fn sidecar_step_v(s: Seq<FsFileV>, src: Seq<char>, dest: Seq<char>) -> Seq<FsFileV> {
    if fs_contains(s, src) && !fs_contains(s, dest) && src != dest {
        fs_move_v(s, src, dest)
    } else {
        s
    }
}

/// The six same-stem companion extensions, moved alongside the track.
pub open spec fn ext_sidecars_v(s: Seq<FsFileV>, src: Seq<char>, dest: Seq<char>) -> Seq<FsFileV> {
    let s1 = sidecar_step_v(s, spec_with_extension(src, "lrc"@), spec_with_extension(dest, "lrc"@));
    let s2 = sidecar_step_v(
        s1,
        spec_with_extension(src, "jpg"@),
        spec_with_extension(dest, "jpg"@),
    );
    let s3 = sidecar_step_v(
        s2,
        spec_with_extension(src, "png"@),
        spec_with_extension(dest, "png"@),
    );
    let s4 = sidecar_step_v(
        s3,
        spec_with_extension(src, "jpeg"@),
        spec_with_extension(dest, "jpeg"@),
    );
    let s5 = sidecar_step_v(
        s4,
        spec_with_extension(src, "txt"@),
        spec_with_extension(dest, "txt"@),
    );
    sidecar_step_v(s5, spec_with_extension(src, "pdf"@), spec_with_extension(dest, "pdf"@))
}

/// One directory-scoped album-art move between the two directories.
pub open spec fn asset_step_v(s: Seq<FsFileV>, sp: Seq<char>, dp: Seq<char>, name: Seq<char>) -> Seq<
    FsFileV,
> {
    sidecar_step_v(s, spec_join(sp, name), spec_join(dp, name))
}

/// The nine directory-scoped album-art names, moved alongside.
pub open spec fn asset_sidecars_v(s: Seq<FsFileV>, sp: Seq<char>, dp: Seq<char>) -> Seq<FsFileV> {
    let s1 = asset_step_v(s, sp, dp, "cover.jpg"@);
    let s2 = asset_step_v(s1, sp, dp, "cover.png"@);
    let s3 = asset_step_v(s2, sp, dp, "cover.jpeg"@);
    let s4 = asset_step_v(s3, sp, dp, "folder.jpg"@);
    let s5 = asset_step_v(s4, sp, dp, "folder.png"@);
    let s6 = asset_step_v(s5, sp, dp, "front.jpg"@);
    let s7 = asset_step_v(s6, sp, dp, "front.png"@);
    let s8 = asset_step_v(s7, sp, dp, "album.jpg"@);
    asset_step_v(s8, sp, dp, "album.png"@)
}

/// Everything `move_sidecars` does: the same-stem companions, then the
/// album-art names between the two parent directories.
pub open spec fn move_sidecars_v(s: Seq<FsFileV>, src: Seq<char>, dest: Seq<char>, sp: Seq<char>, dp: Seq<char>) -> Seq<
    FsFileV,
> {
    asset_sidecars_v(ext_sidecars_v(s, src, dest), sp, dp)
}

/// One conditional sidecar move.
fn sidecar_step(fs: &mut MemFs, src: &String, dest: &String)
    requires
        fs_wf(old(fs)@),
    ensures
        fs_wf(final(fs)@),
        final(fs)@ == sidecar_step_v(old(fs)@, src@, dest@),
{
    if fs.file_exists(src) && !fs.file_exists(dest) && !(*src == *dest) {
        let _ = fs.move_file(src, dest);
    }
}

/// Moves the sidecars of a just-moved (or in-place) track: same-stem
/// companion files (lrc, jpg, png, jpeg, txt, pdf), then the
/// directory-scoped album-art names (cover.*, folder.*, front.*,
/// album.*), each only when present at the source and absent at the
/// destination.
pub fn move_sidecars(fs: &mut MemFs, src: &String, dest: &String) -> (r: Result<(), AppError>)
    requires
        fs_wf(old(fs)@),
    ensures
        fs_wf(final(fs)@),
        spec_parent(src@) is Some && spec_parent(dest@) is Some ==> r is Ok && final(fs)@
            == move_sidecars_v(
            old(fs)@,
            src@,
            dest@,
            spec_parent(src@)->Some_0,
            spec_parent(dest@)->Some_0,
        ),
        !(spec_parent(src@) is Some && spec_parent(dest@) is Some) ==> r is Err && r->Err_0
            is Internal && *final(fs) == *old(fs),
{
    let sp = match parent(src.as_str()) {
        Some(p) => p,
        None => {
            return Err(AppError::Internal(String::from_str("move source has no parent directory")));
        },
    };
    let dp = match parent(dest.as_str()) {
        Some(p) => p,
        None => {
            return Err(
                AppError::Internal(String::from_str("move destination has no parent directory")),
            );
        },
    };
    sidecar_step(fs, &with_extension(src.as_str(), "lrc"), &with_extension(dest.as_str(), "lrc"));
    sidecar_step(fs, &with_extension(src.as_str(), "jpg"), &with_extension(dest.as_str(), "jpg"));
    sidecar_step(fs, &with_extension(src.as_str(), "png"), &with_extension(dest.as_str(), "png"));
    sidecar_step(fs, &with_extension(src.as_str(), "jpeg"), &with_extension(dest.as_str(), "jpeg"));
    sidecar_step(fs, &with_extension(src.as_str(), "txt"), &with_extension(dest.as_str(), "txt"));
    sidecar_step(fs, &with_extension(src.as_str(), "pdf"), &with_extension(dest.as_str(), "pdf"));
    sidecar_step(fs, &join(sp.as_str(), "cover.jpg"), &join(dp.as_str(), "cover.jpg"));
    sidecar_step(fs, &join(sp.as_str(), "cover.png"), &join(dp.as_str(), "cover.png"));
    sidecar_step(fs, &join(sp.as_str(), "cover.jpeg"), &join(dp.as_str(), "cover.jpeg"));
    sidecar_step(fs, &join(sp.as_str(), "folder.jpg"), &join(dp.as_str(), "folder.jpg"));
    sidecar_step(fs, &join(sp.as_str(), "folder.png"), &join(dp.as_str(), "folder.png"));
    sidecar_step(fs, &join(sp.as_str(), "front.jpg"), &join(dp.as_str(), "front.jpg"));
    sidecar_step(fs, &join(sp.as_str(), "front.png"), &join(dp.as_str(), "front.png"));
    sidecar_step(fs, &join(sp.as_str(), "album.jpg"), &join(dp.as_str(), "album.jpg"));
    sidecar_step(fs, &join(sp.as_str(), "album.png"), &join(dp.as_str(), "album.png"));
    Ok(())
}

// ---------------------------------------------------------------------
// One file of the organize pass
// ---------------------------------------------------------------------

/// What one organize step does to the filesystem and the catalog, and
/// whether it succeeds: a file already in place still gets its sidecars
/// relocated; a collision at the destination leaves the source
/// untouched, without error; otherwise the file moves (with sidecars)
/// and the catalog's path column follows.
pub open spec fn organize_file_v(
    s: Seq<FsFileV>,
    c: CatalogV,
    path: Seq<char>,
    blocks: Seq<TagBlockV>,
    root: Seq<char>,
) -> (Seq<FsFileV>, CatalogV, bool) {
    let dest = organize_dest_v(
        root,
        first_title(blocks),
        first_artist(blocks),
        first_album(blocks),
        path,
    );
    if spec_parent(path) is None || spec_parent(dest) is None {
        (s, c, false)
    } else if dest == path {
        (
            move_sidecars_v(s, path, dest, spec_parent(path)->Some_0, spec_parent(dest)->Some_0),
            c,
            true,
        )
    } else if fs_contains(s, dest) {
        (s, c, true)
    } else if !fs_contains(s, path) {
        (s, c, false)
    } else {
        let s2 = move_sidecars_v(
            fs_move_v(s, path, dest),
            path,
            dest,
            spec_parent(path)->Some_0,
            spec_parent(dest)->Some_0,
        );
        let mt = move_track_path_v(c, path, dest);
        (s2, mt.0, mt.1)
    }
}

/// Organizes one audio file: recomputes its canonical destination from
/// its tag blocks, moves it (atomically, with sidecars) unless it is
/// already in place or the destination is occupied, and updates the
/// catalog's path column by matching the old path.
pub fn organize_file(
    fs: &mut MemFs,
    catalog: &mut Catalog,
    path: &String,
    blocks: &Vec<TagBlock>,
    root: &str,
) -> (r: Result<(), AppError>)
    requires
        fs_wf(old(fs)@),
        old(catalog).wf(),
    ensures
        fs_wf(final(fs)@),
        final(catalog).wf(),
        final(fs)@ == organize_file_v(old(fs)@, old(catalog)@, path@, blocks_of(blocks@), root@).0,
        final(catalog)@ == organize_file_v(
            old(fs)@,
            old(catalog)@,
            path@,
            blocks_of(blocks@),
            root@,
        ).1,
        r is Ok <==> organize_file_v(old(fs)@, old(catalog)@, path@, blocks_of(blocks@), root@).2,
{
    let sel = select_fields(blocks);
    let dest = organize_dest(root, &sel, path);
    if parent(path.as_str()).is_none() || parent(dest.as_str()).is_none() {
        return Err(AppError::Internal(String::from_str("path has no parent directory")));
    }
    if dest == *path {
        // already in place: still relocate the sidecars (idempotent)
        return move_sidecars(fs, path, &dest);
    }
    if fs.file_exists(&dest) {
        // collision: leave the source untouched, no overwrite, no error
        return Ok(());
    }
    if !fs.file_exists(path) {
        return Err(AppError::Io(String::from_str("file to organize does not exist")));
    }
    let moved = fs.move_file(path, &dest);
    proof {
        assert(moved is Ok);
    }
    let side = move_sidecars(fs, path, &dest);
    proof {
        assert(side is Ok);
    }
    catalog.update_track_path(path, &dest)
}

// ---------------------------------------------------------------------
// Numeric asset keys
// ---------------------------------------------------------------------

/// Whether `c` is a decimal digit.
pub open spec fn is_digit(c: char) -> bool {
    48 <= c as int <= 57
}

/// The numeric value of a digit.
pub open spec fn digit_val(c: char) -> int {
    c as int - 48
}

/// Whether the whole sequence is decimal digits.
pub open spec fn all_digits(s: Seq<char>) -> bool {
    forall|i: int| 0 <= i < s.len() ==> is_digit(#[trigger] s[i])
}

/// The number the digit sequence denotes.
pub open spec fn digits_val(s: Seq<char>) -> int
    decreases s.len(),
{
    if s.len() == 0 {
        0
    } else {
        digits_val(s.drop_last()) * 10 + digit_val(s.last())
    }
}

/// What `parse_id` accepts: one to nineteen decimal digits (every such
/// number fits the id type).
pub open spec fn parse_id_v(s: Seq<char>) -> Option<u64> {
    if 1 <= s.len() <= 19 && all_digits(s) {
        Some(digits_val(s) as u64)
    } else {
        None
    }
}

/// Ten to the `k`.
pub open spec fn pow10(k: int) -> int
    decreases k,
{
    if k <= 0 {
        1
    } else {
        10 * pow10(k - 1)
    }
}

/// A `k`-digit number is below ten to the `k`.
proof fn lemma_digits_bound(s: Seq<char>)
    requires
        all_digits(s),
    ensures
        0 <= digits_val(s) < pow10(s.len() as int),
    decreases s.len(),
{
    if s.len() > 0 {
        assert(all_digits(s.drop_last())) by {
            assert(forall|i: int|
                0 <= i < s.len() - 1 ==> s.drop_last()[i] == (#[trigger] s[i]) && is_digit(s[i]));
        }
        lemma_digits_bound(s.drop_last());
        assert(is_digit(s.last()));
    }
}

/// The code point of a character, as an unsigned number.
fn char_code(c: char) -> (r: u32)
    ensures
        r == c as int,
{
    c as u32
}

/// Parses a decimal entity id out of an asset file name fragment.
pub fn parse_id(s: &String) -> (r: Option<u64>)
    ensures
        match r {
            Some(v) => parse_id_v(s@) == Some(v),
            None => parse_id_v(s@) is None,
        },
{
    let v = crate::pathutil::chars_of(s.as_str());
    let n = v.len();
    if n == 0 || n > 19 {
        return None;
    }
    let mut acc: u64 = 0;
    let mut i: usize = 0;
    while i < n
        invariant
            i <= n,
            1 <= n <= 19,
            n == v@.len(),
            v@ == s@,
            forall|j: int| 0 <= j < i ==> is_digit(#[trigger] s@[j]),
            acc as int == digits_val(s@.take(i as int)),
            (acc as int) < pow10(i as int),
        decreases n - i,
    {
        let c = v[i];
        let code = char_code(c);
        if !(48 <= code && code <= 57) {
            proof {
                assert(!is_digit(s@[i as int]));
                assert(parse_id_v(s@) is None);
            }
            return None;
        }
        proof {
            assert(c == s@[i as int]);
            assert(is_digit(s@[i as int]));
            assert(s@.take(i + 1 as int).drop_last() =~= s@.take(i as int));
            assert(s@.take(i + 1 as int).last() == s@[i as int]);
            assert(digits_val(s@.take(i + 1 as int)) == digits_val(s@.take(i as int)) * 10
                + digit_val(s@[i as int]));
            assert(pow10(i + 1 as int) == 10 * pow10(i as int));
            lemma_pow10_bound();
            lemma_pow10_mono(i + 1 as int, 19);
        }
        let d = (code - 48) as u64;
        proof {
            assert(d as int == digit_val(s@[i as int]));
        }
        acc = acc * 10 + d;
        i += 1;
    }
    proof {
        assert(s@.take(n as int) =~= s@);
        assert(all_digits(s@));
    }
    Some(acc)
}

/// Ten to the nineteen fits the id type.
proof fn lemma_pow10_bound()
    ensures
        pow10(19) < u64::MAX,
{
    reveal_with_fuel(pow10, 20);
    assert(pow10(19) == 10000000000000000000);
}

/// `pow10` is monotone.
proof fn lemma_pow10_mono(a: int, b: int)
    requires
        0 <= a <= b,
    ensures
        pow10(a) <= pow10(b),
    decreases b - a,
{
    if a < b {
        lemma_pow10_mono(a, b - 1);
        assert(pow10(b) == 10 * pow10(b - 1));
        assert(pow10(b - 1) >= 1) by {
            lemma_pow10_pos(b - 1);
        }
    }
}

/// `pow10` is positive.
proof fn lemma_pow10_pos(k: int)
    ensures
        pow10(k) >= 1,
    decreases k,
{
    if k > 0 {
        lemma_pow10_pos(k - 1);
    }
}

// ---------------------------------------------------------------------
// Loose lyric recovery
// ---------------------------------------------------------------------

/// Whether a track matches the loose-lyric search keyword: the keyword
/// occurs, case-insensitively, in its title or its path.
pub open spec fn track_matches_kw(t: TrackV, kw: Seq<char>) -> bool {
    contains_sub(lower_of(t.title), lower_of(kw)) || contains_sub(lower_of(t.path), lower_of(kw))
}

/// The first track matching the keyword, or -1.
pub open spec fn fuzzy_track_index_of(ts: Seq<TrackV>, kw: Seq<char>) -> int
    decreases ts.len(),
{
    if ts.len() == 0 {
        -1
    } else if track_matches_kw(ts[0], kw) {
        0
    } else {
        let r = fuzzy_track_index_of(ts.drop_first(), kw);
        if r == -1 {
            -1
        } else {
            1 + r
        }
    }
}

/// `fuzzy_track_index_of` finds the first match, and -1 means none.
pub proof fn lemma_fuzzy_track_index(ts: Seq<TrackV>, kw: Seq<char>)
    ensures
        -1 <= fuzzy_track_index_of(ts, kw) < ts.len(),
        fuzzy_track_index_of(ts, kw) >= 0 ==> track_matches_kw(
            ts[fuzzy_track_index_of(ts, kw)],
            kw,
        ),
    decreases ts.len(),
{
    if ts.len() > 0 && !track_matches_kw(ts[0], kw) {
        lemma_fuzzy_track_index(ts.drop_first(), kw);
    }
}

/// The first track whose title or path holds the keyword,
/// case-insensitively; the loose-lyric relocation target.
pub fn find_track_fuzzy(catalog: &Catalog, kw: &String) -> (r: Option<String>)
    ensures
        match r {
            Some(p) => fuzzy_track_index_of(catalog@.tracks, kw@) >= 0 && p@
                == catalog@.tracks[fuzzy_track_index_of(catalog@.tracks, kw@)].path,
            None => fuzzy_track_index_of(catalog@.tracks, kw@) == -1,
        },
{
    let ghost ts = catalog@.tracks;
    let n = catalog.tracks.len();
    let mut i: usize = 0;
    proof {
        assert(ts.skip(0) =~= ts);
    }
    while i < n
        invariant
            i <= n,
            n == catalog.tracks@.len(),
            ts == catalog@.tracks,
            fuzzy_track_index_of(ts, kw@) == (if fuzzy_track_index_of(ts.skip(i as int), kw@)
                == -1 {
                -1int
            } else {
                i + fuzzy_track_index_of(ts.skip(i as int), kw@)
            }),
        decreases n - i,
    {
        proof {
            assert(ts.skip(i as int)[0] == ts[i as int]);
            assert(ts.skip(i as int).drop_first() =~= ts.skip(i + 1 as int));
            lemma_fuzzy_track_index(ts.skip(i + 1 as int), kw@);
        }
        let title_hit = contains_ci(catalog.tracks[i].title.as_str(), kw.as_str());
        let path_hit = contains_ci(catalog.tracks[i].path.as_str(), kw.as_str());
        if title_hit || path_hit {
            return Some(catalog.tracks[i].path.clone());
        }
        i += 1;
    }
    None
}

/// What relocating one loose `.lrc` file from the library root does to
/// the filesystem: the leading token of its name, when at least two
/// characters long, is matched against track titles and paths, and the
/// file moves next to the first matching track.
pub open spec fn lrc_cleanup_step_v(s: Seq<FsFileV>, c: CatalogV, name: Seq<char>, root: Seq<char>) -> Seq<
    FsFileV,
> {
    let kw = spec_first_token(spec_stem(name));
    if kw.len() < 2 {
        s
    } else {
        let ti = fuzzy_track_index_of(c.tracks, kw);
        if ti < 0 {
            s
        } else {
            match spec_parent(c.tracks[ti].path) {
                Some(dir) => {
                    let src = spec_join(root, name);
                    let dest = spec_join(dir, name);
                    if fs_contains(s, src) && src != dest {
                        fs_move_v(s, src, dest)
                    } else {
                        s
                    }
                },
                None => s,
            }
        }
    }
}

/// Relocates one loose `.lrc` file found in the library root.
pub fn lrc_cleanup_step(fs: &mut MemFs, catalog: &Catalog, name: &String, root: &String)
    requires
        fs_wf(old(fs)@),
        catalog.wf(),
    ensures
        fs_wf(final(fs)@),
        final(fs)@ == lrc_cleanup_step_v(old(fs)@, catalog@, name@, root@),
{
    let stem = file_stem(name.as_str());
    let kw = first_token(stem.as_str());
    if kw.unicode_len() < 2 {
        return ;
    }
    proof {
        lemma_fuzzy_track_index(catalog@.tracks, kw@);
    }
    let track_path = match find_track_fuzzy(catalog, &kw) {
        Some(p) => p,
        None => {
            return ;
        },
    };
    let dir = match parent(track_path.as_str()) {
        Some(d) => d,
        None => {
            return ;
        },
    };
    let src = join(root.as_str(), name.as_str());
    let dest = join(dir.as_str(), name.as_str());
    if fs.file_exists(&src) && !(src == dest) {
        let _ = fs.move_file(&src, &dest);
    }
}

// ---------------------------------------------------------------------
// Internal asset recovery
// ---------------------------------------------------------------------

/// The extension under which a recovered asset is stored: its own, or
/// jpeg by default.
pub open spec fn asset_ext_v(name: Seq<char>) -> Seq<char> {
    match spec_extension(name) {
        Some(e) => e,
        None => "jpg"@,
    }
}

/// What recovering one internally cached avatar file does: a file named
/// `artist_{id}.{ext}` whose id matches a known artist moves into that
/// artist's canonical directory as `folder.{ext}` (discarded instead if
/// an image is already there), and the artist row records the
/// root-relative reference.
pub open spec fn avatar_recover_step_v(
    s: Seq<FsFileV>,
    c: CatalogV,
    name: Seq<char>,
    avatar_dir: Seq<char>,
    root: Seq<char>,
) -> (Seq<FsFileV>, CatalogV) {
    let stem = spec_stem(name);
    if !"artist_"@.is_prefix_of(stem) {
        (s, c)
    } else {
        match parse_id_v(stem.skip(7)) {
            Some(id) => {
                let ai = artist_id_index_of(c.artists, id);
                if ai < 0 {
                    (s, c)
                } else {
                    let dest = spec_join(
                        spec_join(root, sanitized_of(c.artists[ai].name)),
                        "folder."@ + asset_ext_v(name),
                    );
                    let rel = crate::pathutil::spec_strip_root(dest, root);
                    let src = spec_join(avatar_dir, name);
                    let s2 = if !fs_contains(s, dest) {
                        if fs_contains(s, src) && src != dest {
                            fs_move_v(s, src, dest)
                        } else {
                            s
                        }
                    } else {
                        fs_remove_v(s, src)
                    };
                    (s2, set_artist_image_v(c, id, rel))
                }
            },
            None => (s, c),
        }
    }
}

/// Recovers one internally cached avatar file into the library.
pub fn avatar_recover_step(
    fs: &mut MemFs,
    catalog: &mut Catalog,
    name: &String,
    avatar_dir: &String,
    root: &String,
)
    requires
        fs_wf(old(fs)@),
        old(catalog).wf(),
    ensures
        fs_wf(final(fs)@),
        final(catalog).wf(),
        final(fs)@ == avatar_recover_step_v(old(fs)@, old(catalog)@, name@, avatar_dir@, root@).0,
        final(catalog)@ == avatar_recover_step_v(
            old(fs)@,
            old(catalog)@,
            name@,
            avatar_dir@,
            root@,
        ).1,
{
    let stem = file_stem(name.as_str());
    if !crate::pathutil::starts_with_str(stem.as_str(), "artist_") {
        proof {
            reveal_strlit("artist_");
        }
        return ;
    }
    proof {
        reveal_strlit("artist_");
        assert("artist_"@.len() == 7);
    }
    let chars = crate::pathutil::chars_of(stem.as_str());
    let id_part = crate::pathutil::copy_range(&chars, 7, chars.len());
    let id_str = crate::pathutil::string_from_chars(&id_part);
    proof {
        assert(id_str@ =~= spec_stem(name@).skip(7));
    }
    let id = match parse_id(&id_str) {
        Some(v) => v,
        None => {
            return ;
        },
    };
    proof {
        lemma_artist_id_index(catalog@.artists, id);
    }
    let artist_name = match catalog.artist_by_id(id) {
        Some(a) => a.name.clone(),
        None => {
            return ;
        },
    };
    let ext = match extension(name.as_str()) {
        Some(e) => e,
        None => String::from_str("jpg"),
    };
    let mut folder_name = String::from_str("folder.");
    folder_name.append(ext.as_str());
    proof {
        reveal_strlit("folder.");
        reveal_strlit("jpg");
        assert(folder_name@ =~= "folder."@ + asset_ext_v(name@));
    }
    let dest = join(
        join(root.as_str(), sanitize_component(artist_name.as_str()).as_str()).as_str(),
        folder_name.as_str(),
    );
    let rel = crate::pathutil::strip_root(dest.as_str(), root.as_str());
    let src = join(avatar_dir.as_str(), name.as_str());
    if !fs.file_exists(&dest) {
        if fs.file_exists(&src) && !(src == dest) {
            let _ = fs.move_file(&src, &dest);
        }
    } else {
        fs.remove(&src);
    }
    catalog.set_artist_image(id, &rel);
}

/// What recovering one internally cached cover file does: a file whose
/// stem is a known album id moves into that album's canonical directory
/// as `cover.{ext}` (discarded if an image is already there), and the
/// album row records the root-relative reference.
pub open spec fn cover_recover_step_v(
    s: Seq<FsFileV>,
    c: CatalogV,
    name: Seq<char>,
    cover_dir: Seq<char>,
    root: Seq<char>,
) -> (Seq<FsFileV>, CatalogV) {
    match parse_id_v(spec_stem(name)) {
        Some(id) => {
            let bi = album_id_index_of(c.albums, id);
            if bi < 0 {
                (s, c)
            } else {
                let ai = artist_id_index_of(c.artists, c.albums[bi].artist_id);
                if ai < 0 {
                    (s, c)
                } else {
                    let dest = spec_join(
                        spec_join(
                            spec_join(root, sanitized_of(c.artists[ai].name)),
                            sanitized_of(c.albums[bi].title),
                        ),
                        "cover."@ + asset_ext_v(name),
                    );
                    let rel = crate::pathutil::spec_strip_root(dest, root);
                    let src = spec_join(cover_dir, name);
                    let s2 = if !fs_contains(s, dest) {
                        if fs_contains(s, src) && src != dest {
                            fs_move_v(s, src, dest)
                        } else {
                            s
                        }
                    } else {
                        fs_remove_v(s, src)
                    };
                    (s2, set_album_cover_v(c, id, rel))
                }
            }
        },
        None => (s, c),
    }
}

/// Recovers one internally cached cover file into the library.
pub fn cover_recover_step(
    fs: &mut MemFs,
    catalog: &mut Catalog,
    name: &String,
    cover_dir: &String,
    root: &String,
)
    requires
        fs_wf(old(fs)@),
        old(catalog).wf(),
    ensures
        fs_wf(final(fs)@),
        final(catalog).wf(),
        final(fs)@ == cover_recover_step_v(old(fs)@, old(catalog)@, name@, cover_dir@, root@).0,
        final(catalog)@ == cover_recover_step_v(
            old(fs)@,
            old(catalog)@,
            name@,
            cover_dir@,
            root@,
        ).1,
{
    let stem = file_stem(name.as_str());
    let id = match parse_id(&stem) {
        Some(v) => v,
        None => {
            return ;
        },
    };
    proof {
        lemma_album_id_index(catalog@.albums, id);
    }
    let (album_title, album_artist_id) = match catalog.album_by_id(id) {
        Some(a) => (a.title.clone(), a.artist_id),
        None => {
            return ;
        },
    };
    proof {
        lemma_artist_id_index(catalog@.artists, album_artist_id);
    }
    let artist_name = match catalog.artist_by_id(album_artist_id) {
        Some(a) => a.name.clone(),
        None => {
            return ;
        },
    };
    let ext = match extension(name.as_str()) {
        Some(e) => e,
        None => String::from_str("jpg"),
    };
    let mut cover_name = String::from_str("cover.");
    cover_name.append(ext.as_str());
    proof {
        reveal_strlit("cover.");
        reveal_strlit("jpg");
        assert(cover_name@ =~= "cover."@ + asset_ext_v(name@));
    }
    let dest = join(
        join(
            join(root.as_str(), sanitize_component(artist_name.as_str()).as_str()).as_str(),
            sanitize_component(album_title.as_str()).as_str(),
        ).as_str(),
        cover_name.as_str(),
    );
    let rel = crate::pathutil::strip_root(dest.as_str(), root.as_str());
    let src = join(cover_dir.as_str(), name.as_str());
    if !fs.file_exists(&dest) {
        if fs.file_exists(&src) && !(src == dest) {
            let _ = fs.move_file(&src, &dest);
        }
    } else {
        fs.remove(&src);
    }
    catalog.set_album_cover(id, &rel);
}

// ---------------------------------------------------------------------
// The whole organize pass
// ---------------------------------------------------------------------

/// One audio file handed to the organize pass: its path and, if the
/// container could be read, its tag blocks.
#[derive(Debug, Clone, PartialEq, Eq)]
pub struct OrganizeItem {
    pub path: String,
    pub blocks: Option<Vec<TagBlock>>,
}

/// Mathematical view of an organize item.
#[verifier::ext_equal]
pub struct OrganizeItemV {
    pub path: Seq<char>,
    pub blocks: Option<Seq<TagBlockV>>,
}

impl View for OrganizeItem {
    type V = OrganizeItemV;

    open spec fn view(&self) -> OrganizeItemV {
        OrganizeItemV {
            path: self.path@,
            blocks: match self.blocks {
                Some(b) => Some(blocks_of(b@)),
                None => None,
            },
        }
    }
}

/// The views of the organize items.
pub open spec fn items_of(v: Seq<OrganizeItem>) -> Seq<OrganizeItemV> {
    v.map_values(|x: OrganizeItem| x@)
}

/// The first `k` items of the per-file pass, folded: an unreadable
/// container is logged and skipped; an organize failure never aborts
/// the pass.
pub open spec fn organize_all_v(
    s: Seq<FsFileV>,
    c: CatalogV,
    items: Seq<OrganizeItemV>,
    root: Seq<char>,
    k: int,
) -> (Seq<FsFileV>, CatalogV)
    decreases k,
{
    if k <= 0 {
        (s, c)
    } else {
        let prev = organize_all_v(s, c, items, root, k - 1);
        if 1 <= k <= items.len() {
            match items[k - 1].blocks {
                Some(bs) => {
                    let st = organize_file_v(prev.0, prev.1, items[k - 1].path, bs, root);
                    (st.0, st.1)
                },
                None => prev,
            }
        } else {
            prev
        }
    }
}

/// The first `k` avatar files of the recovery pass, folded.
pub open spec fn recover_avatars_v(
    s: Seq<FsFileV>,
    c: CatalogV,
    names: Seq<Seq<char>>,
    avatar_dir: Seq<char>,
    root: Seq<char>,
    k: int,
) -> (Seq<FsFileV>, CatalogV)
    decreases k,
{
    if k <= 0 {
        (s, c)
    } else {
        let prev = recover_avatars_v(s, c, names, avatar_dir, root, k - 1);
        if 1 <= k <= names.len() {
            avatar_recover_step_v(prev.0, prev.1, names[k - 1], avatar_dir, root)
        } else {
            prev
        }
    }
}

/// The first `k` cover files of the recovery pass, folded.
pub open spec fn recover_covers_v(
    s: Seq<FsFileV>,
    c: CatalogV,
    names: Seq<Seq<char>>,
    cover_dir: Seq<char>,
    root: Seq<char>,
    k: int,
) -> (Seq<FsFileV>, CatalogV)
    decreases k,
{
    if k <= 0 {
        (s, c)
    } else {
        let prev = recover_covers_v(s, c, names, cover_dir, root, k - 1);
        if 1 <= k <= names.len() {
            cover_recover_step_v(prev.0, prev.1, names[k - 1], cover_dir, root)
        } else {
            prev
        }
    }
}

/// The first `k` loose lyric files of the cleanup pass, folded (the
/// catalog only steers, it does not change).
pub open spec fn cleanup_lrcs_v(
    s: Seq<FsFileV>,
    c: CatalogV,
    names: Seq<Seq<char>>,
    root: Seq<char>,
    k: int,
) -> Seq<FsFileV>
    decreases k,
{
    if k <= 0 {
        s
    } else {
        let prev = cleanup_lrcs_v(s, c, names, root, k - 1);
        if 1 <= k <= names.len() {
            lrc_cleanup_step_v(prev, c, names[k - 1], root)
        } else {
            prev
        }
    }
}

/// Everything a full organize pass does to the filesystem and the
/// catalog: the per-file pass, then avatar recovery, then cover
/// recovery, then the loose-lyric cleanup.
pub open spec fn full_organize_v(
    s: Seq<FsFileV>,
    c: CatalogV,
    items: Seq<OrganizeItemV>,
    avatar_names: Seq<Seq<char>>,
    avatar_dir: Seq<char>,
    cover_names: Seq<Seq<char>>,
    cover_dir: Seq<char>,
    lrc_names: Seq<Seq<char>>,
    root: Seq<char>,
) -> (Seq<FsFileV>, CatalogV) {
    let a = organize_all_v(s, c, items, root, items.len() as int);
    let b = recover_avatars_v(a.0, a.1, avatar_names, avatar_dir, root, avatar_names.len() as int);
    let d = recover_covers_v(b.0, b.1, cover_names, cover_dir, root, cover_names.len() as int);
    (cleanup_lrcs_v(d.0, d.1, lrc_names, root, lrc_names.len() as int), d.1)
}

/// One full library reorganization. Requires the structural-operation
/// lock like a scan: a caller that cannot take it fails immediately,
/// never queues. Per file the canonical destination is recomputed and
/// the file moved with its sidecars (collisions skipped silently); then
/// the internally cached avatar and cover files are recovered into the
/// library; then loose lyric files in the root are matched to tracks
/// and relocated. The status row shows progress and the pass always
/// finalizes.
pub fn run_organize(
    fs: &mut MemFs,
    catalog: &mut Catalog,
    lock: &mut StructuralLock,
    status: &mut ScanStatus,
    root: &String,
    items: &Vec<OrganizeItem>,
    avatar_dir: &String,
    avatar_names: &Vec<String>,
    cover_dir: &String,
    cover_names: &Vec<String>,
    root_lrc_names: &Vec<String>,
    now: u64,
) -> (r: Result<(), AppError>)
    requires
        fs_wf(old(fs)@),
        old(catalog).wf(),
        items@.len() <= u32::MAX,
    ensures
        fs_wf(final(fs)@),
        final(catalog).wf(),
        old(lock).is_held() ==> r is Err && r->Err_0 is BadRequest && *final(fs) == *old(fs)
            && *final(catalog) == *old(catalog) && *final(lock) == *old(lock) && *final(status)
            == *old(status),
        !old(lock).is_held() ==> {
            let full = full_organize_v(
                old(fs)@,
                old(catalog)@,
                items_of(items@),
                paths_of(avatar_names@),
                avatar_dir@,
                paths_of(cover_names@),
                cover_dir@,
                paths_of(root_lrc_names@),
                root@,
            );
            &&& r is Ok
            &&& final(fs)@ == full.0
            &&& final(catalog)@ == full.1
            &&& !final(lock).is_held()
            &&& !final(status).is_scanning
            &&& final(status).last_scan_at == Some(now)
        },
{
    if !lock.try_acquire() {
        return Err(
            AppError::BadRequest(String::from_str("a structural operation is already in progress")),
        );
    }
    let ghost s0 = fs@;
    let ghost c0 = catalog@;
    let ghost itemsv = items_of(items@);
    // 1. the per-file pass over the enumerated audio files
    let total = items.len();
    let mut i: usize = 0;
    while i < total
        invariant
            i <= total,
            total == items@.len(),
            total <= u32::MAX,
            itemsv == items_of(items@),
            fs_wf(fs@),
            catalog.wf(),
            (fs@, catalog@) == organize_all_v(s0, c0, itemsv, root@, i as int),
        decreases total - i,
    {
        proof {
            assert(itemsv[i as int] == items@[i as int]@);
        }
        match &items[i].blocks {
            Some(blocks) => {
                // a per-file failure is logged and skipped, never fatal
                let _ = organize_file(fs, catalog, &items[i].path, blocks, root.as_str());
            },
            None => {
                // the container could not be read: counted as a per-file
                // metadata failure, the pass goes on
            },
        }
        i += 1;
        // per-file progress, visible to polling clients
        status.is_scanning = true;
        status.current_count = i as u32;
        proof {
            assert((fs@, catalog@) == organize_all_v(s0, c0, itemsv, root@, i as int));
        }
    }
    let ghost after_items = organize_all_v(s0, c0, itemsv, root@, total as int);
    // 2. recover internally cached artist avatars
    let ghost av_names = paths_of(avatar_names@);
    let an = avatar_names.len();
    let mut i: usize = 0;
    while i < an
        invariant
            i <= an,
            an == avatar_names@.len(),
            av_names == paths_of(avatar_names@),
            after_items == (organize_all_v(s0, c0, itemsv, root@, itemsv.len() as int)),
            itemsv == items_of(items@),
            fs_wf(fs@),
            catalog.wf(),
            (fs@, catalog@) == recover_avatars_v(
                after_items.0,
                after_items.1,
                av_names,
                avatar_dir@,
                root@,
                i as int,
            ),
        decreases an - i,
    {
        proof {
            assert(av_names[i as int] == avatar_names@[i as int]@);
        }
        avatar_recover_step(fs, catalog, &avatar_names[i], avatar_dir, root);
        i += 1;
        proof {
            assert((fs@, catalog@) == recover_avatars_v(
                after_items.0,
                after_items.1,
                av_names,
                avatar_dir@,
                root@,
                i as int,
            ));
        }
    }
    let ghost after_avatars = recover_avatars_v(
        after_items.0,
        after_items.1,
        av_names,
        avatar_dir@,
        root@,
        av_names.len() as int,
    );
    // 3. recover internally cached album covers
    let ghost cv_names = paths_of(cover_names@);
    let cn = cover_names.len();
    let mut i: usize = 0;
    while i < cn
        invariant
            i <= cn,
            cn == cover_names@.len(),
            cv_names == paths_of(cover_names@),
            fs_wf(fs@),
            catalog.wf(),
            (fs@, catalog@) == recover_covers_v(
                after_avatars.0,
                after_avatars.1,
                cv_names,
                cover_dir@,
                root@,
                i as int,
            ),
        decreases cn - i,
    {
        proof {
            assert(cv_names[i as int] == cover_names@[i as int]@);
        }
        cover_recover_step(fs, catalog, &cover_names[i], cover_dir, root);
        i += 1;
        proof {
            assert((fs@, catalog@) == recover_covers_v(
                after_avatars.0,
                after_avatars.1,
                cv_names,
                cover_dir@,
                root@,
                i as int,
            ));
        }
    }
    let ghost after_covers = recover_covers_v(
        after_avatars.0,
        after_avatars.1,
        cv_names,
        cover_dir@,
        root@,
        cv_names.len() as int,
    );
    // 4. match loose lyric files in the library root to tracks
    let ghost lrc_names = paths_of(root_lrc_names@);
    let ln = root_lrc_names.len();
    let mut i: usize = 0;
    while i < ln
        invariant
            i <= ln,
            ln == root_lrc_names@.len(),
            lrc_names == paths_of(root_lrc_names@),
            fs_wf(fs@),
            catalog.wf(),
            catalog@ == after_covers.1,
            fs@ == cleanup_lrcs_v(after_covers.0, after_covers.1, lrc_names, root@, i as int),
        decreases ln - i,
    {
        proof {
            assert(lrc_names[i as int] == root_lrc_names@[i as int]@);
        }
        lrc_cleanup_step(fs, catalog, &root_lrc_names[i], root);
        i += 1;
        proof {
            assert(fs@ == cleanup_lrcs_v(after_covers.0, after_covers.1, lrc_names, root@, i as int));
        }
    }
    // finalize: clear the running flag, record the completion time, and
    // give the lock back
    status.is_scanning = false;
    status.last_scan_at = Some(now);
    lock.release();
    Ok(())
}

} // verus!
