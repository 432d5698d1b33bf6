//! Lyric resolution for one track: locate an external lyric file or fall
//! back to the embedded tag field, and recover readable text from bytes
//! of unknown encoding.
//!
//! Strategy order, first hit wins: a sibling file with the same stem and
//! the `.lrc` extension; the mirror-directory convention (an exact stem
//! match in the mirrored directory, then any `.lrc` file there whose
//! name starts with the stem); the embedded lyrics field of any tag
//! block. External files go through encoding recovery — UTF-8, then a
//! CJK-simplified encoding, then a CJK-traditional one — and never fail
//! outright. Null bytes are stripped from the result.

use vstd::prelude::*;

verus! {

use crate::catalog::{LyricsSource, osv, paths_of};
use crate::pathutil::{strip_nulls, strip_nulls_of, starts_with_str, ends_with_str};
use crate::tags::{TagBlock, blocks_of, first_lyrics, embedded_lyrics};

// ---------------------------------------------------------------------
// Encoding recovery
// ---------------------------------------------------------------------

/// What `encoding_rs::Encoding::decode` returns for the encoding with
/// the given name: the replacement-decoded text and whether malformed
/// sequences were replaced. A pure function of the encoding and the
/// byte content.
pub uninterp spec fn decoded_of(encoding: Seq<char>, bytes: Seq<u8>) -> (Seq<char>, bool);

/// Relies on `encoding_rs::UTF_8.decode`: UTF-8 decoding with BOM
/// handling and replacement of malformed sequences; the second
/// component reports whether any replacement happened.
#[verifier::external_body]
fn decode_utf8(bytes: &Vec<u8>) -> (r: (String, bool))
    requires
        bytes@.len() < usize::MAX / 4,
    ensures
        (r.0@, r.1) == decoded_of("UTF-8"@, bytes@),
{
    let (text, _, had_errors) = encoding_rs::UTF_8.decode(bytes);
    (text.into_owned(), had_errors)
}

/// Relies on `encoding_rs::GBK.decode`: decoding from the
/// CJK-simplified legacy encoding, with replacement of malformed
/// sequences.
#[verifier::external_body]
fn decode_gbk(bytes: &Vec<u8>) -> (r: (String, bool))
    requires
        bytes@.len() < usize::MAX / 4,
    ensures
        (r.0@, r.1) == decoded_of("GBK"@, bytes@),
{
    let (text, _, had_errors) = encoding_rs::GBK.decode(bytes);
    (text.into_owned(), had_errors)
}

/// Relies on `encoding_rs::BIG5.decode`: decoding from the
/// CJK-traditional legacy encoding, with replacement of malformed
/// sequences.
#[verifier::external_body]
fn decode_big5(bytes: &Vec<u8>) -> (r: (String, bool))
    requires
        bytes@.len() < usize::MAX / 4,
    ensures
        (r.0@, r.1) == decoded_of("Big5"@, bytes@),
{
    let (text, _, had_errors) = encoding_rs::BIG5.decode(bytes);
    (text.into_owned(), had_errors)
}

/// The text recovered from lyric-file bytes: UTF-8 if it decodes
/// cleanly, else the CJK-simplified encoding if that decodes cleanly,
/// else the CJK-traditional decoding, errors and all — best effort,
/// never an outright failure.
pub open spec fn recovered_text_of(bytes: Seq<u8>) -> Seq<char> {
    if !decoded_of("UTF-8"@, bytes).1 {
        decoded_of("UTF-8"@, bytes).0
    } else if !decoded_of("GBK"@, bytes).1 {
        decoded_of("GBK"@, bytes).0
    } else {
        decoded_of("Big5"@, bytes).0
    }
}

/// Recovers readable text from an external lyric file of unknown
/// encoding and strips null characters from it.
pub fn recover_text(bytes: &Vec<u8>) -> (r: String)
    requires
        bytes@.len() < usize::MAX / 4,
    ensures
        r@ == strip_nulls_of(recovered_text_of(bytes@)),
{
    let (utf8_text, utf8_errors) = decode_utf8(bytes);
    let text = if !utf8_errors {
        utf8_text
    } else {
        let (gbk_text, gbk_errors) = decode_gbk(bytes);
        if !gbk_errors {
            gbk_text
        } else {
            let (big5_text, _) = decode_big5(bytes);
            big5_text
        }
    };
    strip_nulls(text.as_str())
}

// ---------------------------------------------------------------------
// Locating the lyric file
// ---------------------------------------------------------------------

/// The conventional lyric file name for a stem.
pub open spec fn lrc_name_of(stem: Seq<char>) -> Seq<char> {
    stem + ".lrc"@
}

/// Whether `name` is a fuzzy lyric match for `stem`: an `.lrc` file
/// whose name starts with the stem.
pub open spec fn is_fuzzy_lrc(name: Seq<char>, stem: Seq<char>) -> bool {
    stem.is_prefix_of(name) && ".lrc"@.is_suffix_of(name)
}

/// The first fuzzy lyric match among the names, or -1.
pub open spec fn first_fuzzy_lrc(names: Seq<Seq<char>>, stem: Seq<char>) -> int
    decreases names.len(),
{
    if names.len() == 0 {
        -1
    } else if is_fuzzy_lrc(names[0], stem) {
        0
    } else {
        let r = first_fuzzy_lrc(names.drop_first(), stem);
        if r == -1 {
            -1
        } else {
            1 + r
        }
    }
}

/// Where the resolver found a lyric file: in the audio file's own
/// directory, or in the mirrored directory of the parallel subtree.
#[derive(Debug, Clone, PartialEq, Eq)]
pub enum LrcHit {
    /// The sibling file `stem.lrc`, next to the audio file.
    Sibling(String),
    /// A file of this name inside the mirrored directory.
    Mirror(String),
}

/// The choice the locator makes, as a mathematical value.
pub open spec fn locate_lrc_v(
    stem: Seq<char>,
    sibling_names: Seq<Seq<char>>,
    mirror_names: Seq<Seq<char>>,
) -> Option<(bool, Seq<char>)> {
    if sibling_names.contains(lrc_name_of(stem)) {
        Some((true, lrc_name_of(stem)))
    } else if mirror_names.contains(lrc_name_of(stem)) {
        Some((false, lrc_name_of(stem)))
    } else if first_fuzzy_lrc(mirror_names, stem) >= 0 {
        Some((false, mirror_names[first_fuzzy_lrc(mirror_names, stem)]))
    } else {
        None
    }
}

/// The first fuzzy match is a fuzzy match, and -1 means there is none.
pub proof fn lemma_first_fuzzy_lrc(names: Seq<Seq<char>>, stem: Seq<char>)
    ensures
        -1 <= first_fuzzy_lrc(names, stem) < names.len(),
        first_fuzzy_lrc(names, stem) >= 0 ==> is_fuzzy_lrc(
            names[first_fuzzy_lrc(names, stem)],
            stem,
        ),
        first_fuzzy_lrc(names, stem) == -1 ==> forall|j: int|
            0 <= j < names.len() ==> !is_fuzzy_lrc(#[trigger] names[j], stem),
    decreases names.len(),
{
    if names.len() > 0 && !is_fuzzy_lrc(names[0], stem) {
        lemma_first_fuzzy_lrc(names.drop_first(), stem);
        assert forall|j: int|
            0 <= j < names.len() && first_fuzzy_lrc(names, stem) == -1 implies !is_fuzzy_lrc(
            #[trigger] names[j],
            stem,
        ) by {
            if j > 0 {
                assert(names.drop_first()[j - 1] == names[j]);
            }
        }
    }
}

/// Locates the lyric file for a track with the given stem: the sibling
/// `stem.lrc` first; then, in the mirrored directory of the parallel
/// subtree, an exact `stem.lrc`, then any `.lrc` file whose name starts
/// with the stem. `sibling_names` and `mirror_names` list the file
/// names of the two directories.
pub fn locate_lrc(stem: &String, sibling_names: &Vec<String>, mirror_names: &Vec<String>) -> (r:
    Option<LrcHit>)
    ensures
        match r {
            Some(LrcHit::Sibling(n)) => locate_lrc_v(
                stem@,
                paths_of(sibling_names@),
                paths_of(mirror_names@),
            ) == Some((true, n@)),
            Some(LrcHit::Mirror(n)) => locate_lrc_v(
                stem@,
                paths_of(sibling_names@),
                paths_of(mirror_names@),
            ) == Some((false, n@)),
            None => locate_lrc_v(stem@, paths_of(sibling_names@), paths_of(mirror_names@))
                is None,
        },
{
    let exact = {
        let mut s = stem.clone();
        s.append(".lrc");
        s
    };
    proof {
        reveal_strlit(".lrc");
        assert(exact@ == lrc_name_of(stem@));
    }
    if crate::catalog::contains_path(sibling_names, &exact) {
        return Some(LrcHit::Sibling(exact));
    }
    if crate::catalog::contains_path(mirror_names, &exact) {
        return Some(LrcHit::Mirror(exact));
    }
    // fuzzy: the first `.lrc` name in the mirrored directory starting
    // with the stem
    let ghost names = paths_of(mirror_names@);
    proof {
        lemma_first_fuzzy_lrc(names, stem@);
        assert(names.skip(0) =~= names);
    }
    let n = mirror_names.len();
    let mut i: usize = 0;
    while i < n
        invariant
            i <= n,
            n == mirror_names@.len(),
            names == paths_of(mirror_names@),
            !paths_of(sibling_names@).contains(lrc_name_of(stem@)),
            !names.contains(lrc_name_of(stem@)),
            first_fuzzy_lrc(names, stem@) == (if first_fuzzy_lrc(names.skip(i as int), stem@)
                == -1 {
                -1int
            } else {
                i + first_fuzzy_lrc(names.skip(i as int), stem@)
            }),
        decreases n - i,
    {
        proof {
            assert(names.skip(i as int)[0] == names[i as int]);
            assert(names.skip(i as int).drop_first() =~= names.skip(i + 1 as int));
            lemma_first_fuzzy_lrc(names.skip(i + 1 as int), stem@);
        }
        let name = &mirror_names[i];
        if starts_with_str(name.as_str(), stem.as_str()) && ends_with_str(name.as_str(), ".lrc") {
            proof {
                reveal_strlit(".lrc");
                assert(is_fuzzy_lrc(names[i as int], stem@));
                assert(first_fuzzy_lrc(names.skip(i as int), stem@) == 0);
                assert(first_fuzzy_lrc(names, stem@) == i as int);
            }
            return Some(LrcHit::Mirror(name.clone()));
        }
        i += 1;
    }
    proof {
        reveal_strlit(".lrc");
    }
    None
}

// ---------------------------------------------------------------------
// The whole resolution
// ---------------------------------------------------------------------

/// What the resolver returns, given the bytes of a located external
/// file (if one was found) and the tag blocks: external text recovered
/// and stripped of nulls, else the first embedded lyric field, else
/// nothing.
pub open spec fn resolved_lyrics_v(lrc_bytes: Option<Seq<u8>>, blocks: Seq<crate::tags::TagBlockV>) -> (
    Option<Seq<char>>,
    LyricsSource,
) {
    match lrc_bytes {
        Some(b) => (Some(strip_nulls_of(recovered_text_of(b))), LyricsSource::File),
        None => match first_lyrics(blocks) {
            Some(l) => (Some(l), LyricsSource::Embedded),
            None => (None, LyricsSource::Absent),
        },
    }
}

/// Resolves the lyric text for one track: the located external file's
/// bytes win, recovered through the encoding chain; else the first
/// embedded lyric field of any tag block; else nothing.
pub fn resolve_lyrics(lrc_bytes: Option<&Vec<u8>>, blocks: &Vec<TagBlock>) -> (r: (
    Option<String>,
    LyricsSource,
))
    requires
        match lrc_bytes {
            Some(b) => b@.len() < usize::MAX / 4,
            None => true,
        },
    ensures
        ({
            let spec_bytes = match lrc_bytes {
                Some(b) => Some(b@),
                None => None,
            };
            (osv(r.0), r.1) == resolved_lyrics_v(spec_bytes, blocks_of(blocks@))
        }),
{
    match lrc_bytes {
        Some(bytes) => (Some(recover_text(bytes)), LyricsSource::File),
        None => {
            match embedded_lyrics(blocks) {
                Some(l) => (Some(l), LyricsSource::Embedded),
                None => (None, LyricsSource::Absent),
            }
        },
    }
}

} // verus!
