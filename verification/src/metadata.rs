//! External metadata enrichment: provider search, the layered artist
//! image waterfall, cover fetch, retry policy, and the batch machinery
//! with its per-item timeout and throttle.
//!
//! The network itself lives outside: the embedding runtime performs each
//! search, fetch and download, and hands the plain values back. What
//! stands here is everything that can be decided from those values —
//! which result wins, which URL is derived, which row is written, how a
//! failure degrades — and the batch bookkeeping.

use vstd::prelude::*;

verus! {

use crate::catalog::{
    Catalog, CatalogV, set_artist_provider_v, set_artist_image_v, enrich_album_v,
    set_track_lyrics_v,
};
use crate::error::AppError;
use crate::pathutil::{
    spec_replace_first, replace_first, contains_sub, contains_str, rfind_sub_of,
};
use crate::status::ArtistSyncStatus;

// ---------------------------------------------------------------------
// Retry policy
// ---------------------------------------------------------------------

/// The base delay of the exponential backoff, in milliseconds.
pub const RETRY_BASE_MS: u64 = 1000;

/// How many attempts an outbound call gets before the retry chain
/// surfaces a metadata-class error.
pub const MAX_ATTEMPTS: u32 = 3;

/// The fixed inter-item delay of a batch run, respecting provider rate
/// limits, in milliseconds.
pub const BATCH_THROTTLE_MS: u64 = 1500;

/// The per-item timeout of a batch run, in milliseconds.
pub const ITEM_TIMEOUT_MS: u64 = 30000;

/// The backoff delay before retry number `attempt` (counting the first
/// retry as 1): the base delay doubled per step, with the runtime's
/// jitter subtracted — jitter shortens the wait, it never lengthens it.
pub fn backoff_delay_ms(attempt: u32, jitter_ms: u64) -> (r: u64)
    requires
        1 <= attempt <= MAX_ATTEMPTS,
    ensures
        r == spec_backoff_delay_ms(attempt, jitter_ms),
        r <= RETRY_BASE_MS * 4,
{
    let base = if attempt == 1 {
        RETRY_BASE_MS
    } else if attempt == 2 {
        RETRY_BASE_MS * 2
    } else {
        RETRY_BASE_MS * 4
    };
    if jitter_ms < base {
        base - jitter_ms
    } else {
        0
    }
}

/// What `backoff_delay_ms` returns.
pub open spec fn spec_backoff_delay_ms(attempt: u32, jitter_ms: u64) -> u64 {
    let base: u64 = if attempt == 1 {
        RETRY_BASE_MS
    } else if attempt == 2 {
        (RETRY_BASE_MS * 2) as u64
    } else {
        (RETRY_BASE_MS * 4) as u64
    };
    if jitter_ms < base {
        (base - jitter_ms) as u64
    } else {
        0
    }
}

/// Whether a failed outbound call is retried: only while attempts
/// remain. `attempts_made` counts the calls already made.
pub fn should_retry(attempts_made: u32) -> (r: bool)
    ensures
        r == (attempts_made < MAX_ATTEMPTS),
{
    attempts_made < MAX_ATTEMPTS
}

/// What follows one failed outbound call: another attempt after its
/// backoff delay, or surrendering the item.
#[derive(Debug, Clone, PartialEq, Eq)]
pub enum RetryDecision {
    /// Try again after this many milliseconds.
    Retry(u64),
    /// The attempts are exhausted: this error is surfaced, scoped to
    /// the current item.
    GiveUp(AppError),
}

/// Decides what follows a failed outbound call: while attempts remain,
/// a retry after the exponential backoff (jitter only shortening the
/// wait); on exhaustion, a metadata-class error carrying the last
/// failure's text surfaces, scoped to the current item.
pub fn next_retry_step(attempts_made: u32, jitter_ms: u64, last_error: &String) -> (r:
    RetryDecision)
    requires
        1 <= attempts_made,
    ensures
        attempts_made < MAX_ATTEMPTS ==> r == RetryDecision::Retry(
            spec_backoff_delay_ms(attempts_made, jitter_ms),
        ),
        attempts_made >= MAX_ATTEMPTS ==> (r matches RetryDecision::GiveUp(e) && e is Metadata
            && e.spec_message() == "retries exhausted: "@ + last_error@),
{
    if attempts_made < MAX_ATTEMPTS {
        RetryDecision::Retry(backoff_delay_ms(attempts_made, jitter_ms))
    } else {
        let mut message = String::from_str("retries exhausted: ");
        message.append(last_error.as_str());
        RetryDecision::GiveUp(AppError::Metadata(message))
    }
}

// ---------------------------------------------------------------------
// Trusted computations
// ---------------------------------------------------------------------

/// What `md5::compute` yields for a string's bytes, printed as 32
/// lowercase hex digits: a pure function of the text.
pub uninterp spec fn md5_hex_of(s: Seq<char>) -> Seq<char>;

/// Relies on `md5::compute` and the digest's lowercase-hex display: the
/// digest is 16 bytes, so its hex form is exactly 32 characters.
#[verifier::external_body]
fn md5_hex(s: &str) -> (r: String)
    ensures
        r@ == md5_hex_of(s@),
        r@.len() == 32,
{
    let digest = md5::compute(s.as_bytes());
    format!("{:x}", digest)
}

/// What `urlencoding::encode` yields: percent-encoding of everything but
/// the unreserved characters, a pure function of the text.
pub uninterp spec fn url_encoded_of(s: Seq<char>) -> Seq<char>;

/// Relies on `urlencoding::encode`.
#[verifier::external_body]
fn url_encode(s: &str) -> (r: String)
    ensures
        r@ == url_encoded_of(s@),
{
    urlencoding::encode(s).into_owned()
}

/// What `urlencoding::decode` yields when it succeeds: percent-decoding
/// assuming UTF-8, a pure function of the text; nothing when the decoded
/// bytes are not UTF-8.
pub uninterp spec fn url_decoded_of(s: Seq<char>) -> Option<Seq<char>>;

/// Relies on `urlencoding::decode`.
#[verifier::external_body]
fn url_decode(s: &str) -> (r: Option<String>)
    ensures
        match r {
            Some(d) => url_decoded_of(s@) == Some(d@),
            None => url_decoded_of(s@) is None,
        },
{
    match urlencoding::decode(s) {
        Ok(d) => Some(d.into_owned()),
        Err(_) => None,
    }
}

/// What `regex::Regex::find` yields for a pattern on a text: the
/// leftmost match, as its text; nothing when the pattern does not occur
/// or is not a valid pattern. A pure function of both.
pub uninterp spec fn regex_find_of(pattern: Seq<char>, text: Seq<char>) -> Option<Seq<char>>;

/// Relies on `regex::Regex::new` and `regex::Regex::find`: the leftmost
/// match of the pattern in the text.
#[verifier::external_body]
fn regex_find(pattern: &str, text: &str) -> (r: Option<String>)
    ensures
        match r {
            Some(m) => regex_find_of(pattern@, text@) == Some(m@),
            None => regex_find_of(pattern@, text@) is None,
        },
{
    match regex::Regex::new(pattern) {
        Ok(re) => re.find(text).map(|m| m.as_str().to_string()),
        Err(_) => None,
    }
}

// ---------------------------------------------------------------------
// URL resolution
// ---------------------------------------------------------------------

/// The canonical media URL of an encyclopedia image: the two-level
/// content-hash directory scheme over the underscore-joined file name.
pub open spec fn commons_url_v(image_name: Seq<char>) -> Seq<char> {
    let joined = spec_replace_spaces(image_name);
    let digest = md5_hex_of(joined);
    "https://upload.wikimedia.org/wikipedia/commons/"@ + digest.take(1) + seq!['/'] + digest.take(2)
        + seq!['/'] + joined
}

/// Spaces become underscores, as the media store names its files.
pub open spec fn spec_replace_spaces(s: Seq<char>) -> Seq<char> {
    s.map_values(|c: char| if c == ' ' { '_' } else { c })
}

/// Replaces each space by an underscore.
pub fn replace_spaces(s: &str) -> (r: String)
    ensures
        r@ == spec_replace_spaces(s@),
{
    let v = crate::pathutil::chars_of(s);
    let mut out: Vec<char> = Vec::new();
    let mut i: usize = 0;
    while i < v.len()
        invariant
            i <= v@.len(),
            v@ == s@,
            out@ == spec_replace_spaces(s@.take(i as int)),
        decreases v@.len() - i,
    {
        let c = v[i];
        out.push(if c == ' ' { '_' } else { c });
        proof {
            assert(out@ =~= spec_replace_spaces(s@.take(i + 1 as int)));
        }
        i += 1;
    }
    proof {
        assert(s@.take(s@.len() as int) =~= s@);
    }
    crate::pathutil::string_from_chars(&out)
}

/// Builds the canonical media URL for an encyclopedia image name: the
/// name with spaces joined by underscores, filed under the first one and
/// two hex digits of its content hash.
pub fn commons_url_for_image(image_name: &str) -> (r: String)
    ensures
        r@ == commons_url_v(image_name@),
{
    let joined = replace_spaces(image_name);
    let digest = md5_hex(joined.as_str());
    let dv = crate::pathutil::chars_of(digest.as_str());
    let a = crate::pathutil::string_from_chars(&crate::pathutil::copy_range(&dv, 0, 1));
    let b = crate::pathutil::string_from_chars(&crate::pathutil::copy_range(&dv, 0, 2));
    let mut out = String::from_str("https://upload.wikimedia.org/wikipedia/commons/");
    out.append(a.as_str());
    out.append("/");
    out.append(b.as_str());
    out.append("/");
    out.append(joined.as_str());
    proof {
        reveal_strlit("/");
        assert(digest@.subrange(0, 1) =~= digest@.take(1));
        assert(digest@.subrange(0, 2) =~= digest@.take(2));
        assert(out@ =~= commons_url_v(image_name@));
    }
    out
}

/// The archive-mirror marker inside a wrapped URL.
pub open spec fn archive_marker() -> Seq<char> {
    "web.archive.org/web/"@
}

/// What unwrapping an archive-mirror redirect yields: everything from
/// the last "/http" on, with the leading slash dropped — the original
/// URL the mirror wrapped. URLs without the marker pass through.
pub open spec fn unwrap_archive_v(url: Seq<char>) -> Seq<char> {
    if contains_sub(url, archive_marker()) && last_http_pos(url) >= 0 {
        url.skip(last_http_pos(url) + 1)
    } else {
        url
    }
}

/// The position of the last occurrence of "/http" in the URL, or -1.
pub open spec fn last_http_pos(s: Seq<char>) -> int
    decreases s.len(),
{
    if s.len() < 5 {
        -1
    } else if "/http"@.is_prefix_of(s.skip(s.len() - 5)) {
        s.len() - 5
    } else {
        let r = last_http_pos(s.drop_last());
        r
    }
}

/// `last_http_pos` marks a "/http" occurrence, and -1 means none.
proof fn lemma_last_http_pos(s: Seq<char>)
    ensures
        last_http_pos(s) == -1 || (0 <= last_http_pos(s) <= s.len() - 5),
        last_http_pos(s) >= 0 ==> "/http"@.is_prefix_of(s.skip(last_http_pos(s))),
    decreases s.len(),
{
    reveal_strlit("/http");
    if s.len() >= 5 && !"/http"@.is_prefix_of(s.skip(s.len() - 5)) {
        lemma_last_http_pos(s.drop_last());
        let r = last_http_pos(s);
        if r >= 0 {
            assert(r <= s.drop_last().len() - 5);
            assert(s.skip(r).subrange(0, 5) =~= s.drop_last().skip(r).subrange(0, 5));
            assert("/http"@ =~= s.skip(r).subrange(0, 5));
        }
    }
}

/// Unwraps an archive-mirror redirect: a URL holding the mirror marker
/// is reduced to the original URL it wraps (from the last embedded
/// "http" on); any other URL passes through.
pub fn unwrap_archive(url: &str) -> (r: String)
    ensures
        r@ == unwrap_archive_v(url@),
{
    proof {
        reveal_strlit("web.archive.org/web/");
        reveal_strlit("/http");
        lemma_last_http_pos(url@);
    }
    if !contains_str(url, "web.archive.org/web/") {
        return url.to_owned();
    }
    // scan backward for the last "/http"
    let v = crate::pathutil::chars_of(url);
    let n = v.len();
    if n < 5 {
        return url.to_owned();
    }
    let mut i: usize = n;
    proof {
        assert(url@.take(n as int) =~= url@);
    }
    while i >= 5
        invariant
            5 <= n,
            i <= n,
            n == url@.len(),
            v@ == url@,
            contains_sub(url@, archive_marker()),
            last_http_pos(url@) == last_http_pos(url@.take(i as int)),
        decreases i,
    {
        // check for "/http" ending at position i-1, i.e. starting at i-5
        let hit = v[i - 5] == '/' && v[i - 4] == 'h' && v[i - 3] == 't' && v[i - 2] == 't' && v[i
            - 1] == 'p';
        proof {
            reveal_strlit("/http");
            let t = url@.take(i as int);
            assert(t.len() == i);
            assert(t.skip(i - 5) =~= url@.subrange(i - 5, i as int));
            if hit {
                assert("/http"@.is_prefix_of(t.skip(i - 5))) by {
                    assert(t.skip(i - 5).len() == 5);
                    assert(t.skip(i - 5)[0] == url@[i - 5]);
                    assert(t.skip(i - 5)[1] == url@[i - 4]);
                    assert(t.skip(i - 5)[2] == url@[i - 3]);
                    assert(t.skip(i - 5)[3] == url@[i - 2]);
                    assert(t.skip(i - 5)[4] == url@[i - 1]);
                    assert("/http"@ =~= t.skip(i - 5).subrange(0, 5));
                }
            } else {
                assert(!"/http"@.is_prefix_of(t.skip(i - 5))) by {
                    assert(t.skip(i - 5)[0] == url@[i - 5]);
                    assert(t.skip(i - 5)[1] == url@[i - 4]);
                    assert(t.skip(i - 5)[2] == url@[i - 3]);
                    assert(t.skip(i - 5)[3] == url@[i - 2]);
                    assert(t.skip(i - 5)[4] == url@[i - 1]);
                    reveal_strlit("/http");
                    if "/http"@.is_prefix_of(t.skip(i - 5)) {
                        assert("/http"@ == t.skip(i - 5).subrange(0, 5));
                        assert(t.skip(i - 5).subrange(0, 5)[0] == url@[i - 5]);
                        assert(t.skip(i - 5).subrange(0, 5)[1] == url@[i - 4]);
                        assert(t.skip(i - 5).subrange(0, 5)[2] == url@[i - 3]);
                        assert(t.skip(i - 5).subrange(0, 5)[3] == url@[i - 2]);
                        assert(t.skip(i - 5).subrange(0, 5)[4] == url@[i - 1]);
                        assert(url@[i - 5] == '/' && url@[i - 4] == 'h' && url@[i - 3] == 't'
                            && url@[i - 2] == 't' && url@[i - 1] == 'p');
                        assert(false);
                    }
                }
                assert(t.drop_last() =~= url@.take(i - 1));
            }
        }
        if hit {
            let tail = crate::pathutil::copy_range(&v, i - 4, n);
            proof {
                reveal_strlit("web.archive.org/web/");
                assert(last_http_pos(url@.take(i as int)) == i - 5);
                assert(last_http_pos(url@) == i - 5);
                assert(url@.subrange(i - 4, n as int) =~= url@.skip(i - 5 + 1));
                assert(tail@ == unwrap_archive_v(url@));
            }
            return crate::pathutil::string_from_chars(&tail);
        }
        i -= 1;
    }
    proof {
        assert(last_http_pos(url@.take(i as int)) == -1);
    }
    url.to_owned()
}

/// The encyclopedia file-page marker.
pub open spec fn commons_page_marker() -> Seq<char> {
    "commons.wikimedia.org/wiki/File:"@
}

/// What resolving a remote image URL yields: archive-mirror redirects
/// are unwrapped first; then an encyclopedia file-page URL is converted
/// to the canonical media URL of the file it names — everything after
/// the last file-page marker, percent-decoded when possible — and
/// anything else passes through.
pub open spec fn resolve_image_url_v(url: Seq<char>) -> Seq<char> {
    let u = unwrap_archive_v(url);
    if rfind_sub_of(u, "File:"@) >= 0 && contains_sub(u, commons_page_marker()) {
        let marker_end = rfind_sub_of(u, "File:"@) + 5;
        let fname = u.skip(marker_end);
        let decoded = match url_decoded_of(fname) {
            Some(d) => d,
            None => fname,
        };
        commons_url_v(decoded)
    } else {
        u
    }
}

/// Resolves a remote image URL to something directly fetchable:
/// archive-mirror redirects unwrapped, encyclopedia file pages replaced
/// by the canonical media URL of the named file.
pub fn resolve_image_url(url: &str) -> (r: String)
    ensures
        r@ == resolve_image_url_v(url@),
{
    let u = unwrap_archive(url);
    proof {
        reveal_strlit("File:");
        reveal_strlit("commons.wikimedia.org/wiki/File:");
        crate::pathutil::lemma_rfind_sub_bounds(u@, "File:"@);
    }
    if !contains_str(u.as_str(), "commons.wikimedia.org/wiki/File:") {
        return u;
    }
    let v = crate::pathutil::chars_of(u.as_str());
    let p = crate::pathutil::chars_of("File:");
    let n = v.len();
    let start = match crate::pathutil::rfind_sub(&v, &p) {
        Some(i) => i + 5,
        None => {
            return u;
        },
    };
    let fname_chars = crate::pathutil::copy_range(&v, start, n);
    let fname = crate::pathutil::string_from_chars(&fname_chars);
    proof {
        assert(fname@ =~= u@.skip(rfind_sub_of(u@, "File:"@) + 5));
    }
    let decoded = match url_decode(fname.as_str()) {
        Some(d) => d,
        None => fname,
    };
    commons_url_for_image(decoded.as_str())
}

// ---------------------------------------------------------------------
// Provider results
// ---------------------------------------------------------------------

/// One relation attached to a provider's artist record: a typed link.
#[derive(Debug, Clone, PartialEq, Eq)]
pub struct ProviderRelation {
    /// The relation type, e.g. an image or an encyclopedia entry.
    pub kind: String,
    /// The linked resource.
    pub url: String,
}

/// Mathematical view of a relation.
#[verifier::ext_equal]
pub struct ProviderRelationV {
    pub kind: Seq<char>,
    pub url: Seq<char>,
}

impl View for ProviderRelation {
    type V = ProviderRelationV;

    open spec fn view(&self) -> ProviderRelationV {
        ProviderRelationV { kind: self.kind@, url: self.url@ }
    }
}

/// The views of a vector of relations.
pub open spec fn relations_of(v: Seq<ProviderRelation>) -> Seq<ProviderRelationV> {
    v.map_values(|x: ProviderRelation| x@)
}

/// The first relation of the given kind, or -1.
pub open spec fn first_relation_of(rels: Seq<ProviderRelationV>, kind: Seq<char>) -> int
    decreases rels.len(),
{
    if rels.len() == 0 {
        -1
    } else if rels[0].kind == kind {
        0
    } else {
        let r = first_relation_of(rels.drop_first(), kind);
        if r == -1 {
            -1
        } else {
            1 + r
        }
    }
}

/// `first_relation_of` finds the first match, and -1 means none.
pub proof fn lemma_first_relation(rels: Seq<ProviderRelationV>, kind: Seq<char>)
    ensures
        -1 <= first_relation_of(rels, kind) < rels.len(),
        first_relation_of(rels, kind) >= 0 ==> rels[first_relation_of(rels, kind)].kind == kind,
    decreases rels.len(),
{
    if rels.len() > 0 && !(rels[0].kind == kind) {
        lemma_first_relation(rels.drop_first(), kind);
    }
}

/// The first relation of the given kind, as its URL.
pub fn find_relation(rels: &Vec<ProviderRelation>, kind: &str) -> (r: Option<String>)
    ensures
        match r {
            Some(u) => first_relation_of(relations_of(rels@), kind@) >= 0 && u@ == relations_of(
                rels@,
            )[first_relation_of(relations_of(rels@), kind@)].url,
            None => first_relation_of(relations_of(rels@), kind@) == -1,
        },
{
    let ghost rs = relations_of(rels@);
    let n = rels.len();
    let mut i: usize = 0;
    proof {
        assert(rs.skip(0) =~= rs);
    }
    while i < n
        invariant
            i <= n,
            n == rels@.len(),
            rs == relations_of(rels@),
            first_relation_of(rs, kind@) == (if first_relation_of(rs.skip(i as int), kind@) == -1 {
                -1int
            } else {
                i + first_relation_of(rs.skip(i as int), kind@)
            }),
        decreases n - i,
    {
        proof {
            assert(rs.skip(i as int)[0] == rs[i as int]);
            assert(rs.skip(i as int).drop_first() =~= rs.skip(i + 1 as int));
            lemma_first_relation(rs.skip(i + 1 as int), kind@);
        }
        let this_kind = &rels[i].kind;
        let mut kind_string = String::new();
        kind_string.append(kind);
        if *this_kind == kind_string {
            return Some(rels[i].url.clone());
        }
        i += 1;
    }
    None
}

/// The trailing path segment of a URL: the encyclopedia identifier in a
/// relation's resource link.
pub open spec fn last_segment_v(url: Seq<char>) -> Seq<char> {
    crate::pathutil::spec_file_name(url)
}

/// The trailing path segment of a URL.
pub fn last_segment(url: &str) -> (r: String)
    ensures
        r@ == last_segment_v(url@),
{
    crate::pathutil::file_name(url)
}

/// Which source the artist-image waterfall uses, in fallback order.
#[derive(Debug, Clone, PartialEq, Eq)]
pub enum ImageSource {
    /// The provider's direct image relation.
    Direct(String),
    /// The provider's encyclopedia identifier, to be resolved through
    /// the knowledge-base query.
    Encyclopedia(String),
    /// No usable relation: fall back to the public catalog scrape.
    Scrape,
}

/// What the waterfall decides from the provider's relations: a direct
/// image relation wins; else an encyclopedia relation contributes its
/// trailing identifier; else the scrape is next.
pub open spec fn image_source_v(rels: Seq<ProviderRelationV>) -> ImageSourceV {
    if first_relation_of(rels, "image"@) >= 0 {
        ImageSourceV::Direct(rels[first_relation_of(rels, "image"@)].url)
    } else if first_relation_of(rels, "wikidata"@) >= 0 {
        ImageSourceV::Encyclopedia(
            last_segment_v(rels[first_relation_of(rels, "wikidata"@)].url),
        )
    } else {
        ImageSourceV::Scrape
    }
}

/// Mathematical view of the waterfall decision.
pub enum ImageSourceV {
    Direct(Seq<char>),
    Encyclopedia(Seq<char>),
    Scrape,
}

/// Decides the artist-image source from the provider's relations:
/// the direct image relation first, then the encyclopedia identifier,
/// then the public catalog scrape.
pub fn choose_image_source(rels: &Vec<ProviderRelation>) -> (r: ImageSource)
    ensures
        match r {
            ImageSource::Direct(u) => image_source_v(relations_of(rels@)) == ImageSourceV::Direct(
                u@,
            ),
            ImageSource::Encyclopedia(q) => image_source_v(relations_of(rels@))
                == ImageSourceV::Encyclopedia(q@),
            ImageSource::Scrape => image_source_v(relations_of(rels@)) == ImageSourceV::Scrape,
        },
{
    proof {
        reveal_strlit("image");
        reveal_strlit("wikidata");
        lemma_first_relation(relations_of(rels@), "image"@);
        lemma_first_relation(relations_of(rels@), "wikidata"@);
    }
    if let Some(url) = find_relation(rels, "image") {
        return ImageSource::Direct(url);
    }
    if let Some(url) = find_relation(rels, "wikidata") {
        return ImageSource::Encyclopedia(last_segment(url.as_str()));
    }
    ImageSource::Scrape
}

// ---------------------------------------------------------------------
// The public catalog scrape
// ---------------------------------------------------------------------

/// The first thumbnail URL shape of the public catalog's CDN.
pub open spec fn scrape_pattern_a() -> Seq<char> {
    "https://lastfm.freetls.fastly.net/i/u/avatar170s/[a-f0-9]+"@
}

/// The second thumbnail URL shape of the public catalog's CDN.
pub open spec fn scrape_pattern_b() -> Seq<char> {
    "https://lastfm.freetls.fastly.net/i/u/300x300/[a-f0-9]+"@
}

/// What scraping the page text yields: the first thumbnail of either
/// known URL shape, upgraded to high resolution with the image suffix.
pub open spec fn scraped_image_v(html: Seq<char>) -> Option<Seq<char>> {
    match regex_find_of(scrape_pattern_a(), html) {
        Some(m) => Some(spec_replace_first(m, "avatar170s"@, "770x770"@) + ".jpg"@),
        None => match regex_find_of(scrape_pattern_b(), html) {
            Some(m) => Some(spec_replace_first(m, "300x300"@, "770x770"@) + ".jpg"@),
            None => None,
        },
    }
}

/// Extracts an artist image from the public catalog's page text: the
/// first thumbnail of either known CDN URL shape, upgraded to the
/// high-resolution variant.
pub fn extract_scraped_image(html: &str) -> (r: Option<String>)
    ensures
        match r {
            Some(u) => scraped_image_v(html@) == Some(u@),
            None => scraped_image_v(html@) is None,
        },
{
    if let Some(m) = regex_find(
        "https://lastfm.freetls.fastly.net/i/u/avatar170s/[a-f0-9]+",
        html,
    ) {
        let mut up = replace_first(m.as_str(), "avatar170s", "770x770");
        up.append(".jpg");
        proof {
            reveal_strlit(".jpg");
        }
        return Some(up);
    }
    if let Some(m) = regex_find("https://lastfm.freetls.fastly.net/i/u/300x300/[a-f0-9]+", html) {
        let mut up = replace_first(m.as_str(), "300x300", "770x770");
        up.append(".jpg");
        proof {
            reveal_strlit(".jpg");
        }
        return Some(up);
    }
    None
}

/// The public catalog page to scrape for an artist's images.
pub fn scrape_page_url(artist_name: &str) -> (r: String)
    ensures
        r@ == "https://www.last.fm/music/"@ + url_encoded_of(artist_name@) + "/+images"@,
{
    let mut out = String::from_str("https://www.last.fm/music/");
    out.append(url_encode(artist_name).as_str());
    out.append("/+images");
    out
}

/// The knowledge-base entity-data URL for an encyclopedia identifier.
pub fn encyclopedia_entity_url(qid: &str) -> (r: String)
    ensures
        r@ == "https://www.wikidata.org/wiki/Special:EntityData/"@ + qid@ + ".json"@,
{
    let mut out = String::from_str("https://www.wikidata.org/wiki/Special:EntityData/");
    out.append(qid);
    out.append(".json");
    out
}

/// The cover-art provider's release endpoint for a provider release id.
pub fn cover_art_url(release_id: &str) -> (r: String)
    ensures
        r@ == "https://coverartarchive.org/release/"@ + release_id@,
{
    let mut out = String::from_str("https://coverartarchive.org/release/");
    out.append(release_id);
    out
}

// ---------------------------------------------------------------------
// Download persistence
// ---------------------------------------------------------------------

/// The file extension derived from a download's content type; the
/// common image type is the default.
pub open spec fn image_ext_v(content_type: Option<Seq<char>>) -> Seq<char> {
    match content_type {
        Some(t) => if t == "image/png"@ {
            "png"@
        } else if t == "image/webp"@ {
            "webp"@
        } else if t == "image/gif"@ {
            "gif"@
        } else {
            "jpg"@
        },
        None => "jpg"@,
    }
}

/// Derives the stored file extension from a download's content type.
pub fn image_ext(content_type: Option<&String>) -> (r: String)
    ensures
        r@ == image_ext_v(
            match content_type {
                Some(t) => Some(t@),
                None => None,
            },
        ),
{
    proof {
        reveal_strlit("image/png");
        reveal_strlit("image/webp");
        reveal_strlit("image/gif");
        reveal_strlit("png");
        reveal_strlit("webp");
        reveal_strlit("gif");
        reveal_strlit("jpg");
    }
    match content_type {
        Some(t) => {
            if *t == String::from_str("image/png") {
                String::from_str("png")
            } else if *t == String::from_str("image/webp") {
                String::from_str("webp")
            } else if *t == String::from_str("image/gif") {
                String::from_str("gif")
            } else {
                String::from_str("jpg")
            }
        },
        None => String::from_str("jpg"),
    }
}

/// The avatar cache file name of an artist: keyed by the artist's id
/// under the content-type-derived extension.
pub fn artist_image_filename(artist_id: u64, ext: &str) -> (r: String)
    ensures
        r@ == "artist_"@ + spec_u64_digits(artist_id) + seq!['.'] + ext@,
{
    let mut out = String::from_str("artist_");
    out.append(u64_to_string(artist_id).as_str());
    out.append(".");
    proof {
        reveal_strlit(".");
        reveal_strlit("artist_");
        assert(out@ =~= "artist_"@ + spec_u64_digits(artist_id) + seq!['.']);
    }
    out.append(ext);
    proof {
        assert(out@ =~= "artist_"@ + spec_u64_digits(artist_id) + seq!['.'] + ext@);
    }
    out
}

/// The decimal digits of a number, most significant first.
pub open spec fn spec_u64_digits(n: u64) -> Seq<char>
    decreases n,
{
    if n < 10 {
        seq![((n + 48) as u8) as char]
    } else {
        spec_u64_digits((n / 10) as u64) + seq![((n % 10 + 48) as u8) as char]
    }
}

/// Prints a number in decimal.
pub fn u64_to_string(n: u64) -> (r: String)
    ensures
        r@ == spec_u64_digits(n),
    decreases n,
{
    if n < 10 {
        let c = ((n + 48) as u8) as char;
        let mut v: Vec<char> = Vec::new();
        v.push(c);
        proof {
            assert(v@ =~= spec_u64_digits(n));
        }
        crate::pathutil::string_from_chars(&v)
    } else {
        let mut head = u64_to_string(n / 10);
        let c = ((n % 10 + 48) as u8) as char;
        let mut v: Vec<char> = Vec::new();
        v.push(c);
        let tail = crate::pathutil::string_from_chars(&v);
        head.append(tail.as_str());
        proof {
            assert(head@ =~= spec_u64_digits(n));
        }
        head
    }
}

/// The cover cache file name of an album: keyed by the album's id under
/// the content-type-derived extension.
pub fn album_cover_filename(album_id: u64, ext: &str) -> (r: String)
    ensures
        r@ == spec_u64_digits(album_id) + seq!['.'] + ext@,
{
    let mut out = u64_to_string(album_id);
    out.append(".");
    proof {
        reveal_strlit(".");
        assert(out@ =~= spec_u64_digits(album_id) + seq!['.']);
    }
    out.append(ext);
    proof {
        assert(out@ =~= spec_u64_digits(album_id) + seq!['.'] + ext@);
    }
    out
}

/// Records a successfully downloaded album cover: the reference stored
/// on the row is the cover-cache-relative path of the cache file.
pub fn record_album_cover(catalog: &mut Catalog, album_id: u64, ext: &String)
    requires
        old(catalog).wf(),
    ensures
        final(catalog).wf(),
        final(catalog)@ == crate::catalog::set_album_cover_v(
            old(catalog)@,
            album_id,
            "data/covers/"@ + spec_u64_digits(album_id) + seq!['.'] + ext@,
        ),
{
    let name = album_cover_filename(album_id, ext.as_str());
    let mut reference = String::from_str("data/covers/");
    reference.append(name.as_str());
    proof {
        assert(reference@ =~= "data/covers/"@ + spec_u64_digits(album_id) + seq!['.'] + ext@);
    }
    catalog.set_album_cover(album_id, &reference);
}

/// What a finished artist-image attempt writes into the catalog: a
/// downloaded image is stored under its cache file name; a failed
/// download degrades to the resolved remote URL rather than leaving the
/// field empty.
pub open spec fn artist_image_outcome_v(
    c: CatalogV,
    artist_id: u64,
    url: Seq<char>,
    downloaded_ext: Option<Seq<char>>,
) -> CatalogV {
    match downloaded_ext {
        Some(ext) => set_artist_image_v(
            c,
            artist_id,
            "artist_"@ + spec_u64_digits(artist_id) + seq!['.'] + ext,
        ),
        None => set_artist_image_v(c, artist_id, resolve_image_url_v(url)),
    }
}

/// Records the outcome of one artist-image attempt: on a successful
/// download (its content-type-derived extension given), the cache file
/// name; on failure, the resolved remote URL as a graceful fallback.
pub fn record_artist_image(
    catalog: &mut Catalog,
    artist_id: u64,
    url: &String,
    downloaded_ext: Option<&String>,
)
    requires
        old(catalog).wf(),
    ensures
        final(catalog).wf(),
        final(catalog)@ == artist_image_outcome_v(
            old(catalog)@,
            artist_id,
            url@,
            match downloaded_ext {
                Some(e) => Some(e@),
                None => None,
            },
        ),
{
    match downloaded_ext {
        Some(ext) => {
            let name = artist_image_filename(artist_id, ext.as_str());
            catalog.set_artist_image(artist_id, &name);
        },
        None => {
            let direct = resolve_image_url(url.as_str());
            catalog.set_artist_image(artist_id, &direct);
        },
    }
}

// ---------------------------------------------------------------------
// Album enrichment
// ---------------------------------------------------------------------

/// The release year parsed from a provider release date: the leading
/// digits before the first dash, when they parse.
pub open spec fn release_year_v(date: Seq<char>) -> Option<u32> {
    let head = date.take(year_end_v(date));
    match crate::organizer::parse_id_v(head) {
        Some(v) => if v <= u32::MAX {
            Some(v as u32)
        } else {
            None
        },
        None => None,
    }
}

/// Where the year part of the date ends: at the first dash, or at the
/// end.
pub open spec fn year_end_v(date: Seq<char>) -> int
    decreases date.len(),
{
    if date.len() == 0 {
        0
    } else if date[0] == '-' {
        0
    } else {
        1 + year_end_v(date.drop_first())
    }
}

/// Parses the release year out of a provider release date.
pub fn release_year(date: &String) -> (r: Option<u32>)
    ensures
        r == release_year_v(date@),
{
    let v = crate::pathutil::chars_of(date.as_str());
    let n = v.len();
    let mut i: usize = 0;
    proof {
        assert(v@.skip(0) =~= v@);
    }
    while i < n && v[i] != '-'
        invariant
            i <= n,
            n == v@.len(),
            v@ == date@,
            year_end_v(date@) == i + year_end_v(date@.skip(i as int)),
        decreases n - i,
    {
        proof {
            assert(date@.skip(i as int)[0] == date@[i as int]);
            assert(date@.skip(i as int).drop_first() =~= date@.skip(i + 1 as int));
        }
        i += 1;
    }
    proof {
        if i < n {
            assert(date@.skip(i as int)[0] == date@[i as int]);
        }
        assert(year_end_v(date@) == i as int);
    }
    let head_chars = crate::pathutil::copy_range(&v, 0, i);
    let head = crate::pathutil::string_from_chars(&head_chars);
    proof {
        assert(head@ =~= date@.take(year_end_v(date@)));
    }
    match crate::organizer::parse_id(&head) {
        Some(y) => {
            if y <= 0xFFFF_FFFF {
                Some(y as u32)
            } else {
                None
            }
        },
        None => None,
    }
}

/// One front-cover candidate from the cover-art provider's listing.
#[derive(Debug, Clone, PartialEq, Eq)]
pub struct CoverImageEntry {
    /// Whether the provider marks it as the front cover.
    pub front: bool,
    pub url: String,
}

/// Mathematical view of a cover candidate.
#[verifier::ext_equal]
pub struct CoverImageEntryV {
    pub front: bool,
    pub url: Seq<char>,
}

impl View for CoverImageEntry {
    type V = CoverImageEntryV;

    open spec fn view(&self) -> CoverImageEntryV {
        CoverImageEntryV { front: self.front, url: self.url@ }
    }
}

/// The views of the cover candidates.
pub open spec fn covers_of(v: Seq<CoverImageEntry>) -> Seq<CoverImageEntryV> {
    v.map_values(|x: CoverImageEntry| x@)
}

/// The first candidate marked as the front cover, or -1.
pub open spec fn first_front_cover(entries: Seq<CoverImageEntryV>) -> int
    decreases entries.len(),
{
    if entries.len() == 0 {
        -1
    } else if entries[0].front {
        0
    } else {
        let r = first_front_cover(entries.drop_first());
        if r == -1 {
            -1
        } else {
            1 + r
        }
    }
}

/// `first_front_cover` finds a front cover, and -1 means none.
pub proof fn lemma_first_front_cover(entries: Seq<CoverImageEntryV>)
    ensures
        -1 <= first_front_cover(entries) < entries.len(),
        first_front_cover(entries) >= 0 ==> entries[first_front_cover(entries)].front,
    decreases entries.len(),
{
    if entries.len() > 0 && !entries[0].front {
        lemma_first_front_cover(entries.drop_first());
    }
}

/// Picks the front cover from the cover-art provider's listing: the
/// first image the provider marks as front.
pub fn pick_front_cover(entries: &Vec<CoverImageEntry>) -> (r: Option<String>)
    ensures
        match r {
            Some(u) => first_front_cover(covers_of(entries@)) >= 0 && u@ == covers_of(
                entries@,
            )[first_front_cover(covers_of(entries@))].url,
            None => first_front_cover(covers_of(entries@)) == -1,
        },
{
    let ghost es = covers_of(entries@);
    let n = entries.len();
    let mut i: usize = 0;
    proof {
        assert(es.skip(0) =~= es);
    }
    while i < n
        invariant
            i <= n,
            n == entries@.len(),
            es == covers_of(entries@),
            first_front_cover(es) == (if first_front_cover(es.skip(i as int)) == -1 {
                -1int
            } else {
                i + first_front_cover(es.skip(i as int))
            }),
        decreases n - i,
    {
        proof {
            assert(es.skip(i as int)[0] == es[i as int]);
            assert(es.skip(i as int).drop_first() =~= es.skip(i + 1 as int));
            lemma_first_front_cover(es.skip(i + 1 as int));
        }
        if entries[i].front {
            return Some(entries[i].url.clone());
        }
        i += 1;
    }
    None
}

/// Applies an artist search result: the first result wins, its provider
/// id is persisted on the row. No result leaves the catalog alone.
pub fn apply_artist_search(catalog: &mut Catalog, artist_id: u64, first_result: Option<&String>) -> (r:
    bool)
    requires
        old(catalog).wf(),
    ensures
        final(catalog).wf(),
        match first_result {
            Some(pid) => r && final(catalog)@ == set_artist_provider_v(
                old(catalog)@,
                artist_id,
                pid@,
            ),
            None => !r && *final(catalog) == *old(catalog),
        },
{
    match first_result {
        Some(pid) => {
            catalog.set_artist_provider(artist_id, pid);
            true
        },
        None => false,
    }
}

/// Applies an album search result: the first result wins; its provider
/// id is persisted and the release year filled only if previously
/// unset. Returns whether a cover fetch should follow: only when a
/// result matched and the album still has no recorded cover.
pub fn apply_album_search(
    catalog: &mut Catalog,
    album_id: u64,
    first_result: Option<(&String, Option<&String>)>,
) -> (r: bool)
    requires
        old(catalog).wf(),
    ensures
        final(catalog).wf(),
        match first_result {
            Some(res) => {
                let year = match res.1 {
                    Some(d) => release_year_v(d@),
                    None => None,
                };
                &&& final(catalog)@ == enrich_album_v(old(catalog)@, album_id, res.0@, year)
                &&& r == (crate::catalog::album_id_index_of(old(catalog)@.albums, album_id) >= 0
                    && old(catalog)@.albums[crate::catalog::album_id_index_of(
                    old(catalog)@.albums,
                    album_id,
                )].cover is None)
            },
            None => !r && *final(catalog) == *old(catalog),
        },
{
    proof {
        crate::catalog::lemma_album_id_index(catalog@.albums, album_id);
    }
    match first_result {
        Some((pid, date)) => {
            let no_cover = match catalog.album_by_id(album_id) {
                Some(a) => a.cover.is_none(),
                None => false,
            };
            let year = match date {
                Some(d) => release_year(d),
                None => None,
            };
            catalog.enrich_album(album_id, pid, year);
            no_cover
        },
        None => false,
    }
}

// ---------------------------------------------------------------------
// The batch machinery
// ---------------------------------------------------------------------

/// Starts an artist-sync batch over `total` items: refused while one is
/// already running. An empty batch is reported as success with nothing
/// started — no artist needs syncing — and changes nothing. The result
/// tells whether a batch actually began.
pub fn begin_artist_sync(status: &mut ArtistSyncStatus, total: u32) -> (r: Result<bool, AppError>)
    ensures
        old(status).is_syncing ==> r is Err && r->Err_0 is BadRequest && *final(status) == *old(
            status,
        ),
        !old(status).is_syncing && total == 0 ==> r == Result::<bool, AppError>::Ok(false)
            && *final(status) == *old(status),
        !old(status).is_syncing && total > 0 ==> r == Result::<bool, AppError>::Ok(true)
            && final(status).is_syncing && final(status).current_count == 0
            && final(status).total_count == total && final(status).last_error is None
            && final(status).last_sync_at == old(status).last_sync_at,
{
    if status.is_syncing {
        return Err(AppError::BadRequest(String::from_str("a sync task is already in progress")));
    }
    if total == 0 {
        return Ok(false);
    }
    status.is_syncing = true;
    status.current_count = 0;
    status.total_count = total;
    status.last_error = None;
    Ok(true)
}

/// What one batch item reported: success, a per-item failure, or the
/// per-item timeout that protects the queue.
#[derive(Debug, Clone, PartialEq, Eq)]
pub enum SyncItemOutcome {
    Done,
    Failed(String),
    TimedOut,
}

/// Records one batch item's outcome: the progress counter always
/// advances; a failure or a timeout is recorded as the batch's last
/// error and the batch continues — per-item failures never abort it.
pub fn record_sync_item(status: &mut ArtistSyncStatus, outcome: SyncItemOutcome)
    requires
        old(status).current_count < u32::MAX,
    ensures
        final(status).current_count == old(status).current_count + 1,
        final(status).is_syncing == old(status).is_syncing,
        final(status).total_count == old(status).total_count,
        final(status).last_sync_at == old(status).last_sync_at,
        match outcome {
            SyncItemOutcome::Done => final(status).last_error == old(status).last_error,
            SyncItemOutcome::Failed(m) => final(status).last_error == Some(m),
            SyncItemOutcome::TimedOut => final(status).last_error is Some,
        },
{
    match outcome {
        SyncItemOutcome::Done => {},
        SyncItemOutcome::Failed(m) => {
            status.last_error = Some(m);
        },
        SyncItemOutcome::TimedOut => {
            status.last_error = Some(String::from_str("item timed out"));
        },
    }
    status.current_count = status.current_count + 1;
}

/// Finishes the batch: the running flag clears and the completion time
/// is recorded, whatever the items did.
pub fn finish_artist_sync(status: &mut ArtistSyncStatus, now: u64)
    ensures
        !final(status).is_syncing,
        final(status).last_sync_at == Some(now),
        final(status).current_count == old(status).current_count,
        final(status).total_count == old(status).total_count,
        final(status).last_error == old(status).last_error,
{
    status.is_syncing = false;
    status.last_sync_at = Some(now);
}

/// Whether an artist row lacks an image: none recorded, or recorded
/// empty.
pub open spec fn image_missing_v(a: crate::catalog::ArtistV) -> bool {
    a.image is None || a.image == Some(Seq::<char>::empty())
}

/// The ids of the artists still missing an image, in table order.
pub open spec fn missing_image_ids_v(artists: Seq<crate::catalog::ArtistV>) -> Seq<u64>
    decreases artists.len(),
{
    if artists.len() == 0 {
        Seq::empty()
    } else if image_missing_v(artists.last()) {
        missing_image_ids_v(artists.drop_last()) + seq![artists.last().id]
    } else {
        missing_image_ids_v(artists.drop_last())
    }
}

/// The artists still missing an image: the target list of the
/// missing-only batch.
pub fn artists_missing_image(catalog: &Catalog) -> (r: Vec<u64>)
    ensures
        r@ == missing_image_ids_v(catalog@.artists),
{
    let n = catalog.artists.len();
    let mut r: Vec<u64> = Vec::new();
    let mut i: usize = 0;
    proof {
        assert(r@ =~= missing_image_ids_v(catalog@.artists.take(0)));
    }
    while i < n
        invariant
            i <= n,
            n == catalog.artists@.len(),
            r@ == missing_image_ids_v(catalog@.artists.take(i as int)),
        decreases n - i,
    {
        proof {
            assert(catalog@.artists.take(i + 1 as int).drop_last() =~= catalog@.artists.take(
                i as int,
            ));
            assert(catalog@.artists.take(i + 1 as int).last() == catalog@.artists[i as int]);
        }
        let missing = match &catalog.artists[i].image {
            Some(s) => s.unicode_len() == 0,
            None => true,
        };
        proof {
            match catalog.artists@[i as int].image {
                Some(img) => {
                    if img@.len() == 0 {
                        assert(img@ =~= Seq::<char>::empty());
                    }
                },
                None => {},
            }
            assert(missing == image_missing_v(catalog@.artists[i as int]));
        }
        if missing {
            r.push(catalog.artists[i].id);
        }
        proof {
            assert(r@ =~= missing_image_ids_v(catalog@.artists.take(i + 1 as int)));
        }
        i += 1;
    }
    proof {
        assert(catalog@.artists.take(n as int) =~= catalog@.artists);
    }
    r
}

/// The placeholder synchronized-lyric text produced by the cloud fetch
/// simulation: the title, the artist, and the provenance line.
pub open spec fn simulated_lyrics_v(title: Seq<char>, artist: Seq<char>) -> Seq<char> {
    "[00:00.00] "@ + title + "\n[00:02.00] "@ + artist + "\n[00:04.00] (自动同步云端歌词)"@
}

/// Builds the placeholder synchronized-lyric text written into the
/// track row by the cloud fetch simulation.
pub fn simulated_lyrics(title: &str, artist: &str) -> (r: String)
    ensures
        r@ == simulated_lyrics_v(title@, artist@),
{
    let mut out = String::from_str("[00:00.00] ");
    out.append(title);
    out.append("\n[00:02.00] ");
    out.append(artist);
    out.append("\n[00:04.00] (自动同步云端歌词)");
    out
}

/// Fetches lyrics "from the cloud" for a track: the simulated text is
/// written into its lyrics column, the sync status untouched.
pub fn fetch_lyrics_online(catalog: &mut Catalog, track_id: u64, title: &str, artist: &str)
    requires
        old(catalog).wf(),
    ensures
        final(catalog).wf(),
        final(catalog)@ == set_track_lyrics_v(
            old(catalog)@,
            track_id,
            simulated_lyrics_v(title@, artist@),
        ),
{
    let text = simulated_lyrics(title, artist);
    catalog.update_track_lyrics(track_id, &text);
}

} // verus!
