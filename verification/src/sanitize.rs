//! Sanitization of path components derived from tag text, in two
//! flavours the system uses side by side: the thorough file-name
//! sanitizer of an outside crate, and a light character map that only
//! replaces characters unusable in path components.

use vstd::prelude::*;

verus! {

/// What `sanitize_filename::sanitize_with_options` returns for a name,
/// with an empty replacement, truncation on and the cross-platform
/// (windows) rules off: a pure function of the name.
pub uninterp spec fn sanitized_of(name: Seq<char>) -> Seq<char>;

/// Relies on `sanitize_filename::sanitize_with_options`: removes path
/// separators, characters illegal in file names, control characters and
/// all-dot reserved names, and truncates over-long names. The options
/// are fixed so the result does not depend on the host platform.
#[verifier::external_body]
pub(crate) fn sanitize_component(name: &str) -> (r: String)
    ensures
        r@ == sanitized_of(name@),
{
    sanitize_filename::sanitize_with_options(
        name,
        sanitize_filename::Options { windows: false, truncate: true, replacement: "" },
    )
}

/// Whether the light sanitizer replaces this character: the characters
/// unusable in a path component.
pub open spec fn is_unsafe_char(c: char) -> bool {
    c == '/' || c == '\\' || c == '<' || c == '>' || c == ':' || c == '"' || c == '|' || c == '?'
        || c == '*'
}

/// The light sanitizer's action on one character.
pub open spec fn safe_char(c: char) -> char {
    if is_unsafe_char(c) {
        '_'
    } else {
        c
    }
}

/// The light sanitizer's action on a whole component.
pub open spec fn safe_component_of(s: Seq<char>) -> Seq<char> {
    s.map_values(|c: char| safe_char(c))
}

/// Maps each character unusable in a path component to an underscore,
/// keeping everything else; used when persisting embedded cover art.
pub fn safe_component(s: &str) -> (r: String)
    ensures
        r@ == safe_component_of(s@),
{
    let v = crate::pathutil::chars_of(s);
    let mut out: Vec<char> = Vec::new();
    let mut i: usize = 0;
    while i < v.len()
        invariant
            i <= v@.len(),
            v@ == s@,
            out@ == safe_component_of(s@.take(i as int)),
        decreases v@.len() - i,
    {
        let c = v[i];
        let mapped = if c == '/' || c == '\\' || c == '<' || c == '>' || c == ':' || c == '"' || c
            == '|' || c == '?' || c == '*' {
            '_'
        } else {
            c
        };
        out.push(mapped);
        proof {
            assert(out@ =~= safe_component_of(s@.take(i + 1 as int)));
        }
        i += 1;
    }
    proof {
        assert(s@.take(s@.len() as int) =~= s@);
    }
    crate::pathutil::string_from_chars(&out)
}

} // verus!
