//! Pure path and text manipulation over `/`-separated path strings.
//!
//! Every function is specified over the sequence of characters of its
//! arguments; directory structure, file names, stems and extensions follow
//! the usual conventions (an extension needs a dot strictly inside the
//! file name).

use vstd::prelude::*;

verus! {

// ---------------------------------------------------------------------
// Conversions between `str` and `Vec<char>`
// ---------------------------------------------------------------------

/// Relies on std's `FromIterator` impl for `String`: collecting an iterator
/// of chars yields the string of exactly those characters, in order.
#[verifier::external_body]
pub(crate) fn string_from_chars(v: &Vec<char>) -> (r: String)
    ensures
        r@ == v@,
{
    v.iter().collect()
}

/// The characters of a string slice, as a vector.
pub fn chars_of(s: &str) -> (r: Vec<char>)
    ensures
        r@ == s@,
{
    let n = s.unicode_len();
    let mut r: Vec<char> = Vec::new();
    let mut i: usize = 0;
    while i < n
        invariant
            i <= n,
            n == s@.len(),
            r@ == s@.take(i as int),
        decreases n - i,
    {
        r.push(s.get_char(i));
        proof {
            assert(r@ =~= s@.take(i + 1 as int));
        }
        i += 1;
    }
    proof {
        assert(s@.take(n as int) =~= s@);
    }
    r
}

// ---------------------------------------------------------------------
// Character classes
// ---------------------------------------------------------------------

/// ASCII lowercasing of one character; any other character is unchanged.
pub open spec fn lower_char(c: char) -> char {
    if 'A' <= c && c <= 'Z' {
        ((c as u32) + 32) as char
    } else {
        c
    }
}

/// ASCII lowercasing of a character sequence.
pub open spec fn lower_of(s: Seq<char>) -> Seq<char> {
    s.map_values(|c: char| lower_char(c))
}

/// Executable ASCII lowercasing of one character.
pub fn lower_char_exec(c: char) -> (r: char)
    ensures
        r == lower_char(c),
{
    let n = c as u32;
    if 65 <= n && n <= 90 {
        ((n + 32) as u8) as char
    } else {
        c
    }
}

/// Executable ASCII lowercasing of a string.
pub fn ascii_lowercase(s: &str) -> (r: String)
    ensures
        r@ == lower_of(s@),
{
    let v = chars_of(s);
    let mut out: Vec<char> = Vec::new();
    let mut i: usize = 0;
    while i < v.len()
        invariant
            i <= v@.len(),
            v@ == s@,
            out@ == lower_of(s@.take(i as int)),
        decreases v@.len() - i,
    {
        out.push(lower_char_exec(v[i]));
        proof {
            assert(out@ =~= lower_of(s@.take(i + 1 as int)));
        }
        i += 1;
    }
    proof {
        assert(s@.take(s@.len() as int) =~= s@);
    }
    string_from_chars(&out)
}

// ---------------------------------------------------------------------
// Searching
// ---------------------------------------------------------------------

/// The index of the last occurrence of `c` in `s`, or -1 if `c` does not
/// occur.
pub open spec fn last_pos_of(s: Seq<char>, c: char) -> int
    decreases s.len(),
{
    if s.len() == 0 {
        -1
    } else if s.last() == c {
        s.len() - 1
    } else {
        last_pos_of(s.drop_last(), c)
    }
}

/// Executable search for the last occurrence of a character.
pub fn last_pos(v: &Vec<char>, c: char) -> (r: Option<usize>)
    ensures
        match r {
            Some(i) => last_pos_of(v@, c) == i as int,
            None => last_pos_of(v@, c) == -1,
        },
{
    let mut i = v.len();
    proof {
        assert(v@.take(v@.len() as int) =~= v@);
    }
    while i > 0
        invariant
            i <= v@.len(),
            last_pos_of(v@, c) == last_pos_of(v@.take(i as int), c),
        decreases i,
    {
        if v[i - 1] == c {
            proof {
                assert(v@.take(i as int).last() == v@[i - 1]);
            }
            return Some(i - 1);
        }
        proof {
            assert(v@.take(i as int).drop_last() =~= v@.take(i - 1 as int));
        }
        i -= 1;
    }
    None
}

/// Copy of the characters of `v` in positions `[a, b)`.
pub fn copy_range(v: &Vec<char>, a: usize, b: usize) -> (r: Vec<char>)
    requires
        a <= b <= v@.len(),
    ensures
        r@ == v@.subrange(a as int, b as int),
{
    let mut r: Vec<char> = Vec::new();
    let mut i = a;
    while i < b
        invariant
            a <= i <= b <= v@.len(),
            r@ == v@.subrange(a as int, i as int),
        decreases b - i,
    {
        r.push(v[i]);
        proof {
            assert(r@ =~= v@.subrange(a as int, i + 1 as int));
        }
        i += 1;
    }
    r
}

// ---------------------------------------------------------------------
// Path structure
// ---------------------------------------------------------------------

/// The position where the file name of `p` starts: just after the last
/// separator, or 0 if there is none.
pub open spec fn name_start(p: Seq<char>) -> int {
    last_pos_of(p, '/') + 1
}

/// The file name of `p`: everything after the last separator.
pub open spec fn spec_file_name(p: Seq<char>) -> Seq<char> {
    p.subrange(name_start(p), p.len() as int)
}

/// The directory part of `p`: everything before the last separator, or
/// nothing if `p` has no separator.
pub open spec fn spec_parent(p: Seq<char>) -> Option<Seq<char>> {
    if last_pos_of(p, '/') >= 0 {
        Some(p.subrange(0, last_pos_of(p, '/')))
    } else {
        None
    }
}

/// The position of the dot introducing the extension of `p`, or -1: the
/// last dot, provided it lies strictly inside the file name.
pub open spec fn ext_dot(p: Seq<char>) -> int {
    if last_pos_of(p, '.') > name_start(p) {
        last_pos_of(p, '.')
    } else {
        -1
    }
}

/// The extension of `p`, without its dot.
pub open spec fn spec_extension(p: Seq<char>) -> Option<Seq<char>> {
    if ext_dot(p) >= 0 {
        Some(p.subrange(ext_dot(p) + 1, p.len() as int))
    } else {
        None
    }
}

/// The stem of `p`: its file name without the extension and its dot.
pub open spec fn spec_stem(p: Seq<char>) -> Seq<char> {
    if ext_dot(p) >= 0 {
        p.subrange(name_start(p), ext_dot(p))
    } else {
        spec_file_name(p)
    }
}

/// `p` with its extension (if any) replaced by `e`.
pub open spec fn spec_with_extension(p: Seq<char>, e: Seq<char>) -> Seq<char> {
    if ext_dot(p) >= 0 {
        p.subrange(0, ext_dot(p)) + seq!['.'] + e
    } else {
        p + seq!['.'] + e
    }
}

/// `dir` and `name` joined by a separator (none added after a trailing
/// separator or an empty `dir`).
pub open spec fn spec_join(dir: Seq<char>, name: Seq<char>) -> Seq<char> {
    if dir.len() == 0 {
        name
    } else if dir.last() == '/' {
        dir + name
    } else {
        dir + seq!['/'] + name
    }
}

/// Bounds of `last_pos_of`: the result is -1 or a valid index holding `c`.
pub proof fn lemma_last_pos_bounds(s: Seq<char>, c: char)
    ensures
        -1 <= last_pos_of(s, c) < s.len(),
        last_pos_of(s, c) >= 0 ==> s[last_pos_of(s, c)] == c,
    decreases s.len(),
{
    if s.len() > 0 && s.last() != c {
        lemma_last_pos_bounds(s.drop_last(), c);
    }
}

/// The file name of `p`.
pub fn file_name(p: &str) -> (r: String)
    ensures
        r@ == spec_file_name(p@),
{
    let v = chars_of(p);
    proof {
        lemma_last_pos_bounds(p@, '/');
    }
    let n = v.len();
    let start = match last_pos(&v, '/') {
        Some(i) => i + 1,
        None => 0,
    };
    let part = copy_range(&v, start, v.len());
    string_from_chars(&part)
}

/// The directory part of `p`, if `p` has a separator.
pub fn parent(p: &str) -> (r: Option<String>)
    ensures
        match r {
            Some(d) => spec_parent(p@) == Some(d@),
            None => spec_parent(p@) is None,
        },
{
    let v = chars_of(p);
    proof {
        lemma_last_pos_bounds(p@, '/');
    }
    match last_pos(&v, '/') {
        Some(i) => {
            let part = copy_range(&v, 0, i);
            Some(string_from_chars(&part))
        },
        None => None,
    }
}

/// The extension of `p`, without its dot.
pub fn extension(p: &str) -> (r: Option<String>)
    ensures
        match r {
            Some(e) => spec_extension(p@) == Some(e@),
            None => spec_extension(p@) is None,
        },
{
    let v = chars_of(p);
    proof {
        lemma_last_pos_bounds(p@, '.');
        lemma_last_pos_bounds(p@, '/');
    }
    let n = v.len();
    let sep = last_pos(&v, '/');
    let dot = last_pos(&v, '.');
    let start: usize = match sep {
        Some(i) => i + 1,
        None => 0,
    };
    match dot {
        Some(d) if d >= 1 && d - 1 >= start => {
            let part = copy_range(&v, d + 1, n);
            Some(string_from_chars(&part))
        },
        _ => None,
    }
}

/// The stem of `p`: its file name without the extension.
pub fn file_stem(p: &str) -> (r: String)
    ensures
        r@ == spec_stem(p@),
{
    let v = chars_of(p);
    proof {
        lemma_last_pos_bounds(p@, '.');
        lemma_last_pos_bounds(p@, '/');
    }
    let n = v.len();
    let sep = last_pos(&v, '/');
    let dot = last_pos(&v, '.');
    let start: usize = match sep {
        Some(i) => i + 1,
        None => 0,
    };
    let end: usize = match dot {
        Some(d) if d >= 1 && d - 1 >= start => d,
        _ => n,
    };
    let part = copy_range(&v, start, end);
    string_from_chars(&part)
}

/// `p` with its extension (if any) replaced by `e`.
pub fn with_extension(p: &str, e: &str) -> (r: String)
    ensures
        r@ == spec_with_extension(p@, e@),
{
    let v = chars_of(p);
    proof {
        lemma_last_pos_bounds(p@, '.');
        lemma_last_pos_bounds(p@, '/');
    }
    let n = v.len();
    let sep = last_pos(&v, '/');
    let dot = last_pos(&v, '.');
    let start: usize = match sep {
        Some(i) => i + 1,
        None => 0,
    };
    let end: usize = match dot {
        Some(d) if d >= 1 && d - 1 >= start => d,
        _ => n,
    };
    let part = copy_range(&v, 0, end);
    let mut out = string_from_chars(&part);
    out.append(".");
    proof {
        reveal_strlit(".");
        assert(spec_with_extension(p@, e@) =~= p@.subrange(0, end as int) + seq!['.'] + e@);
        assert(out@ =~= p@.subrange(0, end as int) + seq!['.']);
    }
    out.append(e);
    out
}

/// `dir` and `name` joined by a separator.
pub fn join(dir: &str, name: &str) -> (r: String)
    ensures
        r@ == spec_join(dir@, name@),
{
    let n = dir.unicode_len();
    if n == 0 {
        return name.to_owned();
    }
    let last = dir.get_char(n - 1);
    let mut out = dir.to_owned();
    if last != '/' {
        out.append("/");
        proof {
            reveal_strlit("/");
            assert(out@ =~= dir@ + seq!['/']);
        }
    }
    out.append(name);
    proof {
        if last == '/' {
            assert(dir@.last() == '/');
        } else {
            assert(out@ =~= dir@ + seq!['/'] + name@);
        }
    }
    out
}

// ---------------------------------------------------------------------
// Substring search and related text operations
// ---------------------------------------------------------------------

/// Whether `pat` occurs in `s` starting at position `i`.
pub open spec fn occurs_at(s: Seq<char>, pat: Seq<char>, i: int) -> bool {
    0 <= i && i + pat.len() <= s.len() && s.subrange(i, i + pat.len()) == pat
}

/// The position of the first occurrence of `pat` in `s`, or -1.
pub open spec fn find_sub_of(s: Seq<char>, pat: Seq<char>) -> int
    decreases s.len(),
{
    if pat.len() > s.len() {
        -1
    } else if pat.is_prefix_of(s) {
        0
    } else if s.len() == 0 {
        -1
    } else {
        let r = find_sub_of(s.drop_first(), pat);
        if r == -1 {
            -1
        } else {
            1 + r
        }
    }
}

/// Whether `pat` occurs anywhere in `s`.
pub open spec fn contains_sub(s: Seq<char>, pat: Seq<char>) -> bool {
    find_sub_of(s, pat) >= 0
}

/// Whether `v` starts with `pat`, beginning at position `from`.
fn is_prefix_at(v: &Vec<char>, pat: &Vec<char>, from: usize) -> (r: bool)
    requires
        from + pat@.len() <= v@.len(),
    ensures
        r == pat@.is_prefix_of(v@.skip(from as int)),
{
    let n = v.len();
    let mut j: usize = 0;
    while j < pat.len()
        invariant
            j <= pat@.len(),
            from + pat@.len() <= v@.len(),
            n == v@.len(),
            forall|k: int| 0 <= k < j ==> v@[from + k] == pat@[k],
        decreases pat@.len() - j,
    {
        if v[from + j] != pat[j] {
            proof {
                assert(v@.skip(from as int)[j as int] == v@[from + j]);
                assert(!pat@.is_prefix_of(v@.skip(from as int)));
            }
            return false;
        }
        j += 1;
    }
    proof {
        assert(pat@ =~= v@.skip(from as int).subrange(0, pat@.len() as int));
    }
    true
}

/// Executable search for the first occurrence of `pat` in `v`.
pub fn find_sub(v: &Vec<char>, pat: &Vec<char>) -> (r: Option<usize>)
    ensures
        match r {
            Some(i) => find_sub_of(v@, pat@) == i as int,
            None => find_sub_of(v@, pat@) == -1,
        },
{
    let n = v.len();
    let m = pat.len();
    if m > n {
        return None;
    }
    let mut i: usize = 0;
    proof {
        assert(v@.skip(0) =~= v@);
    }
    while i <= n - m
        invariant
            m <= n,
            i <= n - m + 1,
            n == v@.len(),
            m == pat@.len(),
            find_sub_of(v@, pat@) == (if find_sub_of(v@.skip(i as int), pat@) == -1 {
                -1int
            } else {
                i + find_sub_of(v@.skip(i as int), pat@)
            }),
        decreases n - i,
    {
        if is_prefix_at(v, pat, i) {
            return Some(i);
        }
        proof {
            let s_i = v@.skip(i as int);
            assert(s_i.len() == n - i >= m);
            if m == 0 {
                assert(pat@ =~= s_i.subrange(0, 0));
            }
            assert(s_i.drop_first() =~= v@.skip(i + 1 as int));
            lemma_find_sub_bounds(v@.skip(i + 1 as int), pat@);
            assert(find_sub_of(s_i, pat@) == (if find_sub_of(v@.skip(i + 1 as int), pat@) == -1 {
                -1int
            } else {
                1 + find_sub_of(v@.skip(i + 1 as int), pat@)
            }));
        }
        i += 1;
    }
    proof {
        assert(pat@.len() > v@.skip(i as int).len());
    }
    None
}

/// The position of the last occurrence of `pat` in `s`, or -1: an
/// occurrence either ends at the very end of `s` or lies wholly inside
/// the prefix without the last character.
pub open spec fn rfind_sub_of(s: Seq<char>, pat: Seq<char>) -> int
    decreases s.len(),
{
    if pat.len() > s.len() {
        -1
    } else if pat.is_prefix_of(s.skip(s.len() - pat.len())) {
        s.len() - pat.len()
    } else if s.len() == 0 {
        -1
    } else {
        rfind_sub_of(s.drop_last(), pat)
    }
}

/// Bounds of `rfind_sub_of`: the result is -1 or the position of an
/// occurrence.
pub proof fn lemma_rfind_sub_bounds(s: Seq<char>, pat: Seq<char>)
    ensures
        rfind_sub_of(s, pat) == -1 || (0 <= rfind_sub_of(s, pat) && rfind_sub_of(s, pat) + pat.len()
            <= s.len()),
        rfind_sub_of(s, pat) >= 0 ==> occurs_at(s, pat, rfind_sub_of(s, pat)),
    decreases s.len(),
{
    if pat.len() <= s.len() && pat.is_prefix_of(s.skip(s.len() - pat.len())) {
        let k = s.len() - pat.len();
        assert(s.subrange(k as int, k + pat.len()) =~= s.skip(k as int).subrange(
            0,
            pat.len() as int,
        ));
    } else if s.len() > 0 && pat.len() <= s.len() {
        lemma_rfind_sub_bounds(s.drop_last(), pat);
        let r = rfind_sub_of(s, pat);
        if r >= 0 {
            assert(s.drop_last().subrange(r, r + pat.len()) =~= s.subrange(r, r + pat.len()));
        }
    }
}

/// Executable search for the last occurrence of `pat` in `v`.
pub fn rfind_sub(v: &Vec<char>, pat: &Vec<char>) -> (r: Option<usize>)
    ensures
        match r {
            Some(i) => rfind_sub_of(v@, pat@) == i as int,
            None => rfind_sub_of(v@, pat@) == -1,
        },
{
    let n = v.len();
    let m = pat.len();
    if m > n {
        return None;
    }
    let mut k: usize = n;
    proof {
        assert(v@.take(n as int) =~= v@);
    }
    while k >= m
        invariant
            m <= n,
            k <= n,
            n == v@.len(),
            m == pat@.len(),
            rfind_sub_of(v@, pat@) == rfind_sub_of(v@.take(k as int), pat@),
        decreases k,
    {
        let ghost t = v@.take(k as int);
        proof {
            assert(t.skip(k - m) =~= v@.subrange(k - m, k as int));
            assert(v@.skip(0) =~= v@);
        }
        if is_prefix_at(v, pat, k - m) {
            proof {
                assert(pat@.is_prefix_of(v@.skip(k - m)));
                assert(t.skip(k - m).len() == m);
                assert forall|j: int| 0 <= j < m implies #[trigger] t.skip(k - m)[j] == pat@[j] by {
                    assert(v@.skip(k - m)[j] == v@[k - m + j]);
                    assert(pat@ =~= v@.skip(k - m).subrange(0, m as int));
                }
                assert(pat@ =~= t.skip(k - m).subrange(0, m as int));
                assert(rfind_sub_of(t, pat@) == k - m);
            }
            return Some(k - m);
        }
        proof {
            assert(!pat@.is_prefix_of(v@.skip(k - m)));
            if pat@.is_prefix_of(t.skip(k - m)) {
                assert(pat@ =~= t.skip(k - m).subrange(0, m as int));
                assert forall|j: int| 0 <= j < m implies #[trigger] v@.skip(k - m)[j]
                    == pat@[j] by {
                    assert(t.skip(k - m)[j] == v@[k - m + j]);
                    assert(v@.skip(k - m)[j] == v@[k - m + j]);
                }
                assert(pat@ =~= v@.skip(k - m).subrange(0, m as int));
                assert(false);
            }
            assert(t.drop_last() =~= v@.take(k - 1));
        }
        k -= 1;
    }
    proof {
        assert(v@.take(k as int).len() < m);
    }
    None
}

/// Whether `pat` occurs anywhere in `s`.
pub fn contains_str(s: &str, pat: &str) -> (r: bool)
    ensures
        r == contains_sub(s@, pat@),
{
    let v = chars_of(s);
    let p = chars_of(pat);
    proof {
        lemma_find_sub_bounds(s@, pat@);
    }
    find_sub(&v, &p).is_some()
}

/// Whether `s` and `pat` match case-insensitively anywhere: `pat` occurs
/// in `s` up to ASCII case.
pub fn contains_ci(s: &str, pat: &str) -> (r: bool)
    ensures
        r == contains_sub(lower_of(s@), lower_of(pat@)),
{
    let ls = ascii_lowercase(s);
    let lp = ascii_lowercase(pat);
    contains_str(ls.as_str(), lp.as_str())
}

/// Whether `s` starts with `pat`.
pub fn starts_with_str(s: &str, pat: &str) -> (r: bool)
    ensures
        r == pat@.is_prefix_of(s@),
{
    let v = chars_of(s);
    let p = chars_of(pat);
    if p.len() > v.len() {
        return false;
    }
    proof {
        assert(v@.skip(0) =~= v@);
    }
    is_prefix_at(&v, &p, 0)
}

/// Whether `s` ends with `pat`.
pub fn ends_with_str(s: &str, pat: &str) -> (r: bool)
    ensures
        r == pat@.is_suffix_of(s@),
{
    let v = chars_of(s);
    let p = chars_of(pat);
    let n = v.len();
    let m = p.len();
    if m > n {
        return false;
    }
    let from = n - m;
    let r = is_prefix_at(&v, &p, from);
    proof {
        assert(s@.skip(from as int) =~= s@.subrange(s@.len() - pat@.len(), s@.len() as int));
        if pat@.is_prefix_of(s@.skip(from as int)) {
            assert(pat@.is_suffix_of(s@));
        }
        if pat@.is_suffix_of(s@) {
            assert(pat@.is_prefix_of(s@.skip(from as int)));
        }
    }
    r
}

/// Bounds of `find_sub_of`: the result is -1 or the position of an
/// occurrence, and -1 means no occurrence at all.
pub proof fn lemma_find_sub_bounds(s: Seq<char>, pat: Seq<char>)
    ensures
        -1 <= find_sub_of(s, pat) <= s.len(),
        find_sub_of(s, pat) >= 0 ==> occurs_at(s, pat, find_sub_of(s, pat)),
    decreases s.len(),
{
    if pat.len() > s.len() {
    } else if pat.is_prefix_of(s) {
        assert(s.subrange(0, pat.len() as int) =~= pat);
    } else if s.len() == 0 {
    } else {
        lemma_find_sub_bounds(s.drop_first(), pat);
        let r = find_sub_of(s.drop_first(), pat);
        if r >= 0 {
            assert(s.drop_first().subrange(r, r + pat.len()) =~= s.subrange(
                1 + r,
                1 + r + pat.len(),
            ));
        }
    }
}

/// `s` with the first occurrence of `from` (if any) replaced by `to`.
pub open spec fn spec_replace_first(s: Seq<char>, from: Seq<char>, to: Seq<char>) -> Seq<char> {
    let i = find_sub_of(s, from);
    if i >= 0 {
        s.subrange(0, i) + to + s.subrange(i + from.len(), s.len() as int)
    } else {
        s
    }
}

/// Replaces the first occurrence of `from` in `s` by `to`; `s` unchanged
/// if `from` does not occur.
pub fn replace_first(s: &str, from: &str, to: &str) -> (r: String)
    ensures
        r@ == spec_replace_first(s@, from@, to@),
{
    let v = chars_of(s);
    let p = chars_of(from);
    let n = v.len();
    proof {
        lemma_find_sub_bounds(s@, from@);
    }
    match find_sub(&v, &p) {
        Some(i) => {
            let head = copy_range(&v, 0, i);
            let tail = copy_range(&v, i + p.len(), n);
            let mut out = string_from_chars(&head);
            out.append(to);
            let tail_s = string_from_chars(&tail);
            out.append(tail_s.as_str());
            out
        },
        None => s.to_owned(),
    }
}

/// `s` without its null characters.
pub open spec fn strip_nulls_of(s: Seq<char>) -> Seq<char>
    decreases s.len(),
{
    if s.len() == 0 {
        Seq::empty()
    } else if s.last() == '\0' {
        strip_nulls_of(s.drop_last())
    } else {
        strip_nulls_of(s.drop_last()) + seq![s.last()]
    }
}

/// Removes every null character from `s`.
pub fn strip_nulls(s: &str) -> (r: String)
    ensures
        r@ == strip_nulls_of(s@),
{
    let v = chars_of(s);
    let mut out: Vec<char> = Vec::new();
    let mut i: usize = 0;
    while i < v.len()
        invariant
            i <= v@.len(),
            v@ == s@,
            out@ == strip_nulls_of(s@.take(i as int)),
        decreases v@.len() - i,
    {
        proof {
            assert(s@.take(i + 1 as int).drop_last() =~= s@.take(i as int));
            assert(s@.take(i + 1 as int).last() == s@[i as int]);
        }
        if v[i] != '\0' {
            out.push(v[i]);
        }
        i += 1;
    }
    proof {
        assert(s@.take(s@.len() as int) =~= s@);
    }
    string_from_chars(&out)
}

// ---------------------------------------------------------------------
// Tokens and trimming
// ---------------------------------------------------------------------

/// Whether `c` separates the leading token of a loose lyric file name.
pub open spec fn is_token_sep(c: char) -> bool {
    c == '-' || c == '_' || c == ' '
}

/// The length of the leading run of non-separator characters of `s`.
pub open spec fn token_end(s: Seq<char>) -> int
    decreases s.len(),
{
    if s.len() == 0 {
        0
    } else if is_token_sep(s[0]) {
        0
    } else {
        1 + token_end(s.drop_first())
    }
}

/// `s` without leading spaces.
pub open spec fn trim_start_of(s: Seq<char>) -> Seq<char>
    decreases s.len(),
{
    if s.len() == 0 {
        s
    } else if s[0] == ' ' {
        trim_start_of(s.drop_first())
    } else {
        s
    }
}

/// `s` without trailing spaces.
pub open spec fn trim_end_of(s: Seq<char>) -> Seq<char>
    decreases s.len(),
{
    if s.len() == 0 {
        s
    } else if s.last() == ' ' {
        trim_end_of(s.drop_last())
    } else {
        s
    }
}

/// `s` without leading and trailing spaces.
pub open spec fn trim_of(s: Seq<char>) -> Seq<char> {
    trim_end_of(trim_start_of(s))
}

/// The leading token of `s`: everything before the first `-`, `_` or
/// space, trimmed of spaces (trimming matters only for the whole-string
/// case, the token itself cannot hold a space).
pub open spec fn spec_first_token(s: Seq<char>) -> Seq<char> {
    trim_of(s.subrange(0, token_end(s)))
}

/// The leading token of `s`, used as the search keyword for a loose
/// lyric file.
pub fn first_token(s: &str) -> (r: String)
    ensures
        r@ == spec_first_token(s@),
{
    let v = chars_of(s);
    let n = v.len();
    let mut i: usize = 0;
    proof {
        assert(v@.skip(0) =~= v@);
    }
    while i < n && !(v[i] == '-' || v[i] == '_' || v[i] == ' ')
        invariant
            i <= n,
            n == v@.len(),
            v@ == s@,
            token_end(s@) == i + token_end(s@.skip(i as int)),
        decreases n - i,
    {
        proof {
            assert(s@.skip(i as int)[0] == s@[i as int]);
            assert(s@.skip(i as int).drop_first() =~= s@.skip(i + 1 as int));
        }
        i += 1;
    }
    proof {
        if i < n {
            assert(s@.skip(i as int)[0] == s@[i as int]);
        }
        assert(token_end(s@) == i as int);
    }
    let tok = copy_range(&v, 0, i);
    // the token holds no space, so trimming it leaves it unchanged; prove
    // this by showing both trims are identities on it
    proof {
        let t = s@.subrange(0, token_end(s@));
        lemma_token_no_sep(s@);
        assert(forall|k: int| 0 <= k < t.len() ==> t[k] == s@[k] && !is_token_sep(#[trigger] t[k]));
        lemma_trim_no_space(t);
    }
    string_from_chars(&tok)
}

/// No separator occurs before the end of the leading token.
proof fn lemma_token_no_sep(s: Seq<char>)
    ensures
        token_end(s) <= s.len(),
        forall|k: int| 0 <= k < token_end(s) ==> !is_token_sep(#[trigger] s[k]),
    decreases s.len(),
{
    if s.len() > 0 && !is_token_sep(s[0]) {
        lemma_token_no_sep(s.drop_first());
        assert forall|k: int| 0 <= k < token_end(s) implies !is_token_sep(#[trigger] s[k]) by {
            if k > 0 {
                assert(s.drop_first()[k - 1] == s[k]);
            }
        }
    }
}

/// Trimming a string with no spaces leaves it unchanged.
proof fn lemma_trim_no_space(s: Seq<char>)
    requires
        forall|k: int| 0 <= k < s.len() ==> s[k] != ' ',
    ensures
        trim_of(s) == s,
{
    if s.len() > 0 {
        assert(s[0] != ' ');
        assert(s.last() != ' ');
    }
}

// ---------------------------------------------------------------------
// Prefix stripping for relative paths
// ---------------------------------------------------------------------

/// `p` relative to `root`: `p` without the prefix `root` and without one
/// separator following it; `p` itself if `root` is not a prefix.
pub open spec fn spec_strip_root(p: Seq<char>, root: Seq<char>) -> Seq<char> {
    if root.is_prefix_of(p) {
        let rest = p.skip(root.len() as int);
        if rest.len() > 0 && rest[0] == '/' {
            rest.drop_first()
        } else {
            rest
        }
    } else {
        p
    }
}

/// Strips the library root (and one following separator) from `p`, for
/// storing root-relative references in the catalog.
pub fn strip_root(p: &str, root: &str) -> (r: String)
    ensures
        r@ == spec_strip_root(p@, root@),
{
    let v = chars_of(p);
    let rv = chars_of(root);
    let n = v.len();
    if rv.len() > n {
        proof {
            assert(!root@.is_prefix_of(p@));
        }
        return p.to_owned();
    }
    proof {
        assert(v@.skip(0) =~= v@);
    }
    if !is_prefix_at(&v, &rv, 0) {
        return p.to_owned();
    }
    let mut start = rv.len();
    if start < n && v[start] == '/' {
        proof {
            assert(p@.skip(root@.len() as int)[0] == p@[root@.len() as int]);
            assert(p@.skip(root@.len() as int).drop_first() =~= p@.subrange(
                root@.len() as int + 1,
                p@.len() as int,
            ));
        }
        start = start + 1;
    } else {
        proof {
            assert(p@.skip(root@.len() as int) =~= p@.subrange(root@.len() as int, p@.len() as int));
        }
    }
    let part = copy_range(&v, start, n);
    string_from_chars(&part)
}

// ---------------------------------------------------------------------
// Audio files
// ---------------------------------------------------------------------

/// Whether `e` is a recognized audio extension, up to ASCII case.
pub open spec fn is_audio_ext(e: Seq<char>) -> bool {
    ||| lower_of(e) == "flac"@
    ||| lower_of(e) == "mp3"@
    ||| lower_of(e) == "m4a"@
    ||| lower_of(e) == "ogg"@
    ||| lower_of(e) == "wav"@
}

/// Whether the path `p` names a recognized audio file.
pub open spec fn spec_is_audio_file(p: Seq<char>) -> bool {
    match spec_extension(p) {
        Some(e) => is_audio_ext(e),
        None => false,
    }
}

/// Whether the path `p` names a recognized audio file, by its extension
/// (case-insensitive): flac, mp3, m4a, ogg or wav.
pub fn is_audio_file(p: &str) -> (r: bool)
    ensures
        r == spec_is_audio_file(p@),
{
    match extension(p) {
        Some(e) => {
            let low = ascii_lowercase(e.as_str());
            let r = low == String::from_str("flac") || low == String::from_str("mp3") || low
                == String::from_str("m4a") || low == String::from_str("ogg") || low
                == String::from_str("wav");
            r
        },
        None => false,
    }
}

} // verus!
