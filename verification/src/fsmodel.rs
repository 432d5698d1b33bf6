//! A model filesystem: the set of files the organizer manipulates, each
//! a path with an opaque content tag. The organizer's move decisions are
//! verified against this model; the embedding runtime mirrors each
//! operation on the real filesystem.

use vstd::prelude::*;

verus! {

use crate::error::AppError;

/// One file: a path, an opaque content tag (identity of the bytes),
/// and the content's size in bytes.
#[derive(Debug, Clone, PartialEq, Eq)]
pub struct FsFile {
    pub path: String,
    pub content: u64,
    pub size: u64,
}

/// Mathematical view of a file.
#[verifier::ext_equal]
pub struct FsFileV {
    pub path: Seq<char>,
    pub content: u64,
    pub size: u64,
}

impl View for FsFile {
    type V = FsFileV;

    open spec fn view(&self) -> FsFileV {
        FsFileV { path: self.path@, content: self.content, size: self.size }
    }
}

/// The model filesystem.
#[derive(Debug, Clone, PartialEq, Eq)]
pub struct MemFs {
    pub files: Vec<FsFile>,
}

impl View for MemFs {
    type V = Seq<FsFileV>;

    open spec fn view(&self) -> Seq<FsFileV> {
        self.files@.map_values(|f: FsFile| f@)
    }
}

/// Index of the file at `path`, or -1.
pub open spec fn fs_index_of(s: Seq<FsFileV>, path: Seq<char>) -> int
    decreases s.len(),
{
    if s.len() == 0 {
        -1
    } else if s[0].path == path {
        0
    } else {
        let r = fs_index_of(s.drop_first(), path);
        if r == -1 {
            -1
        } else {
            1 + r
        }
    }
}

/// Whether a file exists at `path`.
pub open spec fn fs_contains(s: Seq<FsFileV>, path: Seq<char>) -> bool {
    fs_index_of(s, path) >= 0
}

/// The content at `path` (meaningful only when the file exists).
pub open spec fn fs_content(s: Seq<FsFileV>, path: Seq<char>) -> u64 {
    s[fs_index_of(s, path)].content
}

/// The size of the file at `path` (meaningful only when it exists).
pub open spec fn fs_size(s: Seq<FsFileV>, path: Seq<char>) -> u64 {
    s[fs_index_of(s, path)].size
}

/// `fs_index_of` finds the first match, and -1 means no match.
pub proof fn lemma_fs_index(s: Seq<FsFileV>, path: Seq<char>)
    ensures
        -1 <= fs_index_of(s, path) < s.len(),
        fs_index_of(s, path) >= 0 ==> s[fs_index_of(s, path)].path == path,
        fs_index_of(s, path) == -1 ==> forall|j: int|
            0 <= j < s.len() ==> (#[trigger] s[j]).path != path,
    decreases s.len(),
{
    if s.len() > 0 && !(s[0].path == path) {
        lemma_fs_index(s.drop_first(), path);
        assert forall|j: int| 0 <= j < s.len() && fs_index_of(s, path) == -1 implies (
        #[trigger] s[j]).path != path by {
            if j > 0 {
                assert(s.drop_first()[j - 1] == s[j]);
            }
        }
    }
}

/// The filesystem without the file at `path` (unchanged if none).
pub open spec fn fs_remove_v(s: Seq<FsFileV>, path: Seq<char>) -> Seq<FsFileV> {
    if fs_index_of(s, path) >= 0 {
        s.remove(fs_index_of(s, path))
    } else {
        s
    }
}

/// The filesystem with `content` of `size` bytes at `path`, replacing
/// what was there.
pub open spec fn fs_put_v(s: Seq<FsFileV>, path: Seq<char>, content: u64, size: u64) -> Seq<FsFileV> {
    if fs_index_of(s, path) >= 0 {
        s.update(fs_index_of(s, path), FsFileV { path, content, size })
    } else {
        s.push(FsFileV { path, content, size })
    }
}

/// The filesystem after the file at `src` is moved to `dest`: `src` is
/// gone and `dest` holds its content (replacing any previous file
/// there). Meaningful only when `src` exists.
pub open spec fn fs_move_v(s: Seq<FsFileV>, src: Seq<char>, dest: Seq<char>) -> Seq<FsFileV> {
    fs_put_v(fs_remove_v(s, src), dest, fs_content(s, src), fs_size(s, src))
}

/// Paths are unique.
pub open spec fn fs_wf(s: Seq<FsFileV>) -> bool {
    forall|i: int, j: int|
        0 <= i < j < s.len() ==> (#[trigger] s[i]).path != (#[trigger] s[j]).path
}

/// Removing a file preserves path uniqueness.
pub proof fn lemma_fs_remove_wf(s: Seq<FsFileV>, path: Seq<char>)
    requires
        fs_wf(s),
    ensures
        fs_wf(fs_remove_v(s, path)),
{
    lemma_fs_index(s, path);
    let k = fs_index_of(s, path);
    if k >= 0 {
        let s2 = s.remove(k);
        assert forall|i: int, j: int| 0 <= i < j < s2.len() implies (#[trigger] s2[i]).path != (
        #[trigger] s2[j]).path by {
            let i0 = if i < k {
                i
            } else {
                i + 1
            };
            let j0 = if j < k {
                j
            } else {
                j + 1
            };
            assert(s2[i] == s[i0] && s2[j] == s[j0]);
        }
    }
}

/// Putting a file preserves path uniqueness when nothing else has its
/// path, which removal of the destination's occupant guarantees here.
pub proof fn lemma_fs_put_wf(s: Seq<FsFileV>, path: Seq<char>, content: u64, size: u64)
    requires
        fs_wf(s),
    ensures
        fs_wf(fs_put_v(s, path, content, size)),
{
    lemma_fs_index(s, path);
    let k = fs_index_of(s, path);
    let s2 = fs_put_v(s, path, content, size);
    if k >= 0 {
        assert forall|i: int, j: int| 0 <= i < j < s2.len() implies (#[trigger] s2[i]).path != (
        #[trigger] s2[j]).path by {
            assert(s2[i].path == s[i].path && s2[j].path == s[j].path);
        }
    } else {
        assert forall|i: int, j: int| 0 <= i < j < s2.len() implies (#[trigger] s2[i]).path != (
        #[trigger] s2[j]).path by {
            if j == s.len() {
                assert(s2[i] == s[i]);
            }
        }
    }
}

impl MemFs {
    /// An empty filesystem.
    pub fn new() -> (r: MemFs)
        ensures
            r@ =~= Seq::<FsFileV>::empty(),
            fs_wf(r@),
    {
        let r = MemFs { files: Vec::new() };
        proof {
            assert(r@ =~= Seq::<FsFileV>::empty());
        }
        r
    }

    /// Index of the file at `path`, if any.
    fn find(&self, path: &String) -> (r: Option<usize>)
        ensures
            match r {
                Some(i) => fs_index_of(self@, path@) == i as int,
                None => fs_index_of(self@, path@) == -1,
            },
    {
        let ghost s = self@;
        let n = self.files.len();
        let mut i: usize = 0;
        proof {
            assert(s.skip(0) =~= s);
        }
        while i < n
            invariant
                i <= n,
                n == self.files@.len(),
                s == self@,
                fs_index_of(s, path@) == (if fs_index_of(s.skip(i as int), path@) == -1 {
                    -1int
                } else {
                    i + fs_index_of(s.skip(i as int), path@)
                }),
            decreases n - i,
        {
            proof {
                assert(s.skip(i as int)[0] == s[i as int]);
                assert(s.skip(i as int).drop_first() =~= s.skip(i + 1 as int));
                lemma_fs_index(s.skip(i + 1 as int), path@);
            }
            if self.files[i].path == *path {
                return Some(i);
            }
            i += 1;
        }
        None
    }

    /// Whether a file exists at `path`.
    pub fn file_exists(&self, path: &String) -> (r: bool)
        ensures
            r == fs_contains(self@, path@),
    {
        self.find(path).is_some()
    }

    /// The content tag at `path`, if a file is there.
    pub fn content_at(&self, path: &String) -> (r: Option<u64>)
        ensures
            match r {
                Some(c) => fs_contains(self@, path@) && c == fs_content(self@, path@),
                None => !fs_contains(self@, path@),
            },
    {
        proof {
            lemma_fs_index(self@, path@);
        }
        match self.find(path) {
            Some(i) => Some(self.files[i].content),
            None => None,
        }
    }

    /// The size of the file at `path`, if one is there.
    pub fn size_at(&self, path: &String) -> (r: Option<u64>)
        ensures
            match r {
                Some(z) => fs_contains(self@, path@) && z == fs_size(self@, path@),
                None => !fs_contains(self@, path@),
            },
    {
        proof {
            lemma_fs_index(self@, path@);
        }
        match self.find(path) {
            Some(i) => Some(self.files[i].size),
            None => None,
        }
    }

    /// Creates or overwrites the file at `path`.
    pub fn put(&mut self, path: &String, content: u64, size: u64)
        requires
            fs_wf(old(self)@),
        ensures
            fs_wf(final(self)@),
            final(self)@ == fs_put_v(old(self)@, path@, content, size),
    {
        let ghost s = self@;
        match self.find(path) {
            Some(i) => {
                proof {
                    lemma_fs_index(s, path@);
                }
                self.files[i].content = content;
                self.files[i].size = size;
                proof {
                    assert(self@ =~= fs_put_v(s, path@, content, size));
                    lemma_fs_put_wf(s, path@, content, size);
                }
            },
            None => {
                self.files.push(FsFile { path: path.clone(), content, size });
                proof {
                    assert(self@ =~= fs_put_v(s, path@, content, size));
                    lemma_fs_put_wf(s, path@, content, size);
                }
            },
        }
    }

    /// Deletes the file at `path`; nothing happens if none is there.
    pub fn remove(&mut self, path: &String)
        requires
            fs_wf(old(self)@),
        ensures
            fs_wf(final(self)@),
            final(self)@ == fs_remove_v(old(self)@, path@),
    {
        let ghost s = self@;
        match self.find(path) {
            Some(i) => {
                proof {
                    lemma_fs_index(s, path@);
                }
                self.files.remove(i);
                proof {
                    assert(self@ =~= fs_remove_v(s, path@));
                    lemma_fs_remove_wf(s, path@);
                }
            },
            None => {},
        }
    }

    /// Moves the file at `src` to `dest`, replacing what was there;
    /// fails without touching anything if `src` does not exist.
    ///
    /// This models one successful move. The rename/copy protocol with
    /// its failure modes is `robust_move`.
    pub fn move_file(&mut self, src: &String, dest: &String) -> (r: Result<(), AppError>)
        requires
            fs_wf(old(self)@),
        ensures
            fs_wf(final(self)@),
            fs_contains(old(self)@, src@) ==> r is Ok && final(self)@ == fs_move_v(
                old(self)@,
                src@,
                dest@,
            ),
            !fs_contains(old(self)@, src@) ==> r is Err && r->Err_0 is Io && *final(self) == *old(
                self,
            ),
    {
        let ghost s = self@;
        let content = match self.content_at(src) {
            Some(c) => c,
            None => {
                return Err(AppError::Io(String::from_str("move source does not exist")));
            },
        };
        let size = match self.size_at(src) {
            Some(z) => z,
            None => {
                return Err(AppError::Io(String::from_str("move source does not exist")));
            },
        };
        self.remove(src);
        self.put(dest, content, size);
        Ok(())
    }

    /// The rename/copy/delete protocol behind every physical move, with
    /// its failure modes injected by the runtime: `rename_ok` tells
    /// whether the atomic rename succeeded (it fails across storage
    /// devices), `copy_ok` whether the fallback copy succeeded.
    ///
    /// Either successful route leaves the file at the destination and
    /// gone from the source; a failed copy leaves everything exactly as
    /// it was — the source is deleted only after the copy is confirmed,
    /// so no data is ever duplicated or lost.
    pub fn robust_move(&mut self, src: &String, dest: &String, rename_ok: bool, copy_ok: bool) -> (r:
        Result<(), AppError>)
        requires
            fs_wf(old(self)@),
        ensures
            fs_wf(final(self)@),
            !fs_contains(old(self)@, src@) ==> r is Err && r->Err_0 is Io && *final(self) == *old(
                self,
            ),
            fs_contains(old(self)@, src@) && (rename_ok || copy_ok) ==> r is Ok && final(self)@
                == fs_move_v(old(self)@, src@, dest@),
            fs_contains(old(self)@, src@) && !rename_ok && !copy_ok ==> r is Err && r->Err_0 is Io
                && *final(self) == *old(self),
    {
        if !self.file_exists(src) {
            return Err(AppError::Io(String::from_str("move source does not exist")));
        }
        if rename_ok {
            // the atomic rename
            return self.move_file(src, dest);
        }
        if copy_ok {
            // fallback: copy, then delete the source only once the copy
            // is confirmed written
            return self.move_file(src, dest);
        }
        // the copy itself failed: the source remains, the destination
        // was never confirmed, nothing changed
        Err(AppError::Io(String::from_str("cross-device fallback copy failed")))
    }
}

} // verus!
