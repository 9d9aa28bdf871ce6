//! The userspace view of the filesystem: paths, directory entries and their metadata, and files
//! held in RAM (as part of the initial RAM disk) with a cursor.
//!
//! Absolute paths are written like `:root/path/to/file`, as in `crate::fs`, except that splitting
//! a path keeps the slash in front of the rest of the path.

use vstd::prelude::*;
use vstd::string::{StringExecFns, StringSliceAdditionalSpecFns};
use vstd::utf8::valid_utf8;
use crate::fs::{classify_root, find_slash, is_absolute, lemma_ascii_boundaries, root_of, slash_index, SLASH};

verus! {

broadcast use vstd::utf8::encode_utf8_valid_utf8;

/// Represents the root of a file system.
#[derive(Debug, Clone, Copy, PartialEq, Eq, Structural)]
pub enum Root {
    /// `:host`: the host's filesystem when running as a guest (e.g. in a virtual machine).
    Host,
    /// `:initrd`: the initial RAM disk.
    Initrd,
    /// (no root in the path): the current working directory.
    Relative,
    /// (any other root): an unknown root, probably misspelled or nonexistent.
    Unknown,
}

/// The root, in this module's terms, that the bytes before a path's first slash name.
pub open spec fn std_root_of(root: Seq<u8>) -> Root {
    match root_of(root) {
        crate::fs::Root::Host => Root::Host,
        crate::fs::Root::Initrd => Root::Initrd,
        crate::fs::Root::Relative => Root::Relative,
        crate::fs::Root::Unknown => Root::Unknown,
    }
}

/// Splitting an absolute path loses nothing: the root's bytes followed by the rest of the path
/// (which keeps the slash) are the path's bytes.
pub proof fn lemma_split_keeps_everything(b: Seq<u8>)
    ensures
        b.take(slash_index(b)) + b.skip(slash_index(b)) == b,
{
    if exists|k: int| crate::fs::is_first_slash(b, k) {
        let k = choose|k: int| crate::fs::is_first_slash(b, k);
        assert(crate::fs::is_first_slash(b, k));
    }
    assert(b.take(slash_index(b)) + b.skip(slash_index(b)) =~= b);
}

/// Represents a path in the file system.
#[derive(Debug, Clone, Copy)]
pub struct Path<'a> {
    raw: &'a str,
}

impl<'a> Path<'a> {
    /// The UTF-8 bytes of the path.
    pub closed spec fn bytes(&self) -> Seq<u8> {
        self.raw.spec_bytes()
    }

    /// Makes a new `Path` from the given string.
    pub fn new(path: &'a str) -> (r: Path<'a>)
        ensures
            r.bytes() == path.spec_bytes(),
    {
        Path { raw: path }
    }

    /// Determines whether the path is absolute or relative.
    pub fn absolute(self) -> (r: bool)
        ensures
            r == is_absolute(self.bytes()),
    {
        let b = self.raw.as_bytes();
        b.len() > 0 && b[0] == crate::fs::COLON
    }

    /// Splits this path into a file system root and a path relative to that root, which keeps the
    /// slash that separated them. If the path doesn't specify a root, the root is
    /// `Root::Relative` and the path is returned whole.
    pub fn split(self) -> (r: (Root, Path<'a>))
        ensures
            !is_absolute(self.bytes()) ==> r.0 == Root::Relative && r.1.bytes() == self.bytes(),
            is_absolute(self.bytes()) ==> ({
                let b = self.bytes();
                let i = slash_index(b);
                &&& r.0 == std_root_of(b.take(i))
                &&& r.1.bytes() == b.skip(i)
            }),
    {
        if !self.absolute() {
            return (Root::Relative, self);
        }
        let b = self.raw.as_bytes();
        let i = find_slash(b);
        proof {
            vstd::utf8::is_char_boundary_start_end_of_seq(b@);
            if i < b@.len() {
                lemma_ascii_boundaries(b@, i as int);
            }
        }
        let (root, stem) = self.raw.split_at(i);
        let kind = match classify_root(root.as_bytes()) {
            crate::fs::Root::Host => Root::Host,
            crate::fs::Root::Initrd => Root::Initrd,
            crate::fs::Root::Relative => Root::Relative,
            crate::fs::Root::Unknown => Root::Unknown,
        };
        assert(root.spec_bytes() =~= b@.take(i as int));
        assert(stem.spec_bytes() =~= b@.skip(i as int));
        (kind, Path { raw: stem })
    }

    /// Converts the `Path` into a UTF-8 string.
    pub fn as_str(&self) -> (r: &'a str)
        ensures
            r.spec_bytes() == self.bytes(),
    {
        self.raw
    }
}

/// The flag for a directory.
pub const FILE_TYPE_DIRECTORY: u8 = 0x01;
/// The flag for a file.
pub const FILE_TYPE_FILE: u8 = 0x02;
/// The flag for a symbolic link.
pub const FILE_TYPE_SYMLINK: u8 = 0x04;

/// Represents a file type.
#[derive(Debug, Clone, Copy, PartialEq, Eq, Structural)]
pub struct FileType {
    flags: u8,
}

impl FileType {
    /// The flags of the file type.
    pub closed spec fn flags_spec(&self) -> u8 {
        self.flags
    }

    /// The file type with the given flags.
    pub fn from_flags(flags: u8) -> (r: FileType)
        ensures
            r.flags_spec() == flags,
    {
        FileType { flags }
    }

    /// Returns `true` if this file is actually a directory.
    pub fn is_dir(&self) -> (r: bool)
        ensures
            r == (self.flags_spec() & FILE_TYPE_DIRECTORY == FILE_TYPE_DIRECTORY),
    {
        self.flags & FILE_TYPE_DIRECTORY == FILE_TYPE_DIRECTORY
    }

    /// Returns `true` if this is a file.
    pub fn is_file(&self) -> (r: bool)
        ensures
            r == (self.flags_spec() & FILE_TYPE_FILE == FILE_TYPE_FILE),
    {
        self.flags & FILE_TYPE_FILE == FILE_TYPE_FILE
    }

    /// Returns `true` if this file is a symbolic link.
    pub fn is_symlink(&self) -> (r: bool)
        ensures
            r == (self.flags_spec() & FILE_TYPE_SYMLINK == FILE_TYPE_SYMLINK),
    {
        self.flags & FILE_TYPE_SYMLINK == FILE_TYPE_SYMLINK
    }
}

/// Represents the metadata of a file or directory.
#[derive(Debug, Clone, Copy, PartialEq, Eq, Structural)]
pub struct Metadata {
    file_type: FileType,
}

impl Metadata {
    /// The file type in the metadata.
    pub closed spec fn file_type_spec(&self) -> FileType {
        self.file_type
    }

    /// Makes metadata for a file of the given type.
    pub fn new(file_type: FileType) -> (r: Metadata)
        ensures
            r.file_type_spec() == file_type,
    {
        Metadata { file_type }
    }

    /// Returns the file type indicated by these metadata.
    pub fn file_type(&self) -> (r: FileType)
        ensures
            r == self.file_type_spec(),
    {
        self.file_type
    }
}

/// Represents an error that can arise from functions in this module.
#[derive(Debug)]
pub struct FsError {
    desc: String,
}

impl FsError {
    /// The description of the error.
    pub closed spec fn desc_spec(&self) -> Seq<char> {
        self.desc@
    }

    /// Constructs a new error with the given description.
    pub fn new(desc: String) -> (r: FsError)
        ensures
            r.desc_spec() == desc@,
    {
        FsError { desc }
    }

    /// Returns the description of the error.
    pub fn desc(&self) -> (r: &str)
        ensures
            r@ == self.desc_spec(),
    {
        self.desc.as_str()
    }
}

/// Represents a single file or directory within a directory.
#[derive(Debug)]
pub struct DirEntry {
    path: String,
    metadata: Metadata,
}

/// Whether `i` is the index of the last `/` in `b`.
pub open spec fn is_last_slash(b: Seq<u8>, i: int) -> bool {
    &&& 0 <= i < b.len()
    &&& b[i] == SLASH
    &&& forall|j: int| i < j < b.len() ==> b[j] != SLASH
}

/// The bytes of a path's last component: those after its last `/`, or all of them if there is
/// none.
pub open spec fn file_name_bytes(b: Seq<u8>) -> Seq<u8> {
    if exists|i: int| is_last_slash(b, i) {
        b.skip((choose|i: int| is_last_slash(b, i)) + 1)
    } else {
        b
    }
}

// The last slash is unique.
proof fn lemma_last_slash_unique(b: Seq<u8>, i: int)
    requires
        is_last_slash(b, i),
    ensures
        (choose|k: int| is_last_slash(b, k)) == i,
{
    let k = choose|k: int| is_last_slash(b, k);
    if k < i {
        assert(b[i] != SLASH);
    } else if k > i {
        assert(b[k] != SLASH);
    }
}

impl DirEntry {
    /// The path to the entry.
    pub closed spec fn path_spec(&self) -> Seq<char> {
        self.path@
    }

    /// The entry's metadata.
    pub closed spec fn metadata_spec(&self) -> Metadata {
        self.metadata
    }

    /// Makes a directory entry for the given path.
    pub fn new(path: String, metadata: Metadata) -> (r: DirEntry)
        ensures
            r.path_spec() == path@,
            r.metadata_spec() == metadata,
    {
        DirEntry { path, metadata }
    }

    /// Returns the path to this directory entry.
    pub fn path(&self) -> (r: &str)
        ensures
            r@ == self.path_spec(),
    {
        self.path.as_str()
    }

    /// Returns this directory entry's metadata.
    pub fn metadata(&self) -> (r: Result<Metadata, FsError>)
        ensures
            r == Ok::<Metadata, FsError>(self.metadata_spec()),
    {
        Ok(self.metadata)
    }

    /// Returns the file type of this directory entry.
    pub fn file_type(&self) -> (r: Result<FileType, FsError>)
        ensures
            r == Ok::<FileType, FsError>(self.metadata_spec().file_type_spec()),
    {
        Ok(self.metadata.file_type())
    }

    /// Returns the name of this directory entry: the part of its path after the last slash.
    pub fn file_name(&self) -> (r: &str)
        ensures
            r.spec_bytes() == file_name_bytes(vstd::utf8::encode_utf8(self.path_spec())),
    {
        let s = self.path.as_str();
        let b = s.as_bytes();
        let n = b.len();
        let mut i = n;
        assert(valid_utf8(b@));
        while i > 0
            invariant
                n == b@.len(),
                b@ == s.spec_bytes(),
                b@ == vstd::utf8::encode_utf8(self.path_spec()),
                valid_utf8(b@),
                i <= n,
                forall|j: int| i <= j < n ==> b@[j] != SLASH,
            decreases i,
        {
            if b[i - 1] == SLASH {
                proof {
                    assert(is_last_slash(b@, i - 1));
                    lemma_last_slash_unique(b@, i - 1);
                    lemma_ascii_boundaries(b@, i - 1);
                }
                let (_, rest) = s.split_at(i - 1);
                let (_, name) = rest.split_at(1);
                assert(name.spec_bytes() =~= b@.skip(i as int));
                return name;
            }
            i -= 1;
        }
        proof {
            if exists|k: int| is_last_slash(b@, k) {
                let k = choose|k: int| is_last_slash(b@, k);
                assert(b@[k] != SLASH);
            }
        }
        s
    }
}

/// Where a seek moves the cursor to.
#[derive(Debug, Clone, Copy, PartialEq, Eq, Structural)]
pub enum SeekFrom {
    /// To the given offset from the start of the file.
    Start(u64),
    /// To the given offset from the end of the file.
    End(i64),
    /// To the given offset from the current position.
    Current(i64),
}

/// A file held in RAM, with a cursor into it.
#[derive(Debug)]
pub struct RamHandle<'a> {
    contents: &'a [u8],
    cursor: usize,
}

/// The cursor after a seek in a file of `len` bytes from `cursor`, or `None` if the seek would go
/// before the start of the file.
pub open spec fn seek_spec(pos: SeekFrom, cursor: usize, len: usize) -> Option<usize> {
    match pos {
        SeekFrom::Start(offset) => Some(if (offset as usize) < len { offset as usize } else { len }),
        SeekFrom::End(offset) => if offset >= 0 {
            Some(len)
        } else if ((-offset) as usize) > len {
            None
        } else {
            Some((len - ((-offset) as usize)) as usize)
        },
        SeekFrom::Current(offset) => if offset >= 0 {
            let target = cursor + (offset as usize);
            Some(if target < len { target as usize } else { len })
        } else if ((-offset) as usize) > cursor {
            None
        } else {
            Some((cursor - ((-offset) as usize)) as usize)
        },
    }
}

/// Seeking moves the cursor to the position asked for whenever that lies inside the file, whatever
/// the file's length beyond it: by the offset from the cursor (backwards too), to the offset from
/// the start, or back from the end. A seek before the start fails; a seek past the end stops at
/// it. So a seek back by `n` undoes a seek forward by `n` inside the file.
pub proof fn lemma_seek_moves_within_file(cursor: usize, len: usize, offset: i64)
    requires
        cursor <= len,
        offset != i64::MIN,
    ensures
        offset < 0 && -offset <= cursor ==> seek_spec(SeekFrom::Current(offset), cursor, len) == Some((cursor + offset) as usize),
        offset < 0 && -offset > cursor && -offset <= usize::MAX ==> seek_spec(SeekFrom::Current(offset), cursor, len) is None,
        offset >= 0 && cursor + offset <= len ==> seek_spec(SeekFrom::Current(offset), cursor, len) == Some((cursor + offset) as usize),
        offset >= 0 && cursor + offset > len && cursor + offset <= usize::MAX ==> seek_spec(SeekFrom::Current(offset), cursor, len) == Some(len),
        offset >= 0 && offset <= len ==> seek_spec(SeekFrom::Start(offset as u64), cursor, len) == Some(offset as usize),
        offset >= 0 && offset > len && offset <= usize::MAX ==> seek_spec(SeekFrom::Start(offset as u64), cursor, len) == Some(len),
        offset >= 0 ==> seek_spec(SeekFrom::End(offset), cursor, len) == Some(len),
        offset < 0 && -offset <= len ==> seek_spec(SeekFrom::End(offset), cursor, len) == Some((len + offset) as usize),
        offset < 0 && -offset > len && -offset <= usize::MAX ==> seek_spec(SeekFrom::End(offset), cursor, len) is None,
        offset > 0 && cursor + offset <= len ==> ({
            let there = seek_spec(SeekFrom::Current(offset), cursor, len).unwrap();
            seek_spec(SeekFrom::Current((-offset) as i64), there, len) == Some(cursor)
        }),
{
}

impl<'a> RamHandle<'a> {
    /// The contents of the file.
    pub closed spec fn contents(&self) -> Seq<u8> {
        self.contents@
    }

    /// The position of the cursor.
    pub closed spec fn cursor(&self) -> usize {
        self.cursor
    }

    #[verifier::type_invariant]
    spec fn inv(&self) -> bool {
        self.cursor <= self.contents@.len()
    }

    /// Opens the file with the given contents, with the cursor at its start.
    pub fn new(contents: &'a [u8]) -> (r: RamHandle<'a>)
        ensures
            r.contents() == contents@,
            r.cursor() == 0,
    {
        RamHandle { contents, cursor: 0 }
    }

    /// Copies as many bytes as fit in `buf` (or as are left) from the cursor into the start of
    /// `buf`, moves the cursor past them, and returns how many there were.
    pub fn read(&mut self, buf: &mut [u8]) -> (r: usize)
        ensures
            r == if old(buf)@.len() < old(self).contents().len() - old(self).cursor() {
                old(buf)@.len() as int
            } else {
                old(self).contents().len() - old(self).cursor()
            },
            final(buf)@ == old(self).contents().subrange(old(self).cursor() as int, old(self).cursor() + r)
                + old(buf)@.skip(r as int),
            final(self).contents() == old(self).contents(),
            final(self).cursor() == old(self).cursor() + r,
    {
        proof {
            use_type_invariant(&*self);
        }
        let file_len = self.contents.len();
        let remaining = file_len - self.cursor;
        let len = if buf.len() < remaining { buf.len() } else { remaining };
        let mut i: usize = 0;
        while i < len
            invariant
                file_len == self.contents@.len(),
                len <= buf@.len(),
                buf@.len() == old(buf)@.len(),
                self.cursor + len <= self.contents@.len(),
                self.contents@ == old(self).contents@,
                self.cursor == old(self).cursor,
                i <= len,
                forall|j: int| 0 <= j < i ==> buf@[j] == self.contents@[self.cursor + j],
                forall|j: int| i <= j < buf@.len() ==> buf@[j] == old(buf)@[j],
            decreases len - i,
        {
            buf[i] = self.contents[self.cursor + i];
            i += 1;
        }
        assert(buf@ =~= self.contents@.subrange(self.cursor as int, self.cursor + len)
            + old(buf)@.skip(len as int));
        self.cursor = self.cursor + len;
        len
    }

    /// Moves the cursor as `pos` says, but never past the end of the file, and returns its new
    /// position. Fails, leaving the cursor where it was, if that would move it before the start.
    pub fn seek(&mut self, pos: SeekFrom) -> (r: Result<u64, FsError>)
        requires
            pos != SeekFrom::End(i64::MIN),
            pos != SeekFrom::Current(i64::MIN),
            (pos matches SeekFrom::Current(offset) && offset >= 0)
                ==> old(self).cursor() + (pos->Current_0 as usize) <= usize::MAX,
        ensures
            final(self).contents() == old(self).contents(),
            match seek_spec(pos, old(self).cursor(), old(self).contents().len() as usize) {
                Some(c) => r == Ok::<u64, FsError>(c as u64) && final(self).cursor() == c,
                None => r is Err && final(self).cursor() == old(self).cursor(),
            },
    {
        proof {
            use_type_invariant(&*self);
        }
        let file_len = self.contents.len();
        match pos {
            SeekFrom::Start(offset) => {
                let target = offset as usize;
                self.cursor = if target < file_len { target } else { file_len };
            },
            SeekFrom::End(offset) => {
                if offset >= 0 {
                    self.cursor = file_len;
                } else {
                    let neg_offset = (-offset) as usize;
                    if neg_offset > file_len {
                        return Err(FsError::new(String::from_str("attempted to seek to a negative file offset")));
                    }
                    self.cursor = file_len - neg_offset;
                }
            },
            SeekFrom::Current(offset) => {
                if offset >= 0 {
                    let target = self.cursor + offset as usize;
                    self.cursor = if target < file_len { target } else { file_len };
                } else {
                    let neg_offset = (-offset) as usize;
                    if neg_offset > self.cursor {
                        return Err(FsError::new(String::from_str("attempted to seek to a negative file offset")));
                    }
                    self.cursor = self.cursor - neg_offset;
                }
            },
        }
        Ok(self.cursor as u64)
    }
}

/// A directory's entries: its subdirectories, then its files.
#[derive(Debug)]
pub struct ReadDir {
    subdirs: Vec<String>,
    files: Vec<String>,
    dir_cursor: usize,
    file_cursor: usize,
    path: String,
}

impl ReadDir {
    /// The names of the subdirectories.
    pub closed spec fn subdirs_spec(&self) -> Seq<Seq<char>> {
        self.subdirs@.map_values(|s: String| s@)
    }

    /// The names of the files.
    pub closed spec fn files_spec(&self) -> Seq<Seq<char>> {
        self.files@.map_values(|s: String| s@)
    }

    /// The number of subdirectories already returned.
    pub closed spec fn dir_cursor_spec(&self) -> int {
        self.dir_cursor as int
    }

    /// The number of files already returned.
    pub closed spec fn file_cursor_spec(&self) -> int {
        self.file_cursor as int
    }

    /// The path of the directory.
    pub closed spec fn path_spec(&self) -> Seq<char> {
        self.path@
    }

    /// Lists the directory at `path` with the given subdirectories and files.
    pub fn new(path: String, subdirs: Vec<String>, files: Vec<String>) -> (r: ReadDir)
        ensures
            r.path_spec() == path@,
            r.subdirs_spec() == subdirs@.map_values(|s: String| s@),
            r.files_spec() == files@.map_values(|s: String| s@),
            r.dir_cursor_spec() == 0,
            r.file_cursor_spec() == 0,
    {
        ReadDir { subdirs, files, dir_cursor: 0, file_cursor: 0, path }
    }

    /// Returns the next entry (subdirectories first, then files), whose path is the directory's
    /// path, a slash and the entry's name; or `None` after the last one.
    pub fn next(&mut self) -> (r: Option<DirEntry>)
        requires
            old(self).dir_cursor_spec() <= old(self).subdirs_spec().len(),
            old(self).file_cursor_spec() <= old(self).files_spec().len(),
        ensures
            final(self).path_spec() == old(self).path_spec(),
            final(self).subdirs_spec() == old(self).subdirs_spec(),
            final(self).files_spec() == old(self).files_spec(),
            final(self).dir_cursor_spec() <= final(self).subdirs_spec().len(),
            final(self).file_cursor_spec() <= final(self).files_spec().len(),
            old(self).dir_cursor_spec() < old(self).subdirs_spec().len() ==> {
                &&& final(self).dir_cursor_spec() == old(self).dir_cursor_spec() + 1
                &&& final(self).file_cursor_spec() == old(self).file_cursor_spec()
                &&& r is Some
                &&& r->Some_0.path_spec() == old(self).path_spec() + seq!['/']
                    + old(self).subdirs_spec()[old(self).dir_cursor_spec()]
                &&& r->Some_0.metadata_spec().file_type_spec().flags_spec() == FILE_TYPE_DIRECTORY
            },
            old(self).dir_cursor_spec() == old(self).subdirs_spec().len()
                && old(self).file_cursor_spec() < old(self).files_spec().len() ==> {
                &&& final(self).dir_cursor_spec() == old(self).dir_cursor_spec()
                &&& final(self).file_cursor_spec() == old(self).file_cursor_spec() + 1
                &&& r is Some
                &&& r->Some_0.path_spec() == old(self).path_spec() + seq!['/']
                    + old(self).files_spec()[old(self).file_cursor_spec()]
                &&& r->Some_0.metadata_spec().file_type_spec().flags_spec() == FILE_TYPE_FILE
            },
            old(self).dir_cursor_spec() == old(self).subdirs_spec().len()
                && old(self).file_cursor_spec() == old(self).files_spec().len() ==> {
                &&& r is None
                &&& final(self).dir_cursor_spec() == old(self).dir_cursor_spec()
                &&& final(self).file_cursor_spec() == old(self).file_cursor_spec()
            },
    {
        let sep = "/";
        proof {
            reveal_strlit("/");
        }
        if self.dir_cursor < self.subdirs.len() {
            let idx = self.dir_cursor;
            self.dir_cursor = idx + 1;
            let path = String::from_str(self.path.as_str()).concat(sep).concat(self.subdirs[idx].as_str());
            Some(DirEntry { path, metadata: Metadata { file_type: FileType { flags: FILE_TYPE_DIRECTORY } } })
        } else if self.file_cursor < self.files.len() {
            let idx = self.file_cursor;
            self.file_cursor = idx + 1;
            let path = String::from_str(self.path.as_str()).concat(sep).concat(self.files[idx].as_str());
            Some(DirEntry { path, metadata: Metadata { file_type: FileType { flags: FILE_TYPE_FILE } } })
        } else {
            None
        }
    }
}

} // verus!
