//! Paths in the filesystem. Absolute paths are written like this:
//! ```text
//! :root/path/to/file
//! ```
//! `:root` is the name of the particular root (see `Root`). Relative paths omit the root.
//!
//! Splitting an absolute path gives its root and the rest of the path, without the slash that
//! separates them.

use vstd::prelude::*;
use vstd::string::StringSliceAdditionalSpecFns;
use vstd::utf8::{is_char_boundary, valid_utf8};

verus! {

broadcast use vstd::utf8::encode_utf8_valid_utf8;

/// The byte `/`.
pub const SLASH: u8 = 47;
/// The byte `:`.
pub const COLON: u8 = 58;

const ROOT_HOST: [u8; 5] = [58, 104, 111, 115, 116];
const ROOT_INITRD: [u8; 7] = [58, 105, 110, 105, 116, 114, 100];

/// Whether `i` is the index of the first `/` in `b`.
pub open spec fn is_first_slash(b: Seq<u8>, i: int) -> bool {
    &&& 0 <= i < b.len()
    &&& b[i] == SLASH
    &&& forall|j: int| 0 <= j < i ==> b[j] != SLASH
}

/// The index of the first `/` in `b`, or its length if there is none.
pub open spec fn slash_index(b: Seq<u8>) -> int {
    if exists|i: int| is_first_slash(b, i) {
        choose|i: int| is_first_slash(b, i)
    } else {
        b.len() as int
    }
}

/// The root a path names, given the bytes before the first slash.
pub open spec fn root_of(root: Seq<u8>) -> Root {
    if root == seq![58u8, 104, 111, 115, 116] {
        Root::Host
    } else if root == seq![58u8, 105, 110, 105, 116, 114, 100] {
        Root::Initrd
    } else {
        Root::Unknown
    }
}

/// Represents the root of a file system.
#[derive(Debug, Clone, Copy, PartialEq, Eq, Structural)]
pub enum Root {
    /// `:host`: the host's filesystem when running as a guest (e.g. in a virtual machine).
    Host,
    /// `:initrd`: the initial RAM disk.
    Initrd,
    /// (no root in the path): the current working directory.
    Relative,
    /// (any other root): an unknown root, probably misspelled or nonexistent.
    Unknown,
}

// The first slash is unique.
proof fn lemma_first_slash_unique(b: Seq<u8>, i: int)
    requires
        is_first_slash(b, i),
    ensures
        slash_index(b) == i,
{
    let k = choose|k: int| is_first_slash(b, k);
    if k < i {
        assert(b[k] != SLASH);
    } else if k > i {
        assert(b[i] != SLASH);
    }
}

/// Returns the index of the first `/` in `b`, or its length if there is none.
pub fn find_slash(b: &[u8]) -> (r: usize)
    ensures
        r == slash_index(b@),
        r < b@.len() ==> is_first_slash(b@, r as int),
        r <= b@.len(),
{
    let n = b.len();
    let mut i: usize = 0;
    while i < n
        invariant
            n == b@.len(),
            i <= n,
            forall|j: int| 0 <= j < i ==> b@[j] != SLASH,
        decreases n - i,
    {
        if b[i] == SLASH {
            proof {
                lemma_first_slash_unique(b@, i as int);
            }
            return i;
        }
        i += 1;
    }
    proof {
        if exists|k: int| is_first_slash(b@, k) {
            let k = choose|k: int| is_first_slash(b@, k);
            assert(b@[k] != SLASH);
        }
    }
    n
}

/// An ASCII byte in a UTF-8 string starts a character, and the byte after it does too.
pub proof fn lemma_ascii_boundaries(b: Seq<u8>, i: int)
    requires
        valid_utf8(b),
        0 <= i < b.len(),
        b[i] < 0x80,
    ensures
        is_char_boundary(b, i),
        valid_utf8(b.subrange(i, b.len() as int)),
        is_char_boundary(b.subrange(i, b.len() as int), 1),
{
    vstd::utf8::is_char_boundary_iff_not_is_continuation_byte(b, i);
    vstd::utf8::valid_utf8_split(b, i);
    let rest = b.subrange(i, b.len() as int);
    assert(rest[0] == b[i]);
    reveal_with_fuel(is_char_boundary, 2);
}

/// Whether the `len` bytes of `b` are exactly `expected`.
pub fn bytes_eq(b: &[u8], expected: &[u8]) -> (r: bool)
    ensures
        r == (b@ == expected@),
{
    if b.len() != expected.len() {
        return false;
    }
    let mut i: usize = 0;
    while i < b.len()
        invariant
            b@.len() == expected@.len(),
            i <= b@.len(),
            forall|j: int| 0 <= j < i ==> b@[j] == expected@[j],
        decreases b@.len() - i,
    {
        if b[i] != expected[i] {
            assert(b@[i as int] != expected@[i as int]);
            return false;
        }
        i += 1;
    }
    assert(b@ =~= expected@);
    true
}

/// Returns the root that the bytes before a path's first slash name.
pub fn classify_root(root: &[u8]) -> (r: Root)
    ensures
        r == root_of(root@),
{
    if bytes_eq(root, ROOT_HOST.as_slice()) {
        assert(ROOT_HOST@ =~= seq![58u8, 104, 111, 115, 116]);
        Root::Host
    } else if bytes_eq(root, ROOT_INITRD.as_slice()) {
        assert(ROOT_INITRD@ =~= seq![58u8, 105, 110, 105, 116, 114, 100]);
        assert(ROOT_HOST@ =~= seq![58u8, 104, 111, 115, 116]);
        Root::Initrd
    } else {
        assert(ROOT_HOST@ =~= seq![58u8, 104, 111, 115, 116]);
        assert(ROOT_INITRD@ =~= seq![58u8, 105, 110, 105, 116, 114, 100]);
        Root::Unknown
    }
}

/// Whether the path with bytes `b` is absolute: it starts with `:`.
pub open spec fn is_absolute(b: Seq<u8>) -> bool {
    b.len() > 0 && b[0] == COLON
}

/// A path with a slash is its root, the slash and the rest of the path: splitting an absolute path
/// loses nothing but the slash.
pub proof fn lemma_split_reassembles(b: Seq<u8>)
    requires
        slash_index(b) < b.len(),
    ensures
        b.take(slash_index(b)) + seq![SLASH] + b.skip(slash_index(b) + 1) == b,
{
    let i = slash_index(b);
    if exists|k: int| is_first_slash(b, k) {
        assert(is_first_slash(b, i));
    }
    assert(b.take(i) + seq![SLASH] + b.skip(i + 1) =~= b);
}

/// Represents a path in the file system.
#[derive(Debug, Clone, Copy)]
pub struct Path<'a> {
    raw: &'a str,
}

impl<'a> Path<'a> {
    /// The UTF-8 bytes of the path.
    pub closed spec fn bytes(&self) -> Seq<u8> {
        self.raw.spec_bytes()
    }

    /// Makes a new `Path` from the given string.
    pub fn new(path: &'a str) -> (r: Path<'a>)
        ensures
            r.bytes() == path.spec_bytes(),
    {
        Path { raw: path }
    }

    /// Determines whether the path is absolute or relative.
    pub fn absolute(self) -> (r: bool)
        ensures
            r == is_absolute(self.bytes()),
    {
        let b = self.raw.as_bytes();
        b.len() > 0 && b[0] == COLON
    }

    /// Splits this path into a file system root and a path relative to that root, without the
    /// slash between them. If the path doesn't specify a root, the root is `Root::Relative` and the
    /// path is returned whole.
    pub fn split(self) -> (r: (Root, Path<'a>))
        ensures
            !is_absolute(self.bytes()) ==> r.0 == Root::Relative && r.1.bytes() == self.bytes(),
            is_absolute(self.bytes()) ==> ({
                let b = self.bytes();
                let i = slash_index(b);
                &&& r.0 == root_of(b.take(i))
                &&& r.1.bytes() == if i < b.len() { b.skip(i + 1) } else { Seq::<u8>::empty() }
            }),
    {
        if !self.absolute() {
            return (Root::Relative, self);
        }
        let b = self.raw.as_bytes();
        let i = find_slash(b);
        proof {
            vstd::utf8::is_char_boundary_start_end_of_seq(b@);
        }
        if i < b.len() {
            proof {
                lemma_ascii_boundaries(b@, i as int);
            }
            let (root, rest) = self.raw.split_at(i);
            let (_, stem) = rest.split_at(1);
            let kind = classify_root(root.as_bytes());
            assert(root.spec_bytes() =~= b@.take(i as int));
            assert(stem.spec_bytes() =~= b@.skip(i + 1));
            (kind, Path { raw: stem })
        } else {
            let (root, stem) = self.raw.split_at(i);
            let kind = classify_root(root.as_bytes());
            assert(root.spec_bytes() =~= b@.take(i as int));
            assert(stem.spec_bytes() =~= Seq::<u8>::empty());
            (kind, Path { raw: stem })
        }
    }

    /// Converts the `Path` into a UTF-8 string.
    pub fn as_str(&self) -> (r: &'a str)
        ensures
            r.spec_bytes() == self.bytes(),
    {
        self.raw
    }
}

} // verus!
