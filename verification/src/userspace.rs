//! Strings that a userspace program hands to the kernel, read one byte at a time. The bytes are
//! held as they were read from the program's memory.

use vstd::prelude::*;

verus! {

/// A string from userspace, from the byte at its current position to its end.
#[derive(Debug)]
pub struct UserspaceStr {
    bytes: Vec<u8>,
    pos: usize,
    start_addr_userspace: usize,
}

impl View for UserspaceStr {
    type V = Seq<u8>;

    /// The bytes that remain in the string.
    closed spec fn view(&self) -> Seq<u8> {
        self.bytes@.subrange(self.pos as int, self.bytes@.len() as int)
    }
}

impl UserspaceStr {
    /// The userspace address of the string's first remaining byte.
    pub closed spec fn start_spec(&self) -> usize {
        self.start_addr_userspace
    }

    /// Whether the position lies within the bytes.
    pub closed spec fn wf(&self) -> bool {
        self.pos <= self.bytes@.len()
    }

    /// Makes a string of the bytes read from userspace, starting at `start_addr_userspace`.
    pub fn from_bytes(bytes: Vec<u8>, start_addr_userspace: usize) -> (r: UserspaceStr)
        ensures
            r.wf(),
            r@ == bytes@,
            r.start_spec() == start_addr_userspace,
    {
        let r = UserspaceStr { bytes, pos: 0, start_addr_userspace };
        assert(r@ =~= r.bytes@);
        r
    }

    /// Returns the length of the string.
    pub fn len(&self) -> (r: usize)
        requires
            self.wf(),
        ensures
            r == self@.len(),
    {
        self.bytes.len() - self.pos
    }

    /// Determines whether the string is empty.
    pub fn is_empty(&self) -> (r: bool)
        requires
            self.wf(),
        ensures
            r == (self@.len() == 0),
    {
        self.len() == 0
    }

    /// Returns the first byte of the string, which must not be empty.
    pub fn head(&self) -> (r: u8)
        requires
            self.wf(),
            self@.len() > 0,
        ensures
            r == self@[0],
    {
        self.bytes[self.pos]
    }

    /// Returns the string with its first byte removed; it must not be empty.
    pub fn tail(self) -> (r: UserspaceStr)
        requires
            self.wf(),
            self@.len() > 0,
        ensures
            r.wf(),
            r@ == self@.drop_first(),
            r.start_spec() == self.start_spec().wrapping_add(1),
    {
        let n = self.bytes.len();
        assert(self.pos < n);
        let r = UserspaceStr {
            bytes: self.bytes,
            pos: self.pos + 1,
            start_addr_userspace: self.start_addr_userspace.wrapping_add(1),
        };
        assert(r@ =~= self@.drop_first());
        r
    }

    // A copy of the string.
    fn duplicate(&self) -> (r: UserspaceStr)
        requires
            self.wf(),
        ensures
            r.wf(),
            r@ == self@,
            r.start_spec() == self.start_spec(),
    {
        let mut bytes: Vec<u8> = Vec::new();
        let mut i: usize = self.pos;
        while i < self.bytes.len()
            invariant
                self.pos <= i <= self.bytes@.len(),
                bytes@ == self.bytes@.subrange(self.pos as int, i as int),
            decreases self.bytes@.len() - i,
        {
            bytes.push(self.bytes[i]);
            assert(bytes@ =~= self.bytes@.subrange(self.pos as int, i + 1));
            i += 1;
        }
        let r = UserspaceStr { bytes, pos: 0, start_addr_userspace: self.start_addr_userspace };
        assert(r@ =~= self@);
        r
    }

    /// Looks for `prefix` at the beginning of the string. Leaves this string unchanged and returns
    /// the part of it that remains after the prefix, or `None` if the string does not start with
    /// the prefix.
    pub fn match_and_advance(&self, prefix: &[u8]) -> (r: Option<UserspaceStr>)
        requires
            self.wf(),
        ensures
            r is Some <==> prefix@.is_prefix_of(self@),
            r matches Some(rest) ==> rest.wf() && rest@ == self@.subrange(prefix@.len() as int, self@.len() as int)
                && rest.start_spec() == self.start_spec().wrapping_add(prefix@.len() as usize),
    {
        let mut rest = self.duplicate();
        let mut i: usize = 0;
        while i < prefix.len()
            invariant
                self.wf(),
                rest.wf(),
                i <= prefix@.len(),
                i <= self@.len(),
                prefix@.subrange(0, i as int) == self@.subrange(0, i as int),
                rest@ == self@.subrange(i as int, self@.len() as int),
                rest.start_spec() == self.start_spec().wrapping_add(i),
            decreases prefix@.len() - i,
        {
            if rest.len() == 0 {
                return None;
            }
            if rest.head() != prefix[i] {
                assert(self@[i as int] == rest@[0]);
                return None;
            }
            proof {
                assert(prefix@.subrange(0, i + 1) =~= self@.subrange(0, i + 1)) by {
                    assert(self@[i as int] == rest@[0]);
                }
            }
            rest = rest.tail();
            assert(rest@ =~= self@.subrange(i + 1, self@.len() as int));
            assert(self.start_spec().wrapping_add(i).wrapping_add(1) == self.start_spec().wrapping_add((i + 1) as usize));
            i += 1;
        }
        assert(prefix@.subrange(0, i as int) =~= prefix@);
        Some(rest)
    }
}

} // verus!
