//! Abstractions for interfacing with things outside of Rust: integers stored in a fixed byte order,
//! C strings, and errors for integers that name no variant of an enum.
//!
//! The kernel runs only on little-endian targets (aarch64 and x86_64), so native byte order is
//! little-endian: converting to or from big-endian reverses the bytes, and converting to or from
//! little-endian changes nothing.

use vstd::prelude::*;
use vstd::string::StringSliceAdditionalSpecFns;

verus! {

/// Represents an error that can occur when trying to convert an integer to a variant of an enum:
/// the integer names no variant of that enum.
#[derive(Debug)]
pub struct InvalidVariantError<T> {
    enum_type: &'static str,
    value: T,
}

impl<T> InvalidVariantError<T> {
    /// The name of the enum type.
    pub closed spec fn enum_type_spec(&self) -> &'static str {
        self.enum_type
    }

    /// The integer that could not be converted.
    pub closed spec fn value_spec(&self) -> T {
        self.value
    }

    /// Makes a new instance of the error for the given enum type and integer value.
    pub fn new(enum_type: &'static str, value: T) -> (r: Self)
        ensures
            r.enum_type_spec() == enum_type,
            r.value_spec() == value,
    {
        InvalidVariantError { enum_type, value }
    }

    /// Returns the name of the enum type.
    pub fn enum_type(&self) -> (r: &'static str)
        ensures
            r == self.enum_type_spec(),
    {
        self.enum_type
    }

    /// Returns the integer that could not be converted.
    pub fn value(&self) -> (r: &T)
        ensures
            *r == self.value_spec(),
    {
        &self.value
    }
}

/// A signed or unsigned 128-bit number, which can hold the value of any of the integer types that
/// an enum can be represented by.
#[derive(Debug, Clone, Copy, PartialEq, Eq, Structural)]
pub enum Int128 {
    /// A signed value.
    Signed(i128),
    /// An unsigned value.
    Unsigned(u128),
}

/// The decimal digits of `n`, in ASCII, most significant first, with no leading zeros.
pub open spec fn decimal_spec(n: nat) -> Seq<u8>
    decreases n,
{
    if n < 10 {
        seq![(48 + n) as u8]
    } else {
        decimal_spec(n / 10).push((48 + n % 10) as u8)
    }
}

/// The decimal text of `v`, in ASCII: its digits, after a minus sign if it is negative.
pub open spec fn int128_text(v: Int128) -> Seq<u8> {
    match v {
        Int128::Unsigned(u) => decimal_spec(u as nat),
        Int128::Signed(i) => if i < 0 { seq![45u8] + decimal_spec((-i) as nat) } else { decimal_spec(i as nat) },
    }
}

fn decimal_u128(n: u128) -> (r: Vec<u8>)
    ensures
        r@ == decimal_spec(n as nat),
    decreases n,
{
    if n < 10 {
        let mut v: Vec<u8> = Vec::new();
        v.push((48 + n) as u8);
        assert(v@ =~= seq![(48 + n) as u8]);
        v
    } else {
        let mut v = decimal_u128(n / 10);
        v.push((48 + n % 10) as u8);
        v
    }
}

impl Int128 {
    /// The decimal text of the number, in ASCII.
    pub fn decimal_text(self) -> (r: Vec<u8>)
        ensures
            r@ == int128_text(self),
    {
        match self {
            Int128::Unsigned(u) => decimal_u128(u),
            Int128::Signed(i) => {
                if i < 0 {
                    let magnitude = (-(i + 1)) as u128 + 1;
                    let digits = decimal_u128(magnitude);
                    let mut v: Vec<u8> = Vec::new();
                    v.push(45u8);
                    let mut k: usize = 0;
                    while k < digits.len()
                        invariant
                            k <= digits@.len(),
                            v@ == seq![45u8] + digits@.subrange(0, k as int),
                        decreases digits@.len() - k,
                    {
                        v.push(digits[k]);
                        k += 1;
                        assert(v@ =~= seq![45u8] + digits@.subrange(0, k as int));
                    }
                    assert(digits@.subrange(0, digits@.len() as int) =~= digits@);
                    v
                } else {
                    decimal_u128(i as u128)
                }
            },
        }
    }
}

/// The text of an `InvalidVariantError` for the enum named `enum_type` and the value `value`, as
/// UTF-8 bytes.
pub open spec fn variant_message_spec(enum_type: Seq<u8>, value: Int128) -> Seq<u8> {
    "attempted to construct a variant of enum `".spec_bytes() + enum_type
        + "` from invalid numeric representation ".spec_bytes() + int128_text(value)
}

fn variant_message(enum_type: &str, value: Int128) -> (r: Vec<u8>)
    ensures
        r@ == variant_message_spec(enum_type.spec_bytes(), value),
{
    let parts: [&[u8]; 3] = [
        "attempted to construct a variant of enum `".as_bytes(),
        enum_type.as_bytes(),
        "` from invalid numeric representation ".as_bytes(),
    ];
    let mut v: Vec<u8> = Vec::new();
    let mut p: usize = 0;
    while p < 3
        invariant
            p <= 3,
            parts@.len() == 3,
            parts@[0]@ == "attempted to construct a variant of enum `".spec_bytes(),
            parts@[1]@ == enum_type.spec_bytes(),
            parts@[2]@ == "` from invalid numeric representation ".spec_bytes(),
            v@ == (if p == 0 { Seq::<u8>::empty() } else if p == 1 { parts@[0]@ } else if p == 2 {
                parts@[0]@ + parts@[1]@ } else { parts@[0]@ + parts@[1]@ + parts@[2]@ }),
        decreases 3 - p,
    {
        let part: &[u8] = parts[p];
        let ghost before = v@;
        let mut k: usize = 0;
        while k < part.len()
            invariant
                k <= part@.len(),
                v@ == before + part@.subrange(0, k as int),
            decreases part@.len() - k,
        {
            v.push(part[k]);
            k += 1;
            assert(v@ =~= before + part@.subrange(0, k as int));
        }
        assert(part@.subrange(0, part@.len() as int) =~= part@);
        assert(before + part@ =~= (if p + 1 == 1 { parts@[0]@ } else if p + 1 == 2 { parts@[0]@ + parts@[1]@ } else {
            parts@[0]@ + parts@[1]@ + parts@[2]@ }));
        p += 1;
    }
    let digits = value.decimal_text();
    let ghost before = v@;
    let mut k: usize = 0;
    while k < digits.len()
        invariant
            k <= digits@.len(),
            v@ == before + digits@.subrange(0, k as int),
        decreases digits@.len() - k,
    {
        v.push(digits[k]);
        k += 1;
        assert(v@ =~= before + digits@.subrange(0, k as int));
    }
    assert(digits@.subrange(0, digits@.len() as int) =~= digits@);
    v
}

impl InvalidVariantError<u8> {
    /// The error's message as UTF-8 bytes: "attempted to construct a variant of enum `E` from
    /// invalid numeric representation N", with the enum's name and the value in decimal.
    pub fn message(&self) -> (r: Vec<u8>)
        ensures
            r@ == variant_message_spec(self.enum_type_spec().spec_bytes(), Int128::Unsigned(self.value_spec() as u128)),
    {
        variant_message(self.enum_type, Int128::Unsigned(self.value as u128))
    }
}

impl InvalidVariantError<u32> {
    /// The error's message as UTF-8 bytes: "attempted to construct a variant of enum `E` from
    /// invalid numeric representation N", with the enum's name and the value in decimal.
    pub fn message(&self) -> (r: Vec<u8>)
        ensures
            r@ == variant_message_spec(self.enum_type_spec().spec_bytes(), Int128::Unsigned(self.value_spec() as u128)),
    {
        variant_message(self.enum_type, Int128::Unsigned(self.value as u128))
    }
}

/// The value of `x` with the order of its two bytes reversed.
pub open spec fn swap16(x: u16) -> u16 {
    ((x & 0xff) << 8u16) | (x >> 8u16)
}

/// The value of `x` with the order of its four bytes reversed.
pub open spec fn swap32(x: u32) -> u32 {
    ((x & 0xff) << 24u32) | (((x >> 8u32) & 0xff) << 16u32) | (((x >> 16u32) & 0xff) << 8u32)
        | (x >> 24u32)
}

/// The value of `x` with the order of its eight bytes reversed.
pub open spec fn swap64(x: u64) -> u64 {
    ((x & 0xff) << 56u64) | (((x >> 8u64) & 0xff) << 48u64) | (((x >> 16u64) & 0xff) << 40u64)
        | (((x >> 24u64) & 0xff) << 32u64) | (((x >> 32u64) & 0xff) << 24u64)
        | (((x >> 40u64) & 0xff) << 16u64) | (((x >> 48u64) & 0xff) << 8u64) | (x >> 56u64)
}

/// Represents any type that can be converted between big- and little-endian forms.
pub trait PrimitiveEndian: Sized {
    /// The value with the order of its bytes reversed.
    spec fn swapped(self) -> Self;

    /// Reversing the bytes twice gives the value back.
    proof fn lemma_swap_twice(x: Self)
        ensures
            x.swapped().swapped() == x;

    /// Converts from big-endian to native-endian.
    fn from_be(x: Self) -> (r: Self)
        ensures
            r == x.swapped();

    /// Converts from little-endian to native-endian.
    fn from_le(x: Self) -> (r: Self)
        ensures
            r == x;

    /// Converts from native-endian to big-endian.
    fn to_be(self) -> (r: Self)
        ensures
            r == self.swapped();

    /// Converts from native-endian to little-endian.
    fn to_le(self) -> (r: Self)
        ensures
            r == self;
}

impl PrimitiveEndian for u8 {
    open spec fn swapped(self) -> u8 {
        self
    }

    proof fn lemma_swap_twice(x: u8) {
    }

    fn from_be(x: u8) -> (r: u8) {
        x
    }

    fn from_le(x: u8) -> (r: u8) {
        x
    }

    fn to_be(self) -> (r: u8) {
        self
    }

    fn to_le(self) -> (r: u8) {
        self
    }
}

impl PrimitiveEndian for u16 {
    open spec fn swapped(self) -> u16 {
        swap16(self)
    }

    proof fn lemma_swap_twice(x: u16) {
        assert(swap16(swap16(x)) == x) by (bit_vector);
    }

    fn from_be(x: u16) -> (r: u16) {
        ((x & 0xff) << 8u16) | (x >> 8u16)
    }

    fn from_le(x: u16) -> (r: u16) {
        x
    }

    fn to_be(self) -> (r: u16) {
        ((self & 0xff) << 8u16) | (self >> 8u16)
    }

    fn to_le(self) -> (r: u16) {
        self
    }
}

impl PrimitiveEndian for u32 {
    open spec fn swapped(self) -> u32 {
        swap32(self)
    }

    proof fn lemma_swap_twice(x: u32) {
        assert(swap32(swap32(x)) == x) by (bit_vector);
    }

    fn from_be(x: u32) -> (r: u32) {
        PrimitiveEndian::to_be(x)
    }

    fn from_le(x: u32) -> (r: u32) {
        x
    }

    fn to_be(self) -> (r: u32) {
        ((self & 0xff) << 24u32) | (((self >> 8u32) & 0xff) << 16u32) | (((self >> 16u32) & 0xff) << 8u32)
            | (self >> 24u32)
    }

    fn to_le(self) -> (r: u32) {
        self
    }
}

impl PrimitiveEndian for u64 {
    open spec fn swapped(self) -> u64 {
        swap64(self)
    }

    proof fn lemma_swap_twice(x: u64) {
        assert(swap64(swap64(x)) == x) by (bit_vector);
    }

    fn from_be(x: u64) -> (r: u64) {
        PrimitiveEndian::to_be(x)
    }

    fn from_le(x: u64) -> (r: u64) {
        x
    }

    fn to_be(self) -> (r: u64) {
        ((self & 0xff) << 56u64) | (((self >> 8u64) & 0xff) << 48u64)
            | (((self >> 16u64) & 0xff) << 40u64) | (((self >> 24u64) & 0xff) << 32u64)
            | (((self >> 32u64) & 0xff) << 24u64) | (((self >> 40u64) & 0xff) << 16u64)
            | (((self >> 48u64) & 0xff) << 8u64) | (self >> 56u64)
    }

    fn to_le(self) -> (r: u64) {
        self
    }
}

/// Represents any newtype for a particular representation of an integer, such as `Be` and `Le`.
pub trait Endian: Sized {
    /// The native-endian equivalent of the type that implements this trait.
    type Primitive;

    /// The native value this representation stands for.
    spec fn native(&self) -> Self::Primitive;

    /// Converts from native-endian to this type's representation.
    fn from_native(x: Self::Primitive) -> (r: Self)
        ensures
            r.native() == x;

    /// Converts from this type's representation to native-endian.
    fn into_native(self) -> (r: Self::Primitive)
        ensures
            r == self.native();
}

/// Represents a big-endian integer. It needs to be converted to a regular integer before being
/// used as anything other than a bit pattern.
#[derive(Debug, Clone, Copy)]
pub struct Be<T: PrimitiveEndian>(T);

/// Represents a little-endian integer. It needs to be converted to a regular integer before being
/// used as anything other than a bit pattern.
#[derive(Debug, Clone, Copy)]
pub struct Le<T: PrimitiveEndian>(T);

impl<T: PrimitiveEndian> Be<T> {
    /// The bit pattern as it lies in memory, read natively.
    pub closed spec fn raw(&self) -> T {
        self.0
    }

    /// Takes the bit pattern `raw` as it lies in memory.
    pub fn from_raw(raw: T) -> (r: Self)
        ensures
            r.raw() == raw,
    {
        Be(raw)
    }
}

impl<T: PrimitiveEndian> Le<T> {
    /// The bit pattern as it lies in memory, read natively.
    pub closed spec fn raw(&self) -> T {
        self.0
    }

    /// Takes the bit pattern `raw` as it lies in memory.
    pub fn from_raw(raw: T) -> (r: Self)
        ensures
            r.raw() == raw,
    {
        Le(raw)
    }
}

impl<T: PrimitiveEndian> Endian for Be<T> {
    type Primitive = T;

    closed spec fn native(&self) -> T {
        self.0.swapped()
    }

    fn from_native(x: T) -> (r: Self) {
        proof {
            T::lemma_swap_twice(x);
        }
        Be(x.to_be())
    }

    fn into_native(self) -> (r: T) {
        T::from_be(self.0)
    }
}

impl<T: PrimitiveEndian> Endian for Le<T> {
    type Primitive = T;

    closed spec fn native(&self) -> T {
        self.0
    }

    fn from_native(x: T) -> (r: Self) {
        Le(x.to_le())
    }

    fn into_native(self) -> (r: T) {
        T::from_le(self.0)
    }
}

/// The big-endian representation of a value stands for that value, and its bit pattern in memory
/// is the value with its bytes reversed.
pub proof fn lemma_be_round_trip<T: PrimitiveEndian>(x: T, b: Be<T>)
    requires
        b.raw() == x.swapped(),
    ensures
        b.native() == x,
{
    T::lemma_swap_twice(x);
}

/// The length of the C string at the start of `bytes`: the index of its first null byte.
pub open spec fn c_len(bytes: Seq<u8>) -> int
    recommends
        bytes.contains(0u8),
{
    choose|i: int| is_first_null(bytes, i)
}

/// Whether `i` is the index of the first null byte in `bytes`.
pub open spec fn is_first_null(bytes: Seq<u8>, i: int) -> bool {
    &&& 0 <= i < bytes.len()
    &&& bytes[i] == 0
    &&& forall|j: int| 0 <= j < i ==> bytes[j] != 0
}

/// Calls `core::str::from_utf8`, which, as std documents, succeeds exactly when the bytes are valid
/// UTF-8 and then returns the string made of those bytes.
#[verifier::external_body]
pub(crate) fn str_from_utf8(bytes: &[u8]) -> (r: Result<&str, core::str::Utf8Error>)
    ensures
        r is Ok <==> vstd::utf8::valid_utf8(bytes@),
        r is Ok ==> r->Ok_0.spec_bytes() == bytes@,
{
    core::str::from_utf8(bytes)
}

#[verifier::external_type_specification]
#[verifier::external_body]
pub struct ExUtf8Error(core::str::Utf8Error);

/// Represents a reference to a C string: an array of bytes that ends at the first null byte.
#[derive(Debug, Clone, Copy)]
pub struct CStrRef<'a> {
    bytes: &'a [u8],
}

impl<'a> CStrRef<'a> {
    /// The bytes the string starts at, up to the end of the memory it lies in.
    pub closed spec fn memory(&self) -> Seq<u8> {
        self.bytes@
    }

    /// Whether the memory holds a null byte, as every C string's memory does.
    pub open spec fn wf(&self) -> bool {
        self.memory().contains(0u8)
    }

    /// The bytes of the string, without the null terminator.
    pub open spec fn content(&self) -> Seq<u8> {
        self.memory().take(c_len(self.memory()))
    }

    /// Converts a null-terminated byte slice into a C string reference. Returns `None` if the
    /// slice is not null-terminated or has a null byte somewhere other than at the end.
    pub fn from_null_terminated_slice(slice: &'a [u8]) -> (r: Option<CStrRef<'a>>)
        ensures
            r is Some <==> (slice@.len() > 0 && is_first_null(slice@, slice@.len() - 1)),
            r is Some ==> r->Some_0.memory() == slice@ && r->Some_0.wf(),
            r is Some ==> c_len(r->Some_0.memory()) == slice@.len() - 1,
    {
        let n = slice.len();
        if n == 0 || slice[n - 1] != 0 {
            return None;
        }
        let mut i: usize = 0;
        while i < n - 1
            invariant
                n == slice@.len(),
                n > 0,
                i <= n - 1,
                forall|j: int| 0 <= j < i ==> slice@[j] != 0,
            decreases n - 1 - i,
        {
            if slice[i] == 0 {
                return None;
            }
            i += 1;
        }
        assert(slice@[n - 1] == 0);
        proof {
            lemma_first_null_unique(slice@, n - 1);
        }
        Some(CStrRef { bytes: slice })
    }

    /// Converts a byte slice that holds a null byte into a C string reference, which ends at the
    /// first null byte, as it would in C.
    pub fn from_null_terminated_slice_unchecked(slice: &'a [u8]) -> (r: CStrRef<'a>)
        requires
            slice@.contains(0u8),
        ensures
            r.memory() == slice@,
            r.wf(),
    {
        CStrRef { bytes: slice }
    }

    /// Returns the number of bytes in this C string, excluding the null terminator.
    pub fn len(&self) -> (r: usize)
        requires
            self.wf(),
        ensures
            is_first_null(self.memory(), r as int),
            r == c_len(self.memory()),
    {
        let n = self.bytes.len();
        let mut i: usize = 0;
        while i < n
            invariant
                n == self.bytes@.len(),
                self.bytes@.contains(0u8),
                i <= n,
                forall|j: int| 0 <= j < i ==> self.bytes@[j] != 0,
            decreases n - i,
        {
            if self.bytes[i] == 0 {
                proof {
                    lemma_first_null_unique(self.bytes@, i as int);
                }
                return i;
            }
            i += 1;
        }
        proof {
            let k = choose|k: int| 0 <= k < self.bytes@.len() && self.bytes@[k] == 0u8;
            assert(self.bytes@[k] != 0);
        }
        0
    }

    /// Returns the number of bytes in this C string, excluding the null terminator, or `max_len`,
    /// whichever is smaller.
    pub fn len_capped(&self, max_len: usize) -> (r: usize)
        requires
            self.wf(),
        ensures
            r == if c_len(self.memory()) < max_len { c_len(self.memory()) } else { max_len as int },
    {
        let n = self.bytes.len();
        let mut i: usize = 0;
        while i < max_len && i < n
            invariant
                n == self.bytes@.len(),
                self.bytes@.contains(0u8),
                i <= n,
                i <= max_len,
                forall|j: int| 0 <= j < i ==> self.bytes@[j] != 0,
            decreases n - i,
        {
            if self.bytes[i] == 0 {
                proof {
                    lemma_first_null_unique(self.bytes@, i as int);
                }
                return i;
            }
            i += 1;
        }
        proof {
            lemma_c_len_bounds(self.bytes@);
            if i == n {
                let k = c_len(self.bytes@);
                assert(self.bytes@[k] == 0);
            }
        }
        max_len
    }

    /// Returns the bytes of the C string, without the null terminator.
    pub fn as_bytes(&self) -> (r: &'a [u8])
        requires
            self.wf(),
        ensures
            r@ == self.content(),
    {
        let len = self.len();
        vstd::slice::slice_subrange(self.bytes, 0, len)
    }

    /// Returns the bytes of the C string, including the null terminator as the last element.
    pub fn as_bytes_null_terminated(&self) -> (r: &'a [u8])
        requires
            self.wf(),
        ensures
            r@ == self.memory().take(c_len(self.memory()) + 1),
    {
        let len = self.len();
        let n = self.bytes.len();
        assert(len < n);
        vstd::slice::slice_subrange(self.bytes, 0, len + 1)
    }

    /// Returns the first `max_len` bytes of the C string, or all of them if there are fewer.
    pub fn as_bytes_capped(&self, max_len: usize) -> (r: &'a [u8])
        requires
            self.wf(),
        ensures
            r@ == self.content().take(if c_len(self.memory()) < max_len { c_len(self.memory()) } else { max_len as int }),
    {
        let len = self.len_capped(max_len);
        proof {
            lemma_c_len_bounds(self.bytes@);
        }
        vstd::slice::slice_subrange(self.bytes, 0, len)
    }

    /// Converts the C string into a string. Fails if it is not valid UTF-8 text.
    pub fn as_str(&self) -> (r: Result<&'a str, core::str::Utf8Error>)
        requires
            self.wf(),
        ensures
            r is Ok <==> vstd::utf8::valid_utf8(self.content()),
            r is Ok ==> r->Ok_0.spec_bytes() == self.content(),
    {
        str_from_utf8(self.as_bytes())
    }

    /// Converts the first `max_len` bytes of the C string (or all of them if there are fewer)
    /// into a string. Fails if they are not valid UTF-8 text.
    pub fn as_str_capped(&self, max_len: usize) -> (r: Result<&'a str, core::str::Utf8Error>)
        requires
            self.wf(),
        ensures
            ({
                let shown = self.content().take(
                    if c_len(self.memory()) < max_len { c_len(self.memory()) } else { max_len as int });
                &&& (r is Ok <==> vstd::utf8::valid_utf8(shown))
                &&& (r is Ok ==> r->Ok_0.spec_bytes() == shown)
            }),
    {
        str_from_utf8(self.as_bytes_capped(max_len))
    }

    /// Returns a cursor over the bytes in this C string, excluding the null terminator.
    pub fn iter(&self) -> (r: CStrBytes<'a>)
        requires
            self.wf(),
        ensures
            r.remaining() == self.content(),
    {
        let len = self.len();
        CStrBytes { bytes: self.bytes, cursor: 0, end: len }
    }

    /// Whether the two C strings hold the same bytes.
    pub fn eq(&self, other: &CStrRef) -> (r: bool)
        requires
            self.wf(),
            other.wf(),
        ensures
            r == (self.content() == other.content()),
    {
        let a = self.as_bytes();
        let b = other.as_bytes();
        if a.len() != b.len() {
            return false;
        }
        let mut i: usize = 0;
        while i < a.len()
            invariant
                a@ == self.content(),
                b@ == other.content(),
                a@.len() == b@.len(),
                i <= a@.len(),
                forall|j: int| 0 <= j < i ==> a@[j] == b@[j],
            decreases a@.len() - i,
        {
            if a[i] != b[i] {
                assert(a@[i as int] != b@[i as int]);
                return false;
            }
            i += 1;
        }
        assert(a@ == b@);
        true
    }
}

/// A cursor over the individual bytes in a C string, not including the null terminator.
#[derive(Debug)]
pub struct CStrBytes<'a> {
    bytes: &'a [u8],
    cursor: usize,
    end: usize,
}

impl<'a> CStrBytes<'a> {
    /// The bytes not yet returned.
    pub closed spec fn remaining(&self) -> Seq<u8> {
        self.bytes@.subrange(self.cursor as int, self.end as int)
    }

    #[verifier::type_invariant]
    spec fn inv(&self) -> bool {
        self.cursor <= self.end <= self.bytes@.len()
    }

    /// Returns the next byte, or `None` at the end of the string.
    pub fn next(&mut self) -> (r: Option<u8>)
        ensures
            old(self).remaining().len() == 0 ==> r is None && final(self).remaining() == old(self).remaining(),
            old(self).remaining().len() > 0 ==> r == Some(old(self).remaining()[0])
                && final(self).remaining() == old(self).remaining().drop_first(),
    {
        proof {
            use_type_invariant(&*self);
        }
        if self.cursor < self.end {
            let b = self.bytes[self.cursor];
            self.cursor = self.cursor + 1;
            Some(b)
        } else {
            None
        }
    }
}

// The first null byte is where the string ends.
proof fn lemma_first_null_unique(bytes: Seq<u8>, i: int)
    requires
        is_first_null(bytes, i),
    ensures
        c_len(bytes) == i,
{
    let k = c_len(bytes);
    assert(is_first_null(bytes, k));
    if k < i {
        assert(bytes[k] != 0);
    } else if k > i {
        assert(bytes[i] != 0);
    }
}

// The end of the string lies within its memory.
proof fn lemma_c_len_bounds(bytes: Seq<u8>)
    requires
        bytes.contains(0u8),
    ensures
        is_first_null(bytes, c_len(bytes)),
        0 <= c_len(bytes) < bytes.len(),
{
    let k0 = choose|k: int| 0 <= k < bytes.len() && bytes[k] == 0u8;
    lemma_first_null_exists(bytes, k0);
}

// A sequence with a null byte at `k` has a first null byte.
proof fn lemma_first_null_exists(bytes: Seq<u8>, k: int)
    requires
        0 <= k < bytes.len(),
        bytes[k] == 0,
    ensures
        exists|i: int| is_first_null(bytes, i),
    decreases k,
{
    if forall|j: int| 0 <= j < k ==> bytes[j] != 0 {
        assert(is_first_null(bytes, k));
    } else {
        let j = choose|j: int| 0 <= j < k && bytes[j] == 0;
        lemma_first_null_exists(bytes, j);
    }
}

} // verus!
