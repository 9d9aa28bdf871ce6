//! An atomically accessible tagged pointer, suitable for storing the pointer to the next node in a
//! list together with a generation number. The pointer (an address aligned for `T`) is divided by
//! `T`'s alignment and the tag is kept in the bits above it, so that overflow in the tag never
//! disturbs the pointer.

use vstd::prelude::*;
use core::marker::PhantomData;
use core::sync::atomic::{AtomicUsize, Ordering};
use crate::sync::{load_ordering, store_ordering};

verus! {

/// The smallest amount that can be added to the tag of a tagged pointer whose pointee has
/// alignment `align`.
pub open spec fn tag_unit_spec(align: usize) -> int {
    (usize::MAX as int) / (align as int) + 1
}

/// Whether `tag` is a multiple of the tag unit for alignment `align`.
pub open spec fn is_tag_multiple(align: usize, tag: usize) -> bool {
    (tag as int) % tag_unit_spec(align) == 0
}

/// The raw representation of the pointer `ptr` with the tag `tag`.
pub open spec fn encode_spec(align: usize, ptr: usize, tag: usize) -> int {
    (ptr as int) / (align as int) + tag
}

/// The pointer and tag that the raw representation `raw` stands for.
pub open spec fn decode_spec(align: usize, raw: usize) -> (usize, usize) {
    (((raw as int) * (align as int) % (usize::MAX as int + 1)) as usize,
     ((raw as int) / tag_unit_spec(align) * tag_unit_spec(align)) as usize)
}

// A power of two divides every power of two at least as large.
proof fn lemma_pow2_divides(a: int, n: int)
    requires
        vstd::arithmetic::power2::is_pow2(a),
        vstd::arithmetic::power2::is_pow2(n),
        a <= n,
    ensures
        n % a == 0,
    decreases a,
{
    reveal(vstd::arithmetic::power2::is_pow2);
    if a > 1 {
        assert(n > 1);
        lemma_pow2_divides(a / 2, n / 2);
        let k = (n / 2) / (a / 2);
        assert(n / 2 == k * (a / 2)) by (nonlinear_arith)
            requires (n / 2) % (a / 2) == 0, a / 2 > 0, k == (n / 2) / (a / 2);
        assert(n == k * a) by (nonlinear_arith) requires n % 2 == 0, a % 2 == 0, n / 2 == k * (a / 2);
        vstd::arithmetic::div_mod::lemma_mod_multiples_basic(k, a);
    }
}

// The size of the address space is a power of two.
proof fn lemma_address_space_pow2()
    ensures
        vstd::arithmetic::power2::is_pow2(usize::MAX as int + 1),
{
    assert(usize::BITS == 32 || usize::BITS == 64);
    vstd::arithmetic::power2::lemma2_to64();
    let e: nat = if usize::BITS == 32 { 32 } else { 64 };
    vstd::arithmetic::power2::lemma_pow2(e);
    assert(vstd::arithmetic::power::pow(2, e) == usize::MAX as int + 1);
    assert(vstd::arithmetic::power2::is_pow2_exists(usize::MAX as int + 1));
    vstd::arithmetic::power2::is_pow2_equiv(usize::MAX as int + 1);
}

// Returns the alignment of `T`, which is a power of two and so divides the size of the address
// space.
fn align_of_pointee<T>() -> (a: usize)
    ensures
        a as nat == vstd::layout::align_of::<T>(),
        a > 0,
        (usize::MAX as int + 1) % (a as int) == 0,
{
    vstd::layout::layout_for_type_is_valid::<T>();
    let a = core::mem::align_of::<T>();
    proof {
        lemma_address_space_pow2();
        lemma_pow2_divides(a as int, usize::MAX as int + 1);
    }
    a
}

// The raw representation of `ptr` with `tag`.
fn encode(align: usize, ptr: usize, tag: usize) -> (raw: usize)
    requires
        align > 0,
        encode_spec(align, ptr, tag) <= usize::MAX,
    ensures
        raw == encode_spec(align, ptr, tag),
{
    ptr / align + tag
}

// The pointer and tag that `raw` stands for.
fn decode(align: usize, raw: usize) -> (r: (usize, usize))
    requires
        align > 1,
    ensures
        r == decode_spec(align, raw),
        r.1 % (tag_unit_spec(align) as usize) == 0,
{
    assert(usize::MAX / align < usize::MAX) by (nonlinear_arith) requires align > 1;
    let unit = usize::MAX / align + 1;
    let ptr = raw.wrapping_mul(align);
    proof {
        let u: int = unit as int;
        assert(u > 0);
        let q: int = raw as int / u;
        assert(q * u <= raw) by (nonlinear_arith) requires u > 0, raw >= 0, q == raw as int / u;
        assert(q * u >= 0) by (nonlinear_arith) requires u > 0, raw >= 0, q == raw as int / u;
        vstd::arithmetic::div_mod::lemma_mod_multiples_basic(q, u);
    }
    (ptr, raw / unit * unit)
}

/// The tag `tag` counted in tag units for alignment `align`.
pub open spec fn tag_in_units(align: usize, tag: usize) -> usize {
    ((tag as int) / tag_unit_spec(align)) as usize
}

// What a compare-and-swap that found the current raw value reports: the current pointer, and the
// current tag in tag units.
proof fn lemma_found_current(align: usize, ptr: usize, tag: usize, found_raw: usize)
    requires
        align > 1,
        (usize::MAX as int + 1) % (align as int) == 0,
        ptr % align == 0,
        (tag as int) % tag_unit_spec(align) == 0,
        encode_spec(align, ptr, tag) <= usize::MAX,
        found_raw == encode_spec(align, ptr, tag),
    ensures
        ((found_raw as int) * (align as int) % (usize::MAX as int + 1)) as usize == ptr,
        found_raw / ((usize::MAX / align + 1) as usize) == tag_in_units(align, tag),
{
    lemma_decode_encode(align, ptr, tag);
    let u = tag_unit_spec(align);
    let t = (found_raw as int) / u * u;
    assert(u > 0);
    assert(0 <= t <= found_raw) by (nonlinear_arith)
        requires u > 0, found_raw >= 0, t == (found_raw as int) / u * u;
    assert(t == tag);
    assert(usize::MAX / align < usize::MAX) by (nonlinear_arith) requires align > 1;
    assert(((usize::MAX / align + 1) as usize) as int == u);
    assert((found_raw as int) / u == (tag as int) / u) by (nonlinear_arith)
        requires t == (found_raw as int) / u * u, t == tag, u > 0;
}

/// A pointer paired with a pointer-sized tag. The pointer and tag are only ever updated at the same
/// time, using an atomic compare-and-swap operation.
#[derive(Debug)]
pub struct TaggedPtr<T> {
    internal: AtomicUsize,
    _phantom: PhantomData<T>,
}

impl<T> TaggedPtr<T> {
    /// The alignment of `T`.
    pub open spec fn align() -> usize {
        vstd::layout::align_of::<T>() as usize
    }

    /// Returns the smallest amount that can be added to the tag.
    pub fn tag_unit() -> (u: usize)
        requires
            Self::align() > 1,
        ensures
            u == tag_unit_spec(Self::align()),
    {
        let align = align_of_pointee::<T>();
        assert(usize::MAX / align < usize::MAX) by (nonlinear_arith) requires align > 1;
        usize::MAX / align + 1
    }

    /// Makes a tagged null pointer with the given tag, which must be a multiple of the tag unit.
    pub fn new_null(tag: usize) -> (r: Self)
        requires
            Self::align() > 1,
            (tag as int) % tag_unit_spec(Self::align()) == 0,
    {
        TaggedPtr { internal: AtomicUsize::new(tag), _phantom: PhantomData }
    }

    /// Makes a tagged pointer with the given pointer and tag. The pointer must be aligned, and the
    /// tag must be a multiple of the tag unit.
    pub fn new(ptr: usize, tag: usize) -> (r: Self)
        requires
            Self::align() > 1,
            ptr % Self::align() == 0,
            (tag as int) % tag_unit_spec(Self::align()) == 0,
            encode_spec(Self::align(), ptr, tag) <= usize::MAX,
    {
        let raw = encode(align_of_pointee::<T>(), ptr, tag);
        TaggedPtr { internal: AtomicUsize::new(raw), _phantom: PhantomData }
    }

    /// Loads the current pointer and tag.
    pub fn load(&self, ordering: Ordering) -> (r: (usize, usize))
        requires
            Self::align() > 1,
            load_ordering(ordering),
        ensures
            exists|raw: usize| r == decode_spec(Self::align(), raw),
    {
        let raw = self.internal.load(ordering);
        decode(align_of_pointee::<T>(), raw)
    }

    /// Stores a pointer and tag. The pointer must be aligned, and the tag must be a multiple of the
    /// tag unit.
    pub fn store(&self, value: (usize, usize), ordering: Ordering)
        requires
            Self::align() > 1,
            store_ordering(ordering),
            value.0 % Self::align() == 0,
            is_tag_multiple(Self::align(), value.1),
            encode_spec(Self::align(), value.0, value.1) <= usize::MAX,
    {
        let raw = encode(align_of_pointee::<T>(), value.0, value.1);
        self.internal.store(raw, ordering)
    }

    /// Adds `step` (a multiple of the tag unit) to the tag in one atomic operation, returning the
    /// pointer and tag from before the addition.
    pub fn fetch_add_tag(&self, step: usize, ordering: Ordering) -> (r: (usize, usize))
        requires
            Self::align() > 1,
            is_tag_multiple(Self::align(), step),
        ensures
            exists|raw: usize| r == decode_spec(Self::align(), raw),
    {
        let raw = self.internal.fetch_add(step, ordering);
        decode(align_of_pointee::<T>(), raw)
    }

    /// Replaces the pointer and tag with `new` if they are currently `current`. Returns the pointer
    /// found and its tag in units of the tag unit, in `Ok` if the replacement was made.
    pub fn compare_exchange(
        &self,
        current: (usize, usize),
        new: (usize, usize),
        success: Ordering,
        failure: Ordering,
    ) -> (r: Result<(usize, usize), (usize, usize)>)
        requires
            Self::align() > 1,
            load_ordering(failure),
            current.0 % Self::align() == 0,
            new.0 % Self::align() == 0,
            is_tag_multiple(Self::align(), current.1),
            is_tag_multiple(Self::align(), new.1),
            encode_spec(Self::align(), current.0, current.1) <= usize::MAX,
            encode_spec(Self::align(), new.0, new.1) <= usize::MAX,
        ensures
            r is Ok ==> r->Ok_0 == (current.0, tag_in_units(Self::align(), current.1)),
    {
        let align = align_of_pointee::<T>();
        let old_raw = encode(align, current.0, current.1);
        let new_raw = encode(align, new.0, new.1);
        assert(usize::MAX / align < usize::MAX) by (nonlinear_arith) requires align > 1;
        let unit = usize::MAX / align + 1;
        match crate::sync::usize_compare_exchange(&self.internal, old_raw, new_raw, success, failure) {
            Ok(found_raw) => {
                proof {
                    lemma_found_current(align, current.0, current.1, found_raw);
                }
                Ok((found_raw.wrapping_mul(align), found_raw / unit))
            },
            Err(found_raw) => Err((found_raw.wrapping_mul(align), found_raw / unit)),
        }
    }
}

/// Decoding the raw representation of an aligned pointer and a tag that is a multiple of the tag
/// unit gives back that pointer and tag, for any alignment that divides the size of the address
/// space (every power of two up to it does).
pub proof fn lemma_decode_encode(align: usize, ptr: usize, tag: usize)
    requires
        align > 1,
        (usize::MAX as int + 1) % (align as int) == 0,
        ptr % align == 0,
        (tag as int) % tag_unit_spec(align) == 0,
        encode_spec(align, ptr, tag) <= usize::MAX,
    ensures
        decode_spec(align, encode_spec(align, ptr, tag) as usize) == (ptr, tag),
{
    let n: int = usize::MAX as int + 1;
    let a: int = align as int;
    let u = tag_unit_spec(align);
    let q: int = ptr as int / a;
    let k: int = tag as int / u;
    let raw: int = q + tag;
    // The tag unit times the alignment is the size of the address space.
    assert(u * a == n) by (nonlinear_arith)
        requires n % a == 0, a > 1, n > a, u == (n - 1) / a + 1;
    assert(ptr == q * a) by (nonlinear_arith)
        requires (ptr as int) % a == 0, a > 0, q == ptr as int / a, ptr >= 0;
    assert(tag == k * u) by (nonlinear_arith)
        requires (tag as int) % u == 0, u > 0, k == tag as int / u, tag >= 0;
    assert(0 <= q < u) by (nonlinear_arith)
        requires q == ptr as int / a, 0 <= ptr < n, u * a == n, a > 0;
    assert(raw * a == n * k + ptr) by (nonlinear_arith)
        requires raw == q + k * u, ptr == q * a, u * a == n;
    vstd::arithmetic::div_mod::lemma_mod_multiples_vanish(k, ptr as int, n);
    vstd::arithmetic::div_mod::lemma_small_mod(ptr as nat, n as nat);
    assert(raw / u * u == tag) by (nonlinear_arith)
        requires raw == q + k * u, 0 <= q < u, tag == k * u, u > 0;
}

/// Adding any multiple of the tag unit to the raw representation, even one that wraps around,
/// leaves the pointer unchanged, for alignments that divide the size of the address space: overflow
/// in the tag never disturbs the pointer.
pub proof fn lemma_tag_overflow_keeps_pointer(align: usize, raw: usize, step: usize)
    requires
        align > 1,
        (usize::MAX as int + 1) % (align as int) == 0,
        (step as int) % tag_unit_spec(align) == 0,
    ensures
        decode_spec(align, ((raw as int + step as int) % (usize::MAX as int + 1)) as usize).0
            == decode_spec(align, raw).0,
{
    let n: int = usize::MAX as int + 1;
    let a: int = align as int;
    let u = tag_unit_spec(align);
    let k: int = step as int / u;
    assert(u * a == n) by (nonlinear_arith)
        requires n % a == 0, a > 1, n > a, u == (n - 1) / a + 1;
    assert(step == k * u) by (nonlinear_arith)
        requires (step as int) % u == 0, u > 0, k == step as int / u, step >= 0;
    let w: int = (raw as int + step as int) % n;
    vstd::arithmetic::div_mod::lemma_fundamental_div_mod(raw as int + step as int, n);
    let q: int = (raw as int + step as int) / n;
    assert(w * a == raw as int * a + n * (k - q * a)) by (nonlinear_arith)
        requires raw as int + step as int == n * q + w, step == k * u, u * a == n;
    vstd::arithmetic::div_mod::lemma_mod_multiples_vanish(k - q * a, raw as int * a, n);
    assert(0 <= w < n) by {
        vstd::arithmetic::div_mod::lemma_mod_bound(raw as int + step as int, n);
    }
}

} // verus!
