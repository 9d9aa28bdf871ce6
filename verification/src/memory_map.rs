//! A platform-independent map of the system's physical memory.

use vstd::prelude::*;

verus! {

/// Defines the type of memory comprising a given region of the memory map.
#[derive(Debug, Clone, Copy, PartialEq, Eq, Structural)]
pub enum RegionType {
    /// Random-access memory
    Ram,
    /// Read-only memory
    Rom,
    /// Memory-mapped I/O
    Mmio,
}

/// One contiguous region of the memory map.
#[derive(Debug, Clone, Copy, PartialEq, Eq, Structural)]
pub struct Region {
    pub base: usize,
    pub size: usize,
    pub region_type: RegionType,
    /// Whether the memory region supports hotplugging.
    pub hotpluggable: bool,
    /// Whether the memory is currently present in the system. Always true if not hotpluggable.
    pub present: bool,
}

/// Where an address lies relative to another region.
#[derive(Debug, Clone, Copy, PartialEq, Eq, Structural)]
pub enum Placement {
    /// Before the other region.
    Less,
    /// Inside the other region.
    Equal,
    /// After the other region.
    Greater,
}

/// Whether the region `[base, base + size)` reaches the top of the address space.
pub open spec fn contains_top(base: usize, size: usize) -> bool {
    base + size > usize::MAX
}

/// The placement of `self`'s first byte and of the first byte after it, relative to the region
/// `[other_base, other_base + other_size)`.
pub open spec fn compare_begin_end_spec(r: Region, other_base: usize, other_size: usize) -> (Placement, Placement) {
    let self_top = contains_top(r.base, r.size);
    let other_top = contains_top(other_base, other_size);
    let start = if r.base < other_base {
        Placement::Less
    } else if other_top || r.base < other_base + other_size {
        Placement::Equal
    } else {
        Placement::Greater
    };
    let end = if self_top {
        if other_top { Placement::Equal } else { Placement::Greater }
    } else if r.base + r.size <= other_base {
        Placement::Less
    } else if other_top || r.base + r.size <= other_base + other_size {
        Placement::Equal
    } else {
        Placement::Greater
    };
    (start, end)
}

impl Region {
    /// Compares this region with the region `[other_base, other_base + other_size)`, returning
    /// where this region's first byte and the first byte after it lie relative to the other one.
    pub fn compare_begin_end(&self, other_base: usize, other_size: usize) -> (res: (Placement, Placement))
        ensures
            res == compare_begin_end_spec(*self, other_base, other_size),
    {
        let self_contains_top = self.base.checked_add(self.size).is_none();
        let other_contains_top = other_base.checked_add(other_size).is_none();
        let start = if self.base < other_base {
            Placement::Less
        } else if other_contains_top || self.base < other_base + other_size {
            Placement::Equal
        } else {
            Placement::Greater
        };
        let end = if self_contains_top {
            if other_contains_top { Placement::Equal } else { Placement::Greater }
        } else if self.base + self.size <= other_base {
            Placement::Less
        } else if other_contains_top || self.base + self.size <= other_base + other_size {
            Placement::Equal
        } else {
            Placement::Greater
        };
        (start, end)
    }
}


/// The maximum number of regions a memory map can hold.
pub const MAX_REGIONS: usize = 64;

/// The physical-address width assumed when no other is given (the widest that avoids overflow when
/// computing the maximum address).
pub const DEFAULT_PHYS_ADDR_BITS: u8 = 63;

/// The physical-address width that `MemoryMap::new` uses.
pub open spec fn default_phys_addr_bits() -> u8 {
    if (DEFAULT_PHYS_ADDR_BITS as u32) < usize::BITS { DEFAULT_PHYS_ADDR_BITS } else { (usize::BITS - 1) as u8 }
}

/// The number of bits a physical address can use, from the value of the AArch64 register
/// `ID_AA64MMFR0_EL1` (its low four bits), or `None` for an encoding that names no width.
pub fn phys_addr_bits_from_mmfr0(flags: u64) -> (r: Option<u8>)
    ensures
        r == (match flags & 0xf {
            0 => Some(32u8),
            1 => Some(36u8),
            2 => Some(40u8),
            3 => Some(42u8),
            4 => Some(44u8),
            5 => Some(48u8),
            6 => Some(52u8),
            _ => None,
        }),
{
    match flags & 0xf {
        0 => Some(32),
        1 => Some(36),
        2 => Some(40),
        3 => Some(42),
        4 => Some(44),
        5 => Some(48),
        6 => Some(52),
        _ => None,
    }
}

/// A region of a map with `size` bytes starting at `base`, as the map creates it.
pub open spec fn new_region(base: usize, size: usize, region_type: RegionType, hotpluggable: bool) -> Region {
    Region { base, size, region_type, hotpluggable, present: !hotpluggable }
}

/// The end (first byte after) a region, as an integer.
pub open spec fn region_end(r: Region) -> int {
    r.base + r.size
}

/// Inserts `r` at `index` unless the map is full.
pub open spec fn insert_spec(s: Seq<Region>, index: int, r: Region) -> Option<Seq<Region>> {
    if s.len() >= MAX_REGIONS {
        None
    } else {
        Some(s.insert(index, r))
    }
}

/// Repeatedly merges the region at `i` into its left neighbour while neither of the two is
/// hotpluggable, they have the same type and the neighbour reaches the region's base.
pub open spec fn combine_left_spec(s: Seq<Region>, i: nat) -> Seq<Region>
    decreases i,
{
    if i == 0 || i >= s.len() {
        s
    } else {
        let left = s[i - 1];
        let this = s[i as int];
        if !left.hotpluggable && !this.hotpluggable && left.region_type == this.region_type && left.base + left.size >= this.base {
            let end = if this.base + this.size >= left.base + left.size { this.base + this.size } else { left.base + left.size };
            let merged = Region { size: (end - left.base) as usize, ..left };
            combine_left_spec(s.update(i - 1, merged).remove(i as int), (i - 1) as nat)
        } else {
            s
        }
    }
}

/// Repeatedly merges the right neighbour of the region at `i` into it while neither of the two is
/// hotpluggable, they have the same type and the region reaches the neighbour's base.
pub open spec fn combine_right_spec(s: Seq<Region>, i: nat) -> Seq<Region>
    decreases s.len() - i,
{
    if i + 1 >= s.len() {
        s
    } else {
        let this = s[i as int];
        let right = s[i + 1 as int];
        if !right.hotpluggable && !this.hotpluggable && right.region_type == this.region_type && this.base + this.size >= right.base {
            let end = if right.base + right.size >= this.base + this.size { right.base + right.size } else { this.base + this.size };
            let merged = Region { size: (end - this.base) as usize, ..this };
            combine_right_spec(s.update(i as int, merged).remove(i + 1 as int), i)
        } else {
            s
        }
    }
}

/// Whether some region of `s` of type `t` holds the address `a`.
pub open spec fn covers(s: Seq<Region>, t: RegionType, a: int) -> bool {
    exists|i: int| 0 <= i < s.len() && (#[trigger] s[i]).region_type == t && s[i].base <= a < s[i].base + s[i].size
}

/// Whether some present region of `s` of type `t` holds the address `a`.
pub open spec fn covers_present(s: Seq<Region>, t: RegionType, a: int) -> bool {
    exists|i: int|
        0 <= i < s.len() && (#[trigger] s[i]).region_type == t && s[i].present && s[i].base <= a < s[i].base + s[i].size
}

/// Whether each region of `s` is present exactly when it is not hotpluggable.
pub open spec fn presence_follows_hotplug(s: Seq<Region>) -> bool {
    forall|i: int| 0 <= i < s.len() ==> #[trigger] s[i].present == !s[i].hotpluggable
}

/// Whether the regions are sorted by base and each ends inside the address space.
pub open spec fn bases_sorted(s: Seq<Region>) -> bool {
    &&& forall|i: int, j: int| 0 <= i < j < s.len() ==> #[trigger] s[i].base <= #[trigger] s[j].base
    &&& forall|i: int| 0 <= i < s.len() ==> #[trigger] s[i].base + s[i].size <= usize::MAX
}

// Combining the region at `i` with its right neighbours keeps every address that a region of any
// type covers, and keeps the regions sorted.
proof fn lemma_combine_right_covers(s: Seq<Region>, i: nat)
    requires
        bases_sorted(s),
        presence_follows_hotplug(s),
    ensures
        bases_sorted(combine_right_spec(s, i)),
        presence_follows_hotplug(combine_right_spec(s, i)),
        forall|t: RegionType, a: int| covers(s, t, a) ==> #[trigger] covers(combine_right_spec(s, i), t, a),
        forall|t: RegionType, a: int|
            covers_present(s, t, a) ==> #[trigger] covers_present(combine_right_spec(s, i), t, a),
    decreases s.len() - i,
{
    if i + 1 < s.len() {
        let this = s[i as int];
        let right = s[i + 1 as int];
        if !right.hotpluggable && !this.hotpluggable && right.region_type == this.region_type && this.base + this.size >= right.base {
            let end = if right.base + right.size >= this.base + this.size { right.base + right.size } else { this.base + this.size };
            let merged = Region { size: (end - this.base) as usize, ..this };
            assert(this.base + this.size <= usize::MAX && right.base + right.size <= usize::MAX);
            let s1 = s.update(i as int, merged).remove(i + 1 as int);
            assert(s[i as int].base <= s[i + 1 as int].base);
            assert(bases_sorted(s1)) by {
                assert forall|x: int, y: int| 0 <= x < y < s1.len() implies #[trigger] s1[x].base <= #[trigger] s1[y].base by {
                    let ox = if x <= i { x } else { x + 1 };
                    let oy = if y <= i { y } else { y + 1 };
                    assert(s[ox].base <= s[oy].base);
                }
                assert forall|x: int| 0 <= x < s1.len() implies #[trigger] s1[x].base + s1[x].size <= usize::MAX by {
                    if x > i {
                        assert(s1[x] == s[x + 1]);
                    } else if x < i {
                        assert(s1[x] == s[x]);
                    }
                }
            }
            assert forall|t: RegionType, a: int| covers(s, t, a) implies #[trigger] covers(s1, t, a) by {
                let j = choose|j: int| 0 <= j < s.len() && (#[trigger] s[j]).region_type == t && s[j].base <= a < s[j].base + s[j].size;
                if j == i || j == i + 1 {
                    assert(s1[i as int] == merged);
                    assert(merged.base <= a < merged.base + merged.size);
                } else if j < i {
                    assert(s1[j] == s[j]);
                } else {
                    assert(s1[j - 1] == s[j]);
                }
            }
            assert(presence_follows_hotplug(s1)) by {
                assert forall|x: int| 0 <= x < s1.len() implies #[trigger] s1[x].present == !s1[x].hotpluggable by {
                    if x > i {
                        assert(s1[x] == s[x + 1]);
                    } else if x < i {
                        assert(s1[x] == s[x]);
                    }
                }
            }
            assert forall|t: RegionType, a: int| covers_present(s, t, a) implies #[trigger] covers_present(s1, t, a) by {
                let j = choose|j: int|
                    0 <= j < s.len() && (#[trigger] s[j]).region_type == t && s[j].present && s[j].base <= a < s[j].base
                        + s[j].size;
                if j == i || j == i + 1 {
                    assert(s1[i as int] == merged);
                    assert(merged.base <= a < merged.base + merged.size);
                } else if j < i {
                    assert(s1[j] == s[j]);
                } else {
                    assert(s1[j - 1] == s[j]);
                }
            }
            lemma_combine_right_covers(s1, i);
        }
    }
}

// Combining the region at `i` with its left neighbours keeps every address that a region of any
// type covers, and keeps the regions sorted.
proof fn lemma_combine_left_covers(s: Seq<Region>, i: nat)
    requires
        bases_sorted(s),
        presence_follows_hotplug(s),
    ensures
        bases_sorted(combine_left_spec(s, i)),
        presence_follows_hotplug(combine_left_spec(s, i)),
        forall|t: RegionType, a: int| covers(s, t, a) ==> #[trigger] covers(combine_left_spec(s, i), t, a),
        forall|t: RegionType, a: int|
            covers_present(s, t, a) ==> #[trigger] covers_present(combine_left_spec(s, i), t, a),
    decreases i,
{
    if 0 < i < s.len() {
        let left = s[i - 1];
        let this = s[i as int];
        if !left.hotpluggable && !this.hotpluggable && left.region_type == this.region_type && left.base + left.size >= this.base {
            let end = if this.base + this.size >= left.base + left.size { this.base + this.size } else { left.base + left.size };
            let merged = Region { size: (end - left.base) as usize, ..left };
            assert(this.base + this.size <= usize::MAX && left.base + left.size <= usize::MAX);
            let s1 = s.update(i - 1, merged).remove(i as int);
            assert(s[i - 1].base <= s[i as int].base);
            assert(bases_sorted(s1)) by {
                assert forall|x: int, y: int| 0 <= x < y < s1.len() implies #[trigger] s1[x].base <= #[trigger] s1[y].base by {
                    let ox = if x < i { x } else { x + 1 };
                    let oy = if y < i { y } else { y + 1 };
                    assert(s[ox].base <= s[oy].base);
                }
                assert forall|x: int| 0 <= x < s1.len() implies #[trigger] s1[x].base + s1[x].size <= usize::MAX by {
                    if x >= i {
                        assert(s1[x] == s[x + 1]);
                    } else if x < i - 1 {
                        assert(s1[x] == s[x]);
                    }
                }
            }
            assert forall|t: RegionType, a: int| covers(s, t, a) implies #[trigger] covers(s1, t, a) by {
                let j = choose|j: int| 0 <= j < s.len() && (#[trigger] s[j]).region_type == t && s[j].base <= a < s[j].base + s[j].size;
                if j == i - 1 || j == i {
                    assert(s1[i - 1] == merged);
                    assert(merged.base <= a < merged.base + merged.size);
                } else if j < i - 1 {
                    assert(s1[j] == s[j]);
                } else {
                    assert(s1[j - 1] == s[j]);
                }
            }
            assert(presence_follows_hotplug(s1)) by {
                assert forall|x: int| 0 <= x < s1.len() implies #[trigger] s1[x].present == !s1[x].hotpluggable by {
                    if x >= i {
                        assert(s1[x] == s[x + 1]);
                    } else if x < i - 1 {
                        assert(s1[x] == s[x]);
                    }
                }
            }
            assert forall|t: RegionType, a: int| covers_present(s, t, a) implies #[trigger] covers_present(s1, t, a) by {
                let j = choose|j: int|
                    0 <= j < s.len() && (#[trigger] s[j]).region_type == t && s[j].present && s[j].base <= a < s[j].base
                        + s[j].size;
                if j == i - 1 || j == i {
                    assert(s1[i - 1] == merged);
                    assert(merged.base <= a < merged.base + merged.size);
                } else if j < i - 1 {
                    assert(s1[j] == s[j]);
                } else {
                    assert(s1[j - 1] == s[j]);
                }
            }
            lemma_combine_left_covers(s1, (i - 1) as nat);
        }
    }
}

/// The scan of `add_region` from slot `i` on, for a region that has already been cropped.
pub open spec fn add_scan(
    s: Seq<Region>,
    i: nat,
    base: usize,
    size: usize,
    region_type: RegionType,
    hotpluggable: bool,
) -> Option<Seq<Region>>
    decreases MAX_REGIONS - i,
{
    let new = new_region(base, size, region_type, hotpluggable);
    if i >= MAX_REGIONS {
        None
    } else if i >= s.len() {
        insert_spec(s, i as int, new)
    } else {
        let r = s[i as int];
        if r.hotpluggable || hotpluggable || r.region_type != region_type {
            if r.base > base {
                insert_spec(s, i as int, new)
            } else {
                add_scan(s, i + 1, base, size, region_type, hotpluggable)
            }
        } else if r.base > base + size {
            match insert_spec(s, i as int, new) {
                Some(s2) => Some(combine_right_spec(s2, i)),
                None => None,
            }
        } else if r.base + r.size >= base {
            let new_base = if base <= r.base { base } else { r.base };
            let new_end = if base + size >= r.base + r.size { base + size } else { r.base + r.size };
            let merged = Region { base: new_base, size: (new_end - new_base) as usize, ..r };
            Some(combine_right_spec(combine_left_spec(s.update(i as int, merged), i), i))
        } else {
            add_scan(s, i + 1, base, size, region_type, hotpluggable)
        }
    }
}

/// The regions after adding `[base, base + size)` to a map whose regions are `s` and whose
/// addresses stop below `max_address`, or `None` if the map ran out of room.
pub open spec fn add_region_spec(
    s: Seq<Region>,
    max_address: usize,
    base: usize,
    size: usize,
    region_type: RegionType,
    hotpluggable: bool,
) -> Option<Seq<Region>> {
    if base >= max_address {
        Some(s)
    } else {
        let size = if base + size > max_address { (max_address - base) as usize } else { size };
        add_scan(s, 0, base, size, region_type, hotpluggable)
    }
}

// The scan of `add_region` from slot `i` keeps every address that a region of any type covers,
// and every address that a present region of any type covers, and, when it succeeds, covers the
// added region with a region of its type, a present one unless the added region is hotpluggable.
#[verifier::rlimit(60)]
#[verifier::spinoff_prover]
proof fn lemma_add_scan_covers(
    s: Seq<Region>,
    i: nat,
    base: usize,
    size: usize,
    region_type: RegionType,
    hotpluggable: bool,
)
    requires
        bases_sorted(s),
        presence_follows_hotplug(s),
        size > 0,
        base + size <= usize::MAX,
        i <= s.len(),
        forall|j: int| 0 <= j < i && j < s.len() ==> #[trigger] s[j].base <= base,
    ensures
        add_scan(s, i, base, size, region_type, hotpluggable) matches Some(s2) ==> {
            &&& forall|t: RegionType, a: int| covers(s, t, a) ==> #[trigger] covers(s2, t, a)
            &&& forall|t: RegionType, a: int| covers_present(s, t, a) ==> #[trigger] covers_present(s2, t, a)
            &&& forall|a: int| base <= a < base + size ==> #[trigger] covers(s2, region_type, a)
            &&& forall|a: int| base <= a < base + size && !hotpluggable ==> #[trigger] covers_present(s2, region_type, a)
        },
    decreases MAX_REGIONS - i,
{
    let new = new_region(base, size, region_type, hotpluggable);
    if i >= MAX_REGIONS {
    } else if i >= s.len() || {
        let r = s[i as int];
        (r.hotpluggable || hotpluggable || r.region_type != region_type) && r.base > base
    } {
        // The new region is inserted at `i`.
        if s.len() < MAX_REGIONS {
            let s2 = s.insert(i as int, new);
            lemma_insert_keeps_covers(s, i as int, new);
            assert forall|a: int| base <= a < base + size implies #[trigger] covers(s2, region_type, a) by {
                assert(s2[i as int] == new);
            }
            assert forall|a: int| base <= a < base + size && !hotpluggable implies #[trigger] covers_present(
                s2,
                region_type,
                a,
            ) by {
                assert(s2[i as int] == new);
            }
        }
    } else {
        let r = s[i as int];
        if r.hotpluggable || hotpluggable || r.region_type != region_type {
            lemma_add_scan_covers(s, i + 1, base, size, region_type, hotpluggable);
        } else if r.base > base + size {
            if s.len() < MAX_REGIONS {
                let s2 = s.insert(i as int, new);
                assert(bases_sorted(s2)) by {
                    assert forall|x: int, y: int| 0 <= x < y < s2.len() implies #[trigger] s2[x].base <= #[trigger] s2[y].base by {
                        if x < i && y < i {
                            assert(s[x].base <= s[y].base);
                        } else if x < i && y == i {
                        } else if x < i {
                            assert(s[x].base <= s[y - 1].base);
                        } else if x == i {
                            assert(r.base <= s[y - 1].base);
                        } else {
                            assert(s[x - 1].base <= s[y - 1].base);
                        }
                    }
                    assert forall|x: int| 0 <= x < s2.len() implies #[trigger] s2[x].base + s2[x].size <= usize::MAX by {
                        if x < i {
                            assert(s2[x] == s[x]);
                        } else if x > i {
                            assert(s2[x] == s[x - 1]);
                        }
                    }
                }
                lemma_insert_keeps_covers(s, i as int, new);
                assert forall|a: int| base <= a < base + size implies #[trigger] covers(s2, region_type, a) by {
                    assert(s2[i as int] == new);
                }
                assert forall|a: int| base <= a < base + size implies #[trigger] covers_present(s2, region_type, a) by {
                    assert(s2[i as int] == new);
                }
                lemma_combine_right_covers(s2, i);
            }
        } else if r.base + r.size >= base {
            let new_base = if base <= r.base { base } else { r.base };
            let new_end = if base + size >= r.base + r.size { base + size } else { r.base + r.size };
            let merged = Region { base: new_base, size: (new_end - new_base) as usize, ..r };
            let s3 = s.update(i as int, merged);
            assert(r.base + r.size <= usize::MAX);
            assert(bases_sorted(s3)) by {
                assert forall|x: int, y: int| 0 <= x < y < s3.len() implies #[trigger] s3[x].base <= #[trigger] s3[y].base by {
                    if y == i {
                        assert(s[x].base <= base && s[x].base <= r.base);
                    } else if x == i {
                        assert(r.base <= s[y].base);
                    } else {
                        assert(s[x].base <= s[y].base);
                    }
                }
                assert forall|x: int| 0 <= x < s3.len() implies #[trigger] s3[x].base + s3[x].size <= usize::MAX by {
                    if x != i {
                        assert(s3[x] == s[x]);
                    }
                }
            }
            lemma_widen_keeps_covers(s, i as int, merged);
            assert forall|a: int| base <= a < base + size implies #[trigger] covers(s3, region_type, a) by {
                assert(s3[i as int] == merged);
            }
            assert forall|a: int| base <= a < base + size implies #[trigger] covers_present(s3, region_type, a) by {
                assert(s3[i as int] == merged);
            }
            lemma_combine_left_covers(s3, i);
            lemma_combine_right_covers(combine_left_spec(s3, i), i);
        } else {
            lemma_add_scan_covers(s, i + 1, base, size, region_type, hotpluggable);
        }
    }
}

// Inserting a region keeps every address that a region of any type covers, present or not, and
// keeps each region present exactly when it is not hotpluggable if the new one is.
proof fn lemma_insert_keeps_covers(s: Seq<Region>, i: int, new: Region)
    requires
        0 <= i <= s.len(),
        presence_follows_hotplug(s),
        new.present == !new.hotpluggable,
    ensures
        presence_follows_hotplug(s.insert(i, new)),
        forall|t: RegionType, a: int| covers(s, t, a) ==> #[trigger] covers(s.insert(i, new), t, a),
        forall|t: RegionType, a: int| covers_present(s, t, a) ==> #[trigger] covers_present(s.insert(i, new), t, a),
{
    let s2 = s.insert(i, new);
    assert forall|x: int| 0 <= x < s2.len() implies #[trigger] s2[x].present == !s2[x].hotpluggable by {
        if x < i {
            assert(s2[x] == s[x]);
        } else if x > i {
            assert(s2[x] == s[x - 1]);
        }
    }
    assert forall|t: RegionType, a: int| covers(s, t, a) implies #[trigger] covers(s2, t, a) by {
        let j = choose|j: int| 0 <= j < s.len() && (#[trigger] s[j]).region_type == t && s[j].base <= a < s[j].base + s[j].size;
        if j < i {
            assert(s2[j] == s[j]);
        } else {
            assert(s2[j + 1] == s[j]);
        }
    }
    assert forall|t: RegionType, a: int| covers_present(s, t, a) implies #[trigger] covers_present(s2, t, a) by {
        let j = choose|j: int|
            0 <= j < s.len() && (#[trigger] s[j]).region_type == t && s[j].present && s[j].base <= a < s[j].base + s[j].size;
        if j < i {
            assert(s2[j] == s[j]);
        } else {
            assert(s2[j + 1] == s[j]);
        }
    }
}

// Replacing the region at `i` with one of the same type, presence and hotplug flag that spans it
// keeps every address that a region of any type covers, present or not.
proof fn lemma_widen_keeps_covers(s: Seq<Region>, i: int, wider: Region)
    requires
        0 <= i < s.len(),
        presence_follows_hotplug(s),
        wider.region_type == s[i].region_type,
        wider.present == s[i].present,
        wider.hotpluggable == s[i].hotpluggable,
        wider.base <= s[i].base,
        s[i].base + s[i].size <= wider.base + wider.size,
    ensures
        presence_follows_hotplug(s.update(i, wider)),
        forall|t: RegionType, a: int| covers(s, t, a) ==> #[trigger] covers(s.update(i, wider), t, a),
        forall|t: RegionType, a: int| covers_present(s, t, a) ==> #[trigger] covers_present(s.update(i, wider), t, a),
{
    let s3 = s.update(i, wider);
    assert forall|x: int| 0 <= x < s3.len() implies #[trigger] s3[x].present == !s3[x].hotpluggable by {
        if x != i {
            assert(s3[x] == s[x]);
        }
    }
    assert forall|t: RegionType, a: int| covers(s, t, a) implies #[trigger] covers(s3, t, a) by {
        let j = choose|j: int| 0 <= j < s.len() && (#[trigger] s[j]).region_type == t && s[j].base <= a < s[j].base + s[j].size;
        if j != i {
            assert(s3[j] == s[j]);
        } else {
            assert(s3[i] == wider);
        }
    }
    assert forall|t: RegionType, a: int| covers_present(s, t, a) implies #[trigger] covers_present(s3, t, a) by {
        let j = choose|j: int|
            0 <= j < s.len() && (#[trigger] s[j]).region_type == t && s[j].present && s[j].base <= a < s[j].base + s[j].size;
        if j != i {
            assert(s3[j] == s[j]);
        } else {
            assert(s3[i] == wider);
        }
    }
}

/// Adding a region to a map keeps every address that a region of any type covered, and every
/// address that a present region of any type covered (so a present region of another type is
/// never absorbed, retyped or shrunk); and, when it succeeds, every address of the added region
/// below the map's maximum address is covered by a region of the added type, a present one
/// unless the added region is hotpluggable.
pub proof fn lemma_add_region_covers(
    s: Seq<Region>,
    max_address: usize,
    base: usize,
    size: usize,
    region_type: RegionType,
    hotpluggable: bool,
)
    requires
        regions_wf(s, max_address),
        size > 0,
        base + size <= usize::MAX,
    ensures
        add_region_spec(s, max_address, base, size, region_type, hotpluggable) matches Some(s2) ==> {
            &&& forall|t: RegionType, a: int| covers(s, t, a) ==> #[trigger] covers(s2, t, a)
            &&& forall|t: RegionType, a: int| covers_present(s, t, a) ==> #[trigger] covers_present(s2, t, a)
            &&& forall|a: int| base <= a < base + size && a < max_address ==> #[trigger] covers(s2, region_type, a)
            &&& forall|a: int|
                base <= a < base + size && a < max_address && !hotpluggable ==> #[trigger] covers_present(
                    s2,
                    region_type,
                    a,
                )
        },
{
    if base < max_address {
        let cropped = if base + size > max_address { (max_address - base) as usize } else { size };
        assert forall|i: int| 0 <= i < s.len() implies #[trigger] s[i].present == !s[i].hotpluggable by {
            assert(s[i].size > 0);
        }
        lemma_add_scan_covers(s, 0, base, cropped, region_type, hotpluggable);
    }
}

/// The first pass of `remove_region` on the region at `i`: every kind of overlap that can be
/// handled without splitting a region.
pub open spec fn remove_step_spec(s: Seq<Region>, i: int, base: usize, size: usize) -> Seq<Region> {
    if i >= s.len() {
        s
    } else {
        let r = s[i];
        match compare_begin_end_spec(r, base, size) {
            (Placement::Less, Placement::Equal) => s.update(i, Region { size: (base - r.base) as usize, ..r }),
            (Placement::Equal, Placement::Equal) => s.remove(i),
            (Placement::Equal, Placement::Greater) => s.update(
                i,
                Region { base: (base + size) as usize, size: (r.base + r.size - (base + size)) as usize, ..r },
            ),
            _ => s,
        }
    }
}

/// The second pass of `remove_region` on the region at `i`: splitting a region that strictly
/// contains the removed piece.
pub open spec fn split_step_spec(s: Seq<Region>, max_address: usize, i: int, base: usize, size: usize) -> Seq<Region> {
    if i >= s.len() {
        s
    } else {
        let r = s[i];
        if compare_begin_end_spec(r, base, size) == (Placement::Less, Placement::Greater) {
            let part1 = Region { size: (base - r.base) as usize, ..r };
            let part2_base = (base + size) as usize;
            let part2_size = (r.base + r.size - (base + size)) as usize;
            match add_region_spec(s.update(i, part1), max_address, part2_base, part2_size, r.region_type, r.hotpluggable) {
                Some(s2) => s2,
                None => s,
            }
        } else {
            s
        }
    }
}

/// Whether the second pass of `remove_region` fails to split the region at `i`: the region
/// strictly contains the removed piece and there is no room for its second part.
pub open spec fn split_step_failed(s: Seq<Region>, max_address: usize, i: int, base: usize, size: usize) -> bool {
    &&& 0 <= i < s.len()
    &&& compare_begin_end_spec(s[i], base, size) == (Placement::Less, Placement::Greater)
    &&& add_region_spec(s.update(i, Region { size: (base - s[i].base) as usize, ..s[i] }), max_address,
            (base + size) as usize, (s[i].base + s[i].size - (base + size)) as usize, s[i].region_type,
            s[i].hotpluggable) is None
}

/// Whether the second pass of `remove_region` over the slots below `k` fails to split a region.
pub open spec fn split_pass_failed(s: Seq<Region>, max_address: usize, k: nat, base: usize, size: usize) -> bool
    decreases k,
{
    if k == 0 {
        false
    } else {
        split_step_failed(s, max_address, k - 1, base, size)
            || split_pass_failed(split_step_spec(s, max_address, k - 1, base, size), max_address, (k - 1) as nat, base,
                size)
    }
}

/// Whether removing `[base, base + size)` from a map whose regions are `s` leaves some region
/// whole because there was no room to split it.
pub open spec fn remove_region_failed(s: Seq<Region>, max_address: usize, base: usize, size: usize) -> bool {
    let pass1 = remove_pass_spec(s, s.len(), base, size);
    split_pass_failed(pass1, max_address, pass1.len(), base, size)
}

/// The first pass of `remove_region` over the slots below `k`, from the highest down.
pub open spec fn remove_pass_spec(s: Seq<Region>, k: nat, base: usize, size: usize) -> Seq<Region>
    decreases k,
{
    if k == 0 {
        s
    } else {
        remove_pass_spec(remove_step_spec(s, k - 1, base, size), (k - 1) as nat, base, size)
    }
}

/// The second pass of `remove_region` over the slots below `k`, from the highest down.
pub open spec fn split_pass_spec(s: Seq<Region>, max_address: usize, k: nat, base: usize, size: usize) -> Seq<Region>
    decreases k,
{
    if k == 0 {
        s
    } else {
        split_pass_spec(split_step_spec(s, max_address, k - 1, base, size), max_address, (k - 1) as nat, base, size)
    }
}

/// The regions after removing `[base, base + size)` from a map whose regions are `s`.
pub open spec fn remove_region_spec(s: Seq<Region>, max_address: usize, base: usize, size: usize) -> Seq<Region> {
    let pass1 = remove_pass_spec(s, s.len(), base, size);
    split_pass_spec(pass1, max_address, pass1.len(), base, size)
}

/// Whether the region `r` shares an address with `[base, base + size)`.
pub open spec fn overlaps(r: Region, base: usize, size: usize) -> bool {
    r.base < base + size && base < r.base + r.size
}

/// Whether the region `r` holds `[base, base + size)` with room to spare on both sides.
pub open spec fn strictly_contains(r: Region, base: usize, size: usize) -> bool {
    r.base < base && base + size < r.base + r.size
}

// The regions are non-empty and end inside the address space.
spec fn regions_bounded(s: Seq<Region>) -> bool {
    forall|i: int| 0 <= i < s.len() ==> #[trigger] s[i].size > 0 && s[i].base + s[i].size <= usize::MAX
}

// One step of the first pass leaves the region at `i` clear of `[base, base + size)` unless it
// strictly contains it, in which case it is unchanged; the other regions keep their order.
proof fn lemma_remove_step(s: Seq<Region>, i: int, base: usize, size: usize)
    requires
        0 <= i < s.len(),
        size > 0,
        regions_bounded(s),
    ensures
        ({
            let s1 = remove_step_spec(s, i, base, size);
            &&& regions_bounded(s1)
            &&& (s1.len() == s.len() || s1.len() == s.len() - 1)
            &&& forall|j: int| 0 <= j < i ==> s1[j] == s[j]
            &&& s1.len() == s.len() ==> {
                &&& forall|j: int| i < j < s.len() ==> s1[j] == s[j]
                &&& !overlaps(s1[i], base, size) || (strictly_contains(s[i], base, size) && s1[i] == s[i])
            }
            &&& s1.len() == s.len() - 1 ==> forall|j: int| i <= j < s1.len() ==> s1[j] == s[j + 1]
        }),
{
    let r = s[i];
    assert(r.size > 0 && r.base + r.size <= usize::MAX);
    let s1 = remove_step_spec(s, i, base, size);
    assert forall|j: int| 0 <= j < s1.len() implies #[trigger] s1[j].size > 0 && s1[j].base + s1[j].size <= usize::MAX by {
        if s1.len() == s.len() {
            if j != i {
                assert(s1[j] == s[j]);
            }
        } else if j < i {
            assert(s1[j] == s[j]);
        } else {
            assert(s1[j] == s[j + 1]);
        }
    }
}

// The first pass over the slots below `k` leaves every region either clear of
// `[base, base + size)` or strictly containing it, given that the regions from `k` on already
// are; and it makes no region strictly contain it that did not before.
proof fn lemma_remove_pass(s: Seq<Region>, k: nat, base: usize, size: usize)
    requires
        k <= s.len(),
        size > 0,
        regions_bounded(s),
        bases_sorted(s),
        forall|j: int| k <= j < s.len() ==> !overlaps(#[trigger] s[j], base, size) || strictly_contains(s[j], base, size),
    ensures
        regions_bounded(remove_pass_spec(s, k, base, size)),
        bases_sorted(remove_pass_spec(s, k, base, size)),
        forall|j: int| 0 <= j < remove_pass_spec(s, k, base, size).len() ==>
            !overlaps(#[trigger] remove_pass_spec(s, k, base, size)[j], base, size)
                || strictly_contains(remove_pass_spec(s, k, base, size)[j], base, size),
        (forall|j: int| 0 <= j < s.len() ==> !strictly_contains(#[trigger] s[j], base, size)) ==>
            forall|j: int| 0 <= j < remove_pass_spec(s, k, base, size).len() ==>
                !strictly_contains(#[trigger] remove_pass_spec(s, k, base, size)[j], base, size),
    decreases k,
{
    if k > 0 {
        let i = k - 1;
        let s1 = remove_step_spec(s, i, base, size);
        lemma_remove_step(s, i, base, size);
        lemma_remove_step_sorted(s, i as int, base, size);
        assert forall|j: int| i <= j < s1.len() implies !overlaps(#[trigger] s1[j], base, size)
            || strictly_contains(s1[j], base, size) by {
            if s1.len() == s.len() {
                if j > i {
                    assert(s1[j] == s[j]);
                }
            } else {
                assert(s1[j] == s[j + 1]);
            }
        }
        if forall|j: int| 0 <= j < s.len() ==> !strictly_contains(#[trigger] s[j], base, size) {
            assert forall|j: int| 0 <= j < s1.len() implies !strictly_contains(#[trigger] s1[j], base, size) by {
                if s1.len() == s.len() {
                    if j != i {
                        assert(s1[j] == s[j]);
                    } else if overlaps(s1[i], base, size) {
                        assert(s1[i] == s[i]);
                    }
                } else if j < i {
                    assert(s1[j] == s[j]);
                } else {
                    assert(s1[j] == s[j + 1]);
                }
            }
        }
        lemma_remove_pass(s1, i as nat, base, size);
    }
}

// The second pass changes nothing when no region strictly contains `[base, base + size)`.
proof fn lemma_split_pass_idle(s: Seq<Region>, max_address: usize, k: nat, base: usize, size: usize)
    requires
        k <= s.len(),
        regions_bounded(s),
        forall|j: int| 0 <= j < s.len() ==> !strictly_contains(#[trigger] s[j], base, size),
    ensures
        split_pass_spec(s, max_address, k, base, size) == s,
        !split_pass_failed(s, max_address, k, base, size),
    decreases k,
{
    if k > 0 {
        let i = k - 1;
        assert(s[i as int].size > 0 && s[i as int].base + s[i as int].size <= usize::MAX);
        assert(!strictly_contains(s[i as int], base, size));
        assert(compare_begin_end_spec(s[i as int], base, size) != (Placement::Less, Placement::Greater));
        assert(split_step_spec(s, max_address, i as int, base, size) == s);
        lemma_split_pass_idle(s, max_address, i as nat, base, size);
    }
}

/// Removing `[base, base + size)` from a map in which no region strictly contains it (so that no
/// region has to be split) succeeds, and leaves no region that shares an address with it.
pub proof fn lemma_remove_region_without_split_clears_range(s: Seq<Region>, max_address: usize, base: usize, size: usize)
    requires
        regions_wf(s, max_address),
        size > 0,
        forall|j: int| 0 <= j < s.len() ==> !strictly_contains(#[trigger] s[j], base, size),
    ensures
        !remove_region_failed(s, max_address, base, size),
        forall|j: int| 0 <= j < remove_region_spec(s, max_address, base, size).len() ==>
            !overlaps(#[trigger] remove_region_spec(s, max_address, base, size)[j], base, size),
{
    assert forall|j: int| 0 <= j < s.len() implies #[trigger] s[j].size > 0 && s[j].base + s[j].size <= usize::MAX by {
        assert(s[j].size > 0);
    }
    lemma_remove_pass(s, s.len(), base, size);
    let pass1 = remove_pass_spec(s, s.len(), base, size);
    lemma_split_pass_idle(pass1, max_address, pass1.len(), base, size);
}

// Two regions that overlap or touch, neither of which shares an address with the cut
// `[cb, cb + cs)` unless it strictly contains it, merge into a region of which the same holds; and
// if neither shares an address with the cut, neither does the merged one.
proof fn lemma_merge_keeps_cut_clear(a: Region, b: Region, merged: Region, cb: usize, cs: usize)
    requires
        cs > 0,
        a.size > 0,
        b.size > 0,
        a.base <= b.base + b.size,
        b.base <= a.base + a.size,
        merged.base == (if a.base <= b.base { a.base } else { b.base }),
        merged.base + merged.size == (if a.base + a.size >= b.base + b.size { a.base + a.size } else { b.base + b.size }),
        !overlaps(a, cb, cs) || strictly_contains(a, cb, cs),
        !overlaps(b, cb, cs) || strictly_contains(b, cb, cs),
    ensures
        merged.size > 0,
        !overlaps(merged, cb, cs) || strictly_contains(merged, cb, cs),
        !overlaps(a, cb, cs) && !overlaps(b, cb, cs) ==> !overlaps(merged, cb, cs),
{
}

// The state of the second pass of `remove_region` before the slot `k - 1`: the regions are
// non-empty and sorted; those from `k` on share no address with the cut `[cb, cb + cs)`, and
// those before it share none or strictly contain it.
spec fn split_ready(s: Seq<Region>, k: int, cb: usize, cs: usize) -> bool {
    &&& bases_sorted(s)
    &&& forall|x: int| 0 <= x < s.len() ==> #[trigger] s[x].size > 0
    &&& forall|x: int| 0 <= x < s.len() ==> !overlaps(#[trigger] s[x], cb, cs) || (x < k && strictly_contains(s[x], cb, cs))
}

proof fn lemma_combine_left_ready(s: Seq<Region>, i: nat, k: int, cb: usize, cs: usize)
    requires
        cs > 0,
        split_ready(s, k, cb, cs),
    ensures
        split_ready(combine_left_spec(s, i), k, cb, cs),
    decreases i,
{
    if 0 < i < s.len() {
        let left = s[i - 1];
        let this = s[i as int];
        if !left.hotpluggable && !this.hotpluggable && left.region_type == this.region_type && left.base + left.size >= this.base {
            let end = if this.base + this.size >= left.base + left.size { this.base + this.size } else { left.base + left.size };
            let merged = Region { size: (end - left.base) as usize, ..left };
            assert(this.base + this.size <= usize::MAX && left.base + left.size <= usize::MAX);
            assert(left.base <= this.base);
            lemma_merge_keeps_cut_clear(left, this, merged, cb, cs);
            let s1 = s.update(i - 1, merged).remove(i as int);
            assert forall|x: int, y: int| 0 <= x < y < s1.len() implies #[trigger] s1[x].base <= #[trigger] s1[y].base by {
                let ox = if x < i { x } else { x + 1 };
                let oy = if y < i { y } else { y + 1 };
                assert(s[ox].base <= s[oy].base);
            }
            assert forall|x: int| 0 <= x < s1.len() implies #[trigger] s1[x].base + s1[x].size <= usize::MAX && s1[x].size > 0
                && (!overlaps(s1[x], cb, cs) || (x < k && strictly_contains(s1[x], cb, cs))) by {
                if x >= i {
                    assert(s1[x] == s[x + 1]);
                } else if x < i - 1 {
                    assert(s1[x] == s[x]);
                } else {
                    assert(s1[x] == merged);
                }
            }
            lemma_combine_left_ready(s1, (i - 1) as nat, k, cb, cs);
        }
    }
}

proof fn lemma_combine_right_ready(s: Seq<Region>, i: nat, k: int, cb: usize, cs: usize)
    requires
        cs > 0,
        split_ready(s, k, cb, cs),
    ensures
        split_ready(combine_right_spec(s, i), k, cb, cs),
    decreases s.len() - i,
{
    if i + 1 < s.len() {
        let this = s[i as int];
        let right = s[i + 1 as int];
        if !right.hotpluggable && !this.hotpluggable && right.region_type == this.region_type && this.base + this.size >= right.base {
            let end = if right.base + right.size >= this.base + this.size { right.base + right.size } else { this.base + this.size };
            let merged = Region { size: (end - this.base) as usize, ..this };
            assert(this.base + this.size <= usize::MAX && right.base + right.size <= usize::MAX);
            assert(this.base <= right.base);
            lemma_merge_keeps_cut_clear(this, right, merged, cb, cs);
            let s1 = s.update(i as int, merged).remove(i + 1 as int);
            assert forall|x: int, y: int| 0 <= x < y < s1.len() implies #[trigger] s1[x].base <= #[trigger] s1[y].base by {
                let ox = if x <= i { x } else { x + 1 };
                let oy = if y <= i { y } else { y + 1 };
                assert(s[ox].base <= s[oy].base);
            }
            assert forall|x: int| 0 <= x < s1.len() implies #[trigger] s1[x].base + s1[x].size <= usize::MAX && s1[x].size > 0
                && (!overlaps(s1[x], cb, cs) || (x < k && strictly_contains(s1[x], cb, cs))) by {
                if x > i {
                    assert(s1[x] == s[x + 1]);
                } else if x < i {
                    assert(s1[x] == s[x]);
                } else {
                    assert(s1[x] == merged);
                }
            }
            lemma_combine_right_ready(s1, i, k, cb, cs);
        }
    }
}

// Inserting a region that lies wholly after the cut at slot `i`, where the map stays sorted,
// keeps the second pass ready.
proof fn lemma_insert_ready(s: Seq<Region>, i: int, new: Region, k: int, cb: usize, cs: usize)
    requires
        cs > 0,
        split_ready(s, k, cb, cs),
        0 <= i <= s.len(),
        s.len() < MAX_REGIONS,
        forall|j: int| 0 <= j < i ==> #[trigger] s[j].base <= new.base,
        i < s.len() ==> new.base < s[i].base,
        new.base >= cb + cs,
        new.size > 0,
        new.base + new.size <= usize::MAX,
    ensures
        split_ready(s.insert(i, new), k, cb, cs),
{
    let s2 = s.insert(i, new);
    assert forall|x: int, y: int| 0 <= x < y < s2.len() implies #[trigger] s2[x].base <= #[trigger] s2[y].base by {
        if y < i {
            assert(s[x].base <= s[y].base);
        } else if y == i {
            assert(s2[x] == s[x]);
        } else if x < i {
            assert(s[x].base <= s[y - 1].base);
        } else if x == i {
            assert(s[i].base <= s[y - 1].base);
        } else {
            assert(s[x - 1].base <= s[y - 1].base);
        }
    }
    assert forall|x: int| 0 <= x < s2.len() implies #[trigger] s2[x].base + s2[x].size <= usize::MAX && s2[x].size > 0
        && (!overlaps(s2[x], cb, cs) || (x < k && strictly_contains(s2[x], cb, cs))) by {
        if x < i {
            assert(s2[x] == s[x]);
        } else if x > i {
            assert(s2[x] == s[x - 1]);
            // A region after the insertion point starts after the new one, so after the cut.
            assert(s[i].base <= s[x - 1].base);
        }
    }
}

// The scan of `add_region` from slot `i`, for a region that lies wholly after the cut, keeps the
// second pass ready.
#[verifier::rlimit(40)]
proof fn lemma_add_scan_ready(
    s: Seq<Region>,
    i: nat,
    base: usize,
    size: usize,
    region_type: RegionType,
    hotpluggable: bool,
    k: int,
    cb: usize,
    cs: usize,
)
    requires
        cs > 0,
        split_ready(s, k, cb, cs),
        size > 0,
        base >= cb + cs,
        base + size <= usize::MAX,
        i <= s.len(),
        forall|j: int| 0 <= j < i && j < s.len() ==> #[trigger] s[j].base <= base,
    ensures
        add_scan(s, i, base, size, region_type, hotpluggable) matches Some(s2) ==> split_ready(s2, k, cb, cs),
    decreases MAX_REGIONS - i,
{
    let new = new_region(base, size, region_type, hotpluggable);
    if i >= MAX_REGIONS {
    } else if i >= s.len() || {
        let r = s[i as int];
        (r.hotpluggable || hotpluggable || r.region_type != region_type) && r.base > base
    } {
        if s.len() < MAX_REGIONS {
            lemma_insert_ready(s, i as int, new, k, cb, cs);
        }
    } else {
        let r = s[i as int];
        if r.hotpluggable || hotpluggable || r.region_type != region_type {
            lemma_add_scan_ready(s, i + 1, base, size, region_type, hotpluggable, k, cb, cs);
        } else if r.base > base + size {
            if s.len() < MAX_REGIONS {
                lemma_insert_ready(s, i as int, new, k, cb, cs);
                lemma_combine_right_ready(s.insert(i as int, new), i, k, cb, cs);
            }
        } else if r.base + r.size >= base {
            let new_base = if base <= r.base { base } else { r.base };
            let new_end = if base + size >= r.base + r.size { base + size } else { r.base + r.size };
            let merged = Region { base: new_base, size: (new_end - new_base) as usize, ..r };
            assert(r.base + r.size <= usize::MAX && r.size > 0);
            lemma_merge_keeps_cut_clear(new, r, merged, cb, cs);
            let s3 = s.update(i as int, merged);
            assert forall|x: int, y: int| 0 <= x < y < s3.len() implies #[trigger] s3[x].base <= #[trigger] s3[y].base by {
                if y == i {
                    assert(s[x].base <= base && s[x].base <= r.base);
                } else if x == i {
                    assert(r.base <= s[y].base);
                } else {
                    assert(s[x].base <= s[y].base);
                }
            }
            assert forall|x: int| 0 <= x < s3.len() implies #[trigger] s3[x].base + s3[x].size <= usize::MAX && s3[x].size > 0
                && (!overlaps(s3[x], cb, cs) || (x < k && strictly_contains(s3[x], cb, cs))) by {
                if x != i {
                    assert(s3[x] == s[x]);
                } else {
                    assert(s3[x] == merged);
                }
            }
            lemma_combine_left_ready(s3, i, k, cb, cs);
            lemma_combine_right_ready(combine_left_spec(s3, i), i, k, cb, cs);
        } else {
            lemma_add_scan_ready(s, i + 1, base, size, region_type, hotpluggable, k, cb, cs);
        }
    }
}

// The second pass over the slots below `k` leaves no region sharing an address with the cut,
// unless it fails to split a region.
proof fn lemma_split_pass_clears(s: Seq<Region>, max_address: usize, k: nat, cb: usize, cs: usize)
    requires
        cs > 0,
        split_ready(s, k as int, cb, cs),
    ensures
        !split_pass_failed(s, max_address, k, cb, cs) ==> split_ready(split_pass_spec(s, max_address, k, cb, cs), 0, cb, cs),
    decreases k,
{
    if k > 0 {
        let i = k - 1;
        if i < s.len() && compare_begin_end_spec(s[i as int], cb, cs) == (Placement::Less, Placement::Greater) {
            let r = s[i as int];
            assert(r.size > 0 && r.base + r.size <= usize::MAX);
            assert(strictly_contains(r, cb, cs));
            let part1 = Region { size: (cb - r.base) as usize, ..r };
            let part2_base = (cb + cs) as usize;
            let part2_size = (r.base + r.size - (cb + cs)) as usize;
            let t = s.update(i as int, part1);
            assert(split_ready(t, i as int, cb, cs)) by {
                assert forall|x: int, y: int| 0 <= x < y < t.len() implies #[trigger] t[x].base <= #[trigger] t[y].base by {
                    assert(s[x].base <= s[y].base);
                }
                assert forall|x: int| 0 <= x < t.len() implies #[trigger] t[x].base + t[x].size <= usize::MAX && t[x].size > 0
                    && (!overlaps(t[x], cb, cs) || (x < i && strictly_contains(t[x], cb, cs))) by {
                    if x != i {
                        assert(t[x] == s[x]);
                    }
                }
            }
            if part2_base < max_address {
                let cropped = if part2_base + part2_size > max_address { (max_address - part2_base) as usize } else { part2_size };
                lemma_add_scan_ready(t, 0, part2_base, cropped, r.region_type, r.hotpluggable, i as int, cb, cs);
            }
            match add_region_spec(t, max_address, part2_base, part2_size, r.region_type, r.hotpluggable) {
                Some(s2) => {
                    assert(split_step_spec(s, max_address, i as int, cb, cs) == s2);
                    lemma_split_pass_clears(s2, max_address, i as nat, cb, cs);
                },
                None => {
                    assert(split_step_failed(s, max_address, i as int, cb, cs));
                },
            }
        } else {
            if i < s.len() {
                assert(s[i as int].size > 0 && s[i as int].base + s[i as int].size <= usize::MAX);
                assert(!strictly_contains(s[i as int], cb, cs));
            }
            assert(split_step_spec(s, max_address, i as int, cb, cs) == s);
            assert(!split_step_failed(s, max_address, i as int, cb, cs));
            lemma_split_pass_clears(s, max_address, i as nat, cb, cs);
        }
    }
}

// A step of the first pass keeps the regions sorted, given that the regions after slot `i`
// already share no address with the cut unless they strictly contain it.
proof fn lemma_remove_step_sorted(s: Seq<Region>, i: int, cb: usize, cs: usize)
    requires
        0 <= i < s.len(),
        cs > 0,
        bases_sorted(s),
        forall|x: int| 0 <= x < s.len() ==> #[trigger] s[x].size > 0,
        forall|j: int| i < j < s.len() ==> !overlaps(#[trigger] s[j], cb, cs) || strictly_contains(s[j], cb, cs),
    ensures
        bases_sorted(remove_step_spec(s, i, cb, cs)),
{
    let r = s[i];
    let s1 = remove_step_spec(s, i, cb, cs);
    assert(r.size > 0 && r.base + r.size <= usize::MAX);
    if s1.len() == s.len() {
        assert forall|x: int, y: int| 0 <= x < y < s1.len() implies #[trigger] s1[x].base <= #[trigger] s1[y].base by {
            assert(s[x].base <= s[y].base);
            if x == i && s1[i].base != r.base {
                // The region was cut at the front, so it now starts where the cut ends; every later
                // region starts at or after the cut's start, so after its end.
                assert(s[y].size > 0);
                assert(s[y].base >= cb);
            }
            if y == i && s1[i].base != r.base {
                assert(s[x].base <= r.base);
            }
        }
        assert forall|x: int| 0 <= x < s1.len() implies #[trigger] s1[x].base + s1[x].size <= usize::MAX by {
            if x != i {
                assert(s1[x] == s[x]);
            }
        }
    } else {
        assert forall|x: int, y: int| 0 <= x < y < s1.len() implies #[trigger] s1[x].base <= #[trigger] s1[y].base by {
            let ox = if x < i { x } else { x + 1 };
            let oy = if y < i { y } else { y + 1 };
            assert(s[ox].base <= s[oy].base);
        }
        assert forall|x: int| 0 <= x < s1.len() implies #[trigger] s1[x].base + s1[x].size <= usize::MAX by {
            if x < i {
                assert(s1[x] == s[x]);
            } else {
                assert(s1[x] == s[x + 1]);
            }
        }
    }
}

/// Removing `[base, base + size)` from a map leaves no region that shares an address with it,
/// unless the removal fails because a region that strictly contains it could not be split.
pub proof fn lemma_remove_region_clears_range(s: Seq<Region>, max_address: usize, base: usize, size: usize)
    requires
        regions_wf(s, max_address),
        size > 0,
    ensures
        !remove_region_failed(s, max_address, base, size) ==> forall|j: int|
            0 <= j < remove_region_spec(s, max_address, base, size).len() ==>
                !overlaps(#[trigger] remove_region_spec(s, max_address, base, size)[j], base, size),
{
    assert forall|j: int| 0 <= j < s.len() implies #[trigger] s[j].size > 0 && s[j].base + s[j].size <= usize::MAX by {
        assert(s[j].size > 0);
    }
    lemma_remove_pass(s, s.len(), base, size);
    let pass1 = remove_pass_spec(s, s.len(), base, size);
    lemma_split_pass_clears(pass1, max_address, pass1.len(), base, size);
}

/// The regions of `s` that are present, in order.
pub open spec fn present_spec(s: Seq<Region>) -> Seq<Region>
    decreases s.len(),
{
    if s.len() == 0 {
        Seq::empty()
    } else if s.last().present {
        present_spec(s.drop_last()).push(s.last())
    } else {
        present_spec(s.drop_last())
    }
}

/// Whether the regions `s` form a valid map below `max_address`: at most `MAX_REGIONS` regions,
/// sorted by base, each non-empty, below the maximum address, and present exactly when it is not
/// hotpluggable.
pub open spec fn regions_wf(s: Seq<Region>, max_address: usize) -> bool {
    &&& s.len() <= MAX_REGIONS
    &&& forall|i: int| 0 <= i < s.len() ==> #[trigger] s[i].size > 0 && s[i].base + s[i].size <= max_address
        && s[i].present == !s[i].hotpluggable
    &&& forall|i: int, j: int| 0 <= i < j < s.len() ==> #[trigger] s[i].base <= #[trigger] s[j].base
}

/// Inserting a region where it keeps the map sorted keeps the map valid.
proof fn lemma_insert_wf(s: Seq<Region>, i: int, new: Region, max_address: usize)
    requires
        regions_wf(s, max_address),
        0 <= i <= s.len(),
        forall|j: int| 0 <= j < i ==> #[trigger] s[j].base <= new.base,
        i < s.len() ==> new.base <= s[i].base,
        new.size > 0,
        new.base + new.size <= max_address,
        new.present == !new.hotpluggable,
    ensures
        s.len() < MAX_REGIONS ==> regions_wf(s.insert(i, new), max_address),
{
    if s.len() < MAX_REGIONS {
        let s1 = s.insert(i, new);
        assert forall|k: int| 0 <= k < s1.len() implies #[trigger] s1[k].size > 0 && s1[k].base + s1[k].size
            <= max_address && s1[k].present == !s1[k].hotpluggable by {
            if k > i {
                assert(s1[k] == s[k - 1]);
            }
        }
        assert forall|k: int, j: int| 0 <= k < j < s1.len() implies #[trigger] s1[k].base <= #[trigger] s1[j].base by {
            if j < i {
                assert(s[k].base <= s[j].base);
            } else if j == i {
                assert(s1[k] == s[k]);
            } else if k < i {
                assert(s[k].base <= s[j - 1].base);
            } else if k == i {
                assert(s[i].base <= s[j - 1].base);
            } else {
                assert(s[k - 1].base <= s[j - 1].base);
            }
        }
    }
}

/// A map of all of the system's usable physical memory.
#[derive(Debug, Clone)]
pub struct MemoryMap {
    regions: Vec<Region>,
    max_address: usize,
}

impl View for MemoryMap {
    type V = Seq<Region>;

    closed spec fn view(&self) -> Seq<Region> {
        self.regions@
    }
}

impl MemoryMap {
    /// The first address that the map does not cover (`1 << phys_addr_bits`).
    pub closed spec fn max_address_spec(&self) -> usize {
        self.max_address
    }

    /// Whether the map is valid (see `regions_wf`).
    pub open spec fn wf(&self) -> bool {
        regions_wf(self@, self.max_address_spec())
    }

    /// Makes an empty memory map that accepts physical addresses of `DEFAULT_PHYS_ADDR_BITS` bits
    /// (or one bit fewer than a `usize` has, where that is less).
    pub fn new() -> (map: MemoryMap)
        ensures
            map@ == Seq::<Region>::empty(),
            map.max_address_spec() == 1usize << default_phys_addr_bits(),
            map.wf(),
    {
        let bits: u8 = if (DEFAULT_PHYS_ADDR_BITS as u32) < usize::BITS {
            DEFAULT_PHYS_ADDR_BITS
        } else {
            (usize::BITS - 1) as u8
        };
        Self::with_phys_addr_bits(bits)
    }

    /// Makes an empty memory map that accepts physical addresses of `phys_addr_bits` bits.
    pub fn with_phys_addr_bits(phys_addr_bits: u8) -> (map: MemoryMap)
        requires
            0 < phys_addr_bits,
            (phys_addr_bits as u32) < usize::BITS,
        ensures
            map@ == Seq::<Region>::empty(),
            map.max_address_spec() == 1usize << phys_addr_bits,
            map.wf(),
    {
        MemoryMap { regions: Vec::new(), max_address: 1usize << phys_addr_bits }
    }

    // Inserts `region` at `index`, or returns `Err(())` if there is no room left.
    fn insert(&mut self, index: usize, region: Region) -> (r: Result<(), ()>)
        requires
            index <= old(self)@.len(),
            old(self)@.len() <= MAX_REGIONS,
        ensures
            match insert_spec(old(self)@, index as int, region) {
                Some(s) => r is Ok && final(self)@ == s,
                None => r is Err && final(self)@ == old(self)@,
            },
            final(self).max_address_spec() == old(self).max_address_spec(),
    {
        if self.regions.len() == MAX_REGIONS {
            return Err(());
        }
        self.regions.insert(index, region);
        Ok(())
    }

    // Removes the region at `index`.
    fn remove(&mut self, index: usize)
        requires
            index < old(self)@.len(),
        ensures
            final(self)@ == old(self)@.remove(index as int),
            final(self).max_address_spec() == old(self).max_address_spec(),
    {
        self.regions.remove(index);
    }

    // Combines the region at `start_index` with any regions to the left of it that can be combined.
    fn combine_left(&mut self, start_index: usize)
        requires
            old(self).wf(),
        ensures
            final(self)@ == combine_left_spec(old(self)@, start_index as nat),
            final(self).wf(),
            final(self).max_address_spec() == old(self).max_address_spec(),
        decreases start_index,
    {
        if start_index == 0 || start_index >= self.regions.len() {
            return;
        }
        let left = self.regions[start_index - 1];
        let this = self.regions[start_index];
        proof {
            assert(self@[start_index - 1] == left && self@[start_index as int] == this);
        }
        if !left.hotpluggable && !this.hotpluggable && left.region_type == this.region_type && left.base + left.size >= this.base {
            let end = if this.base + this.size >= left.base + left.size { this.base + this.size } else { left.base + left.size };
            let merged = Region { size: end - left.base, ..left };
            let ghost s0 = self@;
            self.regions.set(start_index - 1, merged);
            self.remove(start_index);
            proof {
                let s1 = s0.update(start_index - 1, merged).remove(start_index as int);
                assert(self@ == s1);
                assert forall|i: int| 0 <= i < s1.len() implies #[trigger] s1[i].size > 0 && s1[i].base + s1[i].size
                    <= self.max_address_spec() && s1[i].present == !s1[i].hotpluggable by {
                    let oi = if i < start_index { i } else { i + 1 };
                    assert(s0[oi].size > 0);
                }
                assert forall|i: int, j: int| 0 <= i < j < s1.len() implies #[trigger] s1[i].base <= #[trigger] s1[j].base by {
                    let oi = if i < start_index { i } else { i + 1 };
                    let oj = if j < start_index { j } else { j + 1 };
                    assert(s0[oi].base <= s0[oj].base);
                }
            }
            self.combine_left(start_index - 1);
        }
    }

    // Combines the region at `start_index` with any regions to the right of it that can be combined.
    fn combine_right(&mut self, start_index: usize)
        requires
            old(self).wf(),
        ensures
            final(self)@ == combine_right_spec(old(self)@, start_index as nat),
            final(self).wf(),
            final(self).max_address_spec() == old(self).max_address_spec(),
        decreases old(self)@.len() - start_index,
    {
        if start_index >= self.regions.len() || start_index + 1 >= self.regions.len() {
            return;
        }
        let right = self.regions[start_index + 1];
        let this = self.regions[start_index];
        if !right.hotpluggable && !this.hotpluggable && right.region_type == this.region_type && this.base + this.size >= right.base {
            let end = if right.base + right.size >= this.base + this.size { right.base + right.size } else { this.base + this.size };
            let merged = Region { size: end - this.base, ..this };
            let ghost s0 = self@;
            self.regions.set(start_index, merged);
            self.remove(start_index + 1);
            proof {
                let s1 = s0.update(start_index as int, merged).remove(start_index + 1);
                assert(self@ == s1);
                assert forall|i: int| 0 <= i < s1.len() implies #[trigger] s1[i].size > 0 && s1[i].base + s1[i].size
                    <= self.max_address_spec() && s1[i].present == !s1[i].hotpluggable by {
                    let oi = if i <= start_index { i } else { i + 1 };
                    assert(s0[oi].size > 0);
                }
                assert forall|i: int, j: int| 0 <= i < j < s1.len() implies #[trigger] s1[i].base <= #[trigger] s1[j].base by {
                    let oi = if i <= start_index { i } else { i + 1 };
                    let oj = if j <= start_index { j } else { j + 1 };
                    assert(s0[oi].base <= s0[oj].base);
                }
            }
            self.combine_right(start_index);
        }
    }

    /// Adds the region `[base, base + size)` of the given type to the map. The part of it at or
    /// beyond the maximum physical address is cropped off. Overlapping or adjacent regions of the
    /// same type that are not hotpluggable are combined; hotpluggable regions and regions of
    /// different types may overlap.
    ///
    /// # Returns
    /// `Err(())` if the map has no room for another region, in which case it is unchanged.
    #[verifier::spinoff_prover]
    pub fn add_region(&mut self, base: usize, size: usize, region_type: RegionType, hotpluggable: bool) -> (r: Result<(), ()>)
        requires
            old(self).wf(),
            size > 0,
            base + size <= usize::MAX,
        ensures
            match add_region_spec(old(self)@, old(self).max_address_spec(), base, size, region_type, hotpluggable) {
                Some(s) => r is Ok && final(self)@ == s,
                None => r is Err && final(self)@ == old(self)@,
            },
            final(self).wf(),
            final(self).max_address_spec() == old(self).max_address_spec(),
            r is Err ==> old(self)@.len() == MAX_REGIONS,
    {
        let max_address = self.max_address;
        if base >= max_address {
            return Ok(());
        }
        let mut cropped = size;
        if base + size > max_address {
            cropped = max_address - base;
        }
        let new = Region { base, size: cropped, region_type, hotpluggable, present: !hotpluggable };
        let ghost s0 = self@;
        let mut i: usize = 0;
        while i < MAX_REGIONS
            invariant
                self@ == s0,
                s0 == old(self)@,
                self.wf(),
                self.max_address_spec() == max_address,
                max_address == old(self).max_address_spec(),
                0 < cropped,
                base + cropped <= max_address,
                new == new_region(base, cropped, region_type, hotpluggable),
                i <= self@.len(),
                add_scan(s0, i as nat, base, cropped, region_type, hotpluggable)
                    == add_region_spec(s0, max_address, base, size, region_type, hotpluggable),
                forall|j: int| 0 <= j < i ==> #[trigger] s0[j].base <= base,
            decreases MAX_REGIONS - i,
        {
            if i >= self.regions.len() {
                proof {
                    lemma_insert_wf(s0, i as int, new, max_address);
                    assert(add_scan(s0, i as nat, base, cropped, region_type, hotpluggable) == insert_spec(s0, i as int, new));
                    assert(add_region_spec(old(self)@, old(self).max_address_spec(), base, size, region_type, hotpluggable) == insert_spec(s0, i as int, new));
                }
                let r = self.insert(i, new);
                proof {
                    match insert_spec(s0, i as int, new) {
                        Some(s1) => assert(r is Ok && self@ == s1),
                        None => assert(r is Err && self@ == s0),
                    }
                }
                return r;
            }
            let region = self.regions[i];
            if region.hotpluggable || hotpluggable || region.region_type != region_type {
                if region.base > base {
                    proof {
                        lemma_insert_wf(s0, i as int, new, max_address);
                    }
                    return self.insert(i, new);
                }
            } else if region.base > base + cropped {
                proof {
                    lemma_insert_wf(s0, i as int, new, max_address);
                }
                match self.insert(i, new) {
                    Ok(()) => {},
                    Err(()) => return Err(()),
                }
                self.combine_right(i);
                return Ok(());
            } else if region.base + region.size >= base {
                let new_base = if base <= region.base { base } else { region.base };
                let new_end = if base + cropped >= region.base + region.size { base + cropped } else { region.base + region.size };
                let merged = Region { base: new_base, size: new_end - new_base, ..region };
                self.regions.set(i, merged);
                proof {
                    let s1 = s0.update(i as int, merged);
                    assert(self@ == s1);
                    assert forall|k: int| 0 <= k < s1.len() implies #[trigger] s1[k].size > 0 && s1[k].base + s1[k].size
                        <= max_address && s1[k].present == !s1[k].hotpluggable by {
                        assert(s0[k].size > 0);
                    }
                    assert forall|k: int, j: int| 0 <= k < j < s1.len() implies #[trigger] s1[k].base <= #[trigger] s1[j].base by {
                        assert(s0[k].base <= s0[j].base);
                        if k < i {
                            assert(s0[k].base <= s0[i as int].base);
                        }
                        if i < j {
                            assert(s0[i as int].base <= s0[j].base);
                        }
                    }
                    assert(regions_wf(s1, max_address));
                }
                self.combine_left(i);
                self.combine_right(i);
                return Ok(());
            }
            i += 1;
        }
        Err(())
    }

    // The first pass of `remove_region` on the region at `i`.
    fn remove_step(&mut self, i: usize, base: usize, size: usize)
        requires
            old(self).wf(),
            size > 0,
            i < old(self)@.len(),
            forall|j: int| i < j < old(self)@.len() ==> (#[trigger] compare_begin_end_spec(old(self)@[j], base, size)).0 != Placement::Equal,
        ensures
            final(self)@ == remove_step_spec(old(self)@, i as int, base, size),
            final(self).wf(),
            final(self).max_address_spec() == old(self).max_address_spec(),
            forall|j: int| i <= j < final(self)@.len() ==> (#[trigger] compare_begin_end_spec(final(self)@[j], base, size)).0 != Placement::Equal,
    {
        let ghost s0 = self@;
        let ghost max_address = self.max_address;
        let region = self.regions[i];
        match region.compare_begin_end(base, size) {
            (Placement::Less, Placement::Equal) => {
                let updated = Region { size: base - region.base, ..region };
                self.regions.set(i, updated);
                proof {
                    let s1 = s0.update(i as int, updated);
                    assert forall|k: int| 0 <= k < s1.len() implies #[trigger] s1[k].size > 0 && s1[k].base + s1[k].size
                        <= max_address && s1[k].present == !s1[k].hotpluggable by {
                        assert(s0[k].size > 0);
                    }
                    assert forall|k: int, j: int| 0 <= k < j < s1.len() implies #[trigger] s1[k].base <= #[trigger] s1[j].base by {
                        assert(s0[k].base <= s0[j].base);
                    }
                    assert forall|j: int| i <= j < s1.len() implies (#[trigger] compare_begin_end_spec(s1[j], base, size)).0 != Placement::Equal by {
                        if j > i {
                            assert(compare_begin_end_spec(s0[j], base, size).0 != Placement::Equal);
                        }
                    }
                }
            },
            (Placement::Equal, Placement::Equal) => {
                self.remove(i);
                proof {
                    let s1 = s0.remove(i as int);
                    assert forall|k: int| 0 <= k < s1.len() implies #[trigger] s1[k].size > 0 && s1[k].base + s1[k].size
                        <= max_address && s1[k].present == !s1[k].hotpluggable by {
                        let ok = if k < i { k } else { k + 1 };
                        assert(s0[ok].size > 0);
                    }
                    assert forall|k: int, j: int| 0 <= k < j < s1.len() implies #[trigger] s1[k].base <= #[trigger] s1[j].base by {
                        let ok = if k < i { k } else { k + 1 };
                        let oj = if j < i { j } else { j + 1 };
                        assert(s0[ok].base <= s0[oj].base);
                    }
                    assert forall|j: int| i <= j < s1.len() implies (#[trigger] compare_begin_end_spec(s1[j], base, size)).0 != Placement::Equal by {
                        assert(s1[j] == s0[j + 1]);
                        assert(compare_begin_end_spec(s0[j + 1], base, size).0 != Placement::Equal);
                    }
                }
            },
            (Placement::Equal, Placement::Greater) => {
                let updated = Region {
                    base: base + size,
                    size: (region.base + region.size) - (base + size),
                    ..region
                };
                self.regions.set(i, updated);
                proof {
                    let s1 = s0.update(i as int, updated);
                    assert forall|k: int| 0 <= k < s1.len() implies #[trigger] s1[k].size > 0 && s1[k].base + s1[k].size
                        <= max_address && s1[k].present == !s1[k].hotpluggable by {
                        assert(s0[k].size > 0);
                    }
                    assert forall|k: int, j: int| 0 <= k < j < s1.len() implies #[trigger] s1[k].base <= #[trigger] s1[j].base by {
                        assert(s0[k].base <= s0[j].base);
                        if k == i {
                            assert(s0[i as int].base <= s0[j].base);
                            assert(compare_begin_end_spec(s0[j], base, size).0 != Placement::Equal);
                        }
                    }
                    assert forall|j: int| i <= j < s1.len() implies (#[trigger] compare_begin_end_spec(s1[j], base, size)).0 != Placement::Equal by {
                        if j > i {
                            assert(compare_begin_end_spec(s0[j], base, size).0 != Placement::Equal);
                        }
                    }
                }
            },
            _ => {
                proof {
                    assert forall|j: int| i <= j < s0.len() implies (#[trigger] compare_begin_end_spec(s0[j], base, size)).0 != Placement::Equal by {
                        if j == i {
                            assert(s0[j].size > 0);
                        }
                    }
                }
            },
        }
    }

    // The second pass of `remove_region` on the region at `i`. Returns whether a split failed.
    fn split_step(&mut self, i: usize, base: usize, size: usize) -> (failed: bool)
        requires
            old(self).wf(),
            size > 0,
        ensures
            failed == split_step_failed(old(self)@, old(self).max_address_spec(), i as int, base, size),
            final(self)@ == split_step_spec(old(self)@, old(self).max_address_spec(), i as int, base, size),
            final(self).wf(),
            final(self).max_address_spec() == old(self).max_address_spec(),
    {
        if i >= self.regions.len() {
            return false;
        }
        let ghost s0 = self@;
        let ghost max_address = self.max_address;
        let region = self.regions[i];
        match region.compare_begin_end(base, size) {
            (Placement::Less, Placement::Greater) => {
                let part1 = Region { size: base - region.base, ..region };
                let part2_base = base + size;
                let part2_size = (region.base + region.size) - (base + size);
                self.regions.set(i, part1);
                proof {
                    let s1 = s0.update(i as int, part1);
                    assert(self@ == s1);
                    assert forall|k: int| 0 <= k < s1.len() implies #[trigger] s1[k].size > 0 && s1[k].base + s1[k].size
                        <= max_address && s1[k].present == !s1[k].hotpluggable by {
                        assert(s0[k].size > 0);
                    }
                    assert forall|k: int, j: int| 0 <= k < j < s1.len() implies #[trigger] s1[k].base <= #[trigger] s1[j].base by {
                        assert(s0[k].base <= s0[j].base);
                    }
                }
                match self.add_region(part2_base, part2_size, region.region_type, region.hotpluggable) {
                    Ok(()) => false,
                    Err(()) => {
                        // There was no room for the second part. Restore the region so that no
                        // more is removed than was requested.
                        self.regions.set(i, region);
                        proof {
                            assert(self@ =~= s0);
                        }
                        true
                    },
                }
            },
            _ => false,
        }
    }

    /// Removes the piece `[base, base + size)` from the map, whether or not it corresponds to an
    /// actual region: regions that it covers are removed, regions that it overlaps are shortened,
    /// and a region that contains it is split in two (or, if there is no room for the second part,
    /// left as it was, in which case the result is `Err(())`).
    pub fn remove_region(&mut self, base: usize, size: usize) -> (r: Result<(), ()>)
        requires
            old(self).wf(),
            size > 0,
        ensures
            r is Err <==> remove_region_failed(old(self)@, old(self).max_address_spec(), base, size),
            final(self)@ == remove_region_spec(old(self)@, old(self).max_address_spec(), base, size),
            final(self).wf(),
            final(self).max_address_spec() == old(self).max_address_spec(),
    {
        let ghost s0 = self@;
        let ghost max_address = self.max_address;
        let count = self.regions.len();
        let mut i = count;
        while i > 0
            invariant
                self.wf(),
                self.max_address_spec() == max_address,
                max_address == old(self).max_address_spec(),
                s0 == old(self)@,
                size > 0,
                i <= self@.len(),
                remove_pass_spec(self@, i as nat, base, size) == remove_pass_spec(s0, s0.len(), base, size),
                forall|j: int| i <= j < self@.len() ==> (#[trigger] compare_begin_end_spec(self@[j], base, size)).0 != Placement::Equal,
            decreases i,
        {
            i -= 1;
            self.remove_step(i, base, size);
        }
        let ghost s1 = self@;
        let count = self.regions.len();
        let mut i = count;
        let mut failed = false;
        while i > 0
            invariant
                self.wf(),
                self.max_address_spec() == max_address,
                max_address == old(self).max_address_spec(),
                s1 == remove_pass_spec(s0, s0.len(), base, size),
                s0 == old(self)@,
                size > 0,
                split_pass_spec(self@, max_address, i as nat, base, size) == split_pass_spec(s1, max_address, s1.len(), base, size),
                (failed || split_pass_failed(self@, max_address, i as nat, base, size))
                    == split_pass_failed(s1, max_address, s1.len(), base, size),
            decreases i,
        {
            i -= 1;
            let step_failed = self.split_step(i, base, size);
            failed = failed || step_failed;
        }
        if failed { Err(()) } else { Ok(()) }
    }

    /// Returns the regions that are present, in order.
    pub fn present_regions(&self) -> (r: Vec<Region>)
        ensures
            r@ == present_spec(self@),
    {
        let mut result: Vec<Region> = Vec::new();
        let mut i: usize = 0;
        while i < self.regions.len()
            invariant
                i <= self@.len(),
                result@ == present_spec(self@.take(i as int)),
            decreases self@.len() - i,
        {
            let region = self.regions[i];
            proof {
                assert(self@.take(i + 1 as int).drop_last() == self@.take(i as int));
                assert(self@.take(i + 1 as int).last() == region);
            }
            if region.present {
                result.push(region);
            }
            i += 1;
        }
        proof {
            assert(self@.take(self@.len() as int) == self@);
        }
        result
    }

    /// Returns a copy of this map.
    pub fn copy(&self) -> (r: MemoryMap)
        ensures
            r@ == self@,
            r.max_address_spec() == self.max_address_spec(),
    {
        let mut regions: Vec<Region> = Vec::new();
        let mut i: usize = 0;
        while i < self.regions.len()
            invariant
                i <= self@.len(),
                regions@ == self@.take(i as int),
            decreases self@.len() - i,
        {
            regions.push(self.regions[i]);
            i += 1;
            proof {
                assert(regions@ =~= self@.take(i as int));
            }
        }
        proof {
            assert(regions@ =~= self@);
        }
        MemoryMap { regions, max_address: self.max_address }
    }

    /// Returns the first physical address that the map does not cover.
    pub fn max_address(&self) -> (r: usize)
        ensures
            r == self.max_address_spec(),
    {
        self.max_address
    }

    /// Returns the regions of the map, in order.
    pub fn regions(&self) -> (r: &Vec<Region>)
        ensures
            r@ == self@,
    {
        &self.regions
    }
}

/// Adding a region to an empty map gives a map of that one region, cropped at the maximum address
/// (or leaves the map empty if the region starts at or beyond it).
pub proof fn lemma_add_region_to_empty_map(
    max_address: usize,
    base: usize,
    size: usize,
    region_type: RegionType,
    hotpluggable: bool,
)
    requires
        size > 0,
        base + size <= usize::MAX,
    ensures
        base >= max_address ==> add_region_spec(Seq::empty(), max_address, base, size, region_type, hotpluggable)
            == Some(Seq::<Region>::empty()),
        base < max_address ==> add_region_spec(Seq::empty(), max_address, base, size, region_type, hotpluggable)
            == Some(seq![new_region(base,
                if base + size > max_address { (max_address - base) as usize } else { size },
                region_type, hotpluggable)]),
{
    let e = Seq::<Region>::empty();
    if base < max_address {
        let cropped = if base + size > max_address { (max_address - base) as usize } else { size };
        assert(e.insert(0, new_region(base, cropped, region_type, hotpluggable))
            =~= seq![new_region(base, cropped, region_type, hotpluggable)]);
    }
}

} // verus!
