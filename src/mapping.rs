//! Mappings of a target process and the lookups over them.
use vstd::prelude::*;

use crate::bytes::copy_range;

verus! {

/// The address range of a mapping as the kernel reported it, before any
/// biasing of the start address.
#[derive(Clone, Copy, Debug, PartialEq, Eq)]
pub struct SystemMappingInfo {
    pub start_address: usize,
    pub end_address: usize,
}

/// A logical module view made of one or more adjacent regions that share a
/// path.
#[derive(Clone, Debug)]
pub struct MappingInfo {
    /// Start of the (possibly biased) range.
    pub start_address: usize,
    /// Length of the (possibly biased) range.
    pub size: usize,
    /// The unbiased range reported by the kernel.
    pub system_mapping_info: SystemMappingInfo,
    /// Offset into the backing file.
    pub offset: usize,
    /// Whether any part of the mapping is executable.
    pub executable: bool,
    /// Path of the backing file, if any.
    pub name: Option<Vec<u8>>,
}

/// `a` and `b` hold the same values (their names the same bytes).
pub open spec fn same_mapping(a: MappingInfo, b: MappingInfo) -> bool {
    &&& a.start_address == b.start_address
    &&& a.size == b.size
    &&& a.system_mapping_info == b.system_mapping_info
    &&& a.offset == b.offset
    &&& a.executable == b.executable
    &&& match (a.name, b.name) {
        (Some(x), Some(y)) => x@ == y@,
        (None, None) => true,
        _ => false,
    }
}

/// A copy of `m`.
pub fn copy_mapping(m: &MappingInfo) -> (r: MappingInfo)
    ensures
        same_mapping(r, *m),
{
    let name = match &m.name {
        Some(n) => {
            let c = copy_range(n.as_slice(), 0, n.len());
            assert(c@ =~= n@);
            Some(c)
        },
        None => None,
    };
    MappingInfo {
        start_address: m.start_address,
        size: m.size,
        system_mapping_info: m.system_mapping_info,
        offset: m.offset,
        executable: m.executable,
        name,
    }
}

/// `a` lies in the biased range of `m`.
pub open spec fn in_biased_range(m: MappingInfo, a: int) -> bool {
    m.start_address <= a < m.start_address + m.size
}

/// `a` lies in the kernel-reported range of `m`.
pub open spec fn in_system_range(m: MappingInfo, a: int) -> bool {
    m.system_mapping_info.start_address <= a < m.system_mapping_info.end_address
}

/// `a` lies in the biased range (`biased`) or in the kernel range of `m`.
pub open spec fn in_range(m: MappingInfo, a: int, biased: bool) -> bool {
    if biased {
        in_biased_range(m, a)
    } else {
        in_system_range(m, a)
    }
}

/// Index of the first mapping at or after `k` whose range holds `a`.
pub open spec fn first_hit_from(ms: Seq<MappingInfo>, a: int, biased: bool, k: int) -> Option<int>
    decreases ms.len() - k,
{
    if k < 0 || k >= ms.len() {
        None
    } else if in_range(ms[k], a, biased) {
        Some(k)
    } else {
        first_hit_from(ms, a, biased, k + 1)
    }
}

/// Index of the first mapping whose range holds `a`.
pub open spec fn first_hit(ms: Seq<MappingInfo>, a: int, biased: bool) -> Option<int> {
    first_hit_from(ms, a, biased, 0)
}

/// Each mapping's biased range lies inside its kernel range, and the kernel
/// ranges of two mappings never overlap.
pub open spec fn mappings_wf(ms: Seq<MappingInfo>) -> bool {
    &&& forall|i: int|
        0 <= i < ms.len() ==> {
            &&& (#[trigger] ms[i]).system_mapping_info.start_address <= ms[i].start_address
            &&& ms[i].start_address + ms[i].size <= ms[i].system_mapping_info.end_address
        }
    &&& forall|i: int, j: int, a: int|
        0 <= i < ms.len() && 0 <= j < ms.len() && i != j && #[trigger] in_system_range(ms[i], a)
            ==> !#[trigger] in_system_range(ms[j], a)
}

/// Index of the first mapping whose biased (`biased`) or kernel range holds
/// `address`.
pub fn find_mapping_index(mappings: &Vec<MappingInfo>, address: u64, biased: bool) -> (r: Option<
    usize,
>)
    ensures
        match r {
            Some(i) => first_hit(mappings@, address as int, biased) == Some(i as int) && i
                < mappings@.len() && in_range(mappings@[i as int], address as int, biased),
            None => first_hit(mappings@, address as int, biased).is_none(),
        },
{
    proof {
        lemma_first_hit_bounds(mappings@, address as int, biased, 0);
    }
    let mut i: usize = 0;
    while i < mappings.len()
        invariant
            i <= mappings@.len(),
            first_hit(mappings@, address as int, biased) == first_hit_from(
                mappings@,
                address as int,
                biased,
                i as int,
            ),
        decreases mappings@.len() - i,
    {
        let m = &mappings[i];
        let hit = if biased {
            address >= m.start_address as u64 && address - (m.start_address as u64) < m.size as u64
        } else {
            address >= m.system_mapping_info.start_address as u64 && address
                < m.system_mapping_info.end_address as u64
        };
        if hit {
            return Some(i);
        }
        i = i + 1;
    }
    None
}

/// A hit found from `k` on is a mapping at or after `k` that holds `a`.
pub proof fn lemma_first_hit_bounds(ms: Seq<MappingInfo>, a: int, biased: bool, k: int)
    requires
        0 <= k,
    ensures
        match first_hit_from(ms, a, biased, k) {
            Some(i) => k <= i < ms.len() && in_range(ms[i], a, biased),
            None => forall|j: int| k <= j < ms.len() ==> !#[trigger] in_range(ms[j], a, biased),
        },
    decreases ms.len() - k,
{
    if k < ms.len() && !in_range(ms[k], a, biased) {
        lemma_first_hit_bounds(ms, a, biased, k + 1);
    }
}

/// For every mapping `M` of a well-formed list and every address `x` in
/// `M`'s biased range, the lookup by biased range finds `M`.
pub proof fn lemma_find_mapping_finds_owner(ms: Seq<MappingInfo>, i: int, x: int)
    requires
        mappings_wf(ms),
        0 <= i < ms.len(),
        in_biased_range(ms[i], x),
    ensures
        first_hit(ms, x, true) == Some(i),
{
    lemma_first_hit_is_owner(ms, i, x, 0);
}

/// The first mapping from `k` on whose biased range holds `a` is the one
/// mapping that holds it.
proof fn lemma_first_hit_is_owner(ms: Seq<MappingInfo>, i: int, a: int, k: int)
    requires
        mappings_wf(ms),
        0 <= k <= i < ms.len(),
        in_biased_range(ms[i], a),
    ensures
        first_hit_from(ms, a, true, k) == Some(i),
    decreases i - k,
{
    if k < i {
        assert(in_system_range(ms[i], a));
        if in_biased_range(ms[k], a) {
            assert(in_system_range(ms[k], a));
        }
        lemma_first_hit_is_owner(ms, i, a, k + 1);
    }
}

} // verus!
