//! Redaction of likely code pointers in a captured stack.
use vstd::prelude::*;

use crate::mapping::{
    find_mapping_index, first_hit, in_biased_range, in_system_range, mappings_wf, MappingInfo,
};

verus! {

/// Number of bits in the membership filter.
pub const FILTER_BITS: usize = 2048;

/// Right shift applied to an address before it indexes the filter.
pub const FILTER_SHIFT: usize = 21;

/// Words whose signed value has at most this magnitude are kept.
pub const SMALL_INT_MAGNITUDE: u64 = 4096;

/// The value written in place of a redacted word.
pub const DEFACED: u64 = 0x0defaced0defaced;

/// Size in bytes of a stack word.
pub const WORD_SIZE: usize = 8;

/// The filter bit that an address probes.
pub open spec fn filter_slot(w: u64) -> int {
    (w >> 21u64) as int % (FILTER_BITS as int)
}

/// Some index in `[s, e]` falls on filter slot `b`.
pub open spec fn span_covers(s: int, e: int, b: int) -> bool {
    exists|j: int| s <= j <= e && #[trigger] (j % (FILTER_BITS as int)) == b
}

/// First and last filter index (before the modulus) that mapping `m` marks.
pub open spec fn mark_start(m: MappingInfo) -> int {
    (m.start_address >> FILTER_SHIFT) as int
}

pub open spec fn mark_end(m: MappingInfo) -> int {
    ((m.start_address + m.size) as usize >> FILTER_SHIFT) as int
}

/// Filter slot `b` is set: some executable mapping marks it.
pub open spec fn filter_set(ms: Seq<MappingInfo>, b: int) -> bool {
    exists|i: int|
        0 <= i < ms.len() && ms[i].executable && #[trigger] span_covers(
            mark_start(ms[i]),
            mark_end(ms[i]),
            b,
        )
}

/// The signed value of `w` has magnitude at most 4096.
pub open spec fn is_small(w: u64) -> bool {
    w <= SMALL_INT_MAGNITUDE || w >= 0x1_0000_0000_0000_0000 - SMALL_INT_MAGNITUDE
}

/// Little-endian word at byte position `p`.
pub open spec fn word_at(s: Seq<u8>, p: int) -> u64 {
    (s[p] as int + 0x100 * s[p + 1] + 0x1_0000 * s[p + 2] + 0x100_0000 * s[p + 3] + 0x1_0000_0000
        * s[p + 4] + 0x100_0000_0000 * s[p + 5] + 0x1_0000_0000_0000 * s[p + 6]
        + 0x100_0000_0000_0000 * s[p + 7]) as u64
}

/// Byte `i` (0..8) of the little-endian sentinel.
pub open spec fn defaced_byte(i: int) -> u8 {
    if i % 4 == 0 {
        0xed
    } else if i % 4 == 1 {
        0xac
    } else if i % 4 == 2 {
        0xef
    } else {
        0x0d
    }
}

/// `w` lies in the kernel range of the mapping at `idx`, if there is one.
pub open spec fn in_mapping_at(ms: Seq<MappingInfo>, idx: Option<int>, w: u64) -> bool {
    match idx {
        Some(i) => 0 <= i < ms.len() && in_system_range(ms[i], w as int),
        None => false,
    }
}

/// The executable mapping that a filter hit confirms for `w`, if any.
pub open spec fn confirmed_hit(ms: Seq<MappingInfo>, w: u64) -> Option<int> {
    if filter_set(ms, filter_slot(w)) {
        match first_hit(ms, w as int, false) {
            Some(i) => if ms[i].executable {
                Some(i)
            } else {
                None
            },
            None => None,
        }
    } else {
        None
    }
}

/// Whether word `w` is kept, given the stack mapping and the last hit.
pub open spec fn keeps(ms: Seq<MappingInfo>, stack: Option<int>, last: Option<int>, w: u64) -> bool {
    is_small(w) || in_mapping_at(ms, stack, w) || in_mapping_at(ms, last, w) || confirmed_hit(
        ms,
        w,
    ).is_some()
}

/// The last hit after looking at `w`.
pub open spec fn next_last(ms: Seq<MappingInfo>, stack: Option<int>, last: Option<int>, w: u64) -> Option<int> {
    if is_small(w) || in_mapping_at(ms, stack, w) || in_mapping_at(ms, last, w) {
        last
    } else {
        match confirmed_hit(ms, w) {
            Some(i) => Some(i),
            None => last,
        }
    }
}

/// The last hit before word `k` of `words` is looked at.
pub open spec fn last_before(ms: Seq<MappingInfo>, stack: Option<int>, words: Seq<u64>, k: int) -> Option<int>
    decreases k,
{
    if k <= 0 {
        None
    } else {
        next_last(ms, stack, last_before(ms, stack, words, k - 1), words[k - 1])
    }
}

/// Whether word `k` of `words` is kept.
pub open spec fn word_kept(ms: Seq<MappingInfo>, stack: Option<int>, words: Seq<u64>, k: int) -> bool {
    keeps(ms, stack, last_before(ms, stack, words, k), words[k])
}

/// Byte offset of the first word at or above the stack pointer.
pub open spec fn aligned_offset(sp_offset: int) -> int {
    (sp_offset + 7) / 8 * 8
}

/// The whole stack words from `offset` on.
pub open spec fn stack_words(s: Seq<u8>, offset: int) -> Seq<u64> {
    Seq::new(((s.len() - offset) / 8) as nat, |k: int| word_at(s, offset + 8 * k))
}

/// What the sanitizer leaves at byte `p` of a stack `s`.
pub open spec fn sanitized_byte(ms: Seq<MappingInfo>, stack: Option<int>, s: Seq<u8>, offset: int, p: int) -> u8 {
    let words = stack_words(s, offset);
    if p < offset || p >= offset + 8 * words.len() {
        0
    } else if word_kept(ms, stack, words, (p - offset) / 8) {
        s[p]
    } else {
        defaced_byte((p - offset) % 8)
    }
}

proof fn lemma_shift_widen(a: usize)
    ensures
        (a >> 21usize) as int == ((a as u64) >> 21u64) as int,
{
    assert((a >> 21usize) as u64 == (a as u64) >> 21u64) by (bit_vector);
}

proof fn lemma_shift_monotone(a: usize, b: usize)
    requires
        a <= b,
    ensures
        a >> 21usize <= b >> 21usize,
{
    assert(a <= b ==> a >> 21usize <= b >> 21usize) by (bit_vector);
}

/// The first index at or after `s` on slot `b` comes no later than any
/// other index on that slot.
proof fn lemma_representative(s: int, b: int, i0: int)
    requires
        0 <= b < 2048,
        s <= i0,
        i0 % 2048 == b,
    ensures
        (s + (b - s) % 2048) % 2048 == b,
        s <= s + (b - s) % 2048 <= i0,
        (b - s) % 2048 < 2048,
{
    let q = (b - s) % 2048;
    let d1 = (b - s) / 2048;
    let d2 = i0 / 2048;
    assert(b - s == 2048 * d1 + q && 0 <= q < 2048) by {
        vstd::arithmetic::div_mod::lemma_fundamental_div_mod(b - s, 2048);
    }
    assert(i0 == 2048 * d2 + b) by {
        vstd::arithmetic::div_mod::lemma_fundamental_div_mod(i0, 2048);
    }
    let r = s + q;
    assert(r == b - 2048 * d1);
    assert(r % 2048 == b) by {
        vstd::arithmetic::div_mod::lemma_mod_multiples_vanish(-d1, b, 2048);
        vstd::arithmetic::div_mod::lemma_small_mod(b as nat, 2048);
        assert(b + 2048 * -d1 == r) by (nonlinear_arith)
            requires
                r == b - 2048 * d1,
        ;
        assert(2048 * -d1 + b == r) by (nonlinear_arith)
            requires
                r == b - 2048 * d1,
        ;
    }
    assert(i0 - r == 2048 * (d2 + d1)) by (nonlinear_arith)
        requires
            i0 == 2048 * d2 + b,
            r == b - 2048 * d1,
    ;
    assert(d2 + d1 >= 0) by (nonlinear_arith)
        requires
            i0 - r == 2048 * (d2 + d1),
            i0 - r > -2048,
    ;
    assert(i0 - r >= 0) by (nonlinear_arith)
        requires
            i0 - r == 2048 * (d2 + d1),
            d2 + d1 >= 0,
    ;
}

/// Marks `[s, e]` in the filter, modulo its size.
fn mark_span(filter: &mut Vec<bool>, s: usize, e: usize)
    requires
        old(filter)@.len() == FILTER_BITS,
        s <= e,
    ensures
        final(filter)@.len() == FILTER_BITS,
        forall|b: int|
            0 <= b < FILTER_BITS ==> #[trigger] final(filter)@[b] == (old(filter)@[b] || span_covers(
                s as int,
                e as int,
                b,
            )),
{
    let last = if e - s >= FILTER_BITS - 1 {
        s + (FILTER_BITS - 1)
    } else {
        e
    };
    let n = last - s;
    let mut t: usize = 0;
    while t <= n
        invariant
            t <= n + 1,
            n == last - s,
            last <= e,
            n < FILTER_BITS,
            last == e || n == FILTER_BITS - 1,
            old(filter)@.len() == FILTER_BITS,
            filter@.len() == FILTER_BITS,
            forall|b: int|
                0 <= b < FILTER_BITS ==> #[trigger] filter@[b] == (old(filter)@[b] || exists|i: int|
                    s <= i < s + t && #[trigger] (i % (FILTER_BITS as int)) == b),
        decreases n + 1 - t,
    {
        let j = s + t;
        let slot = j % FILTER_BITS;
        filter.set(slot, true);
        proof {
            assert forall|b: int| 0 <= b < FILTER_BITS implies #[trigger] filter@[b] == (old(filter)@[b] || exists|i: int| s <= i < s + t + 1 && #[trigger] (i % (FILTER_BITS as int)) == b) by {
                if b == slot {
                    assert((j as int) % (FILTER_BITS as int) == b);
                } else {
                    if exists|i: int| s <= i < s + t + 1 && #[trigger] (i % (FILTER_BITS as int)) == b {
                        let i = choose|i: int| s <= i < s + t + 1 && #[trigger] (i % (FILTER_BITS as int)) == b;
                        assert(i != j);
                    }
                }
            }
        }
        t = t + 1;
    }
    proof {
        assert forall|b: int| 0 <= b < FILTER_BITS implies #[trigger] filter@[b] == (old(filter)@[b]
            || span_covers(s as int, e as int, b)) by {
            if span_covers(s as int, e as int, b) {
                let i0 = choose|i: int| s <= i <= e && #[trigger] (i % (FILTER_BITS as int)) == b;
                // The representative of `b` in `[s, s + FILTER_BITS)` is no later than `i0`.
                let r = s + ((b - s) % (FILTER_BITS as int));
                lemma_representative(s as int, b, i0);
                assert(s <= r < s + t && r % (FILTER_BITS as int) == b);
            }
        }
    }
}

/// The membership filter of the executable mappings: slot `b` is set iff
/// some executable mapping marks it.
pub fn executable_filter(mappings: &Vec<MappingInfo>) -> (r: Vec<bool>)
    requires
        mappings_wf(mappings@),
    ensures
        r@.len() == FILTER_BITS,
        forall|b: int| 0 <= b < FILTER_BITS ==> #[trigger] r@[b] == filter_set(mappings@, b),
{
    let mut filter: Vec<bool> = Vec::new();
    let mut b: usize = 0;
    while b < FILTER_BITS
        invariant
            b <= FILTER_BITS,
            filter@.len() == b,
            forall|i: int| 0 <= i < b ==> !#[trigger] filter@[i],
        decreases FILTER_BITS - b,
    {
        filter.push(false);
        b = b + 1;
    }
    let mut k: usize = 0;
    while k < mappings.len()
        invariant
            k <= mappings@.len(),
            mappings_wf(mappings@),
            filter@.len() == FILTER_BITS,
            forall|b: int|
                0 <= b < FILTER_BITS ==> #[trigger] filter@[b] == exists|i: int|
                    0 <= i < k && mappings@[i].executable && #[trigger] span_covers(
                        mark_start(mappings@[i]),
                        mark_end(mappings@[i]),
                        b,
                    ),
        decreases mappings@.len() - k,
    {
        let m = &mappings[k];
        let ghost before = filter@;
        if m.executable {
            assert(m.start_address + m.size <= m.system_mapping_info.end_address);
            let start = m.start_address >> FILTER_SHIFT;
            let end = (m.start_address + m.size) >> FILTER_SHIFT;
            proof {
                lemma_shift_monotone(m.start_address, (m.start_address + m.size) as usize);
            }
            mark_span(&mut filter, start, end);
        }
        assert forall|b: int| 0 <= b < FILTER_BITS implies #[trigger] filter@[b] == exists|i: int|
            0 <= i < k + 1 && mappings@[i].executable && #[trigger] span_covers(
                mark_start(mappings@[i]),
                mark_end(mappings@[i]),
                b,
            ) by {
            if filter@[b] && !before[b] {
                assert(mappings@[k as int].executable && span_covers(
                    mark_start(mappings@[k as int]),
                    mark_end(mappings@[k as int]),
                    b,
                ));
            }
        }
        k = k + 1;
    }
    filter
}

/// Position of byte `i` of word `k` above `offset`, and back.
proof fn lemma_word_position(offset: int, k: int, i: int)
    requires
        0 <= i < 8,
        0 <= k,
    ensures
        (offset + 8 * k + i - offset) / 8 == k,
        (offset + 8 * k + i - offset) % 8 == i,
{
    assert(offset + 8 * k + i - offset == 8 * k + i);
    vstd::arithmetic::div_mod::lemma_fundamental_div_mod_converse(8 * k + i, 8, k, i);
}

/// Reads the little-endian word at byte `p`.
pub(crate) fn read_word(s: &Vec<u8>, p: usize) -> (w: u64)
    requires
        p + 8 <= s@.len(),
    ensures
        w == word_at(s@, p as int),
{
    let _ = s.len();
    let b0 = s[p] as u64;
    let b1 = s[p + 1] as u64;
    let b2 = s[p + 2] as u64;
    let b3 = s[p + 3] as u64;
    let b4 = s[p + 4] as u64;
    let b5 = s[p + 5] as u64;
    let b6 = s[p + 6] as u64;
    let b7 = s[p + 7] as u64;
    b0 + 0x100 * b1 + 0x1_0000 * b2 + 0x100_0000 * b3 + 0x1_0000_0000 * b4 + 0x100_0000_0000 * b5
        + 0x1_0000_0000_0000 * b6 + 0x100_0000_0000_0000 * b7
}

/// `w` lies in the kernel range of `m`.
fn system_range_holds(m: &MappingInfo, w: u64) -> (r: bool)
    ensures
        r == in_system_range(*m, w as int),
{
    m.system_mapping_info.start_address as u64 <= w && w < m.system_mapping_info.end_address as u64
}

/// Redacts the words of `stack_copy` that may point into executable code.
///
/// Bytes below the word that holds the stack pointer (at `sp_offset`,
/// rounded up to a word) are zeroed, and so is a partial word at the top.
/// Every whole word in between is kept when it is a small integer, lies in
/// the stack's own mapping or in the executable mapping that the last
/// pointer matched, or lies in an executable mapping that the membership
/// filter lets through; any other word becomes the sentinel.
pub fn sanitize_stack(
    mappings: &Vec<MappingInfo>,
    stack_copy: &mut Vec<u8>,
    stack_pointer: usize,
    sp_offset: usize,
)
    requires
        mappings_wf(mappings@),
        sp_offset + 7 <= usize::MAX,
        aligned_offset(sp_offset as int) <= old(stack_copy)@.len(),
    ensures
        final(stack_copy)@.len() == old(stack_copy)@.len(),
        forall|p: int|
            0 <= p < old(stack_copy)@.len() ==> #[trigger] final(stack_copy)@[p] == sanitized_byte(
                mappings@,
                first_hit(mappings@, stack_pointer as int, false),
                old(stack_copy)@,
                aligned_offset(sp_offset as int),
                p,
            ),
{
    let ghost orig = stack_copy@;
    let ghost ms = mappings@;
    let len = stack_copy.len();
    let offset = (sp_offset + 7) / 8 * 8;
    let ghost off = offset as int;
    assert(off == aligned_offset(sp_offset as int));
    let ghost words = stack_words(orig, off);
    let filter = executable_filter(mappings);
    let stack_idx = find_mapping_index(mappings, stack_pointer as u64, false);
    let ghost stack = first_hit(ms, stack_pointer as int, false);
    proof {
        crate::mapping::lemma_first_hit_bounds(ms, stack_pointer as int, false, 0);
    }

    let mut q: usize = 0;
    while q < offset
        invariant
            q <= offset <= len,
            len == orig.len(),
            stack_copy@.len() == len,
            forall|x: int| 0 <= x < q ==> #[trigger] stack_copy@[x] == 0,
            forall|x: int| q <= x < len ==> #[trigger] stack_copy@[x] == orig[x],
        decreases offset - q,
    {
        stack_copy.set(q, 0);
        q = q + 1;
    }

    let n = (len - offset) / 8;
    assert(words.len() == n);
    assert(offset + 8 * n <= len) by {
        vstd::arithmetic::div_mod::lemma_fundamental_div_mod((len - offset) as int, 8);
    }
    let mut last: Option<usize> = None;
    let mut k: usize = 0;
    while k < n
        invariant
            k <= n,
            n == words.len(),
            offset + 8 * n <= len,
            off == offset,
            len == orig.len(),
            ms == mappings@,
            mappings_wf(ms),
            words == stack_words(orig, off),
            stack == first_hit(ms, stack_pointer as int, false),
            match stack_idx {
                Some(i) => stack == Some(i as int),
                None => stack.is_none(),
            },
            match stack {
                Some(i) => 0 <= i < ms.len(),
                None => true,
            },
            filter@.len() == FILTER_BITS,
            forall|b: int| 0 <= b < FILTER_BITS ==> #[trigger] filter@[b] == filter_set(ms, b),
            (match last {
                Some(i) => Some(i as int),
                None => None::<int>,
            }) == last_before(ms, stack, words, k as int),
            match last {
                Some(i) => i < ms.len(),
                None => true,
            },
            stack_copy@.len() == len,
            forall|x: int| 0 <= x < offset ==> #[trigger] stack_copy@[x] == 0,
            forall|x: int|
                offset <= x < offset + 8 * k ==> #[trigger] stack_copy@[x] == sanitized_byte(
                    ms,
                    stack,
                    orig,
                    off,
                    x,
                ),
            forall|x: int| offset + 8 * k <= x < len ==> #[trigger] stack_copy@[x] == orig[x],
        decreases n - k,
    {
        let p = offset + 8 * k;
        let w = read_word(stack_copy, p);
        assert(w == words[k as int]) by {
            assert(stack_copy@.subrange(p as int, p + 8) == orig.subrange(p as int, p + 8));
            assert(stack_copy@[p + 0] == orig[p + 0]);
            assert(stack_copy@[p + 1] == orig[p + 1]);
            assert(stack_copy@[p + 2] == orig[p + 2]);
            assert(stack_copy@[p + 3] == orig[p + 3]);
            assert(stack_copy@[p + 4] == orig[p + 4]);
            assert(stack_copy@[p + 5] == orig[p + 5]);
            assert(stack_copy@[p + 6] == orig[p + 6]);
            assert(stack_copy@[p + 7] == orig[p + 7]);
        }
        let ghost last_i = last_before(ms, stack, words, k as int);
        let small = w <= SMALL_INT_MAGNITUDE || w >= 0xffff_ffff_ffff_f000;
        let in_stack = match stack_idx {
            Some(i) => system_range_holds(&mappings[i], w),
            None => false,
        };
        let in_last = match last {
            Some(i) => system_range_holds(&mappings[i], w),
            None => false,
        };
        assert(small == is_small(w));
        assert(in_stack == in_mapping_at(ms, stack, w));
        assert(in_last == in_mapping_at(ms, last_i, w));
        let mut keep = small || in_stack || in_last;
        if !keep {
            let slot = ((w >> 21) % 2048) as usize;
            assert(slot as int == filter_slot(w));
            if filter[slot] {
                assert(filter_set(ms, filter_slot(w)));
                match find_mapping_index(mappings, w, false) {
                    Some(i) => {
                        if mappings[i].executable {
                            last = Some(i);
                            keep = true;
                        }
                    },
                    None => {},
                }
            }
        }
        assert(keep == word_kept(ms, stack, words, k as int));
        assert((match last {
            Some(i) => Some(i as int),
            None => None::<int>,
        }) == last_before(ms, stack, words, k + 1));
        if !keep {
            stack_copy.set(p, 0xed);
            stack_copy.set(p + 1, 0xac);
            stack_copy.set(p + 2, 0xef);
            stack_copy.set(p + 3, 0x0d);
            stack_copy.set(p + 4, 0xed);
            stack_copy.set(p + 5, 0xac);
            stack_copy.set(p + 6, 0xef);
            stack_copy.set(p + 7, 0x0d);
        }
        proof {
            assert forall|x: int| offset <= x < offset + 8 * (k + 1) implies #[trigger] stack_copy@[x]
                == sanitized_byte(ms, stack, orig, off, x) by {
                if x >= p {
                    let i = x - p;
                    lemma_word_position(off, k as int, i);
                    assert(x == off + 8 * k + i);
                }
            }
        }
        k = k + 1;
    }

    let mut r: usize = offset + 8 * n;
    while r < len
        invariant
            offset + 8 * n <= r <= len,
            n == words.len(),
            off == offset,
            len == orig.len(),
            stack_copy@.len() == len,
            forall|x: int| 0 <= x < offset ==> #[trigger] stack_copy@[x] == 0,
            forall|x: int|
                offset <= x < offset + 8 * n ==> #[trigger] stack_copy@[x] == sanitized_byte(
                    ms,
                    stack,
                    orig,
                    off,
                    x,
                ),
            forall|x: int| offset + 8 * n <= x < r ==> #[trigger] stack_copy@[x] == 0,
        decreases len - r,
    {
        stack_copy.set(r, 0);
        r = r + 1;
    }
}

/// The filter has no false negatives: an address in the biased range of an
/// executable mapping always finds its slot set.
pub proof fn lemma_filter_sound(ms: Seq<MappingInfo>, i: int, w: u64)
    requires
        mappings_wf(ms),
        0 <= i < ms.len(),
        ms[i].executable,
        in_biased_range(ms[i], w as int),
    ensures
        filter_set(ms, filter_slot(w)),
{
    let m = ms[i];
    let end = (m.start_address + m.size) as usize;
    assert(m.start_address + m.size <= m.system_mapping_info.end_address);
    let wu = w as usize;
    assert(wu as int == w as int);
    lemma_shift_monotone(m.start_address, wu);
    lemma_shift_monotone(wu, end);
    lemma_shift_widen(wu);
    let j = (w >> 21u64) as int;
    assert(mark_start(m) <= j <= mark_end(m));
    assert(span_covers(mark_start(m), mark_end(m), filter_slot(w)));
}

/// The last hit is always an executable mapping.
proof fn lemma_last_hit_executable(ms: Seq<MappingInfo>, stack: Option<int>, words: Seq<u64>, k: int)
    requires
        0 <= k <= words.len(),
    ensures
        match last_before(ms, stack, words, k) {
            Some(i) => 0 <= i < ms.len() && ms[i].executable,
            None => true,
        },
    decreases k,
{
    if k > 0 {
        lemma_last_hit_executable(ms, stack, words, k - 1);
        let w = words[k - 1];
        if let Some(i) = confirmed_hit(ms, w) {
            crate::mapping::lemma_first_hit_bounds(ms, w as int, false, 0);
        }
    }
}

/// Redaction is sound: a word replaced by the sentinel is no small integer,
/// lies outside the stack's own mapping, and no executable mapping holds it.
pub proof fn lemma_redacted_words_point_nowhere(
    ms: Seq<MappingInfo>,
    stack: Option<int>,
    words: Seq<u64>,
    k: int,
)
    requires
        mappings_wf(ms),
        0 <= k < words.len(),
        !word_kept(ms, stack, words, k),
    ensures
        !is_small(words[k]),
        !in_mapping_at(ms, stack, words[k]),
        forall|i: int|
            0 <= i < ms.len() && ms[i].executable ==> !#[trigger] in_biased_range(
                ms[i],
                words[k] as int,
            ),
{
    let w = words[k];
    assert forall|i: int| 0 <= i < ms.len() && ms[i].executable implies !#[trigger] in_biased_range(
        ms[i],
        w as int,
    ) by {
        if in_biased_range(ms[i], w as int) {
            lemma_filter_sound(ms, i, w);
            assert(in_system_range(ms[i], w as int));
            assert(crate::mapping::in_range(ms[i], w as int, false));
            crate::mapping::lemma_first_hit_bounds(ms, w as int, false, 0);
            let h = first_hit(ms, w as int, false);
            assert(h.is_some());
            let j = h.unwrap();
            assert(in_system_range(ms[j], w as int));
            assert(j == i);
            assert(confirmed_hit(ms, w) == Some(i));
        }
    }
}

/// A kept word that is no small integer lies in the stack's own mapping or
/// in an executable mapping.
pub proof fn lemma_kept_words_are_accounted_for(
    ms: Seq<MappingInfo>,
    stack: Option<int>,
    words: Seq<u64>,
    k: int,
)
    requires
        0 <= k < words.len(),
        word_kept(ms, stack, words, k),
        !is_small(words[k]),
    ensures
        in_mapping_at(ms, stack, words[k]) || exists|i: int|
            0 <= i < ms.len() && ms[i].executable && #[trigger] in_system_range(
                ms[i],
                words[k] as int,
            ),
{
    let w = words[k];
    lemma_last_hit_executable(ms, stack, words, k);
    if let Some(i) = last_before(ms, stack, words, k) {
        if in_mapping_at(ms, Some(i), w) {
            assert(in_system_range(ms[i], w as int));
        }
    }
    if let Some(i) = confirmed_hit(ms, w) {
        crate::mapping::lemma_first_hit_bounds(ms, w as int, false, 0);
        assert(in_system_range(ms[i], w as int));
    }
}

} // verus!
