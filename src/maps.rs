//! Lines of `/proc/<pid>/maps` and their folding into mappings.
use vstd::prelude::*;

use crate::bytes::{bytes_equal, copy_range};
use crate::mapping::{in_system_range, mappings_wf, MappingInfo, SystemMappingInfo};

verus! {

/// The name given to the kernel's vdso mapping: `linux-gate.so`.
pub open spec fn linux_gate_name() -> Seq<u8> {
    seq![0x6cu8, 0x69u8, 0x6eu8, 0x75u8, 0x78u8, 0x2du8, 0x67u8, 0x61u8, 0x74u8, 0x65u8, 0x2eu8, 0x73u8, 0x6fu8]
}

/// The bytes of `linux-gate.so`.
pub fn linux_gate_library_name() -> (r: Vec<u8>)
    ensures
        r@ == linux_gate_name(),
{
    let r: Vec<u8> = vec![0x6c, 0x69, 0x6e, 0x75, 0x78, 0x2d, 0x67, 0x61, 0x74, 0x65, 0x2e, 0x73, 0x6f];
    assert(r@ =~= linux_gate_name());
    r
}

/// One line of `/proc/<pid>/maps`.
#[derive(Clone, Debug)]
pub struct MemoryRegion {
    pub start_address: usize,
    pub end_address: usize,
    pub offset: usize,
    pub readable: bool,
    pub writable: bool,
    pub executable: bool,
    /// The rest of the line after the inode, if not empty.
    pub path: Option<Vec<u8>>,
}

/// `c` is a hexadecimal digit.
pub open spec fn is_hex(c: u8) -> bool {
    (0x30 <= c <= 0x39) || (0x61 <= c <= 0x66) || (0x41 <= c <= 0x46)
}

/// The value of the hexadecimal digit `c`.
pub open spec fn hex_digit(c: u8) -> int {
    if 0x30 <= c <= 0x39 {
        c - 0x30
    } else if 0x61 <= c <= 0x66 {
        c - 0x61 + 10
    } else {
        c - 0x41 + 10
    }
}

/// The value of the hexadecimal digits `s`.
pub open spec fn hex_value(s: Seq<u8>) -> int
    decreases s.len(),
{
    if s.len() == 0 {
        0
    } else {
        16 * hex_value(s.drop_last()) + hex_digit(s.last())
    }
}

/// The end of the run of hexadecimal digits that starts at `i`.
pub open spec fn hex_end(s: Seq<u8>, i: int) -> int
    decreases s.len() - i,
{
    if 0 <= i < s.len() && is_hex(s[i]) {
        hex_end(s, i + 1)
    } else {
        i
    }
}

/// The first space at or after `i`, or the end.
pub open spec fn field_end(s: Seq<u8>, i: int) -> int
    decreases s.len() - i,
{
    if 0 <= i < s.len() && s[i] != 0x20 {
        field_end(s, i + 1)
    } else {
        i
    }
}

/// The first byte at or after `i` that is no space, or the end.
pub open spec fn blank_end(s: Seq<u8>, i: int) -> int
    decreases s.len() - i,
{
    if 0 <= i < s.len() && s[i] == 0x20 {
        blank_end(s, i + 1)
    } else {
        i
    }
}

/// What a line says: `start-end perms offset dev inode [path]`, with
/// hexadecimal `start`, `end` and `offset`, four permission characters, and
/// `start < end`.
pub open spec fn line_region(s: Seq<u8>) -> Option<(int, int, int, Seq<u8>, Seq<u8>)> {
    let a = hex_end(s, 0);
    let b = hex_end(s, a + 1);
    let c = hex_end(s, b + 6);
    let d = field_end(s, c + 1);
    let e = field_end(s, d + 1);
    let f = blank_end(s, e);
    if !(0 < a && a < s.len() && s[a] == 0x2d) {
        None
    } else if !(a + 1 < b && b + 5 < s.len() && s[b] == 0x20 && s[b + 5] == 0x20) {
        None
    } else if !(b + 6 < c && c < s.len() && s[c] == 0x20) {
        None
    } else if !(d < s.len()) {
        None
    } else {
        let start = hex_value(s.subrange(0, a));
        let end = hex_value(s.subrange(a + 1, b));
        let offset = hex_value(s.subrange(b + 6, c));
        if start < end && end <= usize::MAX && offset <= usize::MAX {
            Some((start, end, offset, s.subrange(b + 1, b + 5), s.subrange(f, s.len() as int)))
        } else {
            None
        }
    }
}

/// `region` is what `line` says.
pub open spec fn region_matches(region: MemoryRegion, line: Seq<u8>) -> bool {
    match line_region(line) {
        Some((start, end, offset, perms, path)) => {
            &&& region.start_address == start
            &&& region.end_address == end
            &&& region.offset == offset
            &&& region.readable == (perms[0] == 0x72)
            &&& region.writable == (perms[1] == 0x77)
            &&& region.executable == (perms[2] == 0x78)
            &&& match region.path {
                Some(p) => path.len() > 0 && p@ == path,
                None => path.len() == 0,
            }
        },
        None => false,
    }
}

proof fn lemma_hex_value_grows(s: Seq<u8>, k: int)
    requires
        0 <= k <= s.len(),
        forall|j: int| 0 <= j < s.len() ==> is_hex(#[trigger] s[j]),
    ensures
        hex_value(s.subrange(0, k)) <= hex_value(s),
    decreases s.len() - k,
{
    if k < s.len() {
        lemma_hex_value_grows(s, k + 1);
        let t = s.subrange(0, k + 1);
        assert(t.drop_last() =~= s.subrange(0, k));
        assert(hex_value(s.subrange(0, k)) >= 0) by {
            lemma_hex_value_nonneg(s.subrange(0, k));
        }
    } else {
        assert(s.subrange(0, k) =~= s);
    }
}

proof fn lemma_hex_value_nonneg(s: Seq<u8>)
    requires
        forall|j: int| 0 <= j < s.len() ==> is_hex(#[trigger] s[j]),
    ensures
        hex_value(s) >= 0,
    decreases s.len(),
{
    if s.len() > 0 {
        lemma_hex_value_nonneg(s.drop_last());
    }
}

proof fn lemma_hex_end_bounds(s: Seq<u8>, i: int)
    requires
        0 <= i <= s.len(),
    ensures
        i <= hex_end(s, i) <= s.len(),
        forall|j: int| i <= j < hex_end(s, i) ==> is_hex(#[trigger] s[j]),
        hex_end(s, i) < s.len() ==> !is_hex(s[hex_end(s, i)]),
    decreases s.len() - i,
{
    if i < s.len() && is_hex(s[i]) {
        lemma_hex_end_bounds(s, i + 1);
    }
}

/// Parses the run of hexadecimal digits at `from`: its value and its end,
/// or `None` if the value does not fit a `usize`.
fn parse_hex(s: &[u8], from: usize) -> (r: Option<(usize, usize)>)
    requires
        from <= s@.len(),
    ensures
        match r {
            Some((v, e)) => e == hex_end(s@, from as int) && v == hex_value(
                s@.subrange(from as int, e as int),
            ),
            None => hex_value(s@.subrange(from as int, hex_end(s@, from as int))) > usize::MAX,
        },
{
    proof {
        lemma_hex_end_bounds(s@, from as int);
    }
    let ghost end = hex_end(s@, from as int);
    let len = s.len();
    let mut v: usize = 0;
    let mut i: usize = from;
    while i < len && is_hex_byte(s[i])
        invariant
            from <= i <= end,
            end <= s@.len(),
            len == s@.len(),
            end == hex_end(s@, from as int),
            forall|j: int| from <= j < end ==> is_hex(#[trigger] s@[j]),
            end < s@.len() ==> !is_hex(s@[end]),
            v == hex_value(s@.subrange(from as int, i as int)),
        decreases len - i,
    {
        let d = hex_digit_of(s[i]);
        proof {
            let t = s@.subrange(from as int, i + 1);
            assert(t.drop_last() =~= s@.subrange(from as int, i as int));
            assert(t.last() == s@[i as int]);
        }
        if v > (usize::MAX - d) / 16 {
            proof {
                let full = s@.subrange(from as int, end);
                assert forall|j: int| 0 <= j < full.len() implies is_hex(#[trigger] full[j]) by {
                    assert(full[j] == s@[from + j]);
                }
                lemma_hex_value_grows(full, i + 1 - from);
                assert(full.subrange(0, i + 1 - from) =~= s@.subrange(from as int, i + 1));
            }
            return None;
        }
        v = 16 * v + d;
        i = i + 1;
    }
    assert(i == end);
    Some((v, i))
}

/// Whether `c` is a hexadecimal digit.
fn is_hex_byte(c: u8) -> (r: bool)
    ensures
        r == is_hex(c),
{
    (0x30 <= c && c <= 0x39) || (0x61 <= c && c <= 0x66) || (0x41 <= c && c <= 0x46)
}

/// The value of the hexadecimal digit `c`.
fn hex_digit_of(c: u8) -> (r: usize)
    requires
        is_hex(c),
    ensures
        r == hex_digit(c),
        r < 16,
{
    if c <= 0x39 {
        (c - 0x30) as usize
    } else if c >= 0x61 {
        (c - 0x61 + 10) as usize
    } else {
        (c - 0x41 + 10) as usize
    }
}

/// The first space at or after `i`, or the end.
fn skip_field(s: &[u8], i: usize) -> (r: usize)
    requires
        i <= s@.len(),
    ensures
        r == field_end(s@, i as int),
        i <= r <= s@.len(),
{
    let len = s.len();
    let mut j = i;
    while j < len && s[j] != 0x20
        invariant
            i <= j <= len,
            len == s@.len(),
            field_end(s@, i as int) == field_end(s@, j as int),
        decreases len - j,
    {
        j = j + 1;
    }
    j
}

/// The first byte at or after `i` that is no space, or the end.
fn skip_blanks(s: &[u8], i: usize) -> (r: usize)
    requires
        i <= s@.len(),
    ensures
        r == blank_end(s@, i as int),
        i <= r <= s@.len(),
{
    let len = s.len();
    let mut j = i;
    while j < len && s[j] == 0x20
        invariant
            i <= j <= len,
            len == s@.len(),
            blank_end(s@, i as int) == blank_end(s@, j as int),
        decreases len - j,
    {
        j = j + 1;
    }
    j
}

/// Parses one line of `/proc/<pid>/maps` (without its newline).
pub fn parse_maps_line(line: &[u8]) -> (r: Option<MemoryRegion>)
    ensures
        match r {
            Some(region) => region_matches(region, line@),
            None => line_region(line@) is None,
        },
{
    let ghost s = line@;
    let len = line.len();
    let (start, a) = match parse_hex(line, 0) {
        Some(x) => x,
        None => {
            return None;
        },
    };
    if !(0 < a && a < len && line[a] == 0x2d) {
        return None;
    }
    proof {
        lemma_hex_end_bounds(s, a + 1);
    }
    let (end, b) = match parse_hex(line, a + 1) {
        Some(x) => x,
        None => {
            return None;
        },
    };
    if !(a + 1 < b && b < len && len - b > 5 && line[b] == 0x20 && line[b + 5] == 0x20) {
        return None;
    }
    proof {
        lemma_hex_end_bounds(s, b + 6);
    }
    let (offset, c) = match parse_hex(line, b + 6) {
        Some(x) => x,
        None => {
            return None;
        },
    };
    if !(b + 6 < c && c < len && line[c] == 0x20) {
        return None;
    }
    let d = skip_field(line, c + 1);
    if !(d < len) {
        return None;
    }
    let e = skip_field(line, d + 1);
    let f = skip_blanks(line, e);
    if !(start < end) {
        return None;
    }
    let path = if f < len {
        Some(copy_range(line, f, len))
    } else {
        None
    };
    Some(
        MemoryRegion {
            start_address: start,
            end_address: end,
            offset,
            readable: line[b + 1] == 0x72,
            writable: line[b + 2] == 0x77,
            executable: line[b + 3] == 0x78,
            path,
        },
    )
}

/// What a mapping holds, as plain values.
pub struct MappingView {
    pub start: int,
    pub end: int,
    pub offset: int,
    pub executable: bool,
    pub name: Option<Seq<u8>>,
}

/// The view of a mapping.
pub open spec fn view_of(m: MappingInfo) -> MappingView {
    MappingView {
        start: m.start_address as int,
        end: m.system_mapping_info.end_address as int,
        offset: m.offset as int,
        executable: m.executable,
        name: match m.name {
            Some(n) => Some(n@),
            None => None,
        },
    }
}

/// The views of a list of mappings.
pub open spec fn views_of(ms: Seq<MappingInfo>) -> Seq<MappingView> {
    Seq::new(ms.len(), |k: int| view_of(ms[k]))
}

/// `p` names a file: it holds a `/`.
pub open spec fn is_path(p: Seq<u8>) -> bool {
    exists|j: int| 0 <= j < p.len() && p[j] == 0x2f
}

/// The region starts at the vdso and has no file behind it.
pub open spec fn is_gate(start: int, path: Seq<u8>, gate: u64) -> bool {
    !is_path(path) && gate != 0 && start == gate
}

/// The name a region gets: `linux-gate.so` for the vdso, else its path.
pub open spec fn region_name(start: int, path: Seq<u8>, gate: u64) -> Option<Seq<u8>> {
    if is_gate(start, path, gate) {
        Some(linux_gate_name())
    } else if path.len() > 0 {
        Some(path)
    } else {
        None
    }
}

/// The mappings after one more region: it extends the last mapping when it
/// follows it directly under the same name; it is dropped when it starts
/// below the end of the last mapping; else it is a new mapping.
pub open spec fn fold_region(
    ms: Seq<MappingView>,
    r: (int, int, int, Seq<u8>, Seq<u8>),
    gate: u64,
) -> Seq<MappingView> {
    let (start, end, offset, perms, path) = r;
    let name = region_name(start, path, gate);
    let exec = perms[2] == 0x78;
    if ms.len() > 0 && start == ms.last().end && name is Some && name == ms.last().name {
        ms.update(
            ms.len() - 1,
            MappingView { end, executable: ms.last().executable || exec, ..ms.last() },
        )
    } else if ms.len() > 0 && start < ms.last().end {
        ms
    } else {
        ms.push(
            MappingView {
                start,
                end,
                offset: if is_gate(start, path, gate) {
                    0
                } else {
                    offset
                },
                executable: exec,
                name,
            },
        )
    }
}

/// The end of the line that starts at `i`: the next newline, or the end.
pub open spec fn line_end(s: Seq<u8>, i: int) -> int
    decreases s.len() - i,
{
    if 0 <= i < s.len() && s[i] != 0x0a {
        line_end(s, i + 1)
    } else {
        i
    }
}

/// The mappings after folding the lines of `s` from `i` on into `acc`.
pub open spec fn fold_lines(s: Seq<u8>, i: int, acc: Seq<MappingView>, gate: u64) -> Seq<
    MappingView,
>
    decreases s.len() - i,
{
    if i < 0 || i >= s.len() {
        acc
    } else {
        let e = line_end(s, i);
        let next = match line_region(s.subrange(i, e)) {
            Some(r) => fold_region(acc, r, gate),
            None => acc,
        };
        if e < i {
            acc
        } else if e >= s.len() {
            next
        } else {
            fold_lines(s, e + 1, next, gate)
        }
    }
}

/// The mappings are in ascending order of their kernel ranges, and each
/// one's biased range is its kernel range.
pub open spec fn ascending(ms: Seq<MappingInfo>) -> bool {
    &&& forall|i: int|
        0 <= i < ms.len() ==> {
            &&& (#[trigger] ms[i]).system_mapping_info.start_address == ms[i].start_address
            &&& ms[i].start_address + ms[i].size == ms[i].system_mapping_info.end_address
            &&& ms[i].start_address < ms[i].system_mapping_info.end_address
        }
    &&& forall|i: int, j: int|
        0 <= i < j < ms.len() ==> #[trigger] ms[i].system_mapping_info.end_address
            <= #[trigger] ms[j].system_mapping_info.start_address
}

/// Ascending mappings are well formed.
pub proof fn lemma_ascending_wf(ms: Seq<MappingInfo>)
    requires
        ascending(ms),
    ensures
        mappings_wf(ms),
{
    assert forall|i: int, j: int, a: int|
        0 <= i < ms.len() && 0 <= j < ms.len() && i != j && #[trigger] in_system_range(ms[i], a)
            implies !#[trigger] in_system_range(ms[j], a) by {
        if i < j {
            assert(ms[i].system_mapping_info.end_address <= ms[j].system_mapping_info.start_address);
        } else {
            assert(ms[j].system_mapping_info.end_address <= ms[i].system_mapping_info.start_address);
        }
    }
}

/// Whether `p` holds a `/`.
fn has_slash(p: &Vec<u8>) -> (r: bool)
    ensures
        r == is_path(p@),
{
    let mut i: usize = 0;
    while i < p.len()
        invariant
            i <= p@.len(),
            forall|j: int| 0 <= j < i ==> p@[j] != 0x2f,
        decreases p@.len() - i,
    {
        if p[i] == 0x2f {
            return true;
        }
        i = i + 1;
    }
    false
}

/// Whether two names are the same bytes.
fn same_name(a: &Option<Vec<u8>>, b: &Option<Vec<u8>>) -> (r: bool)
    ensures
        r == (match (a, b) {
            (Some(x), Some(y)) => x@ == y@,
            (None, None) => true,
            _ => false,
        }),
{
    match (a, b) {
        (Some(x), Some(y)) => bytes_equal(x.as_slice(), y.as_slice()),
        (None, None) => true,
        _ => false,
    }
}

/// Folds one parsed region into the mappings.
fn fold_into(mappings: &mut Vec<MappingInfo>, region: MemoryRegion, gate: u64, line: Ghost<Seq<u8>>)
    requires
        ascending(old(mappings)@),
        region_matches(region, line@),
    ensures
        ascending(final(mappings)@),
        views_of(final(mappings)@) == fold_region(
            views_of(old(mappings)@),
            line_region(line@).unwrap(),
            gate,
        ),
{
    let ghost r = line_region(line@).unwrap();
    let ghost old_views = views_of(mappings@);
    let gate_region = match &region.path {
        Some(p) => !has_slash(p) && gate != 0 && region.start_address as u64 == gate,
        None => gate != 0 && region.start_address as u64 == gate,
    };
    proof {
        if region.path is None {
            assert(!is_path(r.4));
        }
    }
    let name = if gate_region {
        Some(linux_gate_library_name())
    } else {
        region.path
    };
    let n = mappings.len();
    if n > 0 {
        let last_end = mappings[n - 1].system_mapping_info.end_address;
        if region.start_address == last_end && name.is_some() && same_name(&name, &mappings[n - 1].name) {
            let ghost before = mappings@;
            let mut m = mappings.pop().unwrap();
            m.size = region.end_address - m.start_address;
            m.system_mapping_info.end_address = region.end_address;
            m.executable = m.executable || region.executable;
            mappings.push(m);
            proof {
                assert(views_of(mappings@) =~= fold_region(old_views, r, gate));
                assert forall|i: int, j: int|
                    0 <= i < j < mappings@.len() implies #[trigger] mappings@[i].system_mapping_info.end_address
                    <= #[trigger] mappings@[j].system_mapping_info.start_address by {
                    assert(before[i].system_mapping_info.end_address <= before[j].system_mapping_info.start_address);
                }
            }
            return;
        }
        if region.start_address < last_end {
            return;
        }
    }
    let ghost before = mappings@;
    mappings.push(
        MappingInfo {
            start_address: region.start_address,
            size: region.end_address - region.start_address,
            system_mapping_info: SystemMappingInfo {
                start_address: region.start_address,
                end_address: region.end_address,
            },
            offset: if gate_region {
                0
            } else {
                region.offset
            },
            executable: region.executable,
            name,
        },
    );
    proof {
        assert(views_of(mappings@) =~= fold_region(old_views, r, gate));
        assert forall|i: int, j: int|
            0 <= i < j < mappings@.len() implies #[trigger] mappings@[i].system_mapping_info.end_address
            <= #[trigger] mappings@[j].system_mapping_info.start_address by {
            if j < n {
                assert(before[i].system_mapping_info.end_address <= before[j].system_mapping_info.start_address);
            } else if i < n - 1 {
                assert(before[i].system_mapping_info.end_address <= before[n - 1].system_mapping_info.start_address);
            }
        }
    }
}

/// Parses the contents of `/proc/<pid>/maps` into mappings. `gate` is the
/// vdso's address from the auxiliary vector (0 if unknown): the mapping
/// there is named `linux-gate.so`. Lines that do not parse are skipped.
pub fn parse_maps(maps: &[u8], gate: u64) -> (r: Vec<MappingInfo>)
    ensures
        ascending(r@),
        mappings_wf(r@),
        views_of(r@) == fold_lines(maps@, 0, Seq::empty(), gate),
{
    let ghost s = maps@;
    let len = maps.len();
    let mut mappings: Vec<MappingInfo> = Vec::new();
    let mut i: usize = 0;
    assert(views_of(mappings@) =~= Seq::<MappingView>::empty());
    while i < len
        invariant
            s == maps@,
            len == s.len(),
            i <= len,
            ascending(mappings@),
            fold_lines(s, 0, Seq::empty(), gate) == fold_lines(s, i as int, views_of(mappings@), gate),
        decreases len - i,
    {
        let mut e = i;
        while e < len && maps[e] != 0x0a
            invariant
                i <= e <= len,
                len == s.len(),
                s == maps@,
                line_end(s, i as int) == line_end(s, e as int),
            decreases len - e,
        {
            e = e + 1;
        }
        let line = copy_range(maps, i, e);
        let ghost before = views_of(mappings@);
        match parse_maps_line(line.as_slice()) {
            Some(region) => {
                fold_into(&mut mappings, region, gate, Ghost(line@));
            },
            None => {},
        }
        if e == len {
            i = len;
        } else {
            i = e + 1;
        }
    }
    proof {
        lemma_ascending_wf(mappings@);
    }
    mappings
}

} // verus!
