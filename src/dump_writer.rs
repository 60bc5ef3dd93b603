//! The dump container: a header, a directory of fixed-size entries and the
//! stream bodies, written so that a dump cut short is still parseable.
use vstd::prelude::*;

use crate::bytes::copy_range;

verus! {

/// Magic number at the start of every dump ("MDMP").
pub const MD_HEADER_SIGNATURE: u32 = 0x504d444d;

/// Format version written into the header.
pub const MD_HEADER_VERSION: u32 = 0xa793;

/// Size in bytes of the header.
pub const HEADER_SIZE: usize = 32;

/// Size in bytes of one directory entry.
pub const DIRENT_SIZE: usize = 12;

/// Stream types of the streams this writer emits.
pub const THREAD_LIST_STREAM: u32 = 3;
pub const MODULE_LIST_STREAM: u32 = 4;
pub const MEMORY_LIST_STREAM: u32 = 5;
pub const EXCEPTION_STREAM: u32 = 6;
pub const SYSTEM_INFO_STREAM: u32 = 7;
pub const LINUX_CPU_INFO: u32 = 0x47670003;
pub const LINUX_PROC_STATUS: u32 = 0x47670004;
pub const LINUX_LSB_RELEASE: u32 = 0x47670005;
pub const LINUX_CMD_LINE: u32 = 0x47670006;
pub const LINUX_ENVIRON: u32 = 0x47670007;
pub const LINUX_AUXV: u32 = 0x47670008;
pub const LINUX_MAPS: u32 = 0x47670009;
pub const LINUX_DSO_DEBUG: u32 = 0x4767000A;

/// Largest number of bytes kept of a captured file.
pub const FILE_CAPTURE_LIMIT: usize = 1008;

/// Where a stream lies in the dump.
#[derive(Clone, Copy, Debug, PartialEq, Eq, Structural)]
pub struct MDLocationDescriptor {
    pub data_size: u32,
    pub rva: u32,
}

/// One directory entry.
#[derive(Clone, Copy, Debug, PartialEq, Eq, Structural)]
pub struct MDRawDirectory {
    pub stream_type: u32,
    pub location: MDLocationDescriptor,
}

/// The all-zero entry that stands for a stream that could not be written.
pub open spec fn zero_dirent() -> MDRawDirectory {
    MDRawDirectory { stream_type: 0, location: MDLocationDescriptor { data_size: 0, rva: 0 } }
}

/// A write of `bytes` at `position` in the sink, counted from where the
/// dump starts.
#[derive(Clone, Debug)]
pub struct SinkWrite {
    pub position: u64,
    pub bytes: Vec<u8>,
}

/// Failures of the writer's own bookkeeping; all of them end the dump.
#[derive(Clone, Copy, Debug, PartialEq, Eq, Structural)]
pub enum DumpError {
    /// The dump would grow past what a 32-bit offset can address.
    TooLarge,
    /// More streams were written than the directory has room for.
    DirectoryFull,
}

/// Little-endian bytes of a `u32`.
pub open spec fn le_u32(x: u32) -> Seq<u8> {
    seq![
        (x % 0x100) as u8,
        ((x / 0x100) % 0x100) as u8,
        ((x / 0x1_0000) % 0x100) as u8,
        ((x / 0x100_0000) % 0x100) as u8,
    ]
}

/// The `u32` read little-endian at `p`.
pub open spec fn read_u32(s: Seq<u8>, p: int) -> u32 {
    (s[p] as int + 0x100 * s[p + 1] + 0x1_0000 * s[p + 2] + 0x100_0000 * s[p + 3]) as u32
}

/// The bytes of a directory entry.
pub open spec fn dirent_bytes(d: MDRawDirectory) -> Seq<u8> {
    le_u32(d.stream_type) + le_u32(d.location.data_size) + le_u32(d.location.rva)
}

/// The directory entry read at `p`.
pub open spec fn read_dirent(s: Seq<u8>, p: int) -> MDRawDirectory {
    MDRawDirectory {
        stream_type: read_u32(s, p),
        location: MDLocationDescriptor { data_size: read_u32(s, p + 4), rva: read_u32(s, p + 8) },
    }
}

/// The header bytes.
pub open spec fn header_bytes(stream_count: u32, directory_rva: u32, time_date_stamp: u32) -> Seq<
    u8,
> {
    le_u32(MD_HEADER_SIGNATURE) + le_u32(MD_HEADER_VERSION) + le_u32(stream_count) + le_u32(
        directory_rva,
    ) + le_u32(0) + le_u32(time_date_stamp) + le_u32(0) + le_u32(0)
}

/// The sink's contents after `w`.
pub open spec fn apply_write(img: Seq<u8>, w: SinkWrite) -> Seq<u8> {
    let p = w.position as int;
    let b = w.bytes@;
    Seq::new(
        if img.len() >= p + b.len() {
            img.len()
        } else {
            (p + b.len()) as nat
        },
        |i: int|
            if p <= i < p + b.len() {
                b[i - p]
            } else if i < img.len() {
                img[i]
            } else {
                0u8
            },
    )
}

/// The sink's contents after the writes `ws`, in order, on `img`.
pub open spec fn apply_writes(img: Seq<u8>, ws: Seq<SinkWrite>) -> Seq<u8>
    decreases ws.len(),
{
    if ws.len() == 0 {
        img
    } else {
        apply_write(apply_writes(img, ws.drop_last()), ws.last())
    }
}

proof fn lemma_le_u32_read(x: u32, s: Seq<u8>, p: int)
    requires
        0 <= p,
        p + 4 <= s.len(),
        s.subrange(p, p + 4) == le_u32(x),
    ensures
        read_u32(s, p) == x,
{
    assert(s[p] == le_u32(x)[0]);
    assert(s[p + 1] == le_u32(x)[1]);
    assert(s[p + 2] == le_u32(x)[2]);
    assert(s[p + 3] == le_u32(x)[3]);
    let x0 = x as int % 0x100;
    let x1 = (x as int / 0x100) % 0x100;
    let x2 = (x as int / 0x1_0000) % 0x100;
    let x3 = (x as int / 0x100_0000) % 0x100;
    assert(x0 + 0x100 * x1 + 0x1_0000 * x2 + 0x100_0000 * x3 == x) by (nonlinear_arith)
        requires
            x0 == x as int % 0x100,
            x1 == (x as int / 0x100) % 0x100,
            x2 == (x as int / 0x1_0000) % 0x100,
            x3 == (x as int / 0x100_0000) % 0x100,
            0 <= x < 0x1_0000_0000,
    ;
}

/// Re-reading the bytes of an entry gives the entry back.
pub proof fn lemma_dirent_round_trip(d: MDRawDirectory, s: Seq<u8>, p: int)
    requires
        0 <= p,
        p + 12 <= s.len(),
        s.subrange(p, p + 12) == dirent_bytes(d),
    ensures
        read_dirent(s, p) == d,
{
    assert(s.subrange(p, p + 4) == le_u32(d.stream_type)) by {
        assert(s.subrange(p, p + 4) =~= s.subrange(p, p + 12).subrange(0, 4));
        assert(dirent_bytes(d).subrange(0, 4) =~= le_u32(d.stream_type));
    }
    assert(s.subrange(p + 4, p + 8) == le_u32(d.location.data_size)) by {
        assert(s.subrange(p + 4, p + 8) =~= s.subrange(p, p + 12).subrange(4, 8));
        assert(dirent_bytes(d).subrange(4, 8) =~= le_u32(d.location.data_size));
    }
    assert(s.subrange(p + 8, p + 12) == le_u32(d.location.rva)) by {
        assert(s.subrange(p + 8, p + 12) =~= s.subrange(p, p + 12).subrange(8, 12));
        assert(dirent_bytes(d).subrange(8, 12) =~= le_u32(d.location.rva));
    }
    lemma_le_u32_read(d.stream_type, s, p);
    lemma_le_u32_read(d.location.data_size, s, p + 4);
    lemma_le_u32_read(d.location.rva, s, p + 8);
}

/// Appends the little-endian bytes of `x`.
fn push_u32(buf: &mut Vec<u8>, x: u32)
    ensures
        final(buf)@ == old(buf)@ + le_u32(x),
{
    buf.push((x % 0x100) as u8);
    buf.push(((x / 0x100) % 0x100) as u8);
    buf.push(((x / 0x1_0000) % 0x100) as u8);
    buf.push(((x / 0x100_0000) % 0x100) as u8);
    assert(final(buf)@ =~= old(buf)@ + le_u32(x));
}

/// The bytes of an entry.
fn dirent_to_bytes(d: MDRawDirectory) -> (r: Vec<u8>)
    ensures
        r@ == dirent_bytes(d),
{
    let mut r: Vec<u8> = Vec::new();
    push_u32(&mut r, d.stream_type);
    push_u32(&mut r, d.location.data_size);
    push_u32(&mut r, d.location.rva);
    assert(r@ =~= dirent_bytes(d));
    r
}

/// Copies `src` over `dst` from `p` on.
fn overwrite(dst: &mut Vec<u8>, p: usize, src: &Vec<u8>)
    requires
        p + src@.len() <= old(dst)@.len(),
    ensures
        final(dst)@ == old(dst)@.subrange(0, p as int) + src@ + old(dst)@.subrange(
            p + src@.len(),
            old(dst)@.len() as int,
        ),
{
    let dlen = dst.len();
    let mut i: usize = 0;
    while i < src.len()
        invariant
            i <= src@.len(),
            p + src@.len() <= old(dst)@.len(),
            dst@.len() == old(dst)@.len(),
            dlen == dst@.len(),
            forall|x: int| 0 <= x < p ==> #[trigger] dst@[x] == old(dst)@[x],
            forall|x: int| p <= x < p + i ==> #[trigger] dst@[x] == src@[x - p],
            forall|x: int| p + i <= x < dst@.len() ==> #[trigger] dst@[x] == old(dst)@[x],
        decreases src@.len() - i,
    {
        dst.set(p + i, src[i]);
        i = i + 1;
    }
    assert(dst@ =~= old(dst)@.subrange(0, p as int) + src@ + old(dst)@.subrange(
        p + src@.len(),
        old(dst)@.len() as int,
    ));
}

/// Appends `src` to `dst`.
fn append_bytes(dst: &mut Vec<u8>, src: &[u8])
    ensures
        final(dst)@ == old(dst)@ + src@,
{
    let mut i: usize = 0;
    while i < src.len()
        invariant
            i <= src@.len(),
            dst@ == old(dst)@ + src@.subrange(0, i as int),
        decreases src@.len() - i,
    {
        dst.push(src[i]);
        i = i + 1;
        assert(dst@ =~= old(dst)@ + src@.subrange(0, i as int));
    }
    assert(src@.subrange(0, src@.len() as int) =~= src@);
}

/// The directory of a dump being written, and the bookkeeping that keeps the
/// sink in step with the in-memory buffer.
pub struct DirSection {
    curr_idx: usize,
    position: u32,
    count: u32,
    last_position_written_to_file: usize,
}

impl DirSection {
    /// Offset of the directory in the dump.
    pub closed spec fn position_view(&self) -> u32 {
        self.position
    }

    /// Number of entries written so far.
    pub closed spec fn written_view(&self) -> nat {
        self.curr_idx as nat
    }

    /// Offset of the directory in the dump.
    pub fn position(&self) -> (r: u32)
        ensures
            r == self.position_view(),
    {
        self.position
    }

    /// Number of entries written so far.
    pub fn entries_written(&self) -> (r: usize)
        ensures
            r == self.written_view(),
    {
        self.curr_idx
    }
}

/// Directory slot `k` of the sink image `img` is all zero, or holds an
/// entry whose bytes lie past the directory (or are none) and are already
/// in `img`, equal to those of the finished dump `buf`.
pub open spec fn slot_settled(img: Seq<u8>, buf: Seq<u8>, count: nat, k: int) -> bool {
    let p = HEADER_SIZE + DIRENT_SIZE * k;
    let e = read_dirent(img, p);
    let rva = e.location.rva as int;
    let size = e.location.data_size as int;
    img.subrange(p, p + 12) == dirent_bytes(zero_dirent()) || {
        &&& size == 0 || rva >= HEADER_SIZE + DIRENT_SIZE * count
        &&& rva + size <= img.len()
        &&& img.subrange(rva, rva + size) == buf.subrange(rva, rva + size)
    }
}

/// A sink holding `img` (a prefix of the writes of the dump `buf`, with a
/// directory of `count` entries) is a parseable dump: nothing yet, or the
/// whole header and directory, each entry all zero or leading to bytes
/// already written.
pub open spec fn parseable_prefix(img: Seq<u8>, buf: Seq<u8>, count: nat) -> bool {
    img.len() == 0 || {
        &&& HEADER_SIZE + DIRENT_SIZE * count <= img.len() <= buf.len()
        &&& img.subrange(0, HEADER_SIZE as int) == buf.subrange(0, HEADER_SIZE as int)
        &&& forall|k: int| 0 <= k < count ==> #[trigger] slot_settled(img, buf, count, k)
    }
}

/// A sink image stays parseable against a dump whose header and bytes past
/// the directory it has kept.
proof fn lemma_prefix_stable(img: Seq<u8>, b1: Seq<u8>, b2: Seq<u8>, count: nat)
    requires
        parseable_prefix(img, b1, count),
        HEADER_SIZE + DIRENT_SIZE * count <= b1.len() <= b2.len(),
        b2.subrange(0, HEADER_SIZE as int) == b1.subrange(0, HEADER_SIZE as int),
        forall|x: int| HEADER_SIZE + DIRENT_SIZE * count <= x < b1.len() ==> b2[x] == b1[x],
    ensures
        parseable_prefix(img, b2, count),
{
    if img.len() > 0 {
        assert forall|k: int| 0 <= k < count implies #[trigger] slot_settled(img, b2, count, k) by {
            assert(slot_settled(img, b1, count, k));
            let p = HEADER_SIZE + DIRENT_SIZE * k;
            let e = read_dirent(img, p);
            let rva = e.location.rva as int;
            let size = e.location.data_size as int;
            if img.subrange(p, p + 12) != dirent_bytes(zero_dirent()) {
                if size == 0 {
                    assert(b2.subrange(rva, rva + size) =~= b1.subrange(rva, rva + size));
                } else {
                    assert forall|x: int| 0 <= x < size implies #[trigger] b2.subrange(rva, rva + size)[x]
                        == b1.subrange(rva, rva + size)[x] by {
                        assert(b2[rva + x] == b1[rva + x]);
                    }
                    assert(b2.subrange(rva, rva + size) =~= b1.subrange(rva, rva + size));
                }
            }
        }
    }
}

/// The sink after the writes `h`, and after its first `j` of them.
pub open spec fn prefix_image(h: Seq<SinkWrite>, j: int) -> Seq<u8> {
    apply_writes(Seq::empty(), h.subrange(0, j))
}

proof fn lemma_history_push(h: Seq<SinkWrite>, w: SinkWrite)
    ensures
        forall|j: int| 0 <= j <= h.len() ==> #[trigger] prefix_image(h.push(w), j) == prefix_image(h, j),
        prefix_image(h.push(w), h.len() as int + 1) == apply_write(prefix_image(h, h.len() as int), w),
{
    assert forall|j: int| 0 <= j <= h.len() implies #[trigger] prefix_image(h.push(w), j)
        == prefix_image(h, j) by {
        assert(h.push(w).subrange(0, j) =~= h.subrange(0, j));
    }
    let hp = h.push(w).subrange(0, h.len() as int + 1);
    assert(hp =~= h.push(w));
    assert(hp.drop_last() =~= h.subrange(0, h.len() as int));
}

/// One more write keeps every prefix of the writes parseable, when the dump
/// it leaves (`b2`) is itself parseable and kept the header and the bytes
/// past the directory of the dump before it (`b1`).
proof fn lemma_extend_history(h: Seq<SinkWrite>, w: SinkWrite, b1: Seq<u8>, b2: Seq<u8>, count: nat)
    requires
        forall|j: int| 0 <= j <= h.len() ==> parseable_prefix(#[trigger] prefix_image(h, j), b1, count),
        apply_writes(Seq::empty(), h) == b1,
        apply_write(b1, w) == b2,
        parseable_prefix(b2, b2, count),
        HEADER_SIZE + DIRENT_SIZE * count <= b1.len() <= b2.len(),
        b2.subrange(0, HEADER_SIZE as int) == b1.subrange(0, HEADER_SIZE as int),
        forall|x: int| HEADER_SIZE + DIRENT_SIZE * count <= x < b1.len() ==> b2[x] == b1[x],
    ensures
        forall|j: int|
            0 <= j <= h.len() + 1 ==> parseable_prefix(#[trigger] prefix_image(h.push(w), j), b2, count),
        apply_writes(Seq::empty(), h.push(w)) == b2,
{
    lemma_history_push(h, w);
    assert(h.subrange(0, h.len() as int) =~= h);
    assert(h.push(w).subrange(0, h.len() as int + 1) =~= h.push(w));
    assert forall|j: int| 0 <= j <= h.len() + 1 implies parseable_prefix(
        #[trigger] prefix_image(h.push(w), j),
        b2,
        count,
    ) by {
        if j <= h.len() {
            assert(parseable_prefix(prefix_image(h, j), b1, count));
            lemma_prefix_stable(prefix_image(h, j), b1, b2, count);
        }
    }
}

/// A dump being written: the in-memory buffer, its directory, and (as ghost
/// state) what the sink holds and the body of each entry.
pub struct DumpSession {
    buffer: Vec<u8>,
    dir: DirSection,
    entries: Vec<MDRawDirectory>,
    bodies: Ghost<Seq<Seq<u8>>>,
    sink: Ghost<Seq<u8>>,
    history: Ghost<Seq<SinkWrite>>,
}

impl DumpSession {
    /// The bytes written so far.
    pub closed spec fn buffer_view(&self) -> Seq<u8> {
        self.buffer@
    }

    /// What the sink holds after the writes handed out so far.
    pub closed spec fn sink_view(&self) -> Seq<u8> {
        self.sink@
    }

    /// The entries written so far.
    pub closed spec fn entries_view(&self) -> Seq<MDRawDirectory> {
        self.entries@
    }

    /// The body of each entry written so far.
    pub closed spec fn bodies_view(&self) -> Seq<Seq<u8>> {
        self.bodies@
    }

    /// Number of entries the directory holds.
    pub closed spec fn capacity_view(&self) -> nat {
        self.dir.count as nat
    }

    /// Offset of the directory.
    pub closed spec fn directory_rva(&self) -> int {
        self.dir.position as int
    }

    /// Every write handed out so far, in order.
    pub closed spec fn history_view(&self) -> Seq<SinkWrite> {
        self.history@
    }

    /// The session's invariant.
    pub closed spec fn wf(&self) -> bool {
        self.core_wf() && self.history_ok()
    }

    /// The writes handed out make up the sink, and after any prefix of them
    /// the sink is a parseable dump.
    closed spec fn history_ok(&self) -> bool {
        &&& self.sink@ == apply_writes(Seq::empty(), self.history@)
        &&& forall|j: int|
            0 <= j <= self.history@.len() ==> parseable_prefix(
                #[trigger] prefix_image(self.history@, j),
                self.buffer@,
                self.dir.count as nat,
            )
    }

    /// The buffer and its directory agree with the entries and bodies.
    closed spec fn core_wf(&self) -> bool {
        let buf = self.buffer@;
        let dir_end = HEADER_SIZE + DIRENT_SIZE * self.dir.count;
        &&& self.dir.position == HEADER_SIZE
        &&& dir_end <= buf.len() <= u32::MAX
        &&& self.dir.curr_idx <= self.dir.count
        &&& self.dir.last_position_written_to_file == buf.len()
        &&& self.entries@.len() == self.dir.curr_idx
        &&& self.bodies@.len() == self.dir.curr_idx
        &&& self.sink@ == buf
        &&& forall|i: int|
            0 <= i < self.dir.curr_idx ==> {
                let e = #[trigger] self.entries@[i];
                &&& buf.subrange(HEADER_SIZE + DIRENT_SIZE * i, HEADER_SIZE + DIRENT_SIZE * i + 12)
                    == dirent_bytes(e)
                &&& e.location.rva as int + e.location.data_size as int <= buf.len()
                &&& (e.location.data_size == 0 || e.location.rva >= dir_end)
                &&& buf.subrange(
                    e.location.rva as int,
                    e.location.rva + e.location.data_size,
                ) == self.bodies@[i]
            }
        &&& forall|i: int|
            self.dir.curr_idx <= i < self.dir.count ==> buf.subrange(
                HEADER_SIZE + DIRENT_SIZE * i,
                HEADER_SIZE + DIRENT_SIZE * i + 12,
            ) == #[trigger] dirent_bytes(zero_dirent_at(i))
    }

    /// The buffer itself is a parseable dump.
    proof fn lemma_buffer_parseable(&self)
        requires
            self.core_wf(),
        ensures
            parseable_prefix(self.buffer@, self.buffer@, self.dir.count as nat),
    {
        let buf = self.buffer@;
        assert forall|k: int| 0 <= k < self.dir.count implies #[trigger] slot_settled(
            buf,
            buf,
            self.dir.count as nat,
            k,
        ) by {
            if k < self.dir.curr_idx {
                let e = self.entries@[k];
                lemma_dirent_round_trip(e, buf, HEADER_SIZE + DIRENT_SIZE * k);
            } else {
                assert(buf.subrange(HEADER_SIZE + DIRENT_SIZE * k, HEADER_SIZE + DIRENT_SIZE * k + 12)
                    == dirent_bytes(zero_dirent_at(k)));
            }
        }
    }

    /// After any prefix of the writes handed out, the sink holds a
    /// parseable dump: nothing, or the header and the whole directory, in
    /// which every entry is all zero or leads to bytes already in the sink
    /// and equal to those of the dump.
    pub proof fn lemma_every_prefix_parseable(&self)
        requires
            self.wf(),
        ensures
            forall|j: int|
                0 <= j <= self.history_view().len() ==> parseable_prefix(
                    #[trigger] prefix_image(self.history_view(), j),
                    self.buffer_view(),
                    self.capacity_view(),
                ),
            self.sink_view() == apply_writes(Seq::empty(), self.history_view()),
    {
    }

    /// Reserves the header and a directory of `stream_count` entries, fills
    /// in the header, and hands out the write that puts both in the sink.
    pub fn begin(stream_count: u32, time_date_stamp: u32) -> (r: Result<(DumpSession, SinkWrite), DumpError>)
        ensures
            match r {
                Ok((s, w)) => {
                    &&& s.wf()
                    &&& s.capacity_view() == stream_count
                    &&& s.history_view() == seq![w]
                    &&& s.entries_view().len() == 0
                    &&& s.buffer_view().len() == HEADER_SIZE + DIRENT_SIZE * stream_count
                    &&& w.position == 0
                    &&& s.sink_view() == apply_write(Seq::empty(), w)
                    &&& s.buffer_view().subrange(0, HEADER_SIZE as int) == header_bytes(
                        stream_count,
                        HEADER_SIZE as u32,
                        time_date_stamp,
                    )
                },
                Err(e) => e == DumpError::TooLarge && HEADER_SIZE + DIRENT_SIZE * stream_count
                    > u32::MAX,
            },
    {
        if stream_count > (0xffff_ffffu32 - 32) / 12 {
            return Err(DumpError::TooLarge);
        }
        let mut buffer: Vec<u8> = Vec::new();
        push_u32(&mut buffer, MD_HEADER_SIGNATURE);
        push_u32(&mut buffer, MD_HEADER_VERSION);
        push_u32(&mut buffer, stream_count);
        push_u32(&mut buffer, HEADER_SIZE as u32);
        push_u32(&mut buffer, 0);
        push_u32(&mut buffer, time_date_stamp);
        push_u32(&mut buffer, 0);
        push_u32(&mut buffer, 0);
        assert(buffer@ =~= header_bytes(stream_count, HEADER_SIZE as u32, time_date_stamp));
        let ghost header = buffer@;
        let mut i: u32 = 0;
        while i < stream_count
            invariant
                i <= stream_count,
                stream_count <= (0xffff_ffffu32 - 32) / 12,
                buffer@.len() == HEADER_SIZE + DIRENT_SIZE * i,
                buffer@.subrange(0, HEADER_SIZE as int) == header,
                forall|j: int|
                    0 <= j < i ==> buffer@.subrange(
                        HEADER_SIZE + DIRENT_SIZE * j,
                        HEADER_SIZE + DIRENT_SIZE * j + 12,
                    ) == #[trigger] dirent_bytes(zero_dirent_at(j)),
            decreases stream_count - i,
        {
            let ghost before = buffer@;
            let zero = MDRawDirectory {
                stream_type: 0,
                location: MDLocationDescriptor { data_size: 0, rva: 0 },
            };
            let bytes = dirent_to_bytes(zero);
            append_bytes(&mut buffer, bytes.as_slice());
            assert forall|j: int| 0 <= j < i + 1 implies buffer@.subrange(
                HEADER_SIZE + DIRENT_SIZE * j,
                HEADER_SIZE + DIRENT_SIZE * j + 12,
            ) == #[trigger] dirent_bytes(zero_dirent_at(j)) by {
                if j < i {
                    assert(buffer@.subrange(
                        HEADER_SIZE + DIRENT_SIZE * j,
                        HEADER_SIZE + DIRENT_SIZE * j + 12,
                    ) =~= before.subrange(
                        HEADER_SIZE + DIRENT_SIZE * j,
                        HEADER_SIZE + DIRENT_SIZE * j + 12,
                    ));
                } else {
                    assert(buffer@.subrange(
                        HEADER_SIZE + DIRENT_SIZE * j,
                        HEADER_SIZE + DIRENT_SIZE * j + 12,
                    ) =~= bytes@);
                }
            }
            assert(buffer@.subrange(0, HEADER_SIZE as int) =~= before.subrange(0, HEADER_SIZE as int));
            i = i + 1;
        }
        let w = SinkWrite { position: 0, bytes: copy_range(buffer.as_slice(), 0, buffer.len()) };
        assert(apply_write(Seq::empty(), w) =~= buffer@);
        let s = DumpSession {
            dir: DirSection {
                curr_idx: 0,
                position: HEADER_SIZE as u32,
                count: stream_count,
                last_position_written_to_file: buffer.len(),
            },
            buffer,
            entries: Vec::new(),
            bodies: Ghost(Seq::empty()),
            sink: Ghost(apply_write(Seq::empty(), w)),
            history: Ghost(Seq::empty().push(w)),
        };
        proof {
            s.lemma_buffer_parseable();
            let h = seq![w];
            assert(Seq::<SinkWrite>::empty().push(w) =~= h);
            assert(h.subrange(0, 0) =~= Seq::<SinkWrite>::empty());
            assert(h.subrange(0, 1) =~= h);
            assert(h.drop_last() =~= Seq::<SinkWrite>::empty());
            assert(apply_writes(Seq::empty(), Seq::<SinkWrite>::empty()) == Seq::<u8>::empty());
            assert(prefix_image(h, 0) == Seq::<u8>::empty());
            assert(prefix_image(h, 1) == s.buffer@);
            assert(apply_writes(Seq::empty(), h) == s.sink@);
        }
        Ok((s, w))
    }
}

impl DumpSession {
    /// What the invariant says of the sizes.
    pub proof fn lemma_wf_sizes(&self)
        requires
            self.wf(),
        ensures
            HEADER_SIZE + DIRENT_SIZE * self.capacity_view() <= self.buffer_view().len() <= u32::MAX,
            self.entries_view().len() <= self.capacity_view(),
            self.bodies_view().len() == self.entries_view().len(),
            self.directory_rva() == HEADER_SIZE,
    {
    }

    /// The bytes written so far.
    pub fn buffer(&self) -> (r: &Vec<u8>)
        ensures
            r@ == self.buffer_view(),
    {
        &self.buffer
    }

    /// The entries written so far.
    pub fn entries(&self) -> (r: &Vec<MDRawDirectory>)
        ensures
            r@ == self.entries_view(),
    {
        &self.entries
    }

    /// The directory.
    pub fn directory(&self) -> (r: &DirSection)
        requires
            self.wf(),
        ensures
            r.position_view() == self.directory_rva(),
            r.written_view() == self.entries_view().len(),
    {
        &self.dir
    }

    /// Gives up the buffer.
    pub fn into_buffer(self) -> (r: Vec<u8>)
        ensures
            r@ == self.buffer_view(),
    {
        self.buffer
    }

    /// Appends `bytes` and hands out the write that copies them to the sink,
    /// with no directory entry (for blocks that other streams refer to).
    pub fn write_unlisted(&mut self, bytes: &[u8]) -> (r: Result<SinkWrite, DumpError>)
        requires
            old(self).wf(),
        ensures
            final(self).wf(),
            final(self).capacity_view() == old(self).capacity_view(),
            final(self).entries_view() == old(self).entries_view(),
            final(self).bodies_view() == old(self).bodies_view(),
            match r {
                Ok(w) => {
                    &&& final(self).buffer_view() == old(self).buffer_view() + bytes@
                    &&& final(self).history_view() == old(self).history_view().push(w)
                    &&& w.position == old(self).buffer_view().len()
                    &&& final(self).sink_view() == apply_write(old(self).sink_view(), w)
                },
                Err(e) => {
                    &&& e == DumpError::TooLarge
                    &&& old(self).buffer_view().len() + bytes@.len() > u32::MAX
                    &&& *final(self) == *old(self)
                },
            },
    {
        let start = self.buffer.len();
        if bytes.len() > 0xffff_ffffusize - start {
            return Err(DumpError::TooLarge);
        }
        let ghost old_buf = self.buffer@;
        append_bytes(&mut self.buffer, bytes);
        let w = SinkWrite {
            position: start as u64,
            bytes: copy_range(self.buffer.as_slice(), start, self.buffer.len()),
        };
        proof {
            assert(w.bytes@ =~= bytes@);
            assert(apply_write(old_buf, w) =~= self.buffer@);
            let dir_end = HEADER_SIZE + DIRENT_SIZE * self.dir.count;
            assert forall|i: int| 0 <= i < self.dir.curr_idx implies {
                let e = #[trigger] self.entries@[i];
                &&& self.buffer@.subrange(HEADER_SIZE + DIRENT_SIZE * i, HEADER_SIZE + DIRENT_SIZE * i + 12)
                    == dirent_bytes(e)
                &&& self.buffer@.subrange(
                    e.location.rva as int,
                    e.location.rva + e.location.data_size,
                ) == self.bodies@[i]
            } by {
                let e = self.entries@[i];
                assert(self.buffer@.subrange(HEADER_SIZE + DIRENT_SIZE * i, HEADER_SIZE + DIRENT_SIZE * i + 12)
                    =~= old_buf.subrange(HEADER_SIZE + DIRENT_SIZE * i, HEADER_SIZE + DIRENT_SIZE * i + 12));
                assert(self.buffer@.subrange(e.location.rva as int, e.location.rva + e.location.data_size)
                    =~= old_buf.subrange(e.location.rva as int, e.location.rva + e.location.data_size));
            }
            assert forall|i: int| self.dir.curr_idx <= i < self.dir.count implies self.buffer@.subrange(
                HEADER_SIZE + DIRENT_SIZE * i,
                HEADER_SIZE + DIRENT_SIZE * i + 12,
            ) == #[trigger] dirent_bytes(zero_dirent_at(i)) by {
                assert(self.buffer@.subrange(HEADER_SIZE + DIRENT_SIZE * i, HEADER_SIZE + DIRENT_SIZE * i + 12)
                    =~= old_buf.subrange(HEADER_SIZE + DIRENT_SIZE * i, HEADER_SIZE + DIRENT_SIZE * i + 12));
            }
        }
        self.dir.last_position_written_to_file = self.buffer.len();
        let ghost old_h = self.history@;
        self.sink = Ghost(apply_write(self.sink@, w));
        self.history = Ghost(old_h.push(w));
        proof {
            self.lemma_buffer_parseable();
            let dir_end = HEADER_SIZE + DIRENT_SIZE * self.dir.count;
            assert forall|x: int| dir_end <= x < old_buf.len() implies self.buffer@[x] == old_buf[x] by {}
            assert(self.buffer@.subrange(0, HEADER_SIZE as int) =~= old_buf.subrange(0, HEADER_SIZE as int));
            lemma_extend_history(old_h, w, old_buf, self.buffer@, self.dir.count as nat);
        }
        Ok(w)
    }

    /// Fills the next directory slot with `dirent`, whose body `body` the
    /// buffer already holds, and hands out the write that patches the slot
    /// in the sink.
    fn set_next_entry(&mut self, dirent: MDRawDirectory, body: Ghost<Seq<u8>>) -> (w: SinkWrite)
        requires
            old(self).dir.curr_idx < old(self).dir.count,
            old(self).history_ok(),
            ({
                let buf = old(self).buffer@;
                let dir_end = HEADER_SIZE + DIRENT_SIZE * old(self).dir.count;
                &&& old(self).dir.position == HEADER_SIZE
                &&& dir_end <= buf.len() <= u32::MAX
                &&& old(self).dir.last_position_written_to_file == buf.len()
                &&& old(self).entries@.len() == old(self).dir.curr_idx
                &&& old(self).bodies@.len() == old(self).dir.curr_idx
                &&& old(self).sink@ == buf
                &&& dirent.location.rva as int + dirent.location.data_size as int <= buf.len()
                &&& (dirent.location.data_size == 0 || dirent.location.rva >= dir_end)
                &&& buf.subrange(
                    dirent.location.rva as int,
                    dirent.location.rva + dirent.location.data_size,
                ) == body@
                &&& forall|i: int|
                    0 <= i < old(self).dir.curr_idx ==> {
                        let e = #[trigger] old(self).entries@[i];
                        &&& buf.subrange(HEADER_SIZE + DIRENT_SIZE * i, HEADER_SIZE + DIRENT_SIZE * i + 12)
                            == dirent_bytes(e)
                        &&& e.location.rva as int + e.location.data_size as int <= buf.len()
                        &&& (e.location.data_size == 0 || e.location.rva >= dir_end)
                        &&& buf.subrange(
                            e.location.rva as int,
                            e.location.rva + e.location.data_size,
                        ) == old(self).bodies@[i]
                    }
                &&& forall|i: int|
                    old(self).dir.curr_idx <= i < old(self).dir.count ==> buf.subrange(
                        HEADER_SIZE + DIRENT_SIZE * i,
                        HEADER_SIZE + DIRENT_SIZE * i + 12,
                    ) == #[trigger] dirent_bytes(zero_dirent_at(i))
            }),
        ensures
            final(self).wf(),
            final(self).dir.count == old(self).dir.count,
            final(self).entries@ == old(self).entries@.push(dirent),
            final(self).bodies@ == old(self).bodies@.push(body@),
            w.position == HEADER_SIZE + DIRENT_SIZE * old(self).dir.curr_idx,
            final(self).sink@ == apply_write(old(self).sink@, w),
            final(self).history@ == old(self).history@.push(w),
            final(self).buffer@.len() == old(self).buffer@.len(),
            final(self).buffer@.subrange(0, HEADER_SIZE as int) == old(self).buffer@.subrange(
                0,
                HEADER_SIZE as int,
            ),
    {
        let ghost old_buf = self.buffer@;
        let idx = self.dir.curr_idx;
        let slot = 32 + 12 * idx;
        let bytes = dirent_to_bytes(dirent);
        overwrite(&mut self.buffer, slot, &bytes);
        let w = SinkWrite { position: slot as u64, bytes };
        self.entries.push(dirent);
        self.dir.curr_idx = idx + 1;
        proof {
            let buf = self.buffer@;
            let dir_end = HEADER_SIZE + DIRENT_SIZE * self.dir.count;
            assert(apply_write(old_buf, w) =~= buf);
            assert(buf.subrange(slot as int, slot + 12) =~= dirent_bytes(dirent));
            assert(buf.subrange(0, HEADER_SIZE as int) =~= old_buf.subrange(0, HEADER_SIZE as int));
            assert(buf.subrange(dirent.location.rva as int, dirent.location.rva + dirent.location.data_size)
                =~= old_buf.subrange(dirent.location.rva as int, dirent.location.rva + dirent.location.data_size));
            assert forall|i: int| 0 <= i < idx implies {
                let e = #[trigger] old(self).entries@[i];
                &&& buf.subrange(HEADER_SIZE + DIRENT_SIZE * i, HEADER_SIZE + DIRENT_SIZE * i + 12)
                    == dirent_bytes(e)
                &&& buf.subrange(e.location.rva as int, e.location.rva + e.location.data_size)
                    == old(self).bodies@[i]
            } by {
                let e = old(self).entries@[i];
                assert(buf.subrange(HEADER_SIZE + DIRENT_SIZE * i, HEADER_SIZE + DIRENT_SIZE * i + 12)
                    =~= old_buf.subrange(HEADER_SIZE + DIRENT_SIZE * i, HEADER_SIZE + DIRENT_SIZE * i + 12));
                assert(buf.subrange(e.location.rva as int, e.location.rva + e.location.data_size)
                    =~= old_buf.subrange(e.location.rva as int, e.location.rva + e.location.data_size));
            }
            assert forall|i: int| idx + 1 <= i < self.dir.count implies buf.subrange(
                HEADER_SIZE + DIRENT_SIZE * i,
                HEADER_SIZE + DIRENT_SIZE * i + 12,
            ) == #[trigger] dirent_bytes(zero_dirent_at(i)) by {
                assert(buf.subrange(HEADER_SIZE + DIRENT_SIZE * i, HEADER_SIZE + DIRENT_SIZE * i + 12)
                    =~= old_buf.subrange(HEADER_SIZE + DIRENT_SIZE * i, HEADER_SIZE + DIRENT_SIZE * i + 12));
            }
            assert forall|i: int| 0 <= i < idx + 1 implies {
                let e = #[trigger] self.entries@[i];
                &&& buf.subrange(HEADER_SIZE + DIRENT_SIZE * i, HEADER_SIZE + DIRENT_SIZE * i + 12)
                    == dirent_bytes(e)
                &&& e.location.rva as int + e.location.data_size as int <= buf.len()
                &&& (e.location.data_size == 0 || e.location.rva >= dir_end)
                &&& buf.subrange(e.location.rva as int, e.location.rva + e.location.data_size)
                    == self.bodies@.push(body@)[i]
            } by {
                if i < idx {
                    assert(self.entries@[i] == old(self).entries@[i]);
                }
            }
        }
        self.bodies = Ghost(self.bodies@.push(body@));
        let ghost old_h = self.history@;
        self.sink = Ghost(apply_write(self.sink@, w));
        self.history = Ghost(old_h.push(w));
        proof {
            self.lemma_buffer_parseable();
            let dir_end = HEADER_SIZE + DIRENT_SIZE * self.dir.count;
            assert forall|x: int| dir_end <= x < old_buf.len() implies self.buffer@[x] == old_buf[x] by {}
            assert(self.buffer@.subrange(0, HEADER_SIZE as int) =~= old_buf.subrange(0, HEADER_SIZE as int));
            lemma_extend_history(old_h, w, old_buf, self.buffer@, self.dir.count as nat);
        }
        w
    }

    /// Appends a stream body, flushes it to the sink and then records its
    /// entry in the next directory slot; hands out the two writes, body
    /// first, so that an entry in the sink never refers to bytes that are
    /// not there yet.
    pub fn write_stream(&mut self, stream_type: u32, body: &[u8]) -> (r: Result<
        Vec<SinkWrite>,
        DumpError,
    >)
        requires
            old(self).wf(),
        ensures
            final(self).wf(),
            final(self).capacity_view() == old(self).capacity_view(),
            match r {
                Ok(ws) => {
                    let e = MDRawDirectory {
                        stream_type,
                        location: MDLocationDescriptor {
                            data_size: body@.len() as u32,
                            rva: old(self).buffer_view().len() as u32,
                        },
                    };
                    &&& final(self).entries_view() == old(self).entries_view().push(e)
                    &&& final(self).bodies_view() == old(self).bodies_view().push(body@)
                    &&& final(self).sink_view() == apply_writes(old(self).sink_view(), ws@)
                    &&& final(self).history_view() == old(self).history_view() + ws@
                    &&& final(self).buffer_view().len() == old(self).buffer_view().len() + body@.len()
                    &&& final(self).buffer_view().subrange(0, HEADER_SIZE as int)
                        == old(self).buffer_view().subrange(0, HEADER_SIZE as int)
                    &&& ws@.len() == 2
                    &&& ws@[0].position == old(self).buffer_view().len()
                    &&& ws@[0].bytes@ == body@
                    &&& entry_slot_is_zero(
                        apply_write(old(self).sink_view(), ws@[0]),
                        old(self).entries_view().len() as int,
                    )
                },
                Err(e) => {
                    &&& *final(self) == *old(self)
                    &&& (e == DumpError::DirectoryFull) == (old(self).entries_view().len()
                        == old(self).capacity_view())
                    &&& (e == DumpError::TooLarge) == (old(self).entries_view().len()
                        < old(self).capacity_view() && old(self).buffer_view().len()
                        + body@.len() > u32::MAX)
                },
            },
    {
        if self.dir.curr_idx >= self.dir.count as usize {
            return Err(DumpError::DirectoryFull);
        }
        let rva = self.buffer.len();
        let w1 = match self.write_unlisted(body) {
            Ok(w) => w,
            Err(e) => return Err(e),
        };
        let ghost mid = self.buffer@;
        proof {
            let k = old(self).dir.curr_idx as int;
            let img = apply_write(old(self).sink@, w1);
            assert(img =~= mid);
            assert(mid.subrange(HEADER_SIZE + DIRENT_SIZE * k, HEADER_SIZE + DIRENT_SIZE * k + 12)
                == dirent_bytes(zero_dirent_at(k)));
        }
        let dirent = MDRawDirectory {
            stream_type,
            location: MDLocationDescriptor { data_size: body.len() as u32, rva: rva as u32 },
        };
        assert(mid.subrange(rva as int, rva + body@.len()) =~= body@);
        let w2 = self.set_next_entry(dirent, Ghost(body@));
        let mut ws: Vec<SinkWrite> = Vec::new();
        ws.push(w1);
        ws.push(w2);
        proof {
            assert(ws@ =~= seq![w1, w2]);
            assert(old(self).history@ + ws@ =~= old(self).history@.push(w1).push(w2));
            assert(ws@.drop_last() =~= seq![w1]);
            assert(seq![w1].drop_last() =~= Seq::<SinkWrite>::empty());
            assert(seq![w1].last() == w1);
            assert(ws@.last() == w2);
            assert(apply_writes(old(self).sink@, Seq::<SinkWrite>::empty()) == old(self).sink@);
            assert(apply_writes(old(self).sink@, seq![w1]) == apply_write(old(self).sink@, w1));
            assert(apply_writes(old(self).sink@, ws@) == apply_write(
                apply_writes(old(self).sink@, seq![w1]),
                w2,
            ));
        }
        Ok(ws)
    }

    /// Records the all-zero entry in the next directory slot, for a stream
    /// that could not be captured.
    pub fn write_missing(&mut self) -> (r: Result<SinkWrite, DumpError>)
        requires
            old(self).wf(),
        ensures
            final(self).wf(),
            final(self).capacity_view() == old(self).capacity_view(),
            match r {
                Ok(w) => {
                    &&& final(self).entries_view() == old(self).entries_view().push(zero_dirent())
                    &&& final(self).bodies_view() == old(self).bodies_view().push(Seq::empty())
                    &&& final(self).sink_view() == apply_write(old(self).sink_view(), w)
                    &&& final(self).history_view() == old(self).history_view().push(w)
                    &&& final(self).buffer_view().len() == old(self).buffer_view().len()
                    &&& final(self).buffer_view().subrange(0, HEADER_SIZE as int)
                        == old(self).buffer_view().subrange(0, HEADER_SIZE as int)
                },
                Err(e) => {
                    &&& *final(self) == *old(self)
                    &&& e == DumpError::DirectoryFull
                    &&& old(self).entries_view().len() == old(self).capacity_view()
                },
            },
    {
        if self.dir.curr_idx >= self.dir.count as usize {
            return Err(DumpError::DirectoryFull);
        }
        let dirent = MDRawDirectory {
            stream_type: 0,
            location: MDLocationDescriptor { data_size: 0, rva: 0 },
        };
        assert(self.buffer@.subrange(0, 0) =~= Seq::<u8>::empty());
        let w = self.set_next_entry(dirent, Ghost(Seq::empty()));
        Ok(w)
    }

    /// Records a captured file as a stream of `stream_type`, keeping at
    /// most its first 1008 bytes; a file that could not be read (`None`)
    /// gets the all-zero entry.
    pub fn write_file_capture(&mut self, stream_type: u32, content: Option<&[u8]>) -> (r: Result<
        Vec<SinkWrite>,
        DumpError,
    >)
        requires
            old(self).wf(),
        ensures
            final(self).wf(),
            final(self).capacity_view() == old(self).capacity_view(),
            match r {
                Ok(ws) => {
                    &&& final(self).sink_view() == apply_writes(old(self).sink_view(), ws@)
                    &&& final(self).history_view() == old(self).history_view() + ws@
                    &&& final(self).buffer_view().subrange(0, HEADER_SIZE as int)
                        == old(self).buffer_view().subrange(0, HEADER_SIZE as int)
                    &&& final(self).buffer_view().len() == old(self).buffer_view().len() + match content {
                        Some(c) => capped(c@).len(),
                        None => 0,
                    }
                    &&& final(self).entries_view() == old(self).entries_view().push(
                        match content {
                            Some(c) => MDRawDirectory {
                                stream_type,
                                location: MDLocationDescriptor {
                                    data_size: capped(c@).len() as u32,
                                    rva: old(self).buffer_view().len() as u32,
                                },
                            },
                            None => zero_dirent(),
                        },
                    )
                    &&& final(self).bodies_view() == old(self).bodies_view().push(
                        match content {
                            Some(c) => capped(c@),
                            None => Seq::empty(),
                        },
                    )
                },
                Err(e) => {
                    &&& *final(self) == *old(self)
                    &&& (e == DumpError::DirectoryFull) == (old(self).entries_view().len()
                        == old(self).capacity_view())
                    &&& (e == DumpError::TooLarge) == (old(self).entries_view().len()
                        < old(self).capacity_view() && content.is_some()
                        && old(self).buffer_view().len() + capped(content.unwrap()@).len()
                        > u32::MAX)
                },
            },
    {
        match content {
            Some(c) => {
                let n = if c.len() > FILE_CAPTURE_LIMIT {
                    FILE_CAPTURE_LIMIT
                } else {
                    c.len()
                };
                let kept = copy_range(c, 0, n);
                assert(kept@ == capped(c@));
                self.write_stream(stream_type, kept.as_slice())
            },
            None => {
                match self.write_missing() {
                    Ok(w) => {
                        let mut ws: Vec<SinkWrite> = Vec::new();
                        ws.push(w);
                        assert(ws@.drop_last() =~= Seq::<SinkWrite>::empty());
                        assert(ws@.last() == w);
                        assert(old(self).history@ + ws@ =~= old(self).history@.push(w));
                        assert(apply_writes(old(self).sink@, Seq::<SinkWrite>::empty()) == old(self).sink@);
                        assert(apply_writes(old(self).sink@, ws@) == apply_write(old(self).sink@, w));
                        Ok(ws)
                    },
                    Err(e) => Err(e),
                }
            },
        }
    }
}

/// At most the first 1008 bytes of a captured file.
pub open spec fn capped(c: Seq<u8>) -> Seq<u8> {
    if c.len() > FILE_CAPTURE_LIMIT {
        c.subrange(0, FILE_CAPTURE_LIMIT as int)
    } else {
        c
    }
}

/// Slot `k` of the directory in `img` holds the all-zero entry: a reader
/// of a dump cut short there sees no stream for it.
pub open spec fn entry_slot_is_zero(img: Seq<u8>, k: int) -> bool {
    img.subrange(HEADER_SIZE + DIRENT_SIZE * k, HEADER_SIZE + DIRENT_SIZE * k + 12) == dirent_bytes(
        zero_dirent(),
    )
}

/// The zero entry (the argument only gives each slot its own trigger).
pub open spec fn zero_dirent_at(i: int) -> MDRawDirectory {
    zero_dirent()
}

/// Every directory entry written lies inside the buffer, and the bytes it
/// points at are the body that was appended for it.
pub proof fn lemma_entries_point_at_bodies(s: &DumpSession)
    requires
        s.wf(),
    ensures
        forall|i: int|
            0 <= i < s.entries_view().len() ==> {
                let e = #[trigger] s.entries_view()[i];
                &&& e.location.rva as int + e.location.data_size as int <= s.buffer_view().len()
                &&& s.buffer_view().subrange(
                    e.location.rva as int,
                    e.location.rva + e.location.data_size,
                ) == s.bodies_view()[i]
            },
{
}

/// Reading the dump back out of the sink, the directory gives each entry as
/// written, and each entry leads to the bytes that were appended for it.
pub proof fn lemma_sink_reads_back(s: &DumpSession)
    requires
        s.wf(),
    ensures
        s.sink_view() == s.buffer_view(),
        forall|i: int|
            0 <= i < s.entries_view().len() ==> {
                let e = read_dirent(s.sink_view(), s.directory_rva() + DIRENT_SIZE * i);
                &&& e == #[trigger] s.entries_view()[i]
                &&& s.sink_view().subrange(
                    e.location.rva as int,
                    e.location.rva + e.location.data_size,
                ) == s.bodies_view()[i]
            },
{
    assert forall|i: int| 0 <= i < s.entries_view().len() implies {
        let e = read_dirent(s.sink_view(), s.directory_rva() + DIRENT_SIZE * i);
        &&& e == #[trigger] s.entries_view()[i]
        &&& s.sink_view().subrange(e.location.rva as int, e.location.rva + e.location.data_size)
            == s.bodies_view()[i]
    } by {
        lemma_dirent_round_trip(
            s.entries_view()[i],
            s.sink_view(),
            HEADER_SIZE + DIRENT_SIZE * i,
        );
    }
}

} // verus!
