//! The dump's configuration and the fixed order in which its streams are
//! written.
use vstd::prelude::*;

use crate::dump_writer::{
    apply_write, apply_writes, capped, header_bytes, parseable_prefix, prefix_image, zero_dirent,
    DumpError, DumpSession, MDLocationDescriptor,
    SinkWrite, EXCEPTION_STREAM, HEADER_SIZE, LINUX_AUXV, LINUX_CMD_LINE,
    LINUX_CPU_INFO, LINUX_DSO_DEBUG, LINUX_ENVIRON, LINUX_LSB_RELEASE, LINUX_MAPS,
    LINUX_PROC_STATUS, MEMORY_LIST_STREAM, MODULE_LIST_STREAM, SYSTEM_INFO_STREAM,
    THREAD_LIST_STREAM,
};
use crate::linux_ptrace_dumper::LinuxPtraceDumper;
use crate::mapping::{copy_mapping, first_hit, same_mapping, MappingInfo};

verus! {

/// Number of directory entries of a dump.
pub const NUM_STREAMS: u32 = 13;

/// A range of the target's memory that the caller wants in the dump.
#[derive(Clone, Copy, Debug, PartialEq, Eq, Structural)]
pub struct AppMemory {
    pub ptr: usize,
    pub length: usize,
}

/// A block of the target's memory placed in the dump.
#[derive(Clone, Copy, Debug, PartialEq, Eq, Structural)]
pub struct MDMemoryDescriptor {
    pub start_of_memory_range: u64,
    pub memory: MDLocationDescriptor,
}

/// One step of a dump: a stream with its entry, bytes with no entry, a
/// stream that may be missing, or a captured file that may be missing.
pub enum StreamPiece {
    Listed { stream_type: u32, body: Vec<u8> },
    Unlisted { bytes: Vec<u8> },
    Optional { stream_type: u32, maybe_body: Option<Vec<u8>> },
    Capture { stream_type: u32, content: Option<Vec<u8>> },
}

/// The entry (type and body) that a piece adds, if it adds one.
pub open spec fn piece_entry(p: StreamPiece) -> Option<(u32, Seq<u8>)> {
    match p {
        StreamPiece::Listed { stream_type, body } => Some((stream_type, body@)),
        StreamPiece::Unlisted { .. } => None,
        StreamPiece::Optional { stream_type, maybe_body } => match maybe_body {
            Some(b) => Some((stream_type, b@)),
            None => Some((0u32, Seq::empty())),
        },
        StreamPiece::Capture { stream_type, content } => match content {
            Some(c) => Some((stream_type, capped(c@))),
            None => Some((0u32, Seq::empty())),
        },
    }
}

/// A piece that adds an entry names a stream type other than 0, which is
/// kept for the entries of missing streams.
pub open spec fn piece_type_nonzero(p: StreamPiece) -> bool {
    match p {
        StreamPiece::Listed { stream_type, .. } => stream_type != 0,
        StreamPiece::Unlisted { .. } => true,
        StreamPiece::Optional { stream_type, .. } => stream_type != 0,
        StreamPiece::Capture { stream_type, .. } => stream_type != 0,
    }
}

/// How many bytes a piece appends.
pub open spec fn piece_len(p: StreamPiece) -> nat {
    match p {
        StreamPiece::Unlisted { bytes } => bytes@.len(),
        _ => match piece_entry(p) {
            Some(e) => e.1.len(),
            None => 0,
        },
    }
}

/// The entries that the pieces add, in order.
pub open spec fn listed(ps: Seq<StreamPiece>) -> Seq<(u32, Seq<u8>)>
    decreases ps.len(),
{
    if ps.len() == 0 {
        Seq::empty()
    } else {
        listed(ps.drop_last()) + match piece_entry(ps.last()) {
            Some(e) => seq![e],
            None => Seq::empty(),
        }
    }
}

/// How many bytes the pieces append.
pub open spec fn appended_len(ps: Seq<StreamPiece>) -> nat
    decreases ps.len(),
{
    if ps.len() == 0 {
        0
    } else {
        appended_len(ps.drop_last()) + piece_len(ps.last())
    }
}

/// What the stream writers produced for one dump, and the captured files
/// (`None` where a file could not be read).
pub struct DumpStreams {
    pub thread_list: Vec<u8>,
    pub mappings: Vec<u8>,
    pub app_memory: Vec<u8>,
    pub memory_list: Vec<u8>,
    pub exception: Option<Vec<u8>>,
    pub system_info: Vec<u8>,
    pub cpu_info: Option<Vec<u8>>,
    pub proc_status: Option<Vec<u8>>,
    pub lsb_release: Option<Vec<u8>>,
    pub os_release: Option<Vec<u8>>,
    pub cmd_line: Option<Vec<u8>>,
    pub environ: Option<Vec<u8>>,
    pub auxv: Option<Vec<u8>>,
    pub maps: Option<Vec<u8>>,
    pub dso_debug: Vec<u8>,
}

/// The release file: `/etc/lsb-release`, or `/etc/os-release` without it.
pub open spec fn release_file(st: DumpStreams) -> Option<Vec<u8>> {
    match st.lsb_release {
        Some(c) => Some(c),
        None => st.os_release,
    }
}

/// The pieces of a dump, in the order they are written.
pub open spec fn dump_pieces(st: DumpStreams) -> Seq<StreamPiece> {
    seq![
        StreamPiece::Listed { stream_type: THREAD_LIST_STREAM, body: st.thread_list },
        StreamPiece::Listed { stream_type: MODULE_LIST_STREAM, body: st.mappings },
        StreamPiece::Unlisted { bytes: st.app_memory },
        StreamPiece::Listed { stream_type: MEMORY_LIST_STREAM, body: st.memory_list },
        StreamPiece::Optional { stream_type: EXCEPTION_STREAM, maybe_body: st.exception },
        StreamPiece::Listed { stream_type: SYSTEM_INFO_STREAM, body: st.system_info },
        StreamPiece::Capture { stream_type: LINUX_CPU_INFO, content: st.cpu_info },
        StreamPiece::Capture { stream_type: LINUX_PROC_STATUS, content: st.proc_status },
        StreamPiece::Capture { stream_type: LINUX_LSB_RELEASE, content: release_file(st) },
        StreamPiece::Capture { stream_type: LINUX_CMD_LINE, content: st.cmd_line },
        StreamPiece::Capture { stream_type: LINUX_ENVIRON, content: st.environ },
        StreamPiece::Capture { stream_type: LINUX_AUXV, content: st.auxv },
        StreamPiece::Capture { stream_type: LINUX_MAPS, content: st.maps },
        StreamPiece::Listed { stream_type: LINUX_DSO_DEBUG, body: st.dso_debug },
    ]
}

/// `apply_writes` over two batches is `apply_writes` over their
/// concatenation.
proof fn lemma_apply_writes_concat(img: Seq<u8>, a: Seq<SinkWrite>, b: Seq<SinkWrite>)
    ensures
        apply_writes(img, a + b) == apply_writes(apply_writes(img, a), b),
    decreases b.len(),
{
    if b.len() == 0 {
        assert(a + b =~= a);
    } else {
        assert((a + b).drop_last() =~= a + b.drop_last());
        assert((a + b).last() == b.last());
        lemma_apply_writes_concat(img, a, b.drop_last());
    }
}

/// Adding piece `k` to a prefix adds its entry and its bytes.
proof fn lemma_prefix_step(ps: Seq<StreamPiece>, k: int)
    requires
        0 <= k < ps.len(),
    ensures
        listed(ps.subrange(0, k + 1)) == listed(ps.subrange(0, k)) + match piece_entry(ps[k]) {
            Some(e) => seq![e],
            None => Seq::empty(),
        },
        appended_len(ps.subrange(0, k + 1)) == appended_len(ps.subrange(0, k)) + piece_len(ps[k]),
{
    assert(ps.subrange(0, k + 1).drop_last() =~= ps.subrange(0, k));
    assert(ps.subrange(0, k + 1).last() == ps[k]);
}

/// Longer prefixes have at least as many entries and bytes.
proof fn lemma_prefix_growth(ps: Seq<StreamPiece>, k: int)
    requires
        0 <= k <= ps.len(),
    ensures
        forall|j: int|
            0 <= j <= k ==> #[trigger] listed(ps.subrange(0, j)).len() <= listed(
                ps.subrange(0, k),
            ).len() && appended_len(ps.subrange(0, j)) <= appended_len(ps.subrange(0, k)),
    decreases k,
{
    if k > 0 {
        lemma_prefix_growth(ps, k - 1);
        lemma_prefix_step(ps, k - 1);
    }
}

/// Writes one piece.
fn write_piece(session: &mut DumpSession, all: &mut Vec<SinkWrite>, piece: StreamPiece) -> (r: Result<(), DumpError>)
    requires
        old(session).wf(),
        old(session).sink_view() == apply_writes(Seq::empty(), old(all)@),
        piece_entry(piece).is_some() ==> old(session).entries_view().len() < old(session).capacity_view(),
        piece_type_nonzero(piece),
        old(session).history_view() == old(all)@,
    ensures
        r is Ok ==> final(session).history_view() == final(all)@,
        r is Ok ==> final(session).wf(),
        r is Ok ==> final(session).capacity_view() == old(session).capacity_view(),
        r is Ok ==> final(session).sink_view() == apply_writes(Seq::empty(), final(all)@),
        r is Ok ==> final(session).buffer_view().len() == old(session).buffer_view().len()
            + piece_len(piece),
        r is Ok ==> final(session).buffer_view().subrange(0, HEADER_SIZE as int) == old(
            session).buffer_view().subrange(0, HEADER_SIZE as int),
        r is Ok ==> final(session).entries_view().len() == old(session).entries_view().len() + (
        if piece_entry(piece).is_some() {
            1int
        } else {
            0
        }),
        r is Ok ==> forall|i: int|
            0 <= i < old(session).entries_view().len() ==> #[trigger] final(session).entries_view()[i]
                == old(session).entries_view()[i] && final(session).bodies_view()[i] == old(
                session).bodies_view()[i],
        r is Ok ==> match piece_entry(piece) {
            Some(e) => {
                let k = old(session).entries_view().len() as int;
                &&& final(session).entries_view()[k].stream_type == e.0
                &&& final(session).bodies_view()[k] == e.1
                &&& e.0 == 0 ==> final(session).entries_view()[k] == zero_dirent()
            },
            None => true,
        },
        r matches Err(e) ==> e == DumpError::TooLarge && old(session).buffer_view().len()
            + piece_len(piece) > u32::MAX,
{
    proof {
        old(session).lemma_wf_sizes();
    }
    let ghost old_all = all@;
    let mut ws: Vec<SinkWrite> = Vec::new();
    match piece {
        StreamPiece::Listed { stream_type, body } => {
            match session.write_stream(stream_type, body.as_slice()) {
                Ok(v) => {
                    ws = v;
                },
                Err(e) => {
                    return Err(e);
                },
            }
        },
        StreamPiece::Unlisted { bytes } => {
            match session.write_unlisted(bytes.as_slice()) {
                Ok(w) => {
                    ws.push(w);
                    proof {
                        assert(ws@.drop_last() =~= Seq::<SinkWrite>::empty());
                        assert(ws@.last() == w);
                        assert(old(session).history_view() + ws@ =~= old(session).history_view().push(w));
                        assert(apply_writes(old(session).sink_view(), Seq::<SinkWrite>::empty())
                            == old(session).sink_view());
                    }
                },
                Err(e) => {
                    return Err(e);
                },
            }
        },
        StreamPiece::Optional { stream_type, maybe_body } => {
            match maybe_body {
                Some(b) => {
                    match session.write_stream(stream_type, b.as_slice()) {
                        Ok(v) => {
                            ws = v;
                        },
                        Err(e) => {
                            return Err(e);
                        },
                    }
                },
                None => {
                    match session.write_missing() {
                        Ok(w) => {
                            ws.push(w);
                            proof {
                                assert(ws@.drop_last() =~= Seq::<SinkWrite>::empty());
                                assert(ws@.last() == w);
                                assert(old(session).history_view() + ws@ =~= old(
                                    session).history_view().push(w));
                                assert(apply_writes(
                                    old(session).sink_view(),
                                    Seq::<SinkWrite>::empty(),
                                ) == old(session).sink_view());
                            }
                        },
                        Err(e) => {
                            return Err(e);
                        },
                    }
                },
            }
        },
        StreamPiece::Capture { stream_type, content } => {
            let c = match &content {
                Some(v) => Some(v.as_slice()),
                None => None,
            };
            match session.write_file_capture(stream_type, c) {
                Ok(v) => {
                    ws = v;
                },
                Err(e) => {
                    return Err(e);
                },
            }
        },
    }
    proof {
        lemma_apply_writes_concat(Seq::empty(), old_all, ws@);
        session.lemma_wf_sizes();
    }
    all.append(&mut ws);
    Ok(())
}

/// Writes `v`'s pieces in order on a session that has no entry yet.
fn write_pieces(session: &mut DumpSession, all: &mut Vec<SinkWrite>, queue: Vec<StreamPiece>) -> (r:
    Result<(), DumpError>)
    requires
        old(session).wf(),
        old(session).entries_view().len() == 0,
        old(session).sink_view() == apply_writes(Seq::empty(), old(all)@),
        listed(queue@).len() <= old(session).capacity_view(),
        forall|i: int| 0 <= i < queue@.len() ==> piece_type_nonzero(#[trigger] queue@[i]),
        old(session).history_view() == old(all)@,
    ensures
        r is Ok ==> final(session).history_view() == final(all)@,
        r.is_ok() <==> old(session).buffer_view().len() + appended_len(queue@) <= u32::MAX,
        r matches Err(e) ==> e == DumpError::TooLarge,
        r is Ok ==> {
            let es = listed(queue@);
            &&& final(session).wf()
            &&& final(session).capacity_view() == old(session).capacity_view()
            &&& final(session).sink_view() == apply_writes(Seq::empty(), final(all)@)
            &&& final(session).buffer_view().subrange(0, HEADER_SIZE as int) == old(
                session).buffer_view().subrange(0, HEADER_SIZE as int)
            &&& final(session).buffer_view().len() == old(session).buffer_view().len()
                + appended_len(queue@)
            &&& final(session).entries_view().len() == es.len()
            &&& forall|i: int|
                0 <= i < es.len() ==> (#[trigger] final(session).entries_view()[i]).stream_type
                    == es[i].0 && final(session).bodies_view()[i] == es[i].1 && (es[i].0 == 0
                    ==> final(session).entries_view()[i] == zero_dirent())
        },
{
    let ghost pieces = queue@;
    let ghost header = session.buffer_view().subrange(0, HEADER_SIZE as int);
    let ghost base = session.buffer_view().len();
    let mut v = queue;
    proof {
        assert(pieces.subrange(0, 0) =~= Seq::<StreamPiece>::empty());
        assert(pieces.subrange(0, pieces.len() as int) =~= pieces);
        assert(v@.subrange(0, v@.len() as int) =~= v@);
        session.lemma_wf_sizes();
    }
    proof {
        lemma_prefix_growth(pieces, pieces.len() as int);
        assert(pieces.subrange(0, 0) =~= Seq::<StreamPiece>::empty());
        assert(pieces.subrange(0, pieces.len() as int) =~= pieces);
    }
    let n = v.len();
    let mut k: usize = 0;
    while v.len() > 0
        invariant
            0 <= k <= pieces.len(),
            pieces.len() == n,
            pieces == queue@,
            session.history_view() == all@,
            forall|i: int| 0 <= i < pieces.len() ==> piece_type_nonzero(#[trigger] pieces[i]),
            base == old(session).buffer_view().len(),
            header == old(session).buffer_view().subrange(0, HEADER_SIZE as int),
            v@ == pieces.subrange(k as int, pieces.len() as int),
            listed(pieces).len() <= session.capacity_view(),
            session.wf(),
            session.capacity_view() == old(session).capacity_view(),
            session.sink_view() == apply_writes(Seq::empty(), all@),
            session.buffer_view().subrange(0, HEADER_SIZE as int) == header,
            session.buffer_view().len() == base + appended_len(pieces.subrange(0, k as int)),
            session.entries_view().len() == listed(pieces.subrange(0, k as int)).len(),
            forall|i: int|
                0 <= i < session.entries_view().len() ==> (#[trigger] session.entries_view()[i]).stream_type
                    == listed(pieces.subrange(0, k as int))[i].0 && session.bodies_view()[i]
                    == listed(pieces.subrange(0, k as int))[i].1 && (listed(
                    pieces.subrange(0, k as int),
                )[i].0 == 0 ==> session.entries_view()[i] == zero_dirent()),
        decreases v@.len(),
    {
        let piece = v.remove(0);
        proof {
            assert(piece == pieces[k as int]);
            lemma_prefix_step(pieces, k as int);
            lemma_prefix_growth(pieces, pieces.len() as int);
            assert(pieces.subrange(0, pieces.len() as int) =~= pieces);
            assert(listed(pieces.subrange(0, k + 1)).len() <= listed(pieces).len());
            session.lemma_wf_sizes();
        }
        let ghost before = session.entries_view();
        let ghost len_before = session.buffer_view().len();
        match write_piece(session, all, piece) {
            Ok(()) => {},
            Err(e) => {
                proof {
                    assert(len_before + piece_len(pieces[k as int]) > u32::MAX);
                    lemma_prefix_growth(pieces, pieces.len() as int);
                    assert(pieces.subrange(0, pieces.len() as int) =~= pieces);
                    assert(appended_len(pieces.subrange(0, k + 1)) <= appended_len(pieces));
                    assert(appended_len(pieces.subrange(0, k + 1)) == appended_len(
                        pieces.subrange(0, k as int),
                    ) + piece_len(pieces[k as int]));
                    assert(base + appended_len(pieces) > u32::MAX);
                    assert(pieces == queue@);
                    assert(base == old(session).buffer_view().len());
                }
                return Err(e);
            },
        }
        k = k + 1;
        proof {
            let es = listed(pieces.subrange(0, k as int));
            assert forall|i: int| 0 <= i < session.entries_view().len() implies (
            #[trigger] session.entries_view()[i]).stream_type == es[i].0
                && session.bodies_view()[i] == es[i].1 && (es[i].0 == 0
                ==> session.entries_view()[i] == zero_dirent()) by {
                if i < before.len() {
                    assert(session.entries_view()[i] == before[i]);
                }
            }
            assert(v@ =~= pieces.subrange(k as int, pieces.len() as int));
        }
    }
    proof {
        assert(pieces.subrange(0, k as int) =~= pieces);
        session.lemma_wf_sizes();
    }
    Ok(())
}

/// The session's entries have the types, and its bodies the bytes, of `es`.
pub open spec fn holds_entries(s: DumpSession, es: Seq<(u32, Seq<u8>)>) -> bool {
    &&& s.entries_view().len() == es.len()
    &&& forall|i: int|
        0 <= i < es.len() ==> (#[trigger] s.entries_view()[i]).stream_type == es[i].0
            && s.bodies_view()[i] == es[i].1 && (es[i].0 == 0 ==> s.entries_view()[i]
            == zero_dirent())
}

/// Every dump lists the same number of streams, each under a type other
/// than 0.
proof fn lemma_dump_has_all_entries(st: DumpStreams)
    ensures
        listed(dump_pieces(st)).len() == NUM_STREAMS,
        forall|i: int|
            0 <= i < dump_pieces(st).len() ==> piece_type_nonzero(#[trigger] dump_pieces(st)[i]),
{
    reveal_with_fuel(listed, 15);
}

/// The pieces of a dump, in the order they are written.
fn pieces_in_order(streams: DumpStreams) -> (v: Vec<StreamPiece>)
    ensures
    v@ == dump_pieces(streams),
{
    let release = match streams.lsb_release {
        Some(c) => Some(c),
        None => streams.os_release,
    };
    let mut v: Vec<StreamPiece> = Vec::new();
    v.push(StreamPiece::Listed { stream_type: THREAD_LIST_STREAM, body: streams.thread_list });
    v.push(StreamPiece::Listed { stream_type: MODULE_LIST_STREAM, body: streams.mappings });
    v.push(StreamPiece::Unlisted { bytes: streams.app_memory });
    v.push(StreamPiece::Listed { stream_type: MEMORY_LIST_STREAM, body: streams.memory_list });
    v.push(StreamPiece::Optional { stream_type: EXCEPTION_STREAM, maybe_body: streams.exception });
    v.push(StreamPiece::Listed { stream_type: SYSTEM_INFO_STREAM, body: streams.system_info });
    v.push(StreamPiece::Capture { stream_type: LINUX_CPU_INFO, content: streams.cpu_info });
    v.push(StreamPiece::Capture { stream_type: LINUX_PROC_STATUS, content: streams.proc_status });
    v.push(StreamPiece::Capture { stream_type: LINUX_LSB_RELEASE, content: release });
    v.push(StreamPiece::Capture { stream_type: LINUX_CMD_LINE, content: streams.cmd_line });
    v.push(StreamPiece::Capture { stream_type: LINUX_ENVIRON, content: streams.environ });
    v.push(StreamPiece::Capture { stream_type: LINUX_AUXV, content: streams.auxv });
    v.push(StreamPiece::Capture { stream_type: LINUX_MAPS, content: streams.maps });
    v.push(StreamPiece::Listed { stream_type: LINUX_DSO_DEBUG, body: streams.dso_debug });
    assert(v@ =~= dump_pieces(streams));
    v
}


/// The configuration of a dump.
pub struct MinidumpWriter {
    pub process_id: i32,
    pub blamed_thread: i32,
    pub minidump_size_limit: Option<u64>,
    pub skip_stacks_if_mapping_unreferenced: bool,
    pub principal_mapping_address: Option<usize>,
    pub user_mapping_list: Vec<MappingInfo>,
    pub app_memory: Vec<AppMemory>,
    pub memory_blocks: Vec<MDMemoryDescriptor>,
    pub principal_mapping: Option<MappingInfo>,
    pub sanitize_stack: bool,
}

/// Why a dump was refused before any stream was written.
#[derive(Clone, Copy, Debug, PartialEq, Eq, Structural)]
pub enum WriterError {
    /// Stacks are to be skipped unless the crashing thread references the
    /// principal mapping, and that check cannot be made.
    PrincipalMappingUnreferenced,
}

impl MinidumpWriter {
    /// A writer for process `process`, blaming thread `blamed_thread`, with
    /// every option off.
    pub fn new(process: i32, blamed_thread: i32) -> (r: Self)
        ensures
            r.process_id == process,
            r.blamed_thread == blamed_thread,
            r.minidump_size_limit is None,
            !r.skip_stacks_if_mapping_unreferenced,
            r.principal_mapping_address is None,
            r.user_mapping_list@.len() == 0,
            r.app_memory@.len() == 0,
            r.memory_blocks@.len() == 0,
            r.principal_mapping is None,
            !r.sanitize_stack,
    {
        MinidumpWriter {
            process_id: process,
            blamed_thread,
            minidump_size_limit: None,
            skip_stacks_if_mapping_unreferenced: false,
            principal_mapping_address: None,
            user_mapping_list: Vec::new(),
            app_memory: Vec::new(),
            memory_blocks: Vec::new(),
            principal_mapping: None,
            sanitize_stack: false,
        }
    }

    /// Caps the size of the dump at `limit` bytes.
    pub fn set_minidump_size_limit(&mut self, limit: u64) -> (r: &mut Self)
        ensures
            *r == (MinidumpWriter { minidump_size_limit: Some(limit), ..*old(self) }),
            *final(self) == *final(r),
    {
        self.minidump_size_limit = Some(limit);
        self
    }

    /// Sets the mappings the caller adds to the dump.
    pub fn set_user_mapping_list(&mut self, user_mapping_list: Vec<MappingInfo>) -> (r: &mut Self)
        ensures
            *r == (MinidumpWriter { user_mapping_list, ..*old(self) }),
            *final(self) == *final(r),
    {
        self.user_mapping_list = user_mapping_list;
        self
    }

    /// Sets the address whose mapping is the principal one.
    pub fn set_principal_mapping_address(&mut self, principal_mapping_address: usize) -> (r:
        &mut Self)
        ensures
            *r == (MinidumpWriter {
                principal_mapping_address: Some(principal_mapping_address),
                ..*old(self)
            }),
            *final(self) == *final(r),
    {
        self.principal_mapping_address = Some(principal_mapping_address);
        self
    }

    /// Sets the memory ranges the caller wants in the dump.
    pub fn set_app_memory(&mut self, app_memory: Vec<AppMemory>) -> (r: &mut Self)
        ensures
            *r == (MinidumpWriter { app_memory, ..*old(self) }),
            *final(self) == *final(r),
    {
        self.app_memory = app_memory;
        self
    }

    /// Skips the stacks unless the crashing thread references the
    /// principal mapping.
    pub fn skip_stacks_if_mapping_unreferenced(&mut self) -> (r: &mut Self)
        ensures
            *r == (MinidumpWriter { skip_stacks_if_mapping_unreferenced: true, ..*old(self) }),
            *final(self) == *final(r),
    {
        self.skip_stacks_if_mapping_unreferenced = true;
        self
    }

    /// Redacts likely pointers in the captured stacks.
    pub fn sanitize_stack(&mut self) -> (r: &mut Self)
        ensures
            *r == (MinidumpWriter { sanitize_stack: true, ..*old(self) }),
            *final(self) == *final(r),
    {
        self.sanitize_stack = true;
        self
    }

    /// The check made once the threads are suspended and before any stream
    /// is written. With `skip_stacks_if_mapping_unreferenced` set, it looks
    /// up the principal mapping and then refuses the dump: whether the
    /// crashing thread references that mapping cannot be told without the
    /// crash context, so the stacks could not be kept.
    pub fn check_principal_mapping(&mut self, dumper: &LinuxPtraceDumper) -> (r: Result<
        (),
        WriterError,
    >)
        ensures
            r is Ok <==> !old(self).skip_stacks_if_mapping_unreferenced,
            r is Err ==> r == Err::<(), WriterError>(WriterError::PrincipalMappingUnreferenced),
            !old(self).skip_stacks_if_mapping_unreferenced ==> *final(self) == *old(self),
            old(self).skip_stacks_if_mapping_unreferenced ==> match old(
                self).principal_mapping_address {
                Some(a) => match first_hit(dumper.mappings@, a as int, false) {
                    Some(i) => final(self).principal_mapping matches Some(pm) && same_mapping(
                        pm,
                        dumper.mappings@[i],
                    ),
                    None => final(self).principal_mapping is None,
                },
                None => final(self).principal_mapping == old(self).principal_mapping,
            },
    {
        if self.skip_stacks_if_mapping_unreferenced {
            if let Some(address) = self.principal_mapping_address {
                self.principal_mapping = match dumper.find_mapping_no_bias(address) {
                    Some(m) => Some(copy_mapping(m)),
                    None => None,
                };
            }
            return Err(WriterError::PrincipalMappingUnreferenced);
        }
        Ok(())
    }
    /// Writes the header, reserves the directory and writes the pieces of
    /// `streams` in their fixed order; hands out the session and every write
    /// for the sink, in the order they must be made.
    ///
    /// Fails, with `TooLarge`, exactly when the dump would grow past what a
    /// 32-bit offset can address.
    pub fn generate_dump(&self, streams: DumpStreams, time_date_stamp: u32) -> (r: Result<
        (DumpSession, Vec<SinkWrite>),
        DumpError,
    >)
        ensures
            r.is_ok() <==> HEADER_SIZE + 12 * NUM_STREAMS + appended_len(dump_pieces(streams))
                <= u32::MAX,
            r is Ok ==> r.unwrap().0.wf(),
            r is Ok ==> r.unwrap().0.capacity_view() == NUM_STREAMS,
            r is Ok ==> r.unwrap().0.sink_view() == apply_writes(Seq::empty(), r.unwrap().1@),
            r is Ok ==> r.unwrap().0.buffer_view().subrange(0, HEADER_SIZE as int) == header_bytes(
                NUM_STREAMS,
                HEADER_SIZE as u32,
                time_date_stamp,
            ),
            r is Ok ==> r.unwrap().0.entries_view().len() == listed(dump_pieces(streams)).len(),
            r is Ok ==> holds_entries(r.unwrap().0, listed(dump_pieces(streams))),
            r is Ok ==> forall|j: int|
                0 <= j <= r.unwrap().1@.len() ==> parseable_prefix(
                    #[trigger] prefix_image(r.unwrap().1@, j),
                    r.unwrap().0.buffer_view(),
                    NUM_STREAMS as nat,
                ),
            r matches Err(e) ==> e == DumpError::TooLarge,
    {
        let mut v = pieces_in_order(streams);
        let ghost pieces = v@;
        proof {
            lemma_dump_has_all_entries(streams);
        }
        let (mut session, first) = match DumpSession::begin(NUM_STREAMS, time_date_stamp) {
            Ok(x) => x,
            Err(e) => {
                return Err(e);
            },
        };
        let mut all: Vec<SinkWrite> = Vec::new();
        all.push(first);
        proof {
            assert(all@.drop_last() =~= Seq::<SinkWrite>::empty());
            assert(all@.last() == first);
            assert(apply_writes(Seq::empty(), Seq::<SinkWrite>::empty()) == Seq::<u8>::empty());
            assert(apply_writes(Seq::empty(), all@) == apply_write(Seq::empty(), first));
            session.lemma_wf_sizes();
        }
        let ghost header = session.buffer_view().subrange(0, HEADER_SIZE as int);
        match write_pieces(&mut session, &mut all, v) {
            Ok(()) => {},
            Err(e) => {
                return Err(e);
            },
        }
        assert(session.buffer_view().subrange(0, HEADER_SIZE as int) == header);
        assert(session.capacity_view() == NUM_STREAMS);
        assert(pieces == dump_pieces(streams));
        assert(header == header_bytes(NUM_STREAMS, HEADER_SIZE as u32, time_date_stamp));
        assert(session.sink_view() == apply_writes(Seq::empty(), all@));
        assert(session.entries_view().len() == listed(dump_pieces(streams)).len());
        assert(session.wf());
        assert(holds_entries(session, listed(dump_pieces(streams))));
        proof {
            session.lemma_every_prefix_parseable();
        }
        Ok((session, all))
    }
}

} // verus!
