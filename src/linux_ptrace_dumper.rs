//! The process enumerator: threads, auxiliary vector and mappings of a
//! target, and the suspension of its threads while it is dumped.
use vstd::prelude::*;

use crate::auxv::{
    auxv_from, auxv_get, auxv_lookup, parse_auxv, AuxvPair, AT_ENTRY, AT_SYSINFO_EHDR,
};
use crate::bytes::{bytes_equal, copy_range};
use crate::elf_id::{elf_file_identifier_from_mapped_file, identity_result, IdentifierError};
use crate::mapping::{
    find_mapping_index, first_hit, first_hit_from, in_system_range, mappings_wf, MappingInfo,
};
use crate::maps::{ascending, fold_lines, linux_gate_name, parse_maps, views_of, MappingView};
use crate::process_reader::{CopyFromProcessError, ProcessReader};
use crate::sanitize::{aligned_offset, sanitize_stack, sanitized_byte};

verus! {

/// Largest number of stack bytes captured for a thread.
pub const STACK_TO_CAPTURE: usize = 32 * 1024;

/// Relies on `nix::sys::ptrace::attach`: starts tracing thread `tid`.
#[verifier::external_body]
fn ptrace_attach(tid: i32) -> (r: Result<(), i32>) {
    nix::sys::ptrace::attach(nix::unistd::Pid::from_raw(tid)).map_err(|e| e as i32)
}

/// Relies on `nix::sys::wait::waitpid` with `__WALL`: waits until thread
/// `tid` changes state.
#[verifier::external_body]
fn wait_for_stop(tid: i32) -> (r: Result<(), i32>) {
    nix::sys::wait::waitpid(
        nix::unistd::Pid::from_raw(tid),
        Some(nix::sys::wait::WaitPidFlag::__WALL),
    ).map(|_| ()).map_err(|e| e as i32)
}

/// Relies on `nix::sys::ptrace::detach`: stops tracing thread `tid` and
/// lets it run.
#[verifier::external_body]
fn ptrace_detach(tid: i32) -> (r: Result<(), i32>) {
    nix::sys::ptrace::detach(nix::unistd::Pid::from_raw(tid), None).map_err(|e| e as i32)
}

/// Relies on `nix::sys::ptrace::getregs`: the stack pointer register of
/// the stopped thread `tid`.
#[verifier::external_body]
fn stack_pointer_of(tid: i32) -> (r: Result<u64, i32>) {
    nix::sys::ptrace::getregs(nix::unistd::Pid::from_raw(tid)).map(|regs| regs.rsp).map_err(
        |e| e as i32,
    )
}

/// Relies on `nix::unistd::sysconf(PAGE_SIZE)`: the page size, if the
/// system reports one.
#[verifier::external_body]
fn page_size() -> (r: Option<i64>) {
    match nix::unistd::sysconf(nix::unistd::SysconfVar::PAGE_SIZE) {
        Ok(v) => v.map(|p| p as i64),
        Err(_) => None,
    }
}

/// Why a thread could not be suspended.
#[derive(Clone, Copy, Debug, PartialEq, Eq, Structural)]
pub enum SuspendError {
    /// Attaching failed (the thread is gone, or traced already).
    Attach(i32),
    /// Waiting for the thread to stop failed.
    Wait(i32),
    /// The thread runs the sandbox's trusted code (its stack pointer is 0),
    /// or its registers could not be read.
    SandboxedThread,
    /// Detaching again failed.
    Detach(i32),
}

/// Failures of the enumerator.
#[derive(Clone, Copy, Debug, PartialEq, Eq, Structural)]
pub enum DumperError {
    /// No thread could be suspended.
    NoThreadsRemaining,
    /// A thread index past the list.
    ThreadIndexOutOfBounds { index: usize, count: usize },
    /// Resuming a thread failed.
    Resume(i32),
    /// No mapping holds the stack pointer.
    NoStackMapping,
    /// The system reports no usable page size.
    PageSizeUnavailable,
}

/// `a` is `b` with some elements left out, in order.
pub open spec fn subsequence_of(a: Seq<i32>, b: Seq<i32>) -> bool {
    exists|idx: Seq<int>|
        {
            &&& idx.len() == a.len()
            &&& forall|k: int| 0 <= k < a.len() ==> 0 <= #[trigger] idx[k] < b.len() && a[k] == b[idx[k]]
            &&& forall|k: int, l: int| 0 <= k < l < a.len() ==> #[trigger] idx[k] < #[trigger] idx[l]
        }
}

/// The list with entries `0` and `i` swapped.
pub open spec fn swap_first<T>(s: Seq<T>, i: int) -> Seq<T> {
    s.update(0, s[i]).update(i, s[0])
}

/// Index of the first view from `k` on whose range holds `a`.
pub open spec fn first_view_hit(vs: Seq<MappingView>, a: int, k: int) -> Option<int>
    decreases vs.len() - k,
{
    if k < 0 || k >= vs.len() {
        None
    } else if vs[k].start <= a < vs[k].end {
        Some(k)
    } else {
        first_view_hit(vs, a, k + 1)
    }
}

/// The mappings with the principal executable first: the first mapping
/// that holds the entry point `entry` (unless it is 0) trades places with
/// the mapping at index 0.
pub open spec fn principal_first(vs: Seq<MappingView>, entry: u64) -> Seq<MappingView> {
    if entry == 0 {
        vs
    } else {
        match first_view_hit(vs, entry as int, 0) {
            Some(i) => swap_first(vs, i),
            None => vs,
        }
    }
}

/// The vdso's address from the auxiliary vector, or 0.
pub open spec fn gate_of(auxv: Seq<AuxvPair>) -> u64 {
    match auxv_lookup(auxv, AT_SYSINFO_EHDR) {
        Some(v) => v,
        None => 0,
    }
}

/// The entry point from the auxiliary vector, or 0.
pub open spec fn entry_of(auxv: Seq<AuxvPair>) -> u64 {
    match auxv_lookup(auxv, AT_ENTRY) {
        Some(v) => v,
        None => 0,
    }
}

/// The mappings that `/proc/<pid>/maps` and the auxiliary vector give.
pub open spec fn mappings_of(maps: Seq<u8>, auxv: Seq<AuxvPair>) -> Seq<MappingView> {
    principal_first(fold_lines(maps, 0, Seq::empty(), gate_of(auxv)), entry_of(auxv))
}

proof fn lemma_first_hit_views(ms: Seq<MappingInfo>, a: int, k: int)
    requires
        ascending(ms),
        0 <= k,
    ensures
        first_hit_from(ms, a, true, k) == first_view_hit(views_of(ms), a, k),
    decreases ms.len() - k,
{
    if k < ms.len() {
        assert(ms[k].start_address + ms[k].size == ms[k].system_mapping_info.end_address);
        lemma_first_hit_views(ms, a, k + 1);
    }
}

proof fn lemma_swap_keeps_wf(ms: Seq<MappingInfo>, i: int)
    requires
        mappings_wf(ms),
        0 <= i < ms.len(),
    ensures
        mappings_wf(swap_first(ms, i)),
{
    let t = swap_first(ms, i);
    let src = |p: int| if p == 0 { i } else if p == i { 0 } else { p };
    assert forall|p: int| 0 <= p < t.len() implies #[trigger] t[p] == ms[src(p)] by {}
    assert forall|p: int, q: int, a: int|
        0 <= p < t.len() && 0 <= q < t.len() && p != q && #[trigger] in_system_range(t[p], a)
            implies !#[trigger] in_system_range(t[q], a) by {
        assert(t[p] == ms[src(p)]);
        assert(t[q] == ms[src(q)]);
    }
}

/// Swaps entries `0` and `i`.
fn swap_with_first(ms: &mut Vec<MappingInfo>, i: usize)
    requires
        0 < i < old(ms)@.len(),
    ensures
        final(ms)@ == swap_first(old(ms)@, i as int),
{
    let x = ms.remove(i);
    let y = ms.remove(0);
    ms.insert(0, x);
    ms.insert(i, y);
    assert(final(ms)@ =~= swap_first(old(ms)@, i as int));
}

/// The decimal value of `s`, as `i32::from_str` reads it: an optional
/// sign and at least one digit.
pub open spec fn digits_value(s: Seq<u8>) -> int
    decreases s.len(),
{
    if s.len() == 0 {
        0
    } else {
        10 * digits_value(s.drop_last()) + (s.last() - 0x30)
    }
}

pub open spec fn all_digits(s: Seq<u8>) -> bool {
    forall|j: int| 0 <= j < s.len() ==> 0x30 <= #[trigger] s[j] <= 0x39
}

/// The thread id a `/proc/<pid>/task` entry names, if it names one.
pub open spec fn task_id(s: Seq<u8>) -> Option<i32> {
    let neg = s.len() > 0 && s[0] == 0x2d;
    let signed = s.len() > 0 && (s[0] == 0x2d || s[0] == 0x2b);
    let digits = if signed {
        s.subrange(1, s.len() as int)
    } else {
        s
    };
    let v = if neg {
        -digits_value(digits)
    } else {
        digits_value(digits)
    };
    if digits.len() > 0 && all_digits(digits) && i32::MIN <= v <= i32::MAX {
        Some(v as i32)
    } else {
        None
    }
}

/// The thread ids the entries name, in order, leaving out the others.
pub open spec fn task_ids(entries: Seq<Seq<u8>>) -> Seq<i32>
    decreases entries.len(),
{
    if entries.len() == 0 {
        Seq::empty()
    } else {
        task_ids(entries.drop_last()) + match task_id(entries.last()) {
            Some(t) => seq![t],
            None => Seq::empty(),
        }
    }
}

proof fn lemma_digits_value_nonneg(s: Seq<u8>)
    requires
        all_digits(s),
    ensures
        digits_value(s) >= 0,
    decreases s.len(),
{
    if s.len() > 0 {
        lemma_digits_value_nonneg(s.drop_last());
    }
}

/// Parses a `/proc/<pid>/task` entry as a thread id.
pub fn parse_task_id(s: &Vec<u8>) -> (r: Option<i32>)
    ensures
        r == task_id(s@),
{
    let len = s.len();
    if len == 0 {
        return None;
    }
    let neg = s[0] == 0x2d;
    let start: usize = if s[0] == 0x2d || s[0] == 0x2b {
        1
    } else {
        0
    };
    let ghost digits = s@.subrange(start as int, len as int);
    assert(digits =~= if start == 1 {
        s@.subrange(1, s@.len() as int)
    } else {
        s@
    });
    if start == len {
        return None;
    }
    // The magnitude, up to 2^31 (the most negative id); beyond that only
    // the digits are still checked.
    let mut v: u64 = 0;
    let mut too_big = false;
    let mut i: usize = start;
    while i < len
        invariant
            start <= i <= len,
            len == s@.len(),
            len > 0,
            start == (if s@[0] == 0x2d || s@[0] == 0x2b {
                1usize
            } else {
                0usize
            }),
            neg == (s@[0] == 0x2d),
            digits == s@.subrange(start as int, len as int),
            !too_big ==> v == digits_value(s@.subrange(start as int, i as int)),
            too_big ==> digits_value(s@.subrange(start as int, i as int)) > 0x8000_0000,
            v <= 0x8000_0000,
            forall|j: int| start <= j < i ==> 0x30 <= #[trigger] s@[j] <= 0x39,
        decreases len - i,
    {
        let c = s[i];
        if c < 0x30 || c > 0x39 {
            assert(digits[i - start] == c);
            assert(!all_digits(digits));
            return None;
        }
        proof {
            let t = s@.subrange(start as int, i + 1);
            assert(t.drop_last() =~= s@.subrange(start as int, i as int));
            assert(t.last() == c);
            assert(all_digits(s@.subrange(start as int, i as int))) by {
                assert forall|j: int| 0 <= j < i - start implies 0x30 <= #[trigger] s@.subrange(
                    start as int,
                    i as int,
                )[j] <= 0x39 by {
                    assert(s@.subrange(start as int, i as int)[j] == s@[start + j]);
                }
            }
            lemma_digits_value_nonneg(s@.subrange(start as int, i as int));
        }
        if !too_big {
            let nv = 10 * v + (c - 0x30) as u64;
            if nv > 0x8000_0000 {
                too_big = true;
            } else {
                v = nv;
            }
        }
        i = i + 1;
    }
    proof {
        assert(s@.subrange(start as int, i as int) =~= digits);
        assert(all_digits(digits)) by {
            assert forall|j: int| 0 <= j < digits.len() implies 0x30 <= #[trigger] digits[j]
                <= 0x39 by {
                assert(digits[j] == s@[start + j]);
            }
        }
    }
    if too_big {
        None
    } else if neg {
        Some((0 - (v as i64)) as i32)
    } else if v > 0x7fff_ffff {
        None
    } else {
        Some(v as i32)
    }
}

/// The threads whose suspension succeeded (`suspended[i]` for thread
/// `i`), in order.
pub open spec fn filter_suspended(threads: Seq<i32>, suspended: Seq<bool>) -> Seq<i32>
    decreases threads.len(),
{
    if threads.len() == 0 {
        Seq::empty()
    } else {
        filter_suspended(threads.drop_last(), suspended) + if suspended[threads.len() - 1] {
            seq![threads.last()]
        } else {
            Seq::empty()
        }
    }
}

/// The threads whose suspension succeeded, in order.
pub fn keep_suspended(threads: &Vec<i32>, suspended: &Vec<bool>) -> (r: Vec<i32>)
    requires
        suspended@.len() == threads@.len(),
    ensures
        r@ == filter_suspended(threads@, suspended@),
        subsequence_of(r@, threads@),
{
    let mut kept: Vec<i32> = Vec::new();
    let ghost mut idx: Seq<int> = Seq::empty();
    let mut k: usize = 0;
    while k < threads.len()
        invariant
            k <= threads@.len(),
            suspended@.len() == threads@.len(),
            kept@ == filter_suspended(threads@.subrange(0, k as int), suspended@),
            idx.len() == kept@.len(),
            forall|j: int| 0 <= j < kept@.len() ==> 0 <= #[trigger] idx[j] < k && kept@[j] == threads@[idx[j]],
            forall|j: int, l: int| 0 <= j < l < kept@.len() ==> #[trigger] idx[j] < #[trigger] idx[l],
        decreases threads@.len() - k,
    {
        proof {
            assert(threads@.subrange(0, k + 1).drop_last() =~= threads@.subrange(0, k as int));
        }
        if suspended[k] {
            kept.push(threads[k]);
            proof {
                idx = idx.push(k as int);
            }
        }
        k = k + 1;
        proof {
            assert(kept@ =~= filter_suspended(threads@.subrange(0, k as int), suspended@));
        }
    }
    assert(threads@.subrange(0, k as int) =~= threads@);
    kept
}

/// Enumerating a quiescent target twice, from the same reads of its
/// `/proc` files, gives the same auxiliary vector, the same threads and
/// the same mappings, hence the same number of mappings.
pub proof fn lemma_enumeration_repeatable(
    d1: LinuxPtraceDumper,
    d2: LinuxPtraceDumper,
    auxv: Seq<u8>,
    task_entries: Seq<Seq<u8>>,
    maps: Seq<u8>,
)
    requires
        d1.auxv@ == auxv_from(auxv, 0),
        d2.auxv@ == auxv_from(auxv, 0),
        d1.threads@ == task_ids(task_entries),
        d2.threads@ == task_ids(task_entries),
        views_of(d1.mappings@) == mappings_of(maps, d1.auxv@),
        views_of(d2.mappings@) == mappings_of(maps, d2.auxv@),
    ensures
        d1.auxv@ == d2.auxv@,
        d1.threads@ == d2.threads@,
        views_of(d1.mappings@) == views_of(d2.mappings@),
        d1.mappings@.len() == d2.mappings@.len(),
{
    assert(views_of(d1.mappings@).len() == d1.mappings@.len());
    assert(views_of(d2.mappings@).len() == d2.mappings@.len());
}

/// The result after one more detach: its failure, or else the result so
/// far.
pub open spec fn merge_spec(prev: Result<(), DumperError>, outcome: Result<(), i32>) -> Result<(), DumperError> {
    match outcome {
        Err(e) => Err(DumperError::Resume(e)),
        Ok(()) => prev,
    }
}

/// The result of a run of detaches: the last failure, or `Ok`.
pub open spec fn merged_resumes(outcomes: Seq<Result<(), i32>>) -> Result<(), DumperError>
    decreases outcomes.len(),
{
    if outcomes.len() == 0 {
        Ok(())
    } else {
        merge_spec(merged_resumes(outcomes.drop_last()), outcomes.last())
    }
}

/// The result after one more detach (see `merge_spec`).
pub fn merge(prev: Result<(), DumperError>, outcome: Result<(), i32>) -> (r: Result<(), DumperError>)
    ensures
        r == merge_spec(prev, outcome),
{
    match outcome {
        Err(e) => Err(DumperError::Resume(e)),
        Ok(()) => prev,
    }
}

/// Whether a thread is left out of the dump: its stack pointer reads 0,
/// which marks the sandbox's trusted code, or cannot be read.
pub fn sandbox_skip(sp: Result<u64, i32>) -> (r: bool)
    ensures
        r == !(sp matches Ok(v) && v != 0),
{
    match sp {
        Ok(v) => v == 0,
        Err(_) => true,
    }
}

/// The result of suspending a thread once the outcomes so far are known,
/// or `None` while the next step is needed: the attach, the wait, the
/// stack-pointer read, and the detach that follows a thread left out.
pub open spec fn suspend_decision_spec(
    attach: Result<(), i32>,
    wait: Option<Result<(), i32>>,
    sp: Option<Result<u64, i32>>,
    detach: Option<Result<(), i32>>,
) -> Option<Result<(), SuspendError>> {
    match attach {
        Err(e) => Some(Err(SuspendError::Attach(e))),
        Ok(()) => match wait {
            None => None,
            Some(Err(e)) => Some(Err(SuspendError::Wait(e))),
            Some(Ok(())) => match sp {
                None => None,
                Some(v) => if !(v matches Ok(x) && x != 0) {
                    match detach {
                        None => None,
                        Some(Ok(())) => Some(Err(SuspendError::SandboxedThread)),
                        Some(Err(e)) => Some(Err(SuspendError::Detach(e))),
                    }
                } else {
                    Some(Ok(()))
                },
            },
        },
    }
}

/// Decides the result of suspending a thread (see
/// `suspend_decision_spec`).
pub fn suspend_decision(
    attach: Result<(), i32>,
    wait: Option<Result<(), i32>>,
    sp: Option<Result<u64, i32>>,
    detach: Option<Result<(), i32>>,
) -> (r: Option<Result<(), SuspendError>>)
    ensures
        r == suspend_decision_spec(attach, wait, sp, detach),
{
    match attach {
        Err(e) => Some(Err(SuspendError::Attach(e))),
        Ok(()) => match wait {
            None => None,
            Some(Err(e)) => Some(Err(SuspendError::Wait(e))),
            Some(Ok(())) => match sp {
                None => None,
                Some(v) => if sandbox_skip(v) {
                    match detach {
                        None => None,
                        Some(Ok(())) => Some(Err(SuspendError::SandboxedThread)),
                        Some(Err(e)) => Some(Err(SuspendError::Detach(e))),
                    }
                } else {
                    Some(Ok(()))
                },
            },
        },
    }
}

/// Suspends thread `tid` by attaching to it and waiting until it stops;
/// the result is `suspend_decision` of the outcomes.
///
/// A thread whose stack pointer reads 0 runs the sandbox's trusted code:
/// it is detached again and reported as `SandboxedThread`. A failed wait
/// also detaches the thread and reports the error, whatever the error
/// number; nothing in this design asks for a retry, and a wait that fails
/// with anything but an interruption fails again.
pub fn suspend_thread(tid: i32) -> (r: Result<(), SuspendError>)
    ensures
        exists|
            attach: Result<(), i32>,
            wait: Option<Result<(), i32>>,
            sp: Option<Result<u64, i32>>,
            detach: Option<Result<(), i32>>,
        | #[trigger] suspend_decision_spec(attach, wait, sp, detach) == Some(r),
{
    let attach = ptrace_attach(tid);
    if let Some(r) = suspend_decision(attach, None, None, None) {
        return r;
    }
    let wait = wait_for_stop(tid);
    if wait.is_err() {
        let _ = ptrace_detach(tid);
    }
    if let Some(r) = suspend_decision(attach, Some(wait), None, None) {
        return r;
    }
    let sp = stack_pointer_of(tid);
    if let Some(r) = suspend_decision(attach, Some(wait), Some(sp), None) {
        return r;
    }
    let detach = ptrace_detach(tid);
    suspend_decision(attach, Some(wait), Some(sp), Some(detach)).unwrap()
}

/// Resumes thread `tid` by detaching from it.
pub fn resume_thread(tid: i32) -> (r: Result<(), i32>) {
    ptrace_detach(tid)
}

/// The prefix `/dev/`.
pub open spec fn dev_prefix() -> Seq<u8> {
    seq![0x2fu8, 0x64u8, 0x65u8, 0x76u8, 0x2fu8]
}

/// A mapped file may be opened unless it lives under `/dev/`, where
/// opening may have driver-specific effects.
pub open spec fn safe_to_open(name: Option<Seq<u8>>) -> bool {
    match name {
        Some(n) => !(n.len() >= 5 && n.subrange(0, 5) == dev_prefix()),
        None => true,
    }
}

/// Whether the file behind a mapping named `name` may be opened.
pub fn is_mapped_file_safe_to_open(name: &Option<Vec<u8>>) -> (r: bool)
    ensures
        r == safe_to_open(match name {
            Some(n) => Some(n@),
            None => None,
        }),
{
    match name {
        Some(n) => {
            if n.len() < 5 {
                return true;
            }
            let is_dev = n[0] == 0x2f && n[1] == 0x64 && n[2] == 0x65 && n[3] == 0x76 && n[4]
                == 0x2f;
            assert(is_dev == (n@.subrange(0, 5) == dev_prefix())) by {
                if !is_dev {
                    if n@.subrange(0, 5) == dev_prefix() {
                        assert(n@.subrange(0, 5)[0] == n@[0]);
                        assert(n@.subrange(0, 5)[1] == n@[1]);
                        assert(n@.subrange(0, 5)[2] == n@[2]);
                        assert(n@.subrange(0, 5)[3] == n@[3]);
                        assert(n@.subrange(0, 5)[4] == n@[4]);
                    }
                } else {
                    assert(n@.subrange(0, 5) =~= dev_prefix());
                }
            }
            !is_dev
        },
        None => true,
    }
}

/// Where the bytes of a module come from.
#[derive(Clone, Debug)]
pub enum ModuleSource {
    /// The kernel's vdso, which has no file: read it from the target's
    /// memory.
    LinuxGate { start: usize, size: usize },
    /// The file at `path`, mapped from `offset` on.
    File { path: Vec<u8>, offset: usize },
}

/// The threads, auxiliary vector and mappings of a target process.
#[derive(Debug)]
pub struct LinuxPtraceDumper {
    pub pid: i32,
    /// Whether the threads in `threads` are suspended.
    pub threads_suspended: bool,
    pub threads: Vec<i32>,
    pub auxv: Vec<AuxvPair>,
    pub mappings: Vec<MappingInfo>,
}

impl Drop for LinuxPtraceDumper {
    /// Resumes every suspended thread, whatever happened before, so that no
    /// path out of a dump leaves the target stopped.
    ///
    /// Verus checks a `drop` only under `opens_invariants none`, which the
    /// `Vec` operations of `resume_threads` do not promise; the body only
    /// forwards to that verified function.
    #[verifier::external_body]
    fn drop(&mut self)
        opens_invariants none
        no_unwind
    {
        let _ = self.resume_threads();
    }
}

impl LinuxPtraceDumper {
    /// Whether the threads are suspended.
    pub open spec fn suspended(&self) -> bool {
        self.threads_suspended
    }

    /// The invariant: the mappings are well formed.
    pub open spec fn wf(&self) -> bool {
        mappings_wf(self.mappings@)
    }

    /// A dumper of process `pid` built from what was read of it: the
    /// contents of `/proc/<pid>/auxv`, the entries of `/proc/<pid>/task`
    /// and the contents of `/proc/<pid>/maps`.
    pub fn new(pid: i32, auxv: &[u8], task_entries: &Vec<Vec<u8>>, maps: &[u8]) -> (r: Self)
        ensures
            r.wf(),
            r.pid == pid,
            !r.suspended(),
            r.auxv@ == auxv_from(auxv@, 0),
            r.threads@ == task_ids(task_entries@.map_values(|e: Vec<u8>| e@)),
            views_of(r.mappings@) == mappings_of(maps@, r.auxv@),
    {
        let mut dumper = LinuxPtraceDumper {
            pid,
            threads_suspended: false,
            threads: Vec::new(),
            auxv: Vec::new(),
            mappings: Vec::new(),
        };
        dumper.init(auxv, task_entries, maps);
        dumper
    }

    /// Reads the auxiliary vector, the threads and the mappings: the
    /// mapping that holds the entry point comes first.
    pub fn init(&mut self, auxv: &[u8], task_entries: &Vec<Vec<u8>>, maps: &[u8])
        ensures
            final(self).wf(),
            final(self).pid == old(self).pid,
            final(self).suspended() == old(self).suspended(),
            final(self).auxv@ == auxv_from(auxv@, 0),
            final(self).threads@ == task_ids(task_entries@.map_values(|e: Vec<u8>| e@)),
            views_of(final(self).mappings@) == mappings_of(maps@, final(self).auxv@),
    {
        self.auxv = parse_auxv(auxv);
        self.threads = enumerate_threads(task_entries);
        self.mappings = enumerate_mappings(&self.auxv, maps);
    }

    /// Suspends every thread; those that vanished, cannot be attached or
    /// run the sandbox's trusted code are dropped from the list. Fails when
    /// none is left.
    pub fn suspend_threads(&mut self) -> (r: Result<(), DumperError>)
        ensures
            final(self).pid == old(self).pid,
            final(self).auxv == old(self).auxv,
            final(self).mappings == old(self).mappings,
            subsequence_of(final(self).threads@, old(self).threads@),
            exists|suspended: Seq<bool>|
                suspended.len() == old(self).threads@.len() && #[trigger] filter_suspended(
                    old(self).threads@,
                    suspended,
                ) == final(self).threads@,
            r is Ok <==> final(self).threads@.len() > 0,
            r is Ok ==> final(self).suspended(),
            r is Err ==> r == Err::<(), DumperError>(DumperError::NoThreadsRemaining)
                && final(self).suspended() == old(self).suspended(),
    {
        let mut outcomes: Vec<bool> = Vec::new();
        let mut k: usize = 0;
        while k < self.threads.len()
            invariant
                k <= self.threads@.len(),
                outcomes@.len() == k,
                self.threads == old(self).threads,
                self.pid == old(self).pid,
                self.auxv == old(self).auxv,
                self.mappings == old(self).mappings,
                self.threads_suspended == old(self).threads_suspended,
            decreases self.threads@.len() - k,
        {
            outcomes.push(suspend_thread(self.threads[k]).is_ok());
            k = k + 1;
        }
        let kept = keep_suspended(&self.threads, &outcomes);
        self.threads = kept;
        if self.threads.len() == 0 {
            Err(DumperError::NoThreadsRemaining)
        } else {
            self.threads_suspended = true;
            Ok(())
        }
    }

    /// Resumes every suspended thread; reports the last failure, if any.
    /// Afterwards no thread counts as suspended.
    /// The threads that `resume_threads` detaches: all of them while they
    /// are suspended, none otherwise.
    pub fn threads_to_resume(&self) -> (r: Vec<i32>)
        ensures
            r@ == if self.suspended() {
                self.threads@
            } else {
                Seq::empty()
            },
    {
        if self.threads_suspended {
            let mut r: Vec<i32> = Vec::new();
            let mut k: usize = 0;
            while k < self.threads.len()
                invariant
                    k <= self.threads@.len(),
                    r@ == self.threads@.subrange(0, k as int),
                decreases self.threads@.len() - k,
            {
                r.push(self.threads[k]);
                k = k + 1;
                assert(r@ =~= self.threads@.subrange(0, k as int));
            }
            assert(self.threads@.subrange(0, k as int) =~= self.threads@);
            r
        } else {
            Vec::new()
        }
    }

    /// Resumes every suspended thread (see `threads_to_resume`), trying
    /// each one even after a failure; the result is the last failure, if
    /// any (see `merged_resumes`). Afterwards no thread counts as
    /// suspended, so a second call detaches nothing.
    pub fn resume_threads(&mut self) -> (r: Result<(), DumperError>)
        ensures
            !final(self).suspended(),
            final(self).pid == old(self).pid,
            final(self).threads == old(self).threads,
            final(self).auxv == old(self).auxv,
            final(self).mappings == old(self).mappings,
            !old(self).suspended() ==> r is Ok,
            exists|outcomes: Seq<Result<(), i32>>|
                outcomes.len() == (if old(self).suspended() {
                    old(self).threads@.len()
                } else {
                    0
                }) && #[trigger] merged_resumes(outcomes) == r,
    {
        let tids = self.threads_to_resume();
        let mut result: Result<(), DumperError> = Ok(());
        let ghost mut outcomes: Seq<Result<(), i32>> = Seq::empty();
        let mut k: usize = 0;
        while k < tids.len()
            invariant
                k <= tids@.len(),
                outcomes.len() == k,
                merged_resumes(outcomes) == result,
            decreases tids@.len() - k,
        {
            let outcome = resume_thread(tids[k]);
            proof {
                let next = outcomes.push(outcome);
                assert(next.drop_last() =~= outcomes);
                outcomes = next;
            }
            result = merge(result, outcome);
            k = k + 1;
        }
        self.threads_suspended = false;
        result
    }


    /// The id of the thread at `index`.
    pub fn get_thread_info_by_index(&self, index: usize) -> (r: Result<i32, DumperError>)
        ensures
            index < self.threads@.len() ==> r == Ok::<i32, DumperError>(self.threads@[index as int]),
            index >= self.threads@.len() ==> r == Err::<i32, DumperError>(
                DumperError::ThreadIndexOutOfBounds { index, count: self.threads@.len() as usize },
            ),
    {
        if index >= self.threads.len() {
            return Err(DumperError::ThreadIndexOutOfBounds { index, count: self.threads.len() });
        }
        Ok(self.threads[index])
    }

    /// The mapping whose biased range holds `address`, the first if several
    /// do.
    pub fn find_mapping(&self, address: usize) -> (r: Option<&MappingInfo>)
        ensures
            match first_hit(self.mappings@, address as int, true) {
                Some(i) => r matches Some(m) && *m == self.mappings@[i],
                None => r is None,
            },
    {
        match find_mapping_index(&self.mappings, address as u64, true) {
            Some(i) => Some(&self.mappings[i]),
            None => None,
        }
    }

    /// The mapping whose kernel-reported range holds `address`, the first
    /// if several do.
    pub fn find_mapping_no_bias(&self, address: usize) -> (r: Option<&MappingInfo>)
        ensures
            match first_hit(self.mappings@, address as int, false) {
                Some(i) => r matches Some(m) && *m == self.mappings@[i],
                None => r is None,
            },
    {
        match find_mapping_index(&self.mappings, address as u64, false) {
            Some(i) => Some(&self.mappings[i]),
            None => None,
        }
    }

    /// The stack to capture for a thread whose stack pointer is `sp`, with
    /// pages of `page_size` bytes: from `sp` rounded down to its page, at
    /// most 32 KiB and no further than the end of the mapping that holds
    /// that address.
    pub fn stack_range(&self, sp: usize, page_size: usize) -> (r: Result<(usize, usize), DumperError>)
        requires
            page_size > 0,
        ensures
            ({
                let base = sp - sp % page_size;
                match first_hit(self.mappings@, base, true) {
                    Some(i) => {
                        let m = self.mappings@[i];
                        let rest = m.start_address + m.size - base;
                        r == Ok::<(usize, usize), DumperError>(
                            (
                                base as usize,
                                if rest < STACK_TO_CAPTURE {
                                    rest as usize
                                } else {
                                    STACK_TO_CAPTURE
                                },
                            ),
                        )
                    },
                    None => r == Err::<(usize, usize), DumperError>(DumperError::NoStackMapping),
                }
            }),
            r matches Ok((b, l)) ==> b <= sp && 0 < l <= STACK_TO_CAPTURE,
    {
        proof {
            vstd::arithmetic::div_mod::lemma_mod_decreases(sp as nat, page_size as nat);
        }
        let base = sp - sp % page_size;
        match find_mapping_index(&self.mappings, base as u64, true) {
            Some(i) => {
                let m = &self.mappings[i];
                let offset = base - m.start_address;
                let rest = m.size - offset;
                let len = if rest < STACK_TO_CAPTURE {
                    rest
                } else {
                    STACK_TO_CAPTURE
                };
                Ok((base, len))
            },
            None => Err(DumperError::NoStackMapping),
        }
    }

    /// The stack to capture for a thread whose stack pointer is `sp`, with
    /// the system's page size (see `stack_range`).
    pub fn get_stack_info(&self, sp: usize) -> (r: Result<(usize, usize), DumperError>)
        ensures
            r matches Ok((base, len)) ==> base <= sp && len <= STACK_TO_CAPTURE,
    {
        match page_size() {
            Some(p) => {
                if p > 0 && p <= 0x7fff_ffff {
                    let ps = p as usize;
                    proof {
                        vstd::arithmetic::div_mod::lemma_mod_pos_bound(sp as int, ps as int);
                    }
                    self.stack_range(sp, ps)
                } else {
                    Err(DumperError::PageSizeUnavailable)
                }
            },
            None => Err(DumperError::PageSizeUnavailable),
        }
    }

    /// Where the bytes of mapping `idx` are to be read from, or
    /// `UnsafeToOpen` for a file under `/dev/`.
    pub fn module_source(&self, idx: usize) -> (r: Result<ModuleSource, IdentifierError>)
        requires
            idx < self.mappings@.len(),
        ensures
            ({
                let m = self.mappings@[idx as int];
                let name = match m.name {
                    Some(n) => Some(n@),
                    None => None,
                };
                if !safe_to_open(name) {
                    r == Err::<ModuleSource, IdentifierError>(IdentifierError::UnsafeToOpen)
                } else if name == Some(linux_gate_name()) {
                    r matches Ok(ModuleSource::LinuxGate { start, size }) && start
                        == m.start_address && size == m.size
                } else {
                    r matches Ok(ModuleSource::File { path, offset }) && offset == m.offset && path@
                        == match name {
                        Some(n) => n,
                        None => Seq::empty(),
                    }
                }
            }),
    {
        let m = &self.mappings[idx];
        if !is_mapped_file_safe_to_open(&m.name) {
            return Err(IdentifierError::UnsafeToOpen);
        }
        let gate = crate::maps::linux_gate_library_name();
        match &m.name {
            Some(n) => {
                if bytes_equal(n.as_slice(), gate.as_slice()) {
                    Ok(ModuleSource::LinuxGate { start: m.start_address, size: m.size })
                } else {
                    Ok(ModuleSource::File { path: copy_range(n.as_slice(), 0, n.len()), offset: m.offset })
                }
            },
            None => Ok(ModuleSource::File { path: Vec::new(), offset: m.offset }),
        }
    }

    /// The build identity of mapping `idx`, whose bytes (read from its
    /// `module_source`) are `module_bytes`.
    pub fn elf_identifier_for_mapping_index(&self, idx: usize, module_bytes: &[u8]) -> (r: Result<
        Vec<u8>,
        IdentifierError,
    >)
        requires
            idx < self.mappings@.len(),
        ensures
            !safe_to_open(
                match self.mappings@[idx as int].name {
                    Some(n) => Some(n@),
                    None => None,
                },
            ) ==> r == Err::<Vec<u8>, IdentifierError>(IdentifierError::UnsafeToOpen),
            safe_to_open(
                match self.mappings@[idx as int].name {
                    Some(n) => Some(n@),
                    None => None,
                },
            ) ==> identity_result(
                module_bytes@,
                match r {
                    Ok(v) => Ok(v@),
                    Err(e) => Err(e),
                },
            ),
    {
        if !is_mapped_file_safe_to_open(&self.mappings[idx].name) {
            return Err(IdentifierError::UnsafeToOpen);
        }
        elf_file_identifier_from_mapped_file(module_bytes)
    }

    /// Copies `num_of_bytes` bytes at `src` of the traced process `child`
    /// with debugger peeks.
    pub fn copy_from_process(child: i32, src: usize, num_of_bytes: usize) -> (r: Result<
        Vec<u8>,
        CopyFromProcessError,
    >)
        ensures
            r matches Ok(v) ==> v@.len() == num_of_bytes,
    {
        let mut reader = ProcessReader::for_ptrace(child);
        reader.read_all_to_vec(src, num_of_bytes)
    }

    /// Redacts likely code pointers in `stack_copy` (see
    /// `sanitize::sanitize_stack`), against this process's mappings.
    pub fn sanitize_stack_copy(&self, stack_copy: &mut Vec<u8>, stack_pointer: usize, sp_offset: usize)
        requires
            self.wf(),
            sp_offset + 7 <= usize::MAX,
            aligned_offset(sp_offset as int) <= old(stack_copy)@.len(),
        ensures
            final(stack_copy)@.len() == old(stack_copy)@.len(),
            forall|p: int|
                0 <= p < old(stack_copy)@.len() ==> #[trigger] final(stack_copy)@[p] == sanitized_byte(
                    self.mappings@,
                    first_hit(self.mappings@, stack_pointer as int, false),
                    old(stack_copy)@,
                    aligned_offset(sp_offset as int),
                    p,
                ),
    {
        sanitize_stack(&self.mappings, stack_copy, stack_pointer, sp_offset);
    }
}

/// The thread ids that the entries of `/proc/<pid>/task` name.
fn enumerate_threads(entries: &Vec<Vec<u8>>) -> (r: Vec<i32>)
    ensures
        r@ == task_ids(entries@.map_values(|e: Vec<u8>| e@)),
{
    let ghost names = entries@.map_values(|e: Vec<u8>| e@);
    let mut out: Vec<i32> = Vec::new();
    let mut k: usize = 0;
    while k < entries.len()
        invariant
            k <= entries@.len(),
            names == entries@.map_values(|e: Vec<u8>| e@),
            out@ == task_ids(names.subrange(0, k as int)),
        decreases entries@.len() - k,
    {
        proof {
            assert(names.subrange(0, k + 1).drop_last() =~= names.subrange(0, k as int));
            assert(names.subrange(0, k + 1).last() == entries@[k as int]@);
        }
        match parse_task_id(&entries[k]) {
            Some(t) => {
                out.push(t);
            },
            None => {},
        }
        k = k + 1;
        proof {
            assert(out@ =~= task_ids(names.subrange(0, k as int)));
        }
    }
    assert(names.subrange(0, k as int) =~= names);
    out
}

/// The mappings of `/proc/<pid>/maps`, with the one that holds the entry
/// point first.
fn enumerate_mappings(auxv: &Vec<AuxvPair>, maps: &[u8]) -> (r: Vec<MappingInfo>)
    ensures
        mappings_wf(r@),
        views_of(r@) == mappings_of(maps@, auxv@),
{
    let gate = match auxv_get(auxv, AT_SYSINFO_EHDR) {
        Some(v) => v,
        None => 0,
    };
    let entry = match auxv_get(auxv, AT_ENTRY) {
        Some(v) => v,
        None => 0,
    };
    let mut mappings = parse_maps(maps, gate);
    let ghost parsed = mappings@;
    if entry != 0 {
        proof {
            lemma_first_hit_views(mappings@, entry as int, 0);
        }
        match find_mapping_index(&mappings, entry, true) {
            Some(i) => {
                if i > 0 {
                    swap_with_first(&mut mappings, i);
                    proof {
                        lemma_swap_keeps_wf(parsed, i as int);
                        assert(views_of(mappings@) =~= swap_first(views_of(parsed), i as int));
                    }
                } else {
                    assert(swap_first(views_of(parsed), 0) =~= views_of(parsed));
                }
            },
            None => {},
        }
    }
    mappings
}

} // verus!
