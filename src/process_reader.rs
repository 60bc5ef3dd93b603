//! Copying bytes out of another process's address space.
//!
//! The reader settles on one of three mechanisms at its first read
//! (scatter/gather reads of foreign memory, positioned reads of
//! `/proc/<pid>/mem`, or word-sized debugger peeks) and uses it from then on.
use vstd::prelude::*;

verus! {

/// `E2BIG`: the error a read of `/proc/<pid>/mem` reports when the file
/// ends before the buffer is full.
pub const E2BIG: i32 = 7;

/// Size in bytes of the word that a debugger peek returns.
pub const PEEK_WORD_SIZE: usize = 8;

/// Relies on `nix::sys::uio::process_vm_readv`: reads at most `dst.len()`
/// bytes at `src` of process `pid` into `dst`, returning how many it read,
/// or the error number.
#[verifier::external_body]
fn vm_read(pid: i32, src: usize, dst: &mut Vec<u8>) -> (r: Result<usize, i32>)
    ensures
        final(dst)@.len() == old(dst)@.len(),
        r matches Ok(n) ==> n <= old(dst)@.len(),
{
    let remote = [nix::sys::uio::RemoteIoVec { base: src, len: dst.len() }];
    let mut local = [std::io::IoSliceMut::new(dst.as_mut_slice())];
    nix::sys::uio::process_vm_readv(nix::unistd::Pid::from_raw(pid), &mut local, &remote).map_err(
        |e| e as i32,
    )
}

/// Relies on `nix::fcntl::open`: opens `/proc/<pid>/mem` read-only and
/// returns the file descriptor, or the error number.
#[verifier::external_body]
fn open_proc_mem(pid: i32) -> (r: Result<i32, i32>) {
    nix::fcntl::open(
        format!("/proc/{pid}/mem").as_str(),
        nix::fcntl::OFlag::O_RDONLY,
        nix::sys::stat::Mode::empty(),
    ).map_err(|e| e as i32)
}

/// Relies on `nix::unistd::lseek`: moves the cursor of `fd` to `pos`.
#[verifier::external_body]
fn seek_to(fd: i32, pos: u64) -> (r: Result<(), i32>) {
    nix::unistd::lseek(fd, pos as i64, nix::unistd::Whence::SeekSet).map(|_| ()).map_err(
        |e| e as i32,
    )
}

/// Relies on `nix::unistd::read`: reads at most `buf.len()` bytes of `fd`
/// into `buf`, returning how many it read (0 at the end of the file).
#[verifier::external_body]
fn fd_read(fd: i32, buf: &mut Vec<u8>) -> (r: Result<usize, i32>)
    ensures
        final(buf)@.len() == old(buf)@.len(),
        r matches Ok(n) ==> n <= old(buf)@.len(),
{
    nix::unistd::read(fd, buf.as_mut_slice()).map_err(|e| e as i32)
}

/// Relies on `nix::unistd::close`: releases the file descriptor `fd`.
#[verifier::external_body]
fn fd_close(fd: i32)
    opens_invariants none
    no_unwind
{
    let _ = nix::unistd::close(fd);
}

/// Relies on `nix::sys::ptrace::read` (`PTRACE_PEEKDATA`): the word at
/// `addr` of the traced process `pid`, or the error number.
#[verifier::external_body]
fn peek_word(pid: i32, addr: usize) -> (r: Result<u64, i32>) {
    nix::sys::ptrace::read(nix::unistd::Pid::from_raw(pid), addr as nix::sys::ptrace::AddressType)
        .map(|w| w as u64).map_err(|e| e as i32)
}

/// `256` to the power `i`.
pub open spec fn pow256(i: int) -> int
    decreases i,
{
    if i <= 0 {
        1
    } else {
        256 * pow256(i - 1)
    }
}

/// Byte `i` of the word `w` in memory: its `i`-th least significant byte
/// (words are little-endian).
pub open spec fn word_byte(w: u64, i: int) -> u8 {
    ((w as int / pow256(i)) % 256) as u8
}

proof fn lemma_pow256_pos(i: int)
    ensures
        pow256(i) > 0,
    decreases i,
{
    if i > 0 {
        lemma_pow256_pos(i - 1);
    }
}

/// Puts the first `take` bytes of the peeked `word` at `off` of `dst`.
pub fn place_word(dst: &mut Vec<u8>, off: usize, word: u64, take: usize)
    requires
        take <= PEEK_WORD_SIZE,
        off + take <= old(dst)@.len(),
    ensures
        final(dst)@.len() == old(dst)@.len(),
        forall|i: int| 0 <= i < take ==> #[trigger] final(dst)@[off + i] == word_byte(word, i),
        forall|x: int|
            0 <= x < old(dst)@.len() && !(off <= x < off + take) ==> #[trigger] final(dst)@[x]
                == old(dst)@[x],
{
    let dlen = dst.len();
    let mut i: usize = 0;
    let mut rest = word;
    while i < take
        invariant
            dlen == dst@.len(),
            i <= take <= PEEK_WORD_SIZE,
            off + take <= old(dst)@.len(),
            dst@.len() == old(dst)@.len(),
            rest as int == word as int / pow256(i as int),
            forall|j: int| 0 <= j < i ==> #[trigger] dst@[off + j] == word_byte(word, j),
            forall|x: int|
                0 <= x < old(dst)@.len() && !(off <= x < off + i) ==> #[trigger] dst@[x]
                    == old(dst)@[x],
        decreases take - i,
    {
        dst.set(off + i, (rest % 256) as u8);
        proof {
            lemma_pow256_pos(i as int);
            vstd::arithmetic::div_mod::lemma_div_denominator(word as int, pow256(i as int), 256);
            assert(pow256(i + 1) == 256 * pow256(i as int));
            assert(pow256(i as int) * 256 == 256 * pow256(i as int)) by (nonlinear_arith);
        }
        rest = rest / 256;
        i = i + 1;
    }
}

/// Puts the first `n` bytes of `chunk` at `off` of `dst`.
pub fn place_chunk(dst: &mut Vec<u8>, off: usize, chunk: &Vec<u8>, n: usize)
    requires
        n <= chunk@.len(),
        off + n <= old(dst)@.len(),
    ensures
        final(dst)@ == old(dst)@.subrange(0, off as int) + chunk@.subrange(0, n as int) + old(
            dst)@.subrange(off + n, old(dst)@.len() as int),
{
    let dlen = dst.len();
    let mut i: usize = 0;
    while i < n
        invariant
            dlen == dst@.len(),
            i <= n <= chunk@.len(),
            off + n <= old(dst)@.len(),
            dst@.len() == old(dst)@.len(),
            forall|x: int| 0 <= x < off ==> #[trigger] dst@[x] == old(dst)@[x],
            forall|x: int| off <= x < off + i ==> #[trigger] dst@[x] == chunk@[x - off],
            forall|x: int| off + i <= x < dst@.len() ==> #[trigger] dst@[x] == old(dst)@[x],
        decreases n - i,
    {
        dst.set(off + i, chunk[i]);
        i = i + 1;
    }
    assert(dst@ =~= old(dst)@.subrange(0, off as int) + chunk@.subrange(0, n as int) + old(
        dst)@.subrange(off + n, old(dst)@.len() as int));
}

/// How the `/proc/<pid>/mem` probe went.
#[derive(Clone, Copy, Debug, PartialEq, Eq, Structural)]
pub enum FileProbe {
    /// The file could not be opened.
    OpenFailed(i32),
    /// It opened, but the read failed.
    ReadFailed(i32),
    /// It opened (as `fd`) and `n` bytes were read.
    Read { fd: i32, n: usize },
}

/// The mechanism and the read's result once the probes so far are known,
/// or `None` when the next probe is needed: the first success in the
/// order scatter/gather, `/proc/<pid>/mem`, peek is cached; if all three
/// fail, the reader is unavailable with the three error numbers and the
/// read fails with the peek's.
pub open spec fn settle_spec(
    vmem: Result<usize, i32>,
    file: Option<FileProbe>,
    peek: Option<Result<usize, i32>>,
) -> Option<(Style, Result<usize, i32>)> {
    match vmem {
        Ok(n) => Some((Style::VirtualMem, Ok(n))),
        Err(e1) => match file {
            None => None,
            Some(FileProbe::Read { fd, n }) => Some((Style::File { fd }, Ok(n))),
            Some(FileProbe::OpenFailed(e2)) | Some(FileProbe::ReadFailed(e2)) => match peek {
                None => None,
                Some(Ok(n)) => Some((Style::Ptrace, Ok(n))),
                Some(Err(e3)) => Some(
                    (Style::Unavailable { vmem: e1, file: e2, ptrace: e3 }, Err(e3)),
                ),
            },
        },
    }
}

/// Decides the mechanism from the probes so far (see `settle_spec`).
pub fn settle(
    vmem: Result<usize, i32>,
    file: Option<FileProbe>,
    peek: Option<Result<usize, i32>>,
) -> (r: Option<(Style, Result<usize, i32>)>)
    ensures
        r == settle_spec(vmem, file, peek),
{
    match vmem {
        Ok(n) => Some((Style::VirtualMem, Ok(n))),
        Err(e1) => match file {
            None => None,
            Some(FileProbe::Read { fd, n }) => Some((Style::File { fd }, Ok(n))),
            Some(FileProbe::OpenFailed(e2)) | Some(FileProbe::ReadFailed(e2)) => match peek {
                None => None,
                Some(Ok(n)) => Some((Style::Ptrace, Ok(n))),
                Some(Err(e3)) => Some(
                    (Style::Unavailable { vmem: e1, file: e2, ptrace: e3 }, Err(e3)),
                ),
            },
        },
    }
}

/// One step of filling `dst`: the `n` bytes that the last read put at the
/// start of `chunk` go to `offset`, and the fill goes on from `offset + n`.
/// A read that brought nothing stops the fill (`None`), which the caller
/// reports as `EIO`.
pub fn read_all_step(dst: &mut Vec<u8>, offset: usize, chunk: &Vec<u8>, n: usize) -> (r: Option<usize>)
    requires
        n <= chunk@.len(),
        offset + chunk@.len() == old(dst)@.len(),
    ensures
        n == 0 ==> r is None && final(dst)@ == old(dst)@,
        n > 0 ==> r == Some((offset + n) as usize) && final(dst)@ == old(dst)@.subrange(
            0,
            offset as int,
        ) + chunk@.subrange(0, n as int) + old(dst)@.subrange(offset + n, old(dst)@.len() as int),
{
    if n == 0 {
        return None;
    }
    let _ = dst.len();
    place_chunk(dst, offset, chunk, n);
    Some(offset + n)
}

/// The mechanism a reader uses.
#[derive(Debug, PartialEq, Eq, Structural)]
pub enum Style {
    /// Scatter/gather reads of the foreign address space.
    VirtualMem,
    /// Positioned reads of `/proc/<pid>/mem`, through this open descriptor.
    File { fd: i32 },
    /// Word-sized debugger peeks.
    Ptrace,
    /// No mechanism worked; the error number each one gave.
    Unavailable { vmem: i32, file: i32, ptrace: i32 },
}

/// A failed copy from the target.
#[derive(Clone, Copy, Debug, PartialEq, Eq, Structural)]
pub struct CopyFromProcessError {
    /// The target's pid.
    pub child: i32,
    /// The address the copy started at.
    pub src: usize,
    /// How far into the copy it failed.
    pub offset: usize,
    /// How many bytes were asked for.
    pub length: usize,
    /// The error number of the failure.
    pub source: i32,
}

/// Reads the memory of one process.
#[derive(Debug)]
pub struct ProcessReader {
    pid: i32,
    style: Option<Style>,
}

impl Drop for ProcessReader {
    fn drop(&mut self)
        opens_invariants none
        no_unwind
    {
        if let Some(Style::File { fd }) = &self.style {
            fd_close(*fd);
        }
    }
}

impl ProcessReader {
    /// The target's pid.
    pub closed spec fn pid_view(&self) -> i32 {
        self.pid
    }

    /// The mechanism settled on, if any yet.
    pub closed spec fn style_view(&self) -> Option<Style> {
        self.style
    }

    /// A reader of process `pid`; it settles on a mechanism at its first
    /// read.
    pub fn new(pid: i32) -> (r: Self)
        ensures
            r.pid_view() == pid,
            r.style_view().is_none(),
    {
        ProcessReader { pid, style: None }
    }

    /// A reader that uses scatter/gather reads.
    pub fn for_virtual_mem(pid: i32) -> (r: Self)
        ensures
            r.pid_view() == pid,
            r.style_view() == Some(Style::VirtualMem),
    {
        ProcessReader { pid, style: Some(Style::VirtualMem) }
    }

    /// A reader that uses `/proc/<pid>/mem`; fails with the error number if
    /// the file cannot be opened.
    pub fn for_file(pid: i32) -> (r: Result<Self, i32>)
        ensures
            r matches Ok(p) ==> p.pid_view() == pid && p.style_view() matches Some(
                Style::File { .. },
            ),
    {
        match open_proc_mem(pid) {
            Ok(fd) => Ok(ProcessReader { pid, style: Some(Style::File { fd }) }),
            Err(e) => Err(e),
        }
    }

    /// A reader that uses debugger peeks.
    pub fn for_ptrace(pid: i32) -> (r: Self)
        ensures
            r.pid_view() == pid,
            r.style_view() == Some(Style::Ptrace),
    {
        ProcessReader { pid, style: Some(Style::Ptrace) }
    }

    /// Reads from `/proc/<pid>/mem` through `fd` until `dst` is full; an end
    /// of file before that is `E2BIG`.
    fn file(fd: i32, src: usize, dst: &mut Vec<u8>) -> (r: Result<usize, i32>)
        ensures
            final(dst)@.len() == old(dst)@.len(),
            r matches Ok(n) ==> n == old(dst)@.len(),
    {
        match seek_to(fd, src as u64) {
            Ok(()) => {},
            Err(e) => {
                return Err(e);
            },
        }
        let len = dst.len();
        let mut filled: usize = 0;
        while filled < len
            invariant
                filled <= len,
                dst@.len() == len,
                len == old(dst)@.len(),
            decreases len - filled,
        {
            let want = len - filled;
            let mut chunk: Vec<u8> = vec![0u8; want];
            let n = match fd_read(fd, &mut chunk) {
                Ok(n) => n,
                Err(e) => {
                    return Err(e);
                },
            };
            if n == 0 {
                return Err(E2BIG);
            }
            place_chunk(dst, filled, &chunk, n);
            filled = filled + n;
        }
        Ok(len)
    }

    /// Reads `dst.len()` bytes one peeked word at a time; for a short last
    /// word, only its leading bytes are kept. An error carries the offset
    /// of the word that failed.
    fn ptrace(pid: i32, src: usize, dst: &mut Vec<u8>) -> (r: Result<usize, (i32, usize)>)
        ensures
            final(dst)@.len() == old(dst)@.len(),
            r matches Ok(n) ==> n == old(dst)@.len(),
            r matches Err((_, off)) ==> off < old(dst)@.len(),
    {
        let len = dst.len();
        let mut offset: usize = 0;
        while offset < len
            invariant
                offset <= len,
                dst@.len() == len,
                len == old(dst)@.len(),
            decreases len - offset,
        {
            let word = match peek_word(pid, src.wrapping_add(offset)) {
                Ok(w) => w,
                Err(e) => {
                    return Err((e, offset));
                },
            };
            let take = if len - offset < PEEK_WORD_SIZE {
                len - offset
            } else {
                PEEK_WORD_SIZE
            };
            place_word(dst, offset, word, take);
            offset = offset + take;
        }
        Ok(len)
    }

    /// The result of the read that settled the mechanism, `probe` being
    /// the probe's outcomes.
    fn probe_result(
        &self,
        res: Result<usize, i32>,
        src: usize,
        length: usize,
        probe: Ghost<(Result<usize, i32>, Option<FileProbe>, Option<Result<usize, i32>>)>,
    ) -> (r: Result<usize, CopyFromProcessError>)
        requires
            self.style is Some,
            settle_spec(probe@.0, probe@.1, probe@.2) == Some((self.style.unwrap(), res)),
        ensures
            match res {
                Ok(n) => r == Ok::<usize, CopyFromProcessError>(n),
                Err(e) => r == Err::<usize, CopyFromProcessError>(
                    CopyFromProcessError { child: self.pid, src, offset: 0, length, source: e },
                ),
            },
            settle_spec(probe@.0, probe@.1, probe@.2) == Some(
                (
                    self.style.unwrap(),
                    match r {
                        Ok(n) => Ok::<usize, i32>(n),
                        Err(e) => Err::<usize, i32>(e.source),
                    },
                ),
            ),
    {
        match res {
            Ok(n) => Ok(n),
            Err(e) => Err(CopyFromProcessError { child: self.pid, src, offset: 0, length, source: e }),
        }
    }

    /// Reads with a settled mechanism.
    fn read_with(&self, src: usize, dst: &mut Vec<u8>) -> (r: Result<usize, (i32, usize)>)
        requires
            self.style is Some,
        ensures
            final(dst)@.len() == old(dst)@.len(),
            r matches Ok(n) ==> n <= old(dst)@.len(),
            self.style matches Some(Style::Unavailable { ptrace, .. }) ==> r == Err::<
                usize,
                (i32, usize),
            >((ptrace, 0usize)),
            (self.style matches Some(Style::File { .. }) || self.style matches Some(Style::Ptrace))
                ==> (r matches Ok(n) ==> n == old(dst)@.len()),
    {
        match &self.style {
            Some(Style::VirtualMem) => match vm_read(self.pid, src, dst) {
                Ok(n) => Ok(n),
                Err(e) => Err((e, 0)),
            },
            Some(Style::File { fd }) => match Self::file(*fd, src, dst) {
                Ok(n) => Ok(n),
                Err(e) => Err((e, 0)),
            },
            Some(Style::Ptrace) => Self::ptrace(self.pid, src, dst),
            Some(Style::Unavailable { ptrace, .. }) => Err((*ptrace, 0)),
            None => Err((0, 0)),
        }
    }

    /// Reads at most `dst.len()` bytes at `src` into `dst` and returns how
    /// many were read.
    ///
    /// The first read settles the mechanism: scatter/gather reads, then
    /// `/proc/<pid>/mem`, then debugger peeks, the first that succeeds; if
    /// none does, the reader stays unavailable and every read fails with the
    /// peek's error.
    pub fn read(&mut self, src: usize, dst: &mut Vec<u8>) -> (r: Result<usize, CopyFromProcessError>)
        ensures
            final(dst)@.len() == old(dst)@.len(),
            r matches Ok(n) ==> n <= old(dst)@.len(),
            r matches Err(e) ==> e.child == old(self).pid_view() && e.src == src && e.length
                == old(dst)@.len(),
            final(self).pid_view() == old(self).pid_view(),
            final(self).style_view() is Some,
            old(self).style_view() is Some ==> final(self).style_view() == old(self).style_view(),
            final(self).style_view() matches Some(Style::Unavailable { ptrace, .. }) ==> (
            r matches Err(e) && e.source == ptrace),
            (final(self).style_view() matches Some(Style::File { .. }) || final(
                self).style_view() matches Some(Style::Ptrace)) ==> (r matches Ok(n) ==> n == old(dst)@.len()),
            old(self).style_view() is None ==> (r matches Err(e) ==> e.offset == 0) && exists|
                vmem: Result<usize, i32>,
                file: Option<FileProbe>,
                peek: Option<Result<usize, i32>>,
            |
                #[trigger] settle_spec(vmem, file, peek) == Some(
                    (
                        final(self).style_view().unwrap(),
                        match r {
                            Ok(n) => Ok::<usize, i32>(n),
                            Err(e) => Err::<usize, i32>(e.source),
                        },
                    ),
                ),
    {
        let length = dst.len();
        if self.style.is_some() {
            return match self.read_with(src, dst) {
                Ok(n) => Ok(n),
                Err((source, offset)) => Err(
                    CopyFromProcessError { child: self.pid, src, offset, length, source },
                ),
            };
        }
        let vmem = vm_read(self.pid, src, dst);
        if let Some((style, res)) = settle(vmem, None, None) {
            self.style = Some(style);
            return self.probe_result(res, src, length, Ghost((vmem, None, None)));
        }
        let file = match open_proc_mem(self.pid) {
            Ok(fd) => match Self::file(fd, src, dst) {
                Ok(n) => FileProbe::Read { fd, n },
                Err(e) => {
                    fd_close(fd);
                    FileProbe::ReadFailed(e)
                },
            },
            Err(e) => FileProbe::OpenFailed(e),
        };
        if let Some((style, res)) = settle(vmem, Some(file), None) {
            self.style = Some(style);
            return self.probe_result(res, src, length, Ghost((vmem, Some(file), None)));
        }
        let peek = match Self::ptrace(self.pid, src, dst) {
            Ok(n) => Ok(n),
            Err((e, _)) => Err(e),
        };
        let (style, res) = settle(vmem, Some(file), Some(peek)).unwrap();
        self.style = Some(style);
        self.probe_result(res, src, length, Ghost((vmem, Some(file), Some(peek))))
    }

}

/// `EIO`: the error given when a read makes no progress.
pub const EIO: i32 = 5;

/// The index of the first zero among the first `n` bytes of `v`.
fn find_nul(v: &Vec<u8>, n: usize) -> (r: Option<usize>)
    requires
        n <= v@.len(),
    ensures
        match r {
            Some(i) => i < n && v@[i as int] == 0 && forall|j: int| 0 <= j < i ==> v@[j] != 0,
            None => forall|j: int| 0 <= j < n ==> v@[j] != 0,
        },
{
    let mut i: usize = 0;
    while i < n
        invariant
            i <= n <= v@.len(),
            forall|j: int| 0 <= j < i ==> v@[j] != 0,
        decreases n - i,
    {
        if v[i] == 0 {
            return Some(i);
        }
        i = i + 1;
    }
    None
}

/// A C string: bytes with no zero but the last one, which is zero.
pub open spec fn is_c_string(s: Seq<u8>) -> bool {
    &&& s.len() >= 1
    &&& s.last() == 0
    &&& forall|j: int| 0 <= j < s.len() - 1 ==> s[j] != 0
}

impl ProcessReader {
    /// Reads once, at most `length` bytes at `src`, and returns what was
    /// read.
    pub fn read_to_vec(&mut self, src: usize, length: usize) -> (r: Result<
        Vec<u8>,
        CopyFromProcessError,
    >)
        ensures
            final(self).pid_view() == old(self).pid_view(),
            old(self).style_view() is Some ==> final(self).style_view() == old(self).style_view(),
            old(self).style_view() matches Some(Style::Unavailable { .. }) ==> r is Err,
            r matches Ok(v) ==> v@.len() <= length,
            r matches Err(e) ==> e.child == old(self).pid_view() && e.src == src && e.length
                == length,
    {
        let mut output: Vec<u8> = vec![0u8; length];
        let n = match self.read(src, &mut output) {
            Ok(n) => n,
            Err(e) => {
                return Err(e);
            },
        };
        output.truncate(n);
        Ok(output)
    }

    /// Fills `dst` with the bytes at `src`, reading again after each short
    /// read; a read that makes no progress fails with `EIO`.
    pub fn read_all(&mut self, src: usize, dst: &mut Vec<u8>) -> (r: Result<(), CopyFromProcessError>)
        ensures
            final(self).pid_view() == old(self).pid_view(),
            old(self).style_view() is Some ==> final(self).style_view() == old(self).style_view(),
            old(self).style_view() matches Some(Style::Unavailable { .. }) && old(dst)@.len() > 0
                ==> r is Err,
            final(dst)@.len() == old(dst)@.len(),
            r matches Err(e) ==> e.child == old(self).pid_view(),
    {
        let len = dst.len();
        let mut offset: usize = 0;
        while offset < len
            invariant
                offset <= len,
                dst@.len() == len,
                len == old(dst)@.len(),
                self.pid_view() == old(self).pid_view(),
                old(self).style_view() is Some ==> self.style_view() == old(self).style_view(),
                old(self).style_view() matches Some(Style::Unavailable { .. }) ==> offset == 0,
            decreases len - offset,
        {
            let want = len - offset;
            let mut chunk: Vec<u8> = vec![0u8; want];
            let at = src.wrapping_add(offset);
            let n = match self.read(at, &mut chunk) {
                Ok(n) => n,
                Err(e) => {
                    return Err(e);
                },
            };
            match read_all_step(dst, offset, &chunk, n) {
                Some(next) => {
                    offset = next;
                },
                None => {
                    return Err(
                        CopyFromProcessError { child: self.pid, src: at, offset: 0, length: want, source: EIO },
                    );
                },
            }
        }
        Ok(())
    }

    /// Reads exactly `length` bytes at `src`.
    pub fn read_all_to_vec(&mut self, src: usize, length: usize) -> (r: Result<
        Vec<u8>,
        CopyFromProcessError,
    >)
        ensures
            final(self).pid_view() == old(self).pid_view(),
            old(self).style_view() is Some ==> final(self).style_view() == old(self).style_view(),
            old(self).style_view() matches Some(Style::Unavailable { .. }) && length > 0 ==> r is Err,
            r matches Ok(v) ==> v@.len() == length,
    {
        let mut output: Vec<u8> = vec![0u8; length];
        match self.read_all(src, &mut output) {
            Ok(()) => Ok(output),
            Err(e) => Err(e),
        }
    }

    /// Copies the nul-terminated string at `address`, nul included: a word
    /// at a time, or, if that fails (a word may straddle an unreadable
    /// page), a byte at a time.
    pub fn copy_nul_terminated_string(&mut self, address: usize) -> (r: Result<
        Vec<u8>,
        CopyFromProcessError,
    >)
        ensures
            final(self).pid_view() == old(self).pid_view(),
            r matches Ok(s) ==> is_c_string(s@),
    {
        if let Ok(s) = self.copy_nul_terminated_string_word_by_word(address) {
            return Ok(s);
        }
        let mut string: Vec<u8> = Vec::new();
        loop
            invariant
                self.pid_view() == old(self).pid_view(),
                forall|j: int| 0 <= j < string@.len() ==> string@[j] != 0,
            decreases usize::MAX - string@.len(),
        {
            let mut c: Vec<u8> = vec![1u8; 1];
            let n = match self.read(address.wrapping_add(string.len()), &mut c) {
                Ok(n) => n,
                Err(e) => {
                    return Err(e);
                },
            };
            if n == 0 {
                return Err(
                    CopyFromProcessError {
                        child: self.pid,
                        src: address.wrapping_add(string.len()),
                        offset: 0,
                        length: 1,
                        source: EIO,
                    },
                );
            }
            let b = c[0];
            if string.len() == usize::MAX {
                return Err(
                    CopyFromProcessError { child: self.pid, src: address, offset: string.len(), length: 1, source: EIO },
                );
            }
            string.push(b);
            if b == 0 {
                return Ok(string);
            }
        }
    }

    /// Copies the nul-terminated string at `address` a word at a time.
    fn copy_nul_terminated_string_word_by_word(&mut self, address: usize) -> (r: Result<
        Vec<u8>,
        CopyFromProcessError,
    >)
        ensures
            final(self).pid_view() == old(self).pid_view(),
            r matches Ok(s) ==> is_c_string(s@),
    {
        let mut string: Vec<u8> = Vec::new();
        loop
            invariant
                self.pid_view() == old(self).pid_view(),
                forall|j: int| 0 <= j < string@.len() ==> string@[j] != 0,
            decreases usize::MAX - string@.len(),
        {
            let mut word: Vec<u8> = vec![0u8; PEEK_WORD_SIZE];
            let at = address.wrapping_add(string.len());
            let n = match self.read(at, &mut word) {
                Ok(n) => n,
                Err(e) => {
                    return Err(e);
                },
            };
            if n == 0 {
                return Err(
                    CopyFromProcessError { child: self.pid, src: at, offset: 0, length: PEEK_WORD_SIZE, source: EIO },
                );
            }
            let (take, done) = match find_nul(&word, n) {
                Some(i) => (i + 1, true),
                None => (n, false),
            };
            if take > usize::MAX - string.len() {
                return Err(
                    CopyFromProcessError { child: self.pid, src: at, offset: 0, length: PEEK_WORD_SIZE, source: EIO },
                );
            }
            let ghost before = string@;
            let mut i: usize = 0;
            while i < take
                invariant
                    i <= take <= word@.len(),
                    take <= usize::MAX - before.len(),
                    string@ == before + word@.subrange(0, i as int),
                decreases take - i,
            {
                string.push(word[i]);
                i = i + 1;
                assert(string@ =~= before + word@.subrange(0, i as int));
            }
            if done {
                return Ok(string);
            }
        }
    }
}

} // verus!
