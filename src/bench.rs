//! The benchmark driver's decisions: setting up the working files, what
//! each thread does every step of its run, who tears down, and the rows it
//! reports. Threads, clocks and the calls themselves are the caller's.
use vstd::prelude::*;
use crate::frame::RpcError;
use crate::params::ClientParams;
use crate::workload::{spec_workload_op, workload_op, WorkloadOp};

verus! {

/// Bytes read or written by one operation.
pub const PAGE_SIZE: usize = 1008;

/// Size each working file is grown to before the run.
pub const FILE_SIZE: usize = 268435456;

/// Why a benchmark run stops.
#[derive(PartialEq, Eq, Structural, Clone, Copy, Debug)]
pub enum BenchError {
    /// Opening a working file returned this negative status.
    OpenFailed(i32),
    /// A read or write moved `got` bytes instead of `expected`.
    ShortIo { expected: usize, got: i32 },
    /// A call failed on its way.
    Rpc(RpcError),
    /// Removing a private file after the run returned this status.
    RemoveFailed(i32),
}

/// Takes the status of removing a thread's private file after its run:
/// anything but zero stops the run.
pub fn check_removed(ret: i32) -> (r: Result<(), BenchError>)
    ensures
        ret == 0 ==> r is Ok,
        ret != 0 ==> r == Err::<(), BenchError>(BenchError::RemoveFailed(ret)),
{
    if ret == 0 {
        Ok(())
    } else {
        Err(BenchError::RemoveFailed(ret))
    }
}

/// What one run measures.
#[derive(PartialEq, Eq, Structural, Clone, Copy, Debug)]
pub struct BenchmarkConfig {
    /// How many working files are opened.
    pub open_files: usize,
    /// Percentage of operations that are writes.
    pub write_ratio: usize,
    /// Seconds of measurement.
    pub duration: u64,
}

impl BenchmarkConfig {
    pub open spec fn wf(&self) -> bool {
        &&& self.open_files >= 1
        &&& self.write_ratio <= 100
    }
}

/// Relies on libc::O_RDWR, the flag that opens a file for reading and
/// writing.
#[verifier::external_body]
fn o_rdwr() -> i32 {
    libc::O_RDWR
}

/// Relies on libc::O_CREAT, the flag that creates a missing file on open.
#[verifier::external_body]
fn o_creat() -> i32 {
    libc::O_CREAT
}

/// Relies on libc::S_IRWXU, the mode that gives the owner every right.
#[verifier::external_body]
fn s_irwxu() -> u32 {
    libc::S_IRWXU as u32
}

/// What a run learns once, at start: how many files the host can keep
/// open for it, the page and file sizes, and how working files are opened.
#[derive(PartialEq, Eq, Structural, Clone, Copy, Debug)]
pub struct BenchmarkEnvironment {
    pub max_open_files: usize,
    pub page_size: usize,
    pub file_size: usize,
    pub open_flags: i32,
    pub open_mode: u32,
}

impl BenchmarkEnvironment {
    pub open spec fn wf(&self) -> bool {
        &&& 0 < self.page_size <= crate::fileops::MAX_PAGE_LEN
        &&& self.page_size <= self.file_size <= i64::MAX
    }

    /// The environment on a host with `host_cores` cores: as many files as
    /// cores, pages of `PAGE_SIZE` in files of `FILE_SIZE`, opened for
    /// reading and writing, created when missing, owner-only.
    pub fn new(host_cores: usize) -> (r: BenchmarkEnvironment)
        ensures
            r.wf(),
            r.max_open_files == host_cores,
            r.page_size == PAGE_SIZE,
            r.file_size == FILE_SIZE,
    {
        BenchmarkEnvironment {
            max_open_files: max_open_files(host_cores),
            page_size: PAGE_SIZE,
            file_size: FILE_SIZE,
            open_flags: o_rdwr() | o_creat(),
            open_mode: s_irwxu(),
        }
    }
}

/// How many working files a host with `host_cores` cores keeps open: one
/// per core.
pub fn max_open_files(host_cores: usize) -> (r: usize)
    ensures
        r == host_cores,
{
    host_cores
}

/// The decimal digits of `n`, most significant first.
pub open spec fn spec_decimal(n: nat) -> Seq<u8>
    decreases n,
{
    if n < 10 {
        seq![(48 + n) as u8]
    } else {
        spec_decimal(n / 10) + seq![(48 + n % 10) as u8]
    }
}

/// Appends the decimal digits of `n`.
pub fn push_decimal(buf: &mut Vec<u8>, n: u64)
    ensures
        final(buf)@ == old(buf)@ + spec_decimal(n as nat),
    decreases n,
{
    if n >= 10 {
        push_decimal(buf, n / 10);
    }
    buf.push((48 + n % 10) as u8);
    proof {
        if n < 10 {
            assert(n % 10 == n);
        }
    }
}

/// The name of working file `i`: "file", its number, ".txt".
pub open spec fn spec_file_name(i: nat) -> Seq<u8> {
    seq![102u8, 105, 108, 101] + spec_decimal(i) + seq![46u8, 116, 120, 116]
}

pub fn file_name(i: u64) -> (r: Vec<u8>)
    ensures
        r@ == spec_file_name(i as nat),
{
    let mut r: Vec<u8> = Vec::new();
    r.push(102);
    r.push(105);
    r.push(108);
    r.push(101);
    push_decimal(&mut r, i);
    r.push(46);
    r.push(116);
    r.push(120);
    r.push(116);
    assert(r@ =~= spec_file_name(i as nat));
    r
}

/// The filler a working file is sized with: `len` bytes of 0x0b.
pub open spec fn spec_filler(len: nat) -> Seq<u8> {
    Seq::new(len, |i: int| 0x0bu8)
}

pub fn filler_page(len: usize) -> (r: Vec<u8>)
    ensures
        r@ == spec_filler(len as nat),
{
    let mut r: Vec<u8> = Vec::new();
    let mut i: usize = 0;
    while i < len
        invariant
            i <= len,
            r@ == spec_filler(i as nat),
        decreases len - i,
    {
        r.push(0x0b);
        i = i + 1;
        assert(r@ =~= spec_filler(i as nat));
    }
    r
}

/// The next call the setup phase needs.
pub enum InitAction {
    /// Open (and create) a working file.
    Open { path: Vec<u8>, flags: i32, mode: u32 },
    /// Write `page`, `len` filler bytes, at `offset` of the file just
    /// opened, to size it.
    Size { fd: i32, offset: i64, len: usize, page: Vec<u8> },
    /// Every working file is open and sized.
    Done,
}

/// The setup phase: for each working file in turn, open it, then write one
/// page at its end to give it its size.
pub struct Init {
    open_files: usize,
    env: BenchmarkEnvironment,
    fds: Vec<i32>,
    pending: Option<i32>,
}

impl Init {
    /// Descriptors of the files opened and sized so far, in file order.
    pub closed spec fn spec_fds(&self) -> Seq<i32> {
        self.fds@
    }

    /// The descriptor of the file opened but not yet sized.
    pub closed spec fn spec_pending(&self) -> Option<i32> {
        self.pending
    }

    pub closed spec fn spec_open_files(&self) -> nat {
        self.open_files as nat
    }

    pub closed spec fn spec_env(&self) -> BenchmarkEnvironment {
        self.env
    }

    pub closed spec fn wf(&self) -> bool {
        &&& self.fds@.len() <= self.open_files
        &&& self.pending is Some ==> self.fds@.len() < self.open_files && self.pending->Some_0 >= 0
        &&& self.env.wf()
        &&& forall|i: int| 0 <= i < self.fds@.len() ==> self.fds@[i] >= 0
    }

    pub open spec fn spec_done(&self) -> bool {
        self.spec_pending() is None && self.spec_fds().len() == self.spec_open_files()
    }

    pub fn new(config: &BenchmarkConfig, env: &BenchmarkEnvironment) -> (r: Init)
        requires
            env.wf(),
        ensures
            r.wf(),
            r.spec_fds() == Seq::<i32>::empty(),
            r.spec_pending() is None,
            r.spec_open_files() == config.open_files,
            r.spec_env() == *env,
    {
        Init { open_files: config.open_files, env: *env, fds: Vec::new(), pending: None }
    }

    /// The call to make next.
    pub fn next_action(&self) -> (r: InitAction)
        requires
            self.wf(),
        ensures
            match self.spec_pending() {
                Some(fd) => r matches InitAction::Size { fd: f, offset, len, page } && f == fd && offset
                    == self.spec_env().file_size as i64 && len == self.spec_env().page_size && page@
                    == spec_filler(self.spec_env().page_size as nat),
                None => if self.spec_fds().len() < self.spec_open_files() {
                    match r {
                        InitAction::Open { path, flags, mode } => path@ == spec_file_name(self.spec_fds().len())
                            && flags == self.spec_env().open_flags && mode == self.spec_env().open_mode,
                        _ => false,
                    }
                } else {
                    r is Done
                },
            },
    {
        match self.pending {
            Some(fd) => InitAction::Size {
                fd,
                offset: self.env.file_size as i64,
                len: self.env.page_size,
                page: filler_page(self.env.page_size),
            },
            None => if self.fds.len() < self.open_files {
                InitAction::Open {
                    path: file_name(self.fds.len() as u64),
                    flags: self.env.open_flags,
                    mode: self.env.open_mode,
                }
            } else {
                InitAction::Done
            },
        }
    }

    /// Takes the status the last call returned. A negative descriptor or a
    /// short write stops the setup, changing nothing.
    pub fn on_result(&mut self, ret: i32) -> (r: Result<(), BenchError>)
        requires
            old(self).wf(),
            !old(self).spec_done(),
        ensures
            final(self).wf(),
            final(self).spec_open_files() == old(self).spec_open_files(),
            final(self).spec_env() == old(self).spec_env(),
            match old(self).spec_pending() {
                None => if ret < 0 {
                    r == Err::<(), BenchError>(BenchError::OpenFailed(ret)) && *final(self) == *old(self)
                } else {
                    r is Ok && final(self).spec_pending() == Some(ret) && final(self).spec_fds()
                        == old(self).spec_fds()
                },
                Some(fd) => if ret as int != old(self).spec_env().page_size {
                    r == Err::<(), BenchError>(
                        BenchError::ShortIo { expected: old(self).spec_env().page_size, got: ret },
                    ) && *final(self) == *old(self)
                } else {
                    r is Ok && final(self).spec_pending() is None && final(self).spec_fds()
                        == old(self).spec_fds().push(fd)
                },
            },
    {
        match self.pending {
            None => {
                if ret < 0 {
                    return Err(BenchError::OpenFailed(ret));
                }
                self.pending = Some(ret);
                Ok(())
            },
            Some(fd) => {
                if ret < 0 || ret as usize != self.env.page_size {
                    return Err(BenchError::ShortIo { expected: self.env.page_size, got: ret });
                }
                self.fds.push(fd);
                self.pending = None;
                Ok(())
            },
        }
    }

    /// The descriptors of the working files, in file order.
    pub fn fds(&self) -> (r: &Vec<i32>)
        ensures
            r@ == self.spec_fds(),
    {
        &self.fds
    }
}

/// The next call the setup of a read-only benchmark needs.
pub enum SetupAction {
    /// Remove what is left of a file from an earlier run; any status will do.
    Remove { path: Vec<u8> },
    /// Open (and create) the file.
    Open { path: Vec<u8>, flags: i32, mode: u32 },
    /// Write `page`, `len` filler bytes, at the file's start.
    Write { fd: i32, len: usize, page: Vec<u8> },
    /// Close a shared file, which each thread opens for itself.
    Close { fd: i32 },
    /// Every file is ready.
    Done,
}

/// Where the setup of the current file stands.
#[derive(PartialEq, Eq, Structural, Clone, Copy, Debug)]
pub enum SetupStage {
    Remove,
    Open,
    Write(i32),
    Close(i32),
}

/// The setup of a read-only benchmark: each named file is removed, created
/// and given one page; a shared file is closed again.
pub struct BlockSetup {
    names: Vec<Vec<u8>>,
    shared: bool,
    env: BenchmarkEnvironment,
    fds: Vec<i32>,
    stage: SetupStage,
}

impl BlockSetup {
    pub closed spec fn spec_names(&self) -> Seq<Seq<u8>> {
        self.names.deep_view()
    }

    pub closed spec fn spec_shared(&self) -> bool {
        self.shared
    }

    pub closed spec fn spec_env(&self) -> BenchmarkEnvironment {
        self.env
    }

    /// Descriptors the finished files were opened with, in order.
    pub closed spec fn spec_fds(&self) -> Seq<i32> {
        self.fds@
    }

    pub closed spec fn spec_stage(&self) -> SetupStage {
        self.stage
    }

    pub closed spec fn wf(&self) -> bool {
        &&& self.fds@.len() <= self.names@.len()
        &&& self.fds@.len() == self.names@.len() ==> self.stage == SetupStage::Remove
    }

    pub open spec fn spec_done(&self) -> bool {
        self.spec_fds().len() == self.spec_names().len()
    }

    /// Sets up the files `names`; `shared` when all threads read one file.
    pub fn new(names: Vec<Vec<u8>>, shared: bool, env: &BenchmarkEnvironment) -> (r: BlockSetup)
        ensures
            r.wf(),
            r.spec_names() == names.deep_view(),
            r.spec_shared() == shared,
            r.spec_env() == *env,
            r.spec_fds() == Seq::<i32>::empty(),
            r.spec_stage() == SetupStage::Remove,
    {
        BlockSetup { names, shared, env: *env, fds: Vec::new(), stage: SetupStage::Remove }
    }

    /// The call to make next.
    pub fn next_action(&self) -> (r: SetupAction)
        requires
            self.wf(),
        ensures
            self.spec_done() ==> r is Done,
            !self.spec_done() ==> match self.spec_stage() {
                SetupStage::Remove => r matches SetupAction::Remove { path } && path@ == self.spec_names()[
                    self.spec_fds().len() as int],
                SetupStage::Open => r matches SetupAction::Open { path, flags, mode } && path@
                    == self.spec_names()[self.spec_fds().len() as int] && flags == self.spec_env().open_flags
                    && mode == self.spec_env().open_mode,
                SetupStage::Write(fd) => r matches SetupAction::Write { fd: f, len, page } && f == fd && len
                    == self.spec_env().page_size && page@ == spec_filler(self.spec_env().page_size as nat),
                SetupStage::Close(fd) => r == (SetupAction::Close { fd }),
            },
    {
        let i = self.fds.len();
        if i >= self.names.len() {
            return SetupAction::Done;
        }
        match self.stage {
            SetupStage::Remove => SetupAction::Remove { path: crate::fileops::copy_bytes(self.names[i].as_slice()) },
            SetupStage::Open => SetupAction::Open {
                path: crate::fileops::copy_bytes(self.names[i].as_slice()),
                flags: self.env.open_flags,
                mode: self.env.open_mode,
            },
            SetupStage::Write(fd) => SetupAction::Write {
                fd,
                len: self.env.page_size,
                page: filler_page(self.env.page_size),
            },
            SetupStage::Close(fd) => SetupAction::Close { fd },
        }
    }

    /// Takes the status the last call returned. The status of a removal or
    /// a close does not matter; a negative descriptor or a short write stops
    /// the setup, changing nothing.
    pub fn on_result(&mut self, ret: i32) -> (r: Result<(), BenchError>)
        requires
            old(self).wf(),
            !old(self).spec_done(),
        ensures
            final(self).wf(),
            final(self).spec_names() == old(self).spec_names(),
            final(self).spec_shared() == old(self).spec_shared(),
            final(self).spec_env() == old(self).spec_env(),
            match old(self).spec_stage() {
                SetupStage::Remove => r is Ok && final(self).spec_stage() == SetupStage::Open
                    && final(self).spec_fds() == old(self).spec_fds(),
                SetupStage::Open => if ret < 0 {
                    r == Err::<(), BenchError>(BenchError::OpenFailed(ret)) && *final(self) == *old(self)
                } else {
                    r is Ok && final(self).spec_stage() == SetupStage::Write(ret) && final(self).spec_fds()
                        == old(self).spec_fds()
                },
                SetupStage::Write(fd) => if ret as int != old(self).spec_env().page_size {
                    r == Err::<(), BenchError>(
                        BenchError::ShortIo { expected: old(self).spec_env().page_size, got: ret },
                    ) && *final(self) == *old(self)
                } else if old(self).spec_shared() {
                    r is Ok && final(self).spec_stage() == SetupStage::Close(fd) && final(self).spec_fds()
                        == old(self).spec_fds()
                } else {
                    r is Ok && final(self).spec_stage() == SetupStage::Remove && final(self).spec_fds()
                        == old(self).spec_fds().push(fd)
                },
                SetupStage::Close(fd) => r is Ok && final(self).spec_stage() == SetupStage::Remove
                    && final(self).spec_fds() == old(self).spec_fds().push(fd),
            },
    {
        match self.stage {
            SetupStage::Remove => {
                self.stage = SetupStage::Open;
                Ok(())
            },
            SetupStage::Open => {
                if ret < 0 {
                    return Err(BenchError::OpenFailed(ret));
                }
                self.stage = SetupStage::Write(ret);
                Ok(())
            },
            SetupStage::Write(fd) => {
                if ret < 0 || ret as usize != self.env.page_size {
                    return Err(BenchError::ShortIo { expected: self.env.page_size, got: ret });
                }
                if self.shared {
                    self.stage = SetupStage::Close(fd);
                } else {
                    self.fds.push(fd);
                    self.stage = SetupStage::Remove;
                }
                Ok(())
            },
            SetupStage::Close(fd) => {
                self.fds.push(fd);
                self.stage = SetupStage::Remove;
                Ok(())
            },
        }
    }

    /// Descriptors the finished files were opened with, in order.
    pub fn fds(&self) -> (r: &Vec<i32>)
        ensures
            r@ == self.spec_fds(),
    {
        &self.fds
    }
}

/// The private files of a low-contention read run: one per core, named
/// after it.
pub fn private_file_names(cores: &Vec<u64>) -> (r: Vec<Vec<u8>>)
    ensures
        r@.len() == cores@.len(),
        forall|k: int| 0 <= k < cores@.len() ==> #[trigger] r.deep_view()[k] == spec_file_name(cores@[k] as nat),
{
    let mut r: Vec<Vec<u8>> = Vec::new();
    let mut k: usize = 0;
    while k < cores.len()
        invariant
            k <= cores@.len(),
            r@.len() == k,
            forall|j: int| 0 <= j < k ==> #[trigger] r@[j]@ == spec_file_name(cores@[j] as nat),
        decreases cores@.len() - k,
    {
        r.push(file_name(cores[k]));
        k = k + 1;
    }
    assert forall|j: int| 0 <= j < cores@.len() implies #[trigger] r.deep_view()[j] == spec_file_name(cores@[j] as nat) by {
        assert(r.deep_view()[j] == r@[j]@);
    }
    r
}

/// The one file that every thread of a high-contention read run reads:
/// "file.txt".
pub open spec fn spec_shared_file_name() -> Seq<u8> {
    seq![102u8, 105, 108, 101, 46, 116, 120, 116]
}

pub fn shared_file_name() -> (r: Vec<u8>)
    ensures
        r@ == spec_shared_file_name(),
{
    let mut r: Vec<u8> = Vec::new();
    r.push(102);
    r.push(105);
    r.push(108);
    r.push(101);
    r.push(46);
    r.push(116);
    r.push(120);
    r.push(116);
    assert(r@ =~= spec_shared_file_name());
    r
}

/// Gives the working files to the run's cores round-robin: the core at
/// place `k` gets file `k` modulo the number of files.
pub fn distribute_files(cores: &Vec<u64>, fds: &Vec<i32>) -> (r: Vec<(u64, i32)>)
    requires
        fds@.len() > 0,
    ensures
        r@.len() == cores@.len(),
        forall|k: int| 0 <= k < r@.len() ==> r@[k] == (cores@[k], fds@[k % fds@.len() as int]),
{
    let mut r: Vec<(u64, i32)> = Vec::new();
    let mut k: usize = 0;
    while k < cores.len()
        invariant
            fds@.len() > 0,
            k <= cores@.len(),
            r@.len() == k,
            forall|j: int| 0 <= j < k ==> r@[j] == (cores@[j], fds@[j % fds@.len() as int]),
        decreases cores@.len() - k,
    {
        r.push((cores[k], fds[k % fds.len()]));
        k = k + 1;
    }
    r
}

/// The core that tears down: the lowest of the run.
pub fn teardown_core(cores: &Vec<u64>) -> (r: Option<u64>)
    ensures
        match r {
            Some(c) => cores@.contains(c) && forall|k: int| 0 <= k < cores@.len() ==> c <= cores@[k],
            None => cores@.len() == 0,
        },
{
    if cores.len() == 0 {
        return None;
    }
    let mut best: u64 = cores[0];
    let mut k: usize = 1;
    while k < cores.len()
        invariant
            1 <= k <= cores@.len(),
            cores@.contains(best),
            forall|j: int| 0 <= j < k ==> best <= cores@[j],
        decreases cores@.len() - k,
    {
        if cores[k] < best {
            best = cores[k];
        }
        k = k + 1;
    }
    Some(best)
}

/// The files that the thread on `core` closes after the run: every one for
/// the tearing-down core, none for the others.
pub fn teardown_closes(core: u64, cores: &Vec<u64>, fds: &Vec<i32>) -> (r: Vec<i32>)
    ensures
        (exists|c: u64| cores@.contains(c) && c == core && forall|k: int| 0 <= k < cores@.len() ==> c <= cores@[k])
            ==> r@ == fds@,
        !(cores@.contains(core) && forall|k: int| 0 <= k < cores@.len() ==> core <= cores@[k]) ==> r@.len() == 0,
{
    match teardown_core(cores) {
        Some(c) => if c == core {
            let mut r: Vec<i32> = Vec::new();
            let mut i: usize = 0;
            while i < fds.len()
                invariant
                    i <= fds@.len(),
                    r@ == fds@.take(i as int),
                decreases fds@.len() - i,
            {
                r.push(fds[i]);
                i = i + 1;
                assert(r@ =~= fds@.take(i as int));
            }
            assert(fds@.take(fds@.len() as int) =~= fds@);
            r
        } else {
            proof {
                if cores@.contains(core) && forall|k: int| 0 <= k < cores@.len() ==> core <= cores@[k] {
                    let j = choose|j: int| 0 <= j < cores@.len() && cores@[j] == c;
                    let i = choose|i: int| 0 <= i < cores@.len() && cores@[i] == core;
                    assert(c <= cores@[i] && core <= cores@[j]);
                }
            }
            Vec::new()
        },
        None => Vec::new(),
    }
}

/// One benchmark thread during the run: it picks each operation on its
/// file, checks what each returned, and counts operations per second.
pub struct Worker {
    fd: i32,
    write_ratio: usize,
    total_pages: usize,
    page_size: usize,
    duration: u64,
    samples: Vec<usize>,
    ops: usize,
}

impl Worker {
    pub closed spec fn spec_fd(&self) -> i32 {
        self.fd
    }

    pub closed spec fn spec_write_ratio(&self) -> usize {
        self.write_ratio
    }

    pub closed spec fn spec_total_pages(&self) -> usize {
        self.total_pages
    }

    pub closed spec fn spec_page_size(&self) -> usize {
        self.page_size
    }

    pub closed spec fn spec_duration(&self) -> nat {
        self.duration as nat
    }

    /// Operations counted in each second that has ended.
    pub closed spec fn spec_samples(&self) -> Seq<usize> {
        self.samples@
    }

    /// Operations counted in the current second.
    pub closed spec fn spec_ops(&self) -> usize {
        self.ops
    }

    pub closed spec fn wf(&self) -> bool {
        &&& self.total_pages > 0
        &&& self.total_pages * self.page_size <= i64::MAX
        &&& self.samples@.len() <= self.duration
    }

    /// A thread working on `fd` under `config` in `env`; its file has
    /// `env.file_size / env.page_size` pages.
    pub fn new(fd: i32, config: &BenchmarkConfig, env: &BenchmarkEnvironment) -> (r: Worker)
        requires
            env.wf(),
        ensures
            r.wf(),
            r.spec_fd() == fd,
            r.spec_write_ratio() == config.write_ratio,
            r.spec_total_pages() == env.file_size / env.page_size,
            r.spec_page_size() == env.page_size,
            r.spec_duration() == config.duration,
            r.spec_samples() == Seq::<usize>::empty(),
            r.spec_ops() == 0,
    {
        let total_pages = env.file_size / env.page_size;
        proof {
            let f = env.file_size as int;
            let p = env.page_size as int;
            assert((f / p) * p <= f) by (nonlinear_arith)
                requires
                    p > 0,
                    f >= 0,
            ;
            assert(f / p >= 1) by (nonlinear_arith)
                requires
                    p > 0,
                    f >= p,
            ;
        }
        Worker {
            fd,
            write_ratio: config.write_ratio,
            total_pages,
            page_size: env.page_size,
            duration: config.duration,
            samples: Vec::new(),
            ops: 0,
        }
    }

    /// A thread of a read-only benchmark: every operation reads the first
    /// page of `fd`, whatever random value is drawn.
    pub fn new_fixed_block(fd: i32, duration: u64, env: &BenchmarkEnvironment) -> (r: Worker)
        requires
            env.wf(),
        ensures
            r.wf(),
            r.spec_fd() == fd,
            r.spec_write_ratio() == 0,
            r.spec_total_pages() == 1,
            r.spec_page_size() == env.page_size,
            r.spec_duration() == duration,
            r.spec_samples() == Seq::<usize>::empty(),
            r.spec_ops() == 0,
            forall|random: u16| #[trigger]
                spec_workload_op(random, r.spec_total_pages(), r.spec_page_size(), r.spec_write_ratio())
                    == (WorkloadOp::Read { offset: 0 }),
    {
        assert forall|random: u16| #[trigger]
            spec_workload_op(random, 1, env.page_size, 0) == (WorkloadOp::Read { offset: 0 }) by {
            assert((random as nat) % 1 == 0);
        }
        Worker {
            fd,
            write_ratio: 0,
            total_pages: 1,
            page_size: env.page_size,
            duration,
            samples: Vec::new(),
            ops: 0,
        }
    }

    /// The operation that random value `random` picks (see `workload_op`).
    pub fn next_op(&self, random: u16) -> (r: WorkloadOp)
        requires
            self.wf(),
        ensures
            r == spec_workload_op(random, self.spec_total_pages(), self.spec_page_size(), self.spec_write_ratio()),
    {
        workload_op(random, self.total_pages, self.page_size, self.write_ratio)
    }

    /// Takes what an operation returned: exactly a page counts it, anything
    /// else stops the run, changing nothing.
    pub fn complete_op(&mut self, ret: i32) -> (r: Result<(), BenchError>)
        requires
            old(self).wf(),
        ensures
            final(self).wf(),
            final(self).spec_samples() == old(self).spec_samples(),
            final(self).spec_duration() == old(self).spec_duration(),
            final(self).spec_fd() == old(self).spec_fd(),
            final(self).spec_total_pages() == old(self).spec_total_pages(),
            final(self).spec_page_size() == old(self).spec_page_size(),
            final(self).spec_write_ratio() == old(self).spec_write_ratio(),
            if ret as int == old(self).spec_page_size() {
                r is Ok && final(self).spec_ops() == (if old(self).spec_ops() == usize::MAX {
                    usize::MAX as int
                } else {
                    old(self).spec_ops() + 1
                })
            } else {
                r == Err::<(), BenchError>(
                    BenchError::ShortIo { expected: old(self).spec_page_size(), got: ret },
                ) && final(self).spec_ops() == old(self).spec_ops()
            },
    {
        if ret < 0 || ret as usize != self.page_size {
            return Err(BenchError::ShortIo { expected: self.page_size, got: ret });
        }
        if self.ops < usize::MAX {
            self.ops = self.ops + 1;
        }
        Ok(())
    }

    /// A second has passed: its count becomes a sample and a new one starts.
    pub fn end_second(&mut self)
        requires
            old(self).wf(),
            old(self).spec_samples().len() < old(self).spec_duration(),
        ensures
            final(self).wf(),
            final(self).spec_samples() == old(self).spec_samples().push(old(self).spec_ops()),
            final(self).spec_ops() == 0,
            final(self).spec_duration() == old(self).spec_duration(),
            final(self).spec_fd() == old(self).spec_fd(),
            final(self).spec_total_pages() == old(self).spec_total_pages(),
            final(self).spec_page_size() == old(self).spec_page_size(),
            final(self).spec_write_ratio() == old(self).spec_write_ratio(),
    {
        self.samples.push(self.ops);
        self.ops = 0;
    }

    /// Whether every second of the run has been sampled.
    pub fn is_done(&self) -> (r: bool)
        requires
            self.wf(),
        ensures
            r == (self.spec_samples().len() == self.spec_duration()),
    {
        self.samples.len() as u64 == self.duration
    }

    pub fn fd(&self) -> (r: i32)
        ensures
            r == self.spec_fd(),
    {
        self.fd
    }

    /// Operations per second, one sample per second so far.
    pub fn samples(&self) -> (r: &Vec<usize>)
        ensures
            r@ == self.spec_samples(),
    {
        &self.samples
    }
}

/// One reported row: how many operations one thread made in one second.
#[derive(PartialEq, Eq, Structural, Clone, Copy, Debug)]
pub struct ResultRow {
    pub thread_id: usize,
    pub core_count: usize,
    pub write_ratio: usize,
    pub open_files: usize,
    pub duration: u64,
    pub second: usize,
    pub ops: usize,
    pub client_id: usize,
    pub client_cores: usize,
    pub client_count: usize,
}

/// The rows of the thread on `core_id` of a run on `cores` cores, one per
/// sample, numbered from one. Threads are numbered across clients, and
/// cores counted over all of them; `None` when those overflow.
pub fn result_rows(
    core_id: usize,
    cores: usize,
    config: &BenchmarkConfig,
    params: &ClientParams,
    samples: &Vec<usize>,
) -> (r: Option<Vec<ResultRow>>)
    ensures
        match r {
            None => core_id + params.ccores * params.cid > usize::MAX || cores * params.nclients > usize::MAX,
            Some(rows) => {
                &&& rows@.len() == samples@.len()
                &&& forall|k: int| 0 <= k < rows@.len() ==> rows@[k] == (ResultRow {
                    thread_id: (core_id + params.ccores * params.cid) as usize,
                    core_count: (cores * params.nclients) as usize,
                    write_ratio: config.write_ratio,
                    open_files: config.open_files,
                    duration: config.duration,
                    second: (k + 1) as usize,
                    ops: samples@[k],
                    client_id: params.cid,
                    client_cores: params.ccores,
                    client_count: params.nclients,
                })
            },
        },
{
    let offset = match params.ccores.checked_mul(params.cid) {
        Some(v) => v,
        None => {
            proof {
                assert(core_id + params.ccores * params.cid > usize::MAX) by (nonlinear_arith)
                    requires
                        params.ccores * params.cid > usize::MAX,
                ;
            }
            return None;
        },
    };
    let thread_id = match core_id.checked_add(offset) {
        Some(v) => v,
        None => return None,
    };
    let core_count = match cores.checked_mul(params.nclients) {
        Some(v) => v,
        None => return None,
    };
    let mut rows: Vec<ResultRow> = Vec::new();
    let mut k: usize = 0;
    while k < samples.len()
        invariant
            k <= samples@.len(),
            rows@.len() == k,
            thread_id == core_id + params.ccores * params.cid,
            core_count == cores * params.nclients,
            forall|j: int| 0 <= j < k ==> rows@[j] == (ResultRow {
                thread_id,
                core_count,
                write_ratio: config.write_ratio,
                open_files: config.open_files,
                duration: config.duration,
                second: (j + 1) as usize,
                ops: samples@[j],
                client_id: params.cid,
                client_cores: params.ccores,
                client_count: params.nclients,
            }),
        decreases samples@.len() - k,
    {
        rows.push(ResultRow {
            thread_id,
            core_count,
            write_ratio: config.write_ratio,
            open_files: config.open_files,
            duration: config.duration,
            second: k + 1,
            ops: samples[k],
            client_id: params.cid,
            client_cores: params.ccores,
            client_count: params.nclients,
        });
        k = k + 1;
    }
    Some(rows)
}

/// Operations per second from `ops` operations in `nanos` nanoseconds,
/// through the whole nanoseconds each operation took.
pub fn calculate_throughput(ops: u64, nanos: u128) -> (r: usize)
    requires
        ops > 0,
        nanos as int / ops as int > 0,
        1_000_000_000int / (nanos as int / ops as int) <= usize::MAX,
    ensures
        r == 1_000_000_000int / (nanos as int / ops as int),
{
    let per_op = nanos / (ops as u128);
    (1_000_000_000u128 / per_op) as usize
}

} // verus!
