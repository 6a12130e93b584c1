//! Serving one frame: find the handler, read its request, say which OS
//! primitive to run under the base path, and frame what it returned.
use vstd::prelude::*;
use crate::dispatch::HandlerTable;
use crate::fileops::{
    copy_bytes, CloseReq, MkdirReq, OpenReq, ReadReq, RemoveReq, WriteReq, Response, MAX_PAGE_LEN,
};
use crate::frame::{encode_frame, spec_frame, RpcError, RpcHeader};
use crate::opcode::OpCode;
use crate::wire::{encode_fields, parse_fields, FieldValue};

verus! {

/// `msg_type` of a reply that carries a response.
pub const REPLY_OK: u8 = 0;

/// `msg_type` of an error frame: the request was not served.
pub const REPLY_ERROR: u8 = 255;

/// The handler set: one OS primitive per served operation.
#[derive(PartialEq, Eq, Structural, Clone, Copy, Debug)]
pub enum SyscallKind {
    Open,
    Read,
    PRead,
    Write,
    PWrite,
    Close,
    Remove,
    MkDir,
    RmDir,
    Fsync,
}

/// One OS primitive to run, with paths already under the base path.
pub enum Syscall {
    Open { path: Vec<u8>, flags: i32, mode: u32 },
    Read { fd: i32, size: usize },
    PRead { fd: i32, size: usize, offset: i64 },
    Write { fd: i32, page: Vec<u8>, size: usize },
    PWrite { fd: i32, page: Vec<u8>, size: usize, offset: i64 },
    Close { fd: i32 },
    Remove { path: Vec<u8> },
    MkDir { path: Vec<u8>, mode: u32 },
    RmDir { path: Vec<u8> },
    Fsync { fd: i32 },
}

/// A `Syscall` as the contracts see it.
pub enum SyscallView {
    Open { path: Seq<u8>, flags: i32, mode: u32 },
    Read { fd: i32, size: usize },
    PRead { fd: i32, size: usize, offset: i64 },
    Write { fd: i32, page: Seq<u8>, size: usize },
    PWrite { fd: i32, page: Seq<u8>, size: usize, offset: i64 },
    Close { fd: i32 },
    Remove { path: Seq<u8> },
    MkDir { path: Seq<u8>, mode: u32 },
    RmDir { path: Seq<u8> },
    Fsync { fd: i32 },
}

impl View for Syscall {
    type V = SyscallView;

    open spec fn view(&self) -> SyscallView {
        match self {
            Syscall::Open { path, flags, mode } => SyscallView::Open { path: path@, flags: *flags, mode: *mode },
            Syscall::Read { fd, size } => SyscallView::Read { fd: *fd, size: *size },
            Syscall::PRead { fd, size, offset } => SyscallView::PRead { fd: *fd, size: *size, offset: *offset },
            Syscall::Write { fd, page, size } => SyscallView::Write { fd: *fd, page: page@, size: *size },
            Syscall::PWrite { fd, page, size, offset } => SyscallView::PWrite {
                fd: *fd,
                page: page@,
                size: *size,
                offset: *offset,
            },
            Syscall::Close { fd } => SyscallView::Close { fd: *fd },
            Syscall::Remove { path } => SyscallView::Remove { path: path@ },
            Syscall::MkDir { path, mode } => SyscallView::MkDir { path: path@, mode: *mode },
            Syscall::RmDir { path } => SyscallView::RmDir { path: path@ },
            Syscall::Fsync { fd } => SyscallView::Fsync { fd: *fd },
        }
    }
}

/// What the OS primitive gave back: its raw return, and for reads the
/// bytes it filled in.
pub struct SyscallOutcome {
    pub result: i32,
    pub page: Vec<u8>,
}

/// Runs OS primitives. The server hands each decoded request to one.
pub trait SyscallHost {
    fn execute(&mut self, call: &Syscall) -> SyscallOutcome;
}

/// What the server does with one request frame.
pub enum Dispatch {
    /// Run this primitive, then frame its outcome with `reply`.
    Invoke(Syscall),
    /// Send these bytes back as they are.
    Reply(Vec<u8>),
}

/// The error frame answering request `msg_id`; the connection stays open.
pub open spec fn error_frame(msg_id: u64) -> Seq<u8> {
    spec_frame(RpcHeader { msg_id, msg_type: REPLY_ERROR, msg_len: 0 }, Seq::empty())
}

/// The primitive that the request `payload` of an operation served by
/// `k` asks for, with its path under `base`; `None` when the payload does not
/// hold that request, or a read or write asks for more than a page.
pub open spec fn spec_call(k: SyscallKind, base: Seq<u8>, payload: Seq<u8>) -> Option<SyscallView> {
    match k {
        SyscallKind::Open => match parse_fields(OpenReq::schema(), payload) {
            Some((fs, _)) => Some(SyscallView::Open {
                path: base + fs[2]->Bytes_0,
                flags: fs[0]->U32_0 as i32,
                mode: fs[1]->U32_0,
            }),
            None => None,
        },
        SyscallKind::Read | SyscallKind::PRead => match parse_fields(ReadReq::schema(), payload) {
            Some((fs, _)) => if fs[1]->U64_0 <= MAX_PAGE_LEN {
                if k == SyscallKind::Read {
                    Some(SyscallView::Read { fd: fs[0]->U32_0 as i32, size: fs[1]->U64_0 as usize })
                } else {
                    Some(SyscallView::PRead {
                        fd: fs[0]->U32_0 as i32,
                        size: fs[1]->U64_0 as usize,
                        offset: fs[2]->U64_0 as i64,
                    })
                }
            } else {
                None
            },
            None => None,
        },
        SyscallKind::Write | SyscallKind::PWrite => match parse_fields(WriteReq::schema(), payload) {
            Some((fs, _)) => if fs[1]->U64_0 <= fs[3]->Bytes_0.len() {
                if k == SyscallKind::Write {
                    Some(SyscallView::Write {
                        fd: fs[0]->U32_0 as i32,
                        page: fs[3]->Bytes_0,
                        size: fs[1]->U64_0 as usize,
                    })
                } else {
                    Some(SyscallView::PWrite {
                        fd: fs[0]->U32_0 as i32,
                        page: fs[3]->Bytes_0,
                        size: fs[1]->U64_0 as usize,
                        offset: fs[2]->U64_0 as i64,
                    })
                }
            } else {
                None
            },
            None => None,
        },
        SyscallKind::Close | SyscallKind::Fsync => match parse_fields(CloseReq::schema(), payload) {
            Some((fs, _)) => if k == SyscallKind::Close {
                Some(SyscallView::Close { fd: fs[0]->U32_0 as i32 })
            } else {
                Some(SyscallView::Fsync { fd: fs[0]->U32_0 as i32 })
            },
            None => None,
        },
        SyscallKind::Remove | SyscallKind::RmDir => match parse_fields(RemoveReq::schema(), payload) {
            Some((fs, _)) => if k == SyscallKind::Remove {
                Some(SyscallView::Remove { path: base + fs[0]->Bytes_0 })
            } else {
                Some(SyscallView::RmDir { path: base + fs[0]->Bytes_0 })
            },
            None => None,
        },
        SyscallKind::MkDir => match parse_fields(MkdirReq::schema(), payload) {
            Some((fs, _)) => Some(SyscallView::MkDir { path: base + fs[1]->Bytes_0, mode: fs[0]->U32_0 }),
            None => None,
        },
    }
}

/// The primitive that request frame (`h`, `payload`) asks for, if the
/// operation has a handler in `m` and the payload holds its request.
pub open spec fn spec_plan(
    m: Map<OpCode, SyscallKind>,
    base: Seq<u8>,
    h: RpcHeader,
    payload: Seq<u8>,
) -> Option<SyscallView> {
    match OpCode::spec_from_code(h.msg_type) {
        Some(op) => if m.contains_key(op) {
            spec_call(m[op], base, payload)
        } else {
            None
        },
        None => None,
    }
}

/// The bytes of a response record.
pub open spec fn response_bytes(result: i32, size: usize, page: Seq<u8>) -> Seq<u8> {
    encode_fields(
        seq![FieldValue::U32(result as u32), FieldValue::U64(size as u64), FieldValue::Bytes(page)],
    )
}

/// `page` made exactly `size` bytes long: cut after `size` bytes, or
/// filled up with zeros.
pub open spec fn fit_page(page: Seq<u8>, size: nat) -> Seq<u8> {
    if page.len() >= size {
        page.take(size as int)
    } else {
        page + Seq::new((size - page.len()) as nat, |i: int| 0u8)
    }
}

/// The frame answering request `msg_id` for primitive `c`, which returned
/// `result` and, for a read, `page`. A read reports the size asked for and
/// a page of exactly that size (the bytes read, then zeros); other
/// primitives report a size of zero and no bytes. A read of more than
/// `MAX_PAGE_LEN` bytes is answered with an error frame. A negative result
/// is carried like any other.
pub open spec fn spec_reply(msg_id: u64, c: SyscallView, result: i32, page: Seq<u8>) -> Seq<u8> {
    let (size, data): (usize, Seq<u8>) = match c {
        SyscallView::Read { size, .. } => (size, fit_page(page, size as nat)),
        SyscallView::PRead { size, .. } => (size, fit_page(page, size as nat)),
        _ => (0usize, Seq::empty()),
    };
    if size <= MAX_PAGE_LEN {
        let body = response_bytes(result, size, data);
        spec_frame(RpcHeader { msg_id, msg_type: REPLY_OK, msg_len: body.len() as u32 }, body)
    } else {
        error_frame(msg_id)
    }
}

/// `page` made exactly `size` bytes long (see `fit_page`).
pub fn fit_to_size(page: &Vec<u8>, size: usize) -> (r: Vec<u8>)
    ensures
        r@ == fit_page(page@, size as nat),
{
    let mut r: Vec<u8> = Vec::new();
    let mut i: usize = 0;
    while i < size
        invariant
            i <= size,
            r@.len() == i,
            forall|j: int| 0 <= j < i ==> r@[j] == (if j < page@.len() { page@[j] } else { 0u8 }),
        decreases size - i,
    {
        if i < page.len() {
            r.push(page[i]);
        } else {
            r.push(0);
        }
        i = i + 1;
    }
    assert(r@ =~= fit_page(page@, size as nat));
    r
}

/// `base` followed by `path`.
fn join_path(base: &Vec<u8>, path: Vec<u8>) -> (r: Vec<u8>)
    ensures
        r@ == base@ + path@,
{
    let mut r = copy_bytes(base.as_slice());
    let mut i: usize = 0;
    let ghost head = r@;
    while i < path.len()
        invariant
            i <= path@.len(),
            r@ == head + path@.take(i as int),
        decreases path@.len() - i,
    {
        r.push(path[i]);
        i = i + 1;
        assert(r@ =~= head + path@.take(i as int));
    }
    assert(path@.take(path@.len() as int) =~= path@);
    r
}

/// The error frame answering request `msg_id`.
pub fn make_error_frame(msg_id: u64) -> (r: Vec<u8>)
    ensures
        r@ == error_frame(msg_id),
{
    let empty: Vec<u8> = Vec::new();
    match encode_frame(msg_id, REPLY_ERROR, empty.as_slice()) {
        Ok(f) => f,
        Err(_) => Vec::new(),
    }
}

/// The primitive that request payload `payload`, served by `k`, asks for.
pub fn decode_call(k: SyscallKind, base: &Vec<u8>, payload: &[u8]) -> (r: Option<Syscall>)
    ensures
        match r {
            Some(c) => spec_call(k, base@, payload@) == Some(c@),
            None => spec_call(k, base@, payload@) is None,
        },
{
    match k {
        SyscallKind::Open => match OpenReq::decode(payload) {
            Some((q, _)) => {
                proof {
                    crate::fileops::lemma_i32_cast(q.flags);
                }
                let path = join_path(base, q.path);
                Some(Syscall::Open { path, flags: q.flags, mode: q.mode })
            },
            None => None,
        },
        SyscallKind::Read | SyscallKind::PRead => match ReadReq::decode(payload) {
            Some((q, _)) => {
                proof {
                    crate::fileops::lemma_i32_cast(q.fd);
                    crate::fileops::lemma_i64_cast(q.offset);
                }
                if q.size > MAX_PAGE_LEN as usize {
                    None
                } else if k == SyscallKind::Read {
                    Some(Syscall::Read { fd: q.fd, size: q.size })
                } else {
                    Some(Syscall::PRead { fd: q.fd, size: q.size, offset: q.offset })
                }
            },
            None => None,
        },
        SyscallKind::Write | SyscallKind::PWrite => {
            proof {
                crate::wire::lemma_parsed_fields_fit(WriteReq::schema(), payload@);
                if parse_fields(WriteReq::schema(), payload@) is Some {
                    let fs = parse_fields(WriteReq::schema(), payload@)->Some_0.0;
                    assert(crate::wire::field_fits(WriteReq::schema()[3], fs[3]));
                }
            }
            match WriteReq::decode(payload) {
                Some((q, _)) => {
                    proof {
                        crate::fileops::lemma_i32_cast(q.fd);
                        crate::fileops::lemma_i64_cast(q.offset);
                    }
                    if q.size > q.page.len() {
                        None
                    } else if k == SyscallKind::Write {
                        Some(Syscall::Write { fd: q.fd, page: q.page, size: q.size })
                    } else {
                        Some(Syscall::PWrite { fd: q.fd, page: q.page, size: q.size, offset: q.offset })
                    }
                },
                None => None,
            }
        },
        SyscallKind::Close | SyscallKind::Fsync => match CloseReq::decode(payload) {
            Some((q, _)) => {
                proof {
                    crate::fileops::lemma_i32_cast(q.fd);
                }
                if k == SyscallKind::Close {
                    Some(Syscall::Close { fd: q.fd })
                } else {
                    Some(Syscall::Fsync { fd: q.fd })
                }
            },
            None => None,
        },
        SyscallKind::Remove | SyscallKind::RmDir => match RemoveReq::decode(payload) {
            Some((q, _)) => {
                let path = join_path(base, q.path);
                if k == SyscallKind::Remove {
                    Some(Syscall::Remove { path })
                } else {
                    Some(Syscall::RmDir { path })
                }
            },
            None => None,
        },
        SyscallKind::MkDir => match MkdirReq::decode(payload) {
            Some((q, _)) => {
                let path = join_path(base, q.path);
                Some(Syscall::MkDir { path, mode: q.mode })
            },
            None => None,
        },
    }
}


/// The handler set of a file server: each served operation mapped to its
/// primitive.
pub open spec fn standard_handlers() -> Map<OpCode, SyscallKind> {
    map![
        OpCode::Open => SyscallKind::Open,
        OpCode::Read => SyscallKind::Read,
        OpCode::PRead => SyscallKind::PRead,
        OpCode::Write => SyscallKind::Write,
        OpCode::PWrite => SyscallKind::PWrite,
        OpCode::Close => SyscallKind::Close,
        OpCode::Remove => SyscallKind::Remove,
        OpCode::MkDir => SyscallKind::MkDir,
        OpCode::RmDir => SyscallKind::RmDir,
        OpCode::Fsync => SyscallKind::Fsync,
    ]
}

/// Registers the file server's handlers in an empty table.
pub fn register_rpcs(table: &mut HandlerTable<SyscallKind>)
    requires
        old(table).wf(),
        old(table)@ == Map::<OpCode, SyscallKind>::empty(),
    ensures
        final(table).wf(),
        final(table)@ == standard_handlers(),
{
    let ghost m0 = table@;
    let _ = table.register(OpCode::Open, SyscallKind::Open);
    let _ = table.register(OpCode::Read, SyscallKind::Read);
    let _ = table.register(OpCode::PRead, SyscallKind::PRead);
    let _ = table.register(OpCode::Write, SyscallKind::Write);
    let _ = table.register(OpCode::PWrite, SyscallKind::PWrite);
    let _ = table.register(OpCode::Close, SyscallKind::Close);
    let _ = table.register(OpCode::Remove, SyscallKind::Remove);
    let _ = table.register(OpCode::MkDir, SyscallKind::MkDir);
    let _ = table.register(OpCode::RmDir, SyscallKind::RmDir);
    let _ = table.register(OpCode::Fsync, SyscallKind::Fsync);
    assert(table@ =~= standard_handlers());
}

/// A file server: its handler table and the directory every path is
/// taken under.
pub struct Server {
    table: HandlerTable<SyscallKind>,
    base: Vec<u8>,
}

impl Server {
    pub closed spec fn handlers(&self) -> Map<OpCode, SyscallKind> {
        self.table@
    }

    pub closed spec fn base_path(&self) -> Seq<u8> {
        self.base@
    }

    pub closed spec fn wf(&self) -> bool {
        self.table.wf()
    }

    /// A server with the standard handler set, serving paths under `base`.
    pub fn new(base: Vec<u8>) -> (r: Server)
        ensures
            r.wf(),
            r.handlers() == standard_handlers(),
            r.base_path() == base@,
    {
        let mut table = HandlerTable::new();
        register_rpcs(&mut table);
        Server { table, base }
    }

    /// What to do with request frame (`h`, `payload`): the primitive it asks
    /// for, or an error frame when the operation has no handler or the
    /// payload does not hold its request.
    pub fn plan(&self, h: &RpcHeader, payload: &[u8]) -> (r: Dispatch)
        requires
            self.wf(),
        ensures
            match r {
                Dispatch::Invoke(c) => spec_plan(self.handlers(), self.base_path(), *h, payload@)
                    == Some(c@),
                Dispatch::Reply(f) => spec_plan(self.handlers(), self.base_path(), *h, payload@) is None
                    && f@ == error_frame(h.msg_id),
            },
    {
        let op = match OpCode::from_code(h.msg_type) {
            Some(op) => op,
            None => return Dispatch::Reply(make_error_frame(h.msg_id)),
        };
        let k = match self.table.get(op) {
            Some(k) => k,
            None => return Dispatch::Reply(make_error_frame(h.msg_id)),
        };
        match decode_call(k, &self.base, payload) {
            Some(c) => Dispatch::Invoke(c),
            None => Dispatch::Reply(make_error_frame(h.msg_id)),
        }
    }

    /// Serves one request frame with `host` running the primitive. An
    /// unserved request gets the error frame; a served one gets the reply
    /// to whatever the primitive returned.
    pub fn handle<T: SyscallHost>(&self, h: &RpcHeader, payload: &[u8], host: &mut T) -> (r: Vec<u8>)
        requires
            self.wf(),
        ensures
            match spec_plan(self.handlers(), self.base_path(), *h, payload@) {
                None => r@ == error_frame(h.msg_id),
                Some(c) => exists|result: i32, page: Seq<u8>| r@ == spec_reply(h.msg_id, c, result, page),
            },
    {
        match self.plan(h, payload) {
            Dispatch::Reply(f) => f,
            Dispatch::Invoke(c) => {
                let outcome = host.execute(&c);
                let ghost result = outcome.result;
                let ghost page = outcome.page@;
                let r = reply(h.msg_id, &c, outcome);
                assert(r@ == spec_reply(h.msg_id, c@, result, page));
                r
            },
        }
    }
}

/// The frame answering request `msg_id` for primitive `c`, given what it
/// returned.
pub fn reply(msg_id: u64, c: &Syscall, outcome: SyscallOutcome) -> (r: Vec<u8>)
    ensures
        r@ == spec_reply(msg_id, c@, outcome.result, outcome.page@),
{
    let size: usize = match c {
        Syscall::Read { size, .. } => *size,
        Syscall::PRead { size, .. } => *size,
        _ => 0,
    };
    if size > MAX_PAGE_LEN as usize {
        return make_error_frame(msg_id);
    }
    let page: Vec<u8> = match c {
        Syscall::Read { .. } | Syscall::PRead { .. } => fit_to_size(&outcome.page, size),
        _ => Vec::new(),
    };
    let resp = Response { result: outcome.result, size, page };
    let body = resp.encode();
    proof {
        encoded_response_len(resp.result, resp.size, resp.page@);
    }
    match encode_frame(msg_id, REPLY_OK, body.as_slice()) {
        Ok(f) => f,
        Err(_) => make_error_frame(msg_id),
    }
}

proof fn encoded_response_len(result: i32, size: usize, page: Seq<u8>)
    ensures
        response_bytes(result, size, page).len() == 16 + page.len(),
{
    reveal_with_fuel(encode_fields, 4);
    crate::wire::lemma_le_bytes_len(result as u32 as nat, 4);
    crate::wire::lemma_le_bytes_len(size as u64 as nat, 8);
    crate::wire::lemma_le_bytes_len(page.len(), 4);
}

/// A request for an operation without a handler is answered, not dropped:
/// the answer is an error frame, and it reads back as a well-formed frame
/// with an empty payload.
pub proof fn lemma_unregistered_gets_error_frame(
    m: Map<OpCode, SyscallKind>,
    base: Seq<u8>,
    h: RpcHeader,
    payload: Seq<u8>,
)
    requires
        match OpCode::spec_from_code(h.msg_type) {
            Some(op) => !m.contains_key(op),
            None => true,
        },
    ensures
        spec_plan(m, base, h, payload) is None,
        crate::frame::spec_decode_frame(error_frame(h.msg_id)) == Ok::<(RpcHeader, Seq<u8>), RpcError>(
            (RpcHeader { msg_id: h.msg_id, msg_type: REPLY_ERROR, msg_len: 0 }, Seq::empty()),
        ),
{
    crate::frame::lemma_frame_round_trip(
        RpcHeader { msg_id: h.msg_id, msg_type: REPLY_ERROR, msg_len: 0 },
        Seq::empty(),
        Seq::empty(),
    );
    assert(error_frame(h.msg_id) + Seq::<u8>::empty() =~= error_frame(h.msg_id));
}

} // verus!
