//! The calling side: one synchronous round trip per call over a connection
//! that carries one call at a time.
use vstd::prelude::*;
use vstd::string::StringSliceAdditionalSpecFns;
use crate::fileops::{
    copy_bytes, CloseReq, MkdirReq, OpenReq, ReadReq, RemoveReq, Response, WriteReq, MAX_PAGE_LEN,
    MAX_PATH_LEN,
};
use crate::frame::{encode_frame, spec_frame, RpcError, RpcHeader, HDR_LEN, MAX_PAYLOAD};
use crate::opcode::OpCode;
use crate::server::REPLY_ERROR;
use crate::wire::{encode_fields, parse_fields, FieldValue};

verus! {

/// An ordered, reliable, connection-oriented byte stream.
pub trait Transport {
    /// Sends all of `data`.
    fn send(&mut self, data: &[u8]) -> Result<(), RpcError>;

    /// Receives exactly `len` bytes, or fails with `ConnectionClosed`.
    fn recv(&mut self, len: usize) -> Result<Vec<u8>, RpcError>;
}

/// The buffers of `bufs`, one after the other.
pub open spec fn concat(bufs: Seq<Seq<u8>>) -> Seq<u8>
    decreases bufs.len(),
{
    if bufs.len() == 0 {
        Seq::empty()
    } else {
        concat(bufs.drop_last()) + bufs.last()
    }
}

/// Joins request buffers into one payload.
pub fn concat_buffers(bufs: &Vec<Vec<u8>>) -> (r: Vec<u8>)
    ensures
        r@ == concat(bufs.deep_view()),
{
    let mut r: Vec<u8> = Vec::new();
    let mut i: usize = 0;
    while i < bufs.len()
        invariant
            i <= bufs@.len(),
            r@ == concat(bufs.deep_view().take(i as int)),
        decreases bufs@.len() - i,
    {
        let ghost before = r@;
        let b = &bufs[i];
        let mut j: usize = 0;
        while j < b.len()
            invariant
                j <= b@.len(),
                r@ == before + b@.take(j as int),
            decreases b@.len() - j,
        {
            r.push(b[j]);
            j = j + 1;
            assert(r@ =~= before + b@.take(j as int));
        }
        assert(b@.take(b@.len() as int) =~= b@);
        assert(bufs.deep_view().take(i + 1).drop_last() =~= bufs.deep_view().take(i as int));
        i = i + 1;
    }
    assert(bufs.deep_view().take(bufs@.len() as int) =~= bufs.deep_view());
    r
}

/// Takes a reply into `out`: an error frame is `Rejected`, a payload longer
/// than `out` is `BufferTooSmall`; otherwise the payload overwrites the
/// start of `out` and the rest of `out` is kept.
pub fn accept_reply(h: &RpcHeader, payload: &[u8], out: &mut Vec<u8>) -> (r: Result<(), RpcError>)
    ensures
        final(out)@.len() == old(out)@.len(),
        h.msg_type == REPLY_ERROR ==> r == Err::<(), RpcError>(RpcError::Rejected) && final(out)@ == old(out)@,
        h.msg_type != REPLY_ERROR && payload@.len() > old(out)@.len() ==> r == Err::<(), RpcError>(
            RpcError::BufferTooSmall,
        ) && final(out)@ == old(out)@,
        h.msg_type != REPLY_ERROR && payload@.len() <= old(out)@.len() ==> r is Ok && final(out)@
            == payload@ + old(out)@.skip(payload@.len() as int),
{
    if h.msg_type == REPLY_ERROR {
        return Err(RpcError::Rejected);
    }
    if payload.len() > out.len() {
        return Err(RpcError::BufferTooSmall);
    }
    let mut i: usize = 0;
    while i < payload.len()
        invariant
            i <= payload@.len() <= out@.len(),
            out@.len() == old(out)@.len(),
            out@ == payload@.take(i as int) + old(out)@.skip(i as int),
        decreases payload@.len() - i,
    {
        out.set(i, payload[i]);
        i = i + 1;
        assert(out@ =~= payload@.take(i as int) + old(out)@.skip(i as int));
    }
    assert(payload@.take(payload@.len() as int) =~= payload@);
    Ok(())
}

/// The fields of the response at the start of reply buffer `reply`, if it
/// holds one.
pub open spec fn spec_reply_fields(reply: Seq<u8>) -> Option<Seq<FieldValue>> {
    match parse_fields(Response::schema(), reply) {
        Some((fs, _)) => if fs[1]->U64_0 <= usize::MAX {
            Some(fs)
        } else {
            None
        },
        None => None,
    }
}

/// The status a reply buffer reports, or `MalformedPayload` when it holds
/// no response.
pub open spec fn spec_status(reply: Seq<u8>) -> Result<i32, RpcError> {
    match spec_reply_fields(reply) {
        Some(fs) => Ok(fs[0]->U32_0 as i32),
        None => Err(RpcError::MalformedPayload),
    }
}

/// The page a reply buffer carries.
pub open spec fn spec_reply_page(reply: Seq<u8>) -> Seq<u8> {
    spec_reply_fields(reply)->Some_0[2]->Bytes_0
}

/// Reads the response record at the start of a reply.
pub fn parse_response(out: &[u8]) -> (r: Result<Response, RpcError>)
    ensures
        match r {
            Ok(q) => spec_reply_fields(out@) == Some(q.spec_fields()),
            Err(e) => e == RpcError::MalformedPayload && spec_reply_fields(out@) is None,
        },
{
    match Response::decode(out) {
        Some((q, _)) => {
            proof {
                crate::fileops::lemma_response_round_trip_fields(&q);
            }
            Ok(q)
        },
        None => Err(RpcError::MalformedPayload),
    }
}

/// The status that reply buffer `reply` reports.
pub fn status_result(reply: &[u8]) -> (r: Result<i32, RpcError>)
    ensures
        r == spec_status(reply@),
{
    match parse_response(reply) {
        Ok(q) => {
            proof {
                crate::fileops::lemma_i32_cast(q.result);
            }
            Ok(q.result)
        },
        Err(e) => Err(e),
    }
}

/// The status that reply buffer `reply` reports; on success `page` becomes
/// the page it carries, else `page` is kept.
pub fn read_result(reply: &[u8], page: &mut Vec<u8>) -> (r: Result<i32, RpcError>)
    ensures
        r == spec_status(reply@),
        r is Ok ==> final(page)@ == spec_reply_page(reply@),
        r is Err ==> final(page)@ == old(page)@,
{
    match parse_response(reply) {
        Ok(q) => {
            proof {
                crate::fileops::lemma_i32_cast(q.result);
            }
            *page = q.page;
            Ok(q.result)
        },
        Err(e) => Err(e),
    }
}

/// The bytes of an open request.
pub open spec fn open_bytes(path: Seq<u8>, flags: i32, mode: u32) -> Seq<u8> {
    encode_fields(seq![FieldValue::U32(flags as u32), FieldValue::U32(mode), FieldValue::Bytes(path)])
}

/// The bytes of a read request.
pub open spec fn read_bytes(fd: i32, size: usize, offset: i64) -> Seq<u8> {
    encode_fields(seq![FieldValue::U32(fd as u32), FieldValue::U64(size as u64), FieldValue::U64(offset as u64)])
}

/// The bytes of a write request.
pub open spec fn write_bytes(fd: i32, page: Seq<u8>, size: usize, offset: i64) -> Seq<u8> {
    encode_fields(
        seq![
            FieldValue::U32(fd as u32),
            FieldValue::U64(size as u64),
            FieldValue::U64(offset as u64),
            FieldValue::Bytes(page),
        ],
    )
}

/// The bytes of a request about one descriptor (close, fsync).
pub open spec fn fd_bytes(fd: i32) -> Seq<u8> {
    encode_fields(seq![FieldValue::U32(fd as u32)])
}

/// The bytes of a request about one path (remove, rmdir).
pub open spec fn path_bytes(path: Seq<u8>) -> Seq<u8> {
    encode_fields(seq![FieldValue::Bytes(path)])
}

/// The bytes of a mkdir request.
pub open spec fn mkdir_bytes(path: Seq<u8>, mode: u32) -> Seq<u8> {
    encode_fields(seq![FieldValue::U32(mode), FieldValue::Bytes(path)])
}

/// The open request for `path`; `PathTooLong` exactly when the path is over
/// `MAX_PATH_LEN` bytes.
pub fn open_request(path: &str, flags: i32, mode: u32) -> (r: Result<(OpCode, Vec<u8>), RpcError>)
    ensures
        path.spec_bytes().len() <= MAX_PATH_LEN ==> r is Ok && r->Ok_0.0 == OpCode::Open && r->Ok_0.1@
            == open_bytes(path.spec_bytes(), flags, mode) && r->Ok_0.1@.len() <= MAX_PAYLOAD,
        path.spec_bytes().len() > MAX_PATH_LEN ==> r == Err::<(OpCode, Vec<u8>), RpcError>(RpcError::PathTooLong),
{
    let bytes = path.as_bytes();
    if bytes.len() > MAX_PATH_LEN as usize {
        return Err(RpcError::PathTooLong);
    }
    let req = OpenReq { path: copy_bytes(bytes), flags, mode };
    let enc = req.encode();
    proof {
        crate::fileops::lemma_open_req_len(&req);
    }
    Ok((OpCode::Open, enc))
}

/// The read request for `size` bytes of `fd`: at `offset` when
/// `positional`, else at the cursor (offset 0 on the wire);
/// `PayloadTooLarge` exactly when `size` is over `MAX_PAGE_LEN`.
pub fn read_request(positional: bool, fd: i32, size: usize, offset: i64) -> (r: Result<(OpCode, Vec<u8>), RpcError>)
    ensures
        size <= MAX_PAGE_LEN ==> r is Ok && r->Ok_0.0 == (if positional {
            OpCode::PRead
        } else {
            OpCode::Read
        }) && r->Ok_0.1@ == read_bytes(fd, size, if positional { offset } else { 0 }) && r->Ok_0.1@.len()
            <= MAX_PAYLOAD,
        size > MAX_PAGE_LEN ==> r == Err::<(OpCode, Vec<u8>), RpcError>(RpcError::PayloadTooLarge),
{
    if size > MAX_PAGE_LEN as usize {
        return Err(RpcError::PayloadTooLarge);
    }
    let req = ReadReq { fd, size, offset: if positional { offset } else { 0 } };
    let enc = req.encode();
    proof {
        crate::fileops::lemma_read_req_len(&req);
    }
    Ok((if positional { OpCode::PRead } else { OpCode::Read }, enc))
}

/// The write request for the first `size` bytes of `page` to `fd`: at
/// `offset` when `positional`, else at the cursor (offset 0 on the wire);
/// `PayloadTooLarge` exactly when `page` is over `MAX_PAGE_LEN` bytes.
pub fn write_request(positional: bool, fd: i32, page: &Vec<u8>, size: usize, offset: i64) -> (r: Result<
    (OpCode, Vec<u8>),
    RpcError,
>)
    ensures
        page@.len() <= MAX_PAGE_LEN ==> r is Ok && r->Ok_0.0 == (if positional {
            OpCode::PWrite
        } else {
            OpCode::Write
        }) && r->Ok_0.1@ == write_bytes(fd, page@, size, if positional { offset } else { 0 })
            && r->Ok_0.1@.len() <= MAX_PAYLOAD,
        page@.len() > MAX_PAGE_LEN ==> r == Err::<(OpCode, Vec<u8>), RpcError>(RpcError::PayloadTooLarge),
{
    if page.len() > MAX_PAGE_LEN as usize {
        return Err(RpcError::PayloadTooLarge);
    }
    let req = WriteReq { fd, page: copy_bytes(page.as_slice()), size, offset: if positional { offset } else { 0 } };
    let enc = req.encode();
    proof {
        crate::fileops::lemma_write_req_len(&req);
    }
    Ok((if positional { OpCode::PWrite } else { OpCode::Write }, enc))
}

/// The request that closes `fd`, or flushes it when `flush`.
pub fn fd_request(flush: bool, fd: i32) -> (r: (OpCode, Vec<u8>))
    ensures
        r.0 == (if flush { OpCode::Fsync } else { OpCode::Close }),
        r.1@ == fd_bytes(fd),
        r.1@.len() <= MAX_PAYLOAD,
{
    let req = CloseReq { fd };
    let enc = req.encode();
    proof {
        crate::fileops::lemma_close_req_len(&req);
    }
    (if flush { OpCode::Fsync } else { OpCode::Close }, enc)
}

/// The request that removes the file at `path`, or the directory when
/// `dir`; `PathTooLong` exactly when the path is over `MAX_PATH_LEN` bytes.
pub fn remove_request(dir: bool, path: &str) -> (r: Result<(OpCode, Vec<u8>), RpcError>)
    ensures
        path.spec_bytes().len() <= MAX_PATH_LEN ==> r is Ok && r->Ok_0.0 == (if dir {
            OpCode::RmDir
        } else {
            OpCode::Remove
        }) && r->Ok_0.1@ == path_bytes(path.spec_bytes()) && r->Ok_0.1@.len() <= MAX_PAYLOAD,
        path.spec_bytes().len() > MAX_PATH_LEN ==> r == Err::<(OpCode, Vec<u8>), RpcError>(RpcError::PathTooLong),
{
    let bytes = path.as_bytes();
    if bytes.len() > MAX_PATH_LEN as usize {
        return Err(RpcError::PathTooLong);
    }
    let req = RemoveReq { path: copy_bytes(bytes) };
    let enc = req.encode();
    proof {
        crate::fileops::lemma_remove_req_len(&req);
    }
    Ok((if dir { OpCode::RmDir } else { OpCode::Remove }, enc))
}

/// The request that creates directory `path` with `mode`; `PathTooLong`
/// exactly when the path is over `MAX_PATH_LEN` bytes.
pub fn mkdir_request(path: &str, mode: u32) -> (r: Result<(OpCode, Vec<u8>), RpcError>)
    ensures
        path.spec_bytes().len() <= MAX_PATH_LEN ==> r is Ok && r->Ok_0.0 == OpCode::MkDir && r->Ok_0.1@
            == mkdir_bytes(path.spec_bytes(), mode) && r->Ok_0.1@.len() <= MAX_PAYLOAD,
        path.spec_bytes().len() > MAX_PATH_LEN ==> r == Err::<(OpCode, Vec<u8>), RpcError>(RpcError::PathTooLong),
{
    let bytes = path.as_bytes();
    if bytes.len() > MAX_PATH_LEN as usize {
        return Err(RpcError::PathTooLong);
    }
    let req = MkdirReq { path: copy_bytes(bytes), mode };
    let enc = req.encode();
    proof {
        crate::fileops::lemma_mkdir_req_len(&req);
    }
    Ok((OpCode::MkDir, enc))
}

/// The frame that carries `payload` as operation `op` with id `msg_id`.
pub open spec fn request_frame_bytes(msg_id: u64, op: OpCode, payload: Seq<u8>) -> Seq<u8> {
    spec_frame(RpcHeader { msg_id, msg_type: op.spec_code(), msg_len: payload.len() as u32 }, payload)
}

/// The id after `id`; ids wrap round to 1.
pub open spec fn next_id_after(id: u64) -> u64 {
    if id == u64::MAX {
        1
    } else {
        (id + 1) as u64
    }
}

/// A call that failed on its way: no reply was taken, and the error is one
/// that only the connection or the peer causes.
pub open spec fn call_failed(before: Seq<Seq<u8>>, after: Seq<Seq<u8>>, e: RpcError) -> bool {
    &&& after == before
    &&& e != RpcError::PathTooLong
    &&& e != RpcError::PayloadTooLarge
    &&& e != RpcError::MalformedPayload
    &&& e != RpcError::DuplicateRegistration
}

/// What a typed call returns, given the replies taken before and after it:
/// either exactly one more reply was taken and the result is the status it
/// reports, or none was and the call failed.
pub open spec fn status_outcome(before: Seq<Seq<u8>>, after: Seq<Seq<u8>>, r: Result<i32, RpcError>) -> bool {
    ||| (after.len() == before.len() + 1 && after.drop_last() == before && r == spec_status(after.last()))
    ||| (r is Err && call_failed(before, after, r->Err_0))
}

/// As `status_outcome`, and a read's page becomes the page of the reply on
/// success and is kept otherwise.
pub open spec fn read_outcome(
    before: Seq<Seq<u8>>,
    after: Seq<Seq<u8>>,
    r: Result<i32, RpcError>,
    old_page: Seq<u8>,
    new_page: Seq<u8>,
) -> bool {
    &&& status_outcome(before, after, r)
    &&& r is Ok ==> new_page == spec_reply_page(after.last())
    &&& r is Err ==> new_page == old_page
}

/// A client: one connection and the id its next call will carry. It keeps,
/// for its contracts, every frame it handed to the connection and every
/// reply it took.
pub struct Client<T> {
    transport: T,
    next_id: u64,
    sent: Ghost<Seq<Seq<u8>>>,
    replies: Ghost<Seq<Seq<u8>>>,
}

/// Room for the largest response a server sends: its 16 bytes of fixed
/// fields and length prefix, and a page of `MAX_PAGE_LEN` bytes.
pub const REPLY_CAPACITY: usize = 32784;

impl<T: Transport> Client<T> {
    pub closed spec fn next_msg_id(&self) -> u64 {
        self.next_id
    }

    /// The frames handed to the connection, oldest first.
    pub closed spec fn sent_frames(&self) -> Seq<Seq<u8>> {
        self.sent@
    }

    /// The reply buffers taken, oldest first.
    pub closed spec fn accepted_replies(&self) -> Seq<Seq<u8>> {
        self.replies@
    }

    pub fn new(transport: T) -> (r: Client<T>)
        ensures
            r.next_msg_id() == 1,
            r.sent_frames() == Seq::<Seq<u8>>::empty(),
            r.accepted_replies() == Seq::<Seq<u8>>::empty(),
    {
        Client { transport, next_id: 1, sent: Ghost(Seq::empty()), replies: Ghost(Seq::empty()) }
    }

    /// The frame for the next call, made of the request buffers `request`
    /// as operation `op`; each frame takes a fresh id. Nothing is sent.
    pub fn request_frame(&mut self, op: OpCode, request: &Vec<Vec<u8>>) -> (r: Result<Vec<u8>, RpcError>)
        ensures
            final(self).next_msg_id() == next_id_after(old(self).next_msg_id()),
            final(self).sent_frames() == old(self).sent_frames(),
            final(self).accepted_replies() == old(self).accepted_replies(),
            match r {
                Ok(f) => concat(request.deep_view()).len() <= MAX_PAYLOAD && f@ == request_frame_bytes(
                    old(self).next_msg_id(),
                    op,
                    concat(request.deep_view()),
                ),
                Err(e) => e == RpcError::PayloadTooLarge && concat(request.deep_view()).len() > MAX_PAYLOAD,
            },
    {
        let id = self.next_id;
        self.next_id = if id == u64::MAX { 1 } else { id + 1 };
        let payload = concat_buffers(request);
        encode_frame(id, op.code(), payload.as_slice())
    }

    /// One round trip: hands the frame of `request` as operation `op` to the
    /// connection once, waits for the reply and copies its payload to the
    /// start of `out`. A failure of the connection is `ConnectionClosed`.
    pub fn call(&mut self, op: OpCode, request: &Vec<Vec<u8>>, out: &mut Vec<u8>) -> (r: Result<(), RpcError>)
        ensures
            final(out)@.len() == old(out)@.len(),
            final(self).next_msg_id() == next_id_after(old(self).next_msg_id()),
            concat(request.deep_view()).len() > MAX_PAYLOAD ==> r == Err::<(), RpcError>(RpcError::PayloadTooLarge)
                && final(self).sent_frames() == old(self).sent_frames(),
            concat(request.deep_view()).len() <= MAX_PAYLOAD ==> final(self).sent_frames() == old(
                self,
            ).sent_frames().push(request_frame_bytes(old(self).next_msg_id(), op, concat(request.deep_view()))),
            r is Ok ==> final(self).accepted_replies() == old(self).accepted_replies().push(final(out)@)
                && exists|p: Seq<u8>| p.len() <= old(out)@.len() && final(out)@ == p + old(out)@.skip(p.len() as int),
            r is Err ==> final(self).accepted_replies() == old(self).accepted_replies() && final(out)@ == old(out)@,
            r matches Err(e) ==> e != RpcError::PathTooLong && e != RpcError::MalformedPayload && e
                != RpcError::DuplicateRegistration && (e == RpcError::PayloadTooLarge ==> concat(
                request.deep_view(),
            ).len() > MAX_PAYLOAD),
    {
        let frame = match self.request_frame(op, request) {
            Ok(f) => f,
            Err(e) => return Err(e),
        };
        self.sent = Ghost(self.sent@.push(frame@));
        match self.transport.send(frame.as_slice()) {
            Ok(()) => {},
            Err(_) => return Err(RpcError::ConnectionClosed),
        }
        let hdr_bytes = match self.transport.recv(HDR_LEN) {
            Ok(b) => b,
            Err(_) => return Err(RpcError::ConnectionClosed),
        };
        let h = match RpcHeader::decode(hdr_bytes.as_slice()) {
            Some(h) => h,
            None => return Err(RpcError::MalformedFrame),
        };
        if h.msg_len > MAX_PAYLOAD {
            return Err(RpcError::MalformedFrame);
        }
        let payload = match self.transport.recv(h.msg_len as usize) {
            Ok(b) => b,
            Err(_) => return Err(RpcError::ConnectionClosed),
        };
        if payload.len() != h.msg_len as usize {
            return Err(RpcError::MalformedFrame);
        }
        let res = accept_reply(&h, payload.as_slice(), out);
        if res.is_ok() {
            self.replies = Ghost(self.replies@.push(out@));
        }
        res
    }

    /// Sends request record `request` as operation `op` and reads the status
    /// of the reply.
    fn status_call(&mut self, op: OpCode, request: Vec<u8>) -> (r: Result<i32, RpcError>)
        requires
            request@.len() <= MAX_PAYLOAD,
        ensures
            final(self).next_msg_id() == next_id_after(old(self).next_msg_id()),
            final(self).sent_frames() == old(self).sent_frames().push(
                request_frame_bytes(old(self).next_msg_id(), op, request@),
            ),
            status_outcome(old(self).accepted_replies(), final(self).accepted_replies(), r),
    {
        let ghost before = self.replies@;
        let mut out: Vec<u8> = vec![0u8; REPLY_CAPACITY];
        match self.send_one(op, request, &mut out) {
            Ok(()) => {
                assert(self.replies@.drop_last() =~= before);
                status_result(out.as_slice())
            },
            Err(e) => Err(e),
        }
    }

    /// Sends request record `request` as operation `op`; on a status
    /// reply `page` becomes the page it carries.
    fn read_call(&mut self, op: OpCode, request: Vec<u8>, page: &mut Vec<u8>) -> (r: Result<i32, RpcError>)
        requires
            request@.len() <= MAX_PAYLOAD,
        ensures
            final(self).next_msg_id() == next_id_after(old(self).next_msg_id()),
            final(self).sent_frames() == old(self).sent_frames().push(
                request_frame_bytes(old(self).next_msg_id(), op, request@),
            ),
            read_outcome(old(self).accepted_replies(), final(self).accepted_replies(), r, old(page)@, final(page)@),
    {
        let ghost before = self.replies@;
        let mut out: Vec<u8> = vec![0u8; REPLY_CAPACITY];
        match self.send_one(op, request, &mut out) {
            Ok(()) => {
                assert(self.replies@.drop_last() =~= before);
                read_result(out.as_slice(), page)
            },
            Err(e) => Err(e),
        }
    }

    /// `call` with a single request buffer.
    fn send_one(&mut self, op: OpCode, request: Vec<u8>, out: &mut Vec<u8>) -> (r: Result<(), RpcError>)
        requires
            request@.len() <= MAX_PAYLOAD,
        ensures
            final(self).next_msg_id() == next_id_after(old(self).next_msg_id()),
            final(self).sent_frames() == old(self).sent_frames().push(
                request_frame_bytes(old(self).next_msg_id(), op, request@),
            ),
            r is Ok ==> final(self).accepted_replies() == old(self).accepted_replies().push(final(out)@),
            r is Err ==> call_failed(old(self).accepted_replies(), final(self).accepted_replies(), r->Err_0),
    {
        let ghost req = request@;
        let mut bufs: Vec<Vec<u8>> = Vec::new();
        bufs.push(request);
        proof {
            assert(bufs.deep_view().len() == 1);
            assert(bufs.deep_view()[0] == bufs@[0]@);
            assert(bufs.deep_view() =~= seq![req]);
            reveal_with_fuel(concat, 2);
            assert(seq![req].drop_last() =~= Seq::<Seq<u8>>::empty());
            assert(concat(bufs.deep_view()) =~= req);
        }
        self.call(op, &bufs, out)
    }
}

/// The file operations a benchmark thread makes on the remote host. Each
/// hands exactly one request frame to the connection (none when the
/// request is refused before), and returns the primitive's raw status as
/// the reply reports it, or why the call failed.
pub trait FxRPC {
    /// The frames handed to the connection, oldest first.
    spec fn spec_sent(&self) -> Seq<Seq<u8>>;

    /// The reply buffers taken, oldest first.
    spec fn spec_replies(&self) -> Seq<Seq<u8>>;

    /// The id the next frame carries.
    spec fn spec_next_id(&self) -> u64;

    fn rpc_open(&mut self, path: &str, flags: i32, mode: u32) -> (r: Result<i32, RpcError>)
        ensures
            (r == Err::<i32, RpcError>(RpcError::PathTooLong)) == (path.spec_bytes().len() > MAX_PATH_LEN),
            path.spec_bytes().len() > MAX_PATH_LEN ==> final(self).spec_sent() == old(self).spec_sent()
                && final(self).spec_replies() == old(self).spec_replies(),
            path.spec_bytes().len() <= MAX_PATH_LEN ==> final(self).spec_sent() == old(self).spec_sent().push(
                request_frame_bytes(old(self).spec_next_id(), OpCode::Open, open_bytes(path.spec_bytes(), flags, mode)),
            ) && status_outcome(old(self).spec_replies(), final(self).spec_replies(), r),
    ;

    fn rpc_read(&mut self, fd: i32, page: &mut Vec<u8>, size: usize) -> (r: Result<i32, RpcError>)
        ensures
            (r == Err::<i32, RpcError>(RpcError::PayloadTooLarge)) == (size > MAX_PAGE_LEN),
            size > MAX_PAGE_LEN ==> final(self).spec_sent() == old(self).spec_sent() && final(self).spec_replies()
                == old(self).spec_replies() && final(page)@ == old(page)@,
            size <= MAX_PAGE_LEN ==> final(self).spec_sent() == old(self).spec_sent().push(
                request_frame_bytes(old(self).spec_next_id(), OpCode::Read, read_bytes(fd, size, 0)),
            ) && read_outcome(old(self).spec_replies(), final(self).spec_replies(), r, old(page)@, final(page)@),
    ;

    fn rpc_pread(&mut self, fd: i32, page: &mut Vec<u8>, size: usize, offset: i64) -> (r: Result<i32, RpcError>)
        ensures
            (r == Err::<i32, RpcError>(RpcError::PayloadTooLarge)) == (size > MAX_PAGE_LEN),
            size > MAX_PAGE_LEN ==> final(self).spec_sent() == old(self).spec_sent() && final(self).spec_replies()
                == old(self).spec_replies() && final(page)@ == old(page)@,
            size <= MAX_PAGE_LEN ==> final(self).spec_sent() == old(self).spec_sent().push(
                request_frame_bytes(old(self).spec_next_id(), OpCode::PRead, read_bytes(fd, size, offset)),
            ) && read_outcome(old(self).spec_replies(), final(self).spec_replies(), r, old(page)@, final(page)@),
    ;

    fn rpc_write(&mut self, fd: i32, page: &Vec<u8>, size: usize) -> (r: Result<i32, RpcError>)
        ensures
            (r == Err::<i32, RpcError>(RpcError::PayloadTooLarge)) == (page@.len() > MAX_PAGE_LEN),
            page@.len() > MAX_PAGE_LEN ==> final(self).spec_sent() == old(self).spec_sent()
                && final(self).spec_replies() == old(self).spec_replies(),
            page@.len() <= MAX_PAGE_LEN ==> final(self).spec_sent() == old(self).spec_sent().push(
                request_frame_bytes(old(self).spec_next_id(), OpCode::Write, write_bytes(fd, page@, size, 0)),
            ) && status_outcome(old(self).spec_replies(), final(self).spec_replies(), r),
    ;

    fn rpc_pwrite(&mut self, fd: i32, page: &Vec<u8>, size: usize, offset: i64) -> (r: Result<i32, RpcError>)
        ensures
            (r == Err::<i32, RpcError>(RpcError::PayloadTooLarge)) == (page@.len() > MAX_PAGE_LEN),
            page@.len() > MAX_PAGE_LEN ==> final(self).spec_sent() == old(self).spec_sent()
                && final(self).spec_replies() == old(self).spec_replies(),
            page@.len() <= MAX_PAGE_LEN ==> final(self).spec_sent() == old(self).spec_sent().push(
                request_frame_bytes(old(self).spec_next_id(), OpCode::PWrite, write_bytes(fd, page@, size, offset)),
            ) && status_outcome(old(self).spec_replies(), final(self).spec_replies(), r),
    ;

    fn rpc_close(&mut self, fd: i32) -> (r: Result<i32, RpcError>)
        ensures
            final(self).spec_sent() == old(self).spec_sent().push(
                request_frame_bytes(old(self).spec_next_id(), OpCode::Close, fd_bytes(fd)),
            ),
            status_outcome(old(self).spec_replies(), final(self).spec_replies(), r),
    ;

    fn rpc_fsync(&mut self, fd: i32) -> (r: Result<i32, RpcError>)
        ensures
            final(self).spec_sent() == old(self).spec_sent().push(
                request_frame_bytes(old(self).spec_next_id(), OpCode::Fsync, fd_bytes(fd)),
            ),
            status_outcome(old(self).spec_replies(), final(self).spec_replies(), r),
    ;

    fn rpc_remove(&mut self, path: &str) -> (r: Result<i32, RpcError>)
        ensures
            (r == Err::<i32, RpcError>(RpcError::PathTooLong)) == (path.spec_bytes().len() > MAX_PATH_LEN),
            path.spec_bytes().len() > MAX_PATH_LEN ==> final(self).spec_sent() == old(self).spec_sent()
                && final(self).spec_replies() == old(self).spec_replies(),
            path.spec_bytes().len() <= MAX_PATH_LEN ==> final(self).spec_sent() == old(self).spec_sent().push(
                request_frame_bytes(old(self).spec_next_id(), OpCode::Remove, path_bytes(path.spec_bytes())),
            ) && status_outcome(old(self).spec_replies(), final(self).spec_replies(), r),
    ;

    fn rpc_mkdir(&mut self, path: &str, mode: u32) -> (r: Result<i32, RpcError>)
        ensures
            (r == Err::<i32, RpcError>(RpcError::PathTooLong)) == (path.spec_bytes().len() > MAX_PATH_LEN),
            path.spec_bytes().len() > MAX_PATH_LEN ==> final(self).spec_sent() == old(self).spec_sent()
                && final(self).spec_replies() == old(self).spec_replies(),
            path.spec_bytes().len() <= MAX_PATH_LEN ==> final(self).spec_sent() == old(self).spec_sent().push(
                request_frame_bytes(old(self).spec_next_id(), OpCode::MkDir, mkdir_bytes(path.spec_bytes(), mode)),
            ) && status_outcome(old(self).spec_replies(), final(self).spec_replies(), r),
    ;

    fn rpc_rmdir(&mut self, path: &str) -> (r: Result<i32, RpcError>)
        ensures
            (r == Err::<i32, RpcError>(RpcError::PathTooLong)) == (path.spec_bytes().len() > MAX_PATH_LEN),
            path.spec_bytes().len() > MAX_PATH_LEN ==> final(self).spec_sent() == old(self).spec_sent()
                && final(self).spec_replies() == old(self).spec_replies(),
            path.spec_bytes().len() <= MAX_PATH_LEN ==> final(self).spec_sent() == old(self).spec_sent().push(
                request_frame_bytes(old(self).spec_next_id(), OpCode::RmDir, path_bytes(path.spec_bytes())),
            ) && status_outcome(old(self).spec_replies(), final(self).spec_replies(), r),
    ;
}

impl<T: Transport> FxRPC for Client<T> {
    open spec fn spec_sent(&self) -> Seq<Seq<u8>> {
        self.sent_frames()
    }

    open spec fn spec_replies(&self) -> Seq<Seq<u8>> {
        self.accepted_replies()
    }

    open spec fn spec_next_id(&self) -> u64 {
        self.next_msg_id()
    }

    fn rpc_open(&mut self, path: &str, flags: i32, mode: u32) -> (r: Result<i32, RpcError>) {
        match open_request(path, flags, mode) {
            Ok((op, req)) => self.status_call(op, req),
            Err(e) => Err(e),
        }
    }

    fn rpc_read(&mut self, fd: i32, page: &mut Vec<u8>, size: usize) -> (r: Result<i32, RpcError>) {
        match read_request(false, fd, size, 0) {
            Ok((op, req)) => self.read_call(op, req, page),
            Err(e) => Err(e),
        }
    }

    fn rpc_pread(&mut self, fd: i32, page: &mut Vec<u8>, size: usize, offset: i64) -> (r: Result<i32, RpcError>) {
        match read_request(true, fd, size, offset) {
            Ok((op, req)) => self.read_call(op, req, page),
            Err(e) => Err(e),
        }
    }

    fn rpc_write(&mut self, fd: i32, page: &Vec<u8>, size: usize) -> (r: Result<i32, RpcError>) {
        match write_request(false, fd, page, size, 0) {
            Ok((op, req)) => self.status_call(op, req),
            Err(e) => Err(e),
        }
    }

    fn rpc_pwrite(&mut self, fd: i32, page: &Vec<u8>, size: usize, offset: i64) -> (r: Result<i32, RpcError>) {
        match write_request(true, fd, page, size, offset) {
            Ok((op, req)) => self.status_call(op, req),
            Err(e) => Err(e),
        }
    }

    fn rpc_close(&mut self, fd: i32) -> (r: Result<i32, RpcError>) {
        let (op, req) = fd_request(false, fd);
        self.status_call(op, req)
    }

    fn rpc_fsync(&mut self, fd: i32) -> (r: Result<i32, RpcError>) {
        let (op, req) = fd_request(true, fd);
        self.status_call(op, req)
    }

    fn rpc_remove(&mut self, path: &str) -> (r: Result<i32, RpcError>) {
        match remove_request(false, path) {
            Ok((op, req)) => self.status_call(op, req),
            Err(e) => Err(e),
        }
    }

    fn rpc_mkdir(&mut self, path: &str, mode: u32) -> (r: Result<i32, RpcError>) {
        match mkdir_request(path, mode) {
            Ok((op, req)) => self.status_call(op, req),
            Err(e) => Err(e),
        }
    }

    fn rpc_rmdir(&mut self, path: &str) -> (r: Result<i32, RpcError>) {
        match remove_request(true, path) {
            Ok((op, req)) => self.status_call(op, req),
            Err(e) => Err(e),
        }
    }
}

} // verus!
