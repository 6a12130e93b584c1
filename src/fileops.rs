//! The typed requests and the response that travel in frame payloads. Each
//! is its scalar fields, little-endian and in declared order, followed by
//! its length-prefixed byte regions.
use vstd::prelude::*;
use vstd::string::StringSliceAdditionalSpecFns;
use crate::wire::{
    encode_fields, fields_fit, field_fits, get_bytes, get_u32, get_u64, lemma_fields_round_trip,
    parse_fields, put_bytes, put_u32, put_u64, FieldKind, FieldValue,
};

verus! {

/// The longest path a request may carry; longer ones are refused, never cut.
pub const MAX_PATH_LEN: u32 = 4096;

/// The most data bytes a read or write may carry.
pub const MAX_PAGE_LEN: u32 = 32768;

pub proof fn lemma_i32_cast(x: i32)
    ensures
        ((x as u32) as i32) == x,
{
    assert(((x as u32) as i32) == x) by (bit_vector);
}

pub proof fn lemma_u32_cast(x: u32)
    ensures
        ((x as i32) as u32) == x,
{
    assert(((x as i32) as u32) == x) by (bit_vector);
}

pub proof fn lemma_i64_cast(x: i64)
    ensures
        ((x as u64) as i64) == x,
{
    assert(((x as u64) as i64) == x) by (bit_vector);
}

pub proof fn lemma_u64_cast(x: u64)
    ensures
        ((x as i64) as u64) == x,
{
    assert(((x as i64) as u64) == x) by (bit_vector);
}

/// Copies `v` into a fresh vector.
pub fn copy_bytes(v: &[u8]) -> (r: Vec<u8>)
    ensures
        r@ == v@,
{
    let mut r: Vec<u8> = Vec::new();
    let mut i: usize = 0;
    while i < v.len()
        invariant
            i <= v@.len(),
            r@ == v@.take(i as int),
        decreases v@.len() - i,
    {
        r.push(v[i]);
        i = i + 1;
        assert(r@ =~= v@.take(i as int));
    }
    assert(v@.take(v@.len() as int) =~= v@);
    r
}

/// Asks the server to open `path` with `flags` and `mode`.
pub struct OpenReq {
    pub path: Vec<u8>,
    pub flags: i32,
    pub mode: u32,
}

impl OpenReq {
    pub open spec fn schema() -> Seq<FieldKind> {
        seq![FieldKind::U32, FieldKind::U32, FieldKind::Bytes { max: MAX_PATH_LEN }]
    }

    pub open spec fn spec_fields(&self) -> Seq<FieldValue> {
        seq![FieldValue::U32(self.flags as u32), FieldValue::U32(self.mode), FieldValue::Bytes(self.path@)]
    }

    pub open spec fn wf(&self) -> bool {
        self.path@.len() <= MAX_PATH_LEN
    }

    pub open spec fn spec_encode(&self) -> Seq<u8> {
        encode_fields(self.spec_fields())
    }

    pub fn encode(&self) -> (r: Vec<u8>)
        requires
            self.wf(),
        ensures
            r@ == self.spec_encode(),
    {
        let mut buf: Vec<u8> = Vec::new();
        put_u32(&mut buf, self.flags as u32);
        put_u32(&mut buf, self.mode);
        put_bytes(&mut buf, self.path.as_slice());
        proof {
            reveal_with_fuel(encode_fields, 4);
            assert(buf@ =~= self.spec_encode());
        }
        buf
    }

    /// Reads an open request from the start of `b`, with the number of
    /// bytes it took.
    pub fn decode(b: &[u8]) -> (r: Option<(OpenReq, usize)>)
        ensures
            match r {
                Some((q, n)) => parse_fields(Self::schema(), b@) == Some((q.spec_fields(), n as nat)),
                None => parse_fields(Self::schema(), b@) is None,
            },
    {
        proof {
            reveal_with_fuel(parse_fields, 4);
            assert(b@.skip(0) =~= b@);
        }
        let flags = match get_u32(b, 0) {
            Some(v) => v,
            None => return None,
        };
        assert(b@.skip(4) =~= b@.skip(0).skip(4));
        let mode = match get_u32(b, 4) {
            Some(v) => v,
            None => return None,
        };
        assert(b@.skip(8) =~= b@.skip(4).skip(4));
        let path = match get_bytes(b, 8, MAX_PATH_LEN) {
            Some(v) => v,
            None => return None,
        };
        let n: usize = 12 + path.len();
        let q = OpenReq { path, flags: flags as i32, mode };
        proof {
            lemma_u32_cast(flags);
            let ks = Self::schema();
            assert(ks.drop_first().drop_first().drop_first() =~= Seq::<FieldKind>::empty());
            assert(ks.drop_first().drop_first() =~= seq![FieldKind::Bytes { max: MAX_PATH_LEN }]);
            assert(ks.drop_first() =~= seq![FieldKind::U32, FieldKind::Bytes { max: MAX_PATH_LEN }]);
            assert(q.spec_fields() =~= seq![FieldValue::U32(flags)] + (seq![FieldValue::U32(mode)] + (seq![FieldValue::Bytes(q.path@)] + Seq::empty())));
        }
        Some((q, n))
    }
}


/// An open request read back from its own bytes, whatever follows them,
/// comes back equal in every field, and exactly its bytes are consumed.
pub proof fn lemma_open_req_round_trip(r: OpenReq, rest: Seq<u8>)
    requires
        r.wf(),
    ensures
        parse_fields(OpenReq::schema(), r.spec_encode() + rest) == Some(
            (r.spec_fields(), r.spec_encode().len()),
        ),
        forall|q: OpenReq| #[trigger]
            q.spec_fields() == r.spec_fields() ==> q.path@ == r.path@ && q.flags == r.flags
                && q.mode == r.mode,
{
    let ks = OpenReq::schema();
    let fs = r.spec_fields();
    assert(fields_fit(ks, fs)) by {
        assert forall|i: int| 0 <= i < ks.len() implies field_fits(#[trigger] ks[i], fs[i]) by {}
    }
    lemma_fields_round_trip(ks, fs, rest);
    assert forall|q: OpenReq| #[trigger]
        q.spec_fields() == r.spec_fields() implies q.path@ == r.path@ && q.flags == r.flags
        && q.mode == r.mode by {
        assert(q.spec_fields()[0] == fs[0]);
        assert(q.spec_fields()[1] == fs[1]);
        assert(q.spec_fields()[2] == fs[2]);
        lemma_i32_cast(q.flags);
        lemma_i32_cast(r.flags);
    }
}

/// Asks the server for `size` bytes of `fd`, at `offset` where the
/// operation is positional.
pub struct ReadReq {
    pub fd: i32,
    pub size: usize,
    pub offset: i64,
}

impl ReadReq {
    pub open spec fn schema() -> Seq<FieldKind> {
        seq![FieldKind::U32, FieldKind::U64, FieldKind::U64]
    }

    pub open spec fn spec_fields(&self) -> Seq<FieldValue> {
        seq![
            FieldValue::U32(self.fd as u32),
            FieldValue::U64(self.size as u64),
            FieldValue::U64(self.offset as u64),
        ]
    }

    pub open spec fn spec_encode(&self) -> Seq<u8> {
        encode_fields(self.spec_fields())
    }

    pub fn encode(&self) -> (r: Vec<u8>)
        ensures
            r@ == self.spec_encode(),
    {
        let mut buf: Vec<u8> = Vec::new();
        put_u32(&mut buf, self.fd as u32);
        put_u64(&mut buf, self.size as u64);
        put_u64(&mut buf, self.offset as u64);
        proof {
            reveal_with_fuel(encode_fields, 4);
            assert(buf@ =~= self.spec_encode());
        }
        buf
    }

    /// Reads a read request from the start of `b`, with the number of bytes
    /// it took; `None` also where the size does not fit a `usize`.
    pub fn decode(b: &[u8]) -> (r: Option<(ReadReq, usize)>)
        ensures
            match r {
                Some((q, n)) => parse_fields(Self::schema(), b@) == Some((q.spec_fields(), n as nat)),
                None => parse_fields(Self::schema(), b@) is None || parse_fields(
                    Self::schema(),
                    b@,
                )->Some_0.0[1]->U64_0 > usize::MAX,
            },
    {
        proof {
            reveal_with_fuel(parse_fields, 4);
            assert(b@.skip(0) =~= b@);
        }
        let fd = match get_u32(b, 0) {
            Some(v) => v,
            None => return None,
        };
        assert(b@.skip(4) =~= b@.skip(0).skip(4));
        let size = match get_u64(b, 4) {
            Some(v) => v,
            None => return None,
        };
        assert(b@.skip(12) =~= b@.skip(4).skip(8));
        let offset = match get_u64(b, 12) {
            Some(v) => v,
            None => return None,
        };
        let ghost ks = Self::schema();
        proof {
            assert(ks.drop_first().drop_first().drop_first() =~= Seq::<FieldKind>::empty());
            assert(ks.drop_first().drop_first() =~= seq![FieldKind::U64]);
            assert(ks.drop_first() =~= seq![FieldKind::U64, FieldKind::U64]);
            let fs = seq![FieldValue::U32(fd)] + (seq![FieldValue::U64(size)] + (seq![FieldValue::U64(offset)] + Seq::empty()));
            assert(parse_fields(ks, b@) == Some((fs, 20nat)));
            assert(fs[1] == FieldValue::U64(size));
        }
        if size > usize::MAX as u64 {
            return None;
        }
        let q = ReadReq { fd: fd as i32, size: size as usize, offset: offset as i64 };
        proof {
            lemma_u32_cast(fd);
            lemma_u64_cast(offset);
            assert(q.spec_fields() =~= seq![FieldValue::U32(fd)] + (seq![FieldValue::U64(size)] + (seq![FieldValue::U64(offset)] + Seq::empty())));
        }
        Some((q, 20))
    }
}

/// A read request read back from its own bytes, whatever follows them,
/// comes back equal in every field, and exactly its bytes are consumed.
pub proof fn lemma_read_req_round_trip(r: ReadReq, rest: Seq<u8>)
    ensures
        parse_fields(ReadReq::schema(), r.spec_encode() + rest) == Some(
            (r.spec_fields(), r.spec_encode().len()),
        ),
        r.spec_fields()[1]->U64_0 <= usize::MAX,
        forall|q: ReadReq| #[trigger]
            q.spec_fields() == r.spec_fields() ==> q.fd == r.fd && q.size == r.size && q.offset
                == r.offset,
{
    let ks = ReadReq::schema();
    let fs = r.spec_fields();
    assert(fields_fit(ks, fs)) by {
        assert forall|i: int| 0 <= i < ks.len() implies field_fits(#[trigger] ks[i], fs[i]) by {}
    }
    lemma_fields_round_trip(ks, fs, rest);
    assert forall|q: ReadReq| #[trigger]
        q.spec_fields() == r.spec_fields() implies q.fd == r.fd && q.size == r.size && q.offset
        == r.offset by {
        assert(q.spec_fields()[0] == fs[0]);
        assert(q.spec_fields()[1] == fs[1]);
        assert(q.spec_fields()[2] == fs[2]);
        lemma_i32_cast(q.fd);
        lemma_i32_cast(r.fd);
        lemma_i64_cast(q.offset);
        lemma_i64_cast(r.offset);
    }
}


/// Asks the server to write the first `size` bytes of `page` to `fd`, at
/// `offset` where the operation is positional.
pub struct WriteReq {
    pub fd: i32,
    pub page: Vec<u8>,
    pub size: usize,
    pub offset: i64,
}

impl WriteReq {
    pub open spec fn schema() -> Seq<FieldKind> {
        seq![FieldKind::U32, FieldKind::U64, FieldKind::U64, FieldKind::Bytes { max: MAX_PAGE_LEN }]
    }

    pub open spec fn spec_fields(&self) -> Seq<FieldValue> {
        seq![
            FieldValue::U32(self.fd as u32),
            FieldValue::U64(self.size as u64),
            FieldValue::U64(self.offset as u64),
            FieldValue::Bytes(self.page@),
        ]
    }

    pub open spec fn wf(&self) -> bool {
        self.page@.len() <= MAX_PAGE_LEN
    }

    pub open spec fn spec_encode(&self) -> Seq<u8> {
        encode_fields(self.spec_fields())
    }

    pub fn encode(&self) -> (r: Vec<u8>)
        requires
            self.wf(),
        ensures
            r@ == self.spec_encode(),
    {
        let mut buf: Vec<u8> = Vec::new();
        put_u32(&mut buf, self.fd as u32);
        put_u64(&mut buf, self.size as u64);
        put_u64(&mut buf, self.offset as u64);
        put_bytes(&mut buf, self.page.as_slice());
        proof {
            reveal_with_fuel(encode_fields, 5);
            assert(buf@ =~= self.spec_encode());
        }
        buf
    }

    /// Reads a write request from the start of `b`, with the number of bytes
    /// it took; `None` also where the size does not fit a `usize`.
    pub fn decode(b: &[u8]) -> (r: Option<(WriteReq, usize)>)
        ensures
            match r {
                Some((q, n)) => parse_fields(Self::schema(), b@) == Some((q.spec_fields(), n as nat)),
                None => parse_fields(Self::schema(), b@) is None || parse_fields(
                    Self::schema(),
                    b@,
                )->Some_0.0[1]->U64_0 > usize::MAX,
            },
    {
        proof {
            reveal_with_fuel(parse_fields, 5);
            assert(b@.skip(0) =~= b@);
        }
        let fd = match get_u32(b, 0) {
            Some(v) => v,
            None => return None,
        };
        assert(b@.skip(4) =~= b@.skip(0).skip(4));
        let size = match get_u64(b, 4) {
            Some(v) => v,
            None => return None,
        };
        assert(b@.skip(12) =~= b@.skip(4).skip(8));
        let offset = match get_u64(b, 12) {
            Some(v) => v,
            None => return None,
        };
        assert(b@.skip(20) =~= b@.skip(12).skip(8));
        let page = match get_bytes(b, 20, MAX_PAGE_LEN) {
            Some(v) => v,
            None => return None,
        };
        let ghost ks = Self::schema();
        let ghost fs = seq![FieldValue::U32(fd)] + (seq![FieldValue::U64(size)] + (seq![FieldValue::U64(offset)] + (seq![FieldValue::Bytes(page@)] + Seq::empty())));
        proof {
            assert(ks.drop_first().drop_first().drop_first().drop_first() =~= Seq::<FieldKind>::empty());
            assert(ks.drop_first().drop_first().drop_first() =~= seq![FieldKind::Bytes { max: MAX_PAGE_LEN }]);
            assert(ks.drop_first().drop_first() =~= seq![FieldKind::U64, FieldKind::Bytes { max: MAX_PAGE_LEN }]);
            assert(ks.drop_first() =~= seq![FieldKind::U64, FieldKind::U64, FieldKind::Bytes { max: MAX_PAGE_LEN }]);
            assert(parse_fields(ks, b@) == Some((fs, 24 + page@.len())));
            assert(fs[1] == FieldValue::U64(size));
        }
        if size > usize::MAX as u64 {
            return None;
        }
        let n: usize = 24 + page.len();
        let q = WriteReq { fd: fd as i32, page, size: size as usize, offset: offset as i64 };
        proof {
            lemma_u32_cast(fd);
            lemma_u64_cast(offset);
            assert(q.spec_fields() =~= fs);
        }
        Some((q, n))
    }
}

/// A write request read back from its own bytes, whatever follows them,
/// comes back equal in every field, and exactly its bytes are consumed.
pub proof fn lemma_write_req_round_trip(r: WriteReq, rest: Seq<u8>)
    requires
        r.wf(),
    ensures
        parse_fields(WriteReq::schema(), r.spec_encode() + rest) == Some(
            (r.spec_fields(), r.spec_encode().len()),
        ),
        r.spec_fields()[1]->U64_0 <= usize::MAX,
        forall|q: WriteReq| #[trigger]
            q.spec_fields() == r.spec_fields() ==> q.fd == r.fd && q.size == r.size && q.offset
                == r.offset && q.page@ == r.page@,
{
    let ks = WriteReq::schema();
    let fs = r.spec_fields();
    assert(fields_fit(ks, fs)) by {
        assert forall|i: int| 0 <= i < ks.len() implies field_fits(#[trigger] ks[i], fs[i]) by {}
    }
    lemma_fields_round_trip(ks, fs, rest);
    assert forall|q: WriteReq| #[trigger]
        q.spec_fields() == r.spec_fields() implies q.fd == r.fd && q.size == r.size && q.offset
        == r.offset && q.page@ == r.page@ by {
        assert(q.spec_fields()[0] == fs[0]);
        assert(q.spec_fields()[1] == fs[1]);
        assert(q.spec_fields()[2] == fs[2]);
        assert(q.spec_fields()[3] == fs[3]);
        lemma_i32_cast(q.fd);
        lemma_i32_cast(r.fd);
        lemma_i64_cast(q.offset);
        lemma_i64_cast(r.offset);
    }
}

/// Asks the server to close `fd` (or, under `Fsync`, to flush it).
pub struct CloseReq {
    pub fd: i32,
}

impl CloseReq {
    pub open spec fn schema() -> Seq<FieldKind> {
        seq![FieldKind::U32]
    }

    pub open spec fn spec_fields(&self) -> Seq<FieldValue> {
        seq![FieldValue::U32(self.fd as u32)]
    }

    pub open spec fn spec_encode(&self) -> Seq<u8> {
        encode_fields(self.spec_fields())
    }

    pub fn encode(&self) -> (r: Vec<u8>)
        ensures
            r@ == self.spec_encode(),
    {
        let mut buf: Vec<u8> = Vec::new();
        put_u32(&mut buf, self.fd as u32);
        proof {
            reveal_with_fuel(encode_fields, 2);
            assert(buf@ =~= self.spec_encode());
        }
        buf
    }

    /// Reads a close request from the start of `b`, with the number of bytes
    /// it took.
    pub fn decode(b: &[u8]) -> (r: Option<(CloseReq, usize)>)
        ensures
            match r {
                Some((q, n)) => parse_fields(Self::schema(), b@) == Some((q.spec_fields(), n as nat)),
                None => parse_fields(Self::schema(), b@) is None,
            },
    {
        proof {
            reveal_with_fuel(parse_fields, 2);
            assert(b@.skip(0) =~= b@);
        }
        let fd = match get_u32(b, 0) {
            Some(v) => v,
            None => return None,
        };
        let q = CloseReq { fd: fd as i32 };
        proof {
            lemma_u32_cast(fd);
            let ks = Self::schema();
            assert(ks.drop_first() =~= Seq::<FieldKind>::empty());
            assert(q.spec_fields() =~= seq![FieldValue::U32(fd)] + Seq::empty());
        }
        Some((q, 4))
    }
}

/// A close request read back from its own bytes, whatever follows them,
/// comes back equal, and exactly its bytes are consumed.
pub proof fn lemma_close_req_round_trip(r: CloseReq, rest: Seq<u8>)
    ensures
        parse_fields(CloseReq::schema(), r.spec_encode() + rest) == Some(
            (r.spec_fields(), r.spec_encode().len()),
        ),
        forall|q: CloseReq| #[trigger] q.spec_fields() == r.spec_fields() ==> q.fd == r.fd,
{
    let ks = CloseReq::schema();
    let fs = r.spec_fields();
    assert(fields_fit(ks, fs)) by {
        assert forall|i: int| 0 <= i < ks.len() implies field_fits(#[trigger] ks[i], fs[i]) by {}
    }
    lemma_fields_round_trip(ks, fs, rest);
    assert forall|q: CloseReq| #[trigger] q.spec_fields() == r.spec_fields() implies q.fd == r.fd by {
        assert(q.spec_fields()[0] == fs[0]);
        lemma_i32_cast(q.fd);
        lemma_i32_cast(r.fd);
    }
}

/// Asks the server to remove the file (or, under `RmDir`, the directory)
/// at `path`.
pub struct RemoveReq {
    pub path: Vec<u8>,
}

impl RemoveReq {
    pub open spec fn schema() -> Seq<FieldKind> {
        seq![FieldKind::Bytes { max: MAX_PATH_LEN }]
    }

    pub open spec fn spec_fields(&self) -> Seq<FieldValue> {
        seq![FieldValue::Bytes(self.path@)]
    }

    pub open spec fn wf(&self) -> bool {
        self.path@.len() <= MAX_PATH_LEN
    }

    pub open spec fn spec_encode(&self) -> Seq<u8> {
        encode_fields(self.spec_fields())
    }

    pub fn encode(&self) -> (r: Vec<u8>)
        requires
            self.wf(),
        ensures
            r@ == self.spec_encode(),
    {
        let mut buf: Vec<u8> = Vec::new();
        put_bytes(&mut buf, self.path.as_slice());
        proof {
            reveal_with_fuel(encode_fields, 2);
            assert(buf@ =~= self.spec_encode());
        }
        buf
    }

    /// Reads a remove request from the start of `b`, with the number of
    /// bytes it took.
    pub fn decode(b: &[u8]) -> (r: Option<(RemoveReq, usize)>)
        ensures
            match r {
                Some((q, n)) => parse_fields(Self::schema(), b@) == Some((q.spec_fields(), n as nat)),
                None => parse_fields(Self::schema(), b@) is None,
            },
    {
        proof {
            reveal_with_fuel(parse_fields, 2);
            assert(b@.skip(0) =~= b@);
        }
        let path = match get_bytes(b, 0, MAX_PATH_LEN) {
            Some(v) => v,
            None => return None,
        };
        let n: usize = 4 + path.len();
        let q = RemoveReq { path };
        proof {
            let ks = Self::schema();
            assert(ks.drop_first() =~= Seq::<FieldKind>::empty());
            assert(q.spec_fields() =~= seq![FieldValue::Bytes(q.path@)] + Seq::empty());
        }
        Some((q, n))
    }
}

/// A remove request read back from its own bytes, whatever follows them,
/// comes back equal, and exactly its bytes are consumed.
pub proof fn lemma_remove_req_round_trip(r: RemoveReq, rest: Seq<u8>)
    requires
        r.wf(),
    ensures
        parse_fields(RemoveReq::schema(), r.spec_encode() + rest) == Some(
            (r.spec_fields(), r.spec_encode().len()),
        ),
        forall|q: RemoveReq| #[trigger] q.spec_fields() == r.spec_fields() ==> q.path@ == r.path@,
{
    let ks = RemoveReq::schema();
    let fs = r.spec_fields();
    assert(fields_fit(ks, fs)) by {
        assert forall|i: int| 0 <= i < ks.len() implies field_fits(#[trigger] ks[i], fs[i]) by {}
    }
    lemma_fields_round_trip(ks, fs, rest);
    assert forall|q: RemoveReq| #[trigger] q.spec_fields() == r.spec_fields() implies q.path@ == r.path@ by {
        assert(q.spec_fields()[0] == fs[0]);
    }
}

/// Asks the server to create the directory `path` with `mode`.
pub struct MkdirReq {
    pub path: Vec<u8>,
    pub mode: u32,
}

impl MkdirReq {
    pub open spec fn schema() -> Seq<FieldKind> {
        seq![FieldKind::U32, FieldKind::Bytes { max: MAX_PATH_LEN }]
    }

    pub open spec fn spec_fields(&self) -> Seq<FieldValue> {
        seq![FieldValue::U32(self.mode), FieldValue::Bytes(self.path@)]
    }

    pub open spec fn wf(&self) -> bool {
        self.path@.len() <= MAX_PATH_LEN
    }

    pub open spec fn spec_encode(&self) -> Seq<u8> {
        encode_fields(self.spec_fields())
    }

    pub fn encode(&self) -> (r: Vec<u8>)
        requires
            self.wf(),
        ensures
            r@ == self.spec_encode(),
    {
        let mut buf: Vec<u8> = Vec::new();
        put_u32(&mut buf, self.mode);
        put_bytes(&mut buf, self.path.as_slice());
        proof {
            reveal_with_fuel(encode_fields, 3);
            assert(buf@ =~= self.spec_encode());
        }
        buf
    }

    /// Reads a mkdir request from the start of `b`, with the number of bytes
    /// it took.
    pub fn decode(b: &[u8]) -> (r: Option<(MkdirReq, usize)>)
        ensures
            match r {
                Some((q, n)) => parse_fields(Self::schema(), b@) == Some((q.spec_fields(), n as nat)),
                None => parse_fields(Self::schema(), b@) is None,
            },
    {
        proof {
            reveal_with_fuel(parse_fields, 3);
            assert(b@.skip(0) =~= b@);
        }
        let mode = match get_u32(b, 0) {
            Some(v) => v,
            None => return None,
        };
        assert(b@.skip(4) =~= b@.skip(0).skip(4));
        let path = match get_bytes(b, 4, MAX_PATH_LEN) {
            Some(v) => v,
            None => return None,
        };
        let n: usize = 8 + path.len();
        let q = MkdirReq { path, mode };
        proof {
            let ks = Self::schema();
            assert(ks.drop_first().drop_first() =~= Seq::<FieldKind>::empty());
            assert(ks.drop_first() =~= seq![FieldKind::Bytes { max: MAX_PATH_LEN }]);
            assert(q.spec_fields() =~= seq![FieldValue::U32(mode)] + (seq![FieldValue::Bytes(q.path@)] + Seq::empty()));
        }
        Some((q, n))
    }
}

/// A mkdir request read back from its own bytes, whatever follows them,
/// comes back equal in every field, and exactly its bytes are consumed.
pub proof fn lemma_mkdir_req_round_trip(r: MkdirReq, rest: Seq<u8>)
    requires
        r.wf(),
    ensures
        parse_fields(MkdirReq::schema(), r.spec_encode() + rest) == Some(
            (r.spec_fields(), r.spec_encode().len()),
        ),
        forall|q: MkdirReq| #[trigger]
            q.spec_fields() == r.spec_fields() ==> q.path@ == r.path@ && q.mode == r.mode,
{
    let ks = MkdirReq::schema();
    let fs = r.spec_fields();
    assert(fields_fit(ks, fs)) by {
        assert forall|i: int| 0 <= i < ks.len() implies field_fits(#[trigger] ks[i], fs[i]) by {}
    }
    lemma_fields_round_trip(ks, fs, rest);
    assert forall|q: MkdirReq| #[trigger]
        q.spec_fields() == r.spec_fields() implies q.path@ == r.path@ && q.mode == r.mode by {
        assert(q.spec_fields()[0] == fs[0]);
        assert(q.spec_fields()[1] == fs[1]);
    }
}

/// What the server answers: the primitive's raw status (negative for an OS
/// error, else a descriptor or a byte count), a size, and the bytes read
/// (empty but for reads).
pub struct Response {
    pub result: i32,
    pub size: usize,
    pub page: Vec<u8>,
}

impl Response {
    pub open spec fn schema() -> Seq<FieldKind> {
        seq![FieldKind::U32, FieldKind::U64, FieldKind::Bytes { max: MAX_PAGE_LEN }]
    }

    pub open spec fn spec_fields(&self) -> Seq<FieldValue> {
        seq![
            FieldValue::U32(self.result as u32),
            FieldValue::U64(self.size as u64),
            FieldValue::Bytes(self.page@),
        ]
    }

    pub open spec fn wf(&self) -> bool {
        self.page@.len() <= MAX_PAGE_LEN
    }

    pub open spec fn spec_encode(&self) -> Seq<u8> {
        encode_fields(self.spec_fields())
    }

    pub fn encode(&self) -> (r: Vec<u8>)
        requires
            self.wf(),
        ensures
            r@ == self.spec_encode(),
    {
        let mut buf: Vec<u8> = Vec::new();
        put_u32(&mut buf, self.result as u32);
        put_u64(&mut buf, self.size as u64);
        put_bytes(&mut buf, self.page.as_slice());
        proof {
            reveal_with_fuel(encode_fields, 4);
            assert(buf@ =~= self.spec_encode());
        }
        buf
    }

    /// Reads a response from the start of `b`, with the number of bytes it
    /// took; `None` also where the size does not fit a `usize`.
    pub fn decode(b: &[u8]) -> (r: Option<(Response, usize)>)
        ensures
            match r {
                Some((q, n)) => parse_fields(Self::schema(), b@) == Some((q.spec_fields(), n as nat)),
                None => parse_fields(Self::schema(), b@) is None || parse_fields(
                    Self::schema(),
                    b@,
                )->Some_0.0[1]->U64_0 > usize::MAX,
            },
    {
        proof {
            reveal_with_fuel(parse_fields, 4);
            assert(b@.skip(0) =~= b@);
        }
        let result = match get_u32(b, 0) {
            Some(v) => v,
            None => return None,
        };
        assert(b@.skip(4) =~= b@.skip(0).skip(4));
        let size = match get_u64(b, 4) {
            Some(v) => v,
            None => return None,
        };
        assert(b@.skip(12) =~= b@.skip(4).skip(8));
        let page = match get_bytes(b, 12, MAX_PAGE_LEN) {
            Some(v) => v,
            None => return None,
        };
        let ghost ks = Self::schema();
        let ghost fs = seq![FieldValue::U32(result)] + (seq![FieldValue::U64(size)] + (seq![FieldValue::Bytes(page@)] + Seq::empty()));
        proof {
            assert(ks.drop_first().drop_first().drop_first() =~= Seq::<FieldKind>::empty());
            assert(ks.drop_first().drop_first() =~= seq![FieldKind::Bytes { max: MAX_PAGE_LEN }]);
            assert(ks.drop_first() =~= seq![FieldKind::U64, FieldKind::Bytes { max: MAX_PAGE_LEN }]);
            assert(parse_fields(ks, b@) == Some((fs, 16 + page@.len())));
            assert(fs[1] == FieldValue::U64(size));
        }
        if size > usize::MAX as u64 {
            return None;
        }
        let n: usize = 16 + page.len();
        let q = Response { result: result as i32, size: size as usize, page };
        proof {
            lemma_u32_cast(result);
            assert(q.spec_fields() =~= fs);
        }
        Some((q, n))
    }
}

/// A response read back from its own bytes, whatever follows them, comes
/// back equal in every field, and exactly its bytes are consumed.
pub proof fn lemma_response_round_trip(r: Response, rest: Seq<u8>)
    requires
        r.wf(),
    ensures
        parse_fields(Response::schema(), r.spec_encode() + rest) == Some(
            (r.spec_fields(), r.spec_encode().len()),
        ),
        r.spec_fields()[1]->U64_0 <= usize::MAX,
        forall|q: Response| #[trigger]
            q.spec_fields() == r.spec_fields() ==> q.result == r.result && q.size == r.size
                && q.page@ == r.page@,
{
    let ks = Response::schema();
    let fs = r.spec_fields();
    assert(fields_fit(ks, fs)) by {
        assert forall|i: int| 0 <= i < ks.len() implies field_fits(#[trigger] ks[i], fs[i]) by {}
    }
    lemma_fields_round_trip(ks, fs, rest);
    assert forall|q: Response| #[trigger]
        q.spec_fields() == r.spec_fields() implies q.result == r.result && q.size == r.size
        && q.page@ == r.page@ by {
        assert(q.spec_fields()[0] == fs[0]);
        assert(q.spec_fields()[1] == fs[1]);
        assert(q.spec_fields()[2] == fs[2]);
        lemma_i32_cast(q.result);
        lemma_i32_cast(r.result);
    }
}

pub proof fn lemma_open_req_len(r: &OpenReq)
    requires
        r.wf(),
    ensures
        r.spec_encode().len() == 12 + r.path@.len(),
{
    reveal_with_fuel(encode_fields, 4);
    crate::wire::lemma_le_bytes_len(r.flags as u32 as nat, 4);
    crate::wire::lemma_le_bytes_len(r.mode as nat, 4);
    crate::wire::lemma_le_bytes_len(r.path@.len(), 4);
}

pub proof fn lemma_read_req_len(r: &ReadReq)
    ensures
        r.spec_encode().len() == 20,
{
    reveal_with_fuel(encode_fields, 4);
    crate::wire::lemma_le_bytes_len(r.fd as u32 as nat, 4);
    crate::wire::lemma_le_bytes_len(r.size as u64 as nat, 8);
    crate::wire::lemma_le_bytes_len(r.offset as u64 as nat, 8);
}

pub proof fn lemma_write_req_len(r: &WriteReq)
    requires
        r.wf(),
    ensures
        r.spec_encode().len() == 24 + r.page@.len(),
{
    reveal_with_fuel(encode_fields, 5);
    crate::wire::lemma_le_bytes_len(r.fd as u32 as nat, 4);
    crate::wire::lemma_le_bytes_len(r.size as u64 as nat, 8);
    crate::wire::lemma_le_bytes_len(r.offset as u64 as nat, 8);
    crate::wire::lemma_le_bytes_len(r.page@.len(), 4);
}

pub proof fn lemma_close_req_len(r: &CloseReq)
    ensures
        r.spec_encode().len() == 4,
{
    reveal_with_fuel(encode_fields, 2);
    crate::wire::lemma_le_bytes_len(r.fd as u32 as nat, 4);
}

pub proof fn lemma_remove_req_len(r: &RemoveReq)
    requires
        r.wf(),
    ensures
        r.spec_encode().len() == 4 + r.path@.len(),
{
    reveal_with_fuel(encode_fields, 2);
    crate::wire::lemma_le_bytes_len(r.path@.len(), 4);
}

pub proof fn lemma_mkdir_req_len(r: &MkdirReq)
    requires
        r.wf(),
    ensures
        r.spec_encode().len() == 8 + r.path@.len(),
{
    reveal_with_fuel(encode_fields, 3);
    crate::wire::lemma_le_bytes_len(r.mode as nat, 4);
    crate::wire::lemma_le_bytes_len(r.path@.len(), 4);
}

pub proof fn lemma_response_round_trip_fields(q: &Response)
    ensures
        q.spec_fields()[1]->U64_0 <= usize::MAX,
{
}

/// Copies `input` into an `N`-byte array, zero-filled after it.
pub fn pack_str<const N: usize>(input: &str) -> (r: [u8; N])
    requires
        input.spec_bytes().len() <= N,
    ensures
        r@ == input.spec_bytes() + Seq::new((N - input.spec_bytes().len()) as nat, |i: int| 0u8),
{
    let bytes = input.as_bytes();
    let mut output = [0u8; N];
    let mut i: usize = 0;
    while i < bytes.len()
        invariant
            i <= bytes@.len() <= N,
            bytes@ == input.spec_bytes(),
            output@.len() == N,
            forall|j: int| 0 <= j < i ==> output@[j] == bytes@[j],
            forall|j: int| i <= j < N ==> output@[j] == 0u8,
        decreases bytes@.len() - i,
    {
        output[i] = bytes[i];
        i = i + 1;
    }
    assert(output@ =~= input.spec_bytes() + Seq::new((N - input.spec_bytes().len()) as nat, |i: int| 0u8));
    output
}

} // verus!
