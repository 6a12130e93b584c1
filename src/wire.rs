//! Little-endian scalars and length-prefixed byte regions, the building
//! blocks of every record that crosses the wire.
use vstd::prelude::*;

verus! {

/// `256^n`: the number of distinct values that fit in `n` bytes.
pub open spec fn byte_bound(n: nat) -> nat
    decreases n,
{
    if n == 0 {
        1
    } else {
        256 * byte_bound((n - 1) as nat)
    }
}

/// The `n` low bytes of `v`, least significant first.
pub open spec fn le_bytes(v: nat, n: nat) -> Seq<u8>
    decreases n,
{
    if n == 0 {
        Seq::empty()
    } else {
        seq![(v % 256) as u8] + le_bytes(v / 256, (n - 1) as nat)
    }
}

/// The number that the bytes `s` spell, least significant first.
pub open spec fn le_value(s: Seq<u8>) -> nat
    decreases s.len(),
{
    if s.len() == 0 {
        0
    } else {
        s[0] as nat + 256 * le_value(s.drop_first())
    }
}

/// What kind of field a record has at a given place.
#[derive(PartialEq, Eq, Structural, Clone, Copy, Debug)]
pub enum FieldKind {
    /// One byte.
    U8,
    /// Four bytes, little-endian.
    U32,
    /// Eight bytes, little-endian.
    U64,
    /// A four-byte length `n`, then `n` bytes; `n` may not exceed `max`.
    Bytes { max: u32 },
}

/// The value of one field, as the contracts see it.
pub enum FieldValue {
    U8(u8),
    U32(u32),
    U64(u64),
    Bytes(Seq<u8>),
}

/// Length of the prefix that comes before a byte region.
pub const LEN_PREFIX: usize = 4;

pub open spec fn encode_field(f: FieldValue) -> Seq<u8> {
    match f {
        FieldValue::U8(v) => seq![v],
        FieldValue::U32(v) => le_bytes(v as nat, 4),
        FieldValue::U64(v) => le_bytes(v as nat, 8),
        FieldValue::Bytes(s) => le_bytes(s.len(), 4) + s,
    }
}

/// The bytes of a record made of the fields `fs`, in order.
pub open spec fn encode_fields(fs: Seq<FieldValue>) -> Seq<u8>
    decreases fs.len(),
{
    if fs.len() == 0 {
        Seq::empty()
    } else {
        encode_field(fs[0]) + encode_fields(fs.drop_first())
    }
}

/// Whether `f` is a value that a field of kind `k` can carry.
pub open spec fn field_fits(k: FieldKind, f: FieldValue) -> bool {
    match (k, f) {
        (FieldKind::U8, FieldValue::U8(_)) => true,
        (FieldKind::U32, FieldValue::U32(_)) => true,
        (FieldKind::U64, FieldValue::U64(_)) => true,
        (FieldKind::Bytes { max }, FieldValue::Bytes(s)) => s.len() <= max,
        _ => false,
    }
}

pub open spec fn fields_fit(ks: Seq<FieldKind>, fs: Seq<FieldValue>) -> bool {
    &&& ks.len() == fs.len()
    &&& forall|i: int| 0 <= i < ks.len() ==> field_fits(#[trigger] ks[i], fs[i])
}

/// Reads one field of kind `k` at the start of `s`: its value and how many
/// bytes it took, or `None` when `s` is too short or a length is over its
/// bound.
pub open spec fn parse_field(k: FieldKind, s: Seq<u8>) -> Option<(FieldValue, nat)> {
    match k {
        FieldKind::U8 => if s.len() >= 1 {
            Some((FieldValue::U8(s[0]), 1))
        } else {
            None
        },
        FieldKind::U32 => if s.len() >= 4 {
            Some((FieldValue::U32(le_value(s.take(4)) as u32), 4))
        } else {
            None
        },
        FieldKind::U64 => if s.len() >= 8 {
            Some((FieldValue::U64(le_value(s.take(8)) as u64), 8))
        } else {
            None
        },
        FieldKind::Bytes { max } => if s.len() >= 4 {
            let n = le_value(s.take(4));
            if n <= max && s.len() >= 4 + n {
                Some((FieldValue::Bytes(s.subrange(4, 4 + n as int)), 4 + n))
            } else {
                None
            }
        } else {
            None
        },
    }
}

/// Reads the fields of kinds `ks`, one after the other, from the start of
/// `s`: their values and how many bytes they took together.
pub open spec fn parse_fields(ks: Seq<FieldKind>, s: Seq<u8>) -> Option<(Seq<FieldValue>, nat)>
    decreases ks.len(),
{
    if ks.len() == 0 {
        Some((Seq::empty(), 0))
    } else {
        match parse_field(ks[0], s) {
            None => None,
            Some((f, n)) => match parse_fields(ks.drop_first(), s.skip(n as int)) {
                None => None,
                Some((fs, m)) => Some((seq![f] + fs, n + m)),
            },
        }
    }
}

pub proof fn lemma_le_bytes_len(v: nat, n: nat)
    ensures
        le_bytes(v, n).len() == n,
    decreases n,
{
    if n > 0 {
        lemma_le_bytes_len(v / 256, (n - 1) as nat);
    }
}

pub proof fn lemma_le_round_trip(v: nat, n: nat)
    requires
        v < byte_bound(n),
    ensures
        le_value(le_bytes(v, n)) == v,
        le_bytes(v, n).len() == n,
    decreases n,
{
    lemma_le_bytes_len(v, n);
    if n > 0 {
        let s = le_bytes(v, n);
        assert(v / 256 < byte_bound((n - 1) as nat)) by (nonlinear_arith)
            requires
                v < 256 * byte_bound((n - 1) as nat),
        ;
        lemma_le_round_trip(v / 256, (n - 1) as nat);
        assert(s.drop_first() =~= le_bytes(v / 256, (n - 1) as nat));
        assert(v == v % 256 + 256 * (v / 256)) by (nonlinear_arith);
    }
}

pub proof fn lemma_le_value_bound(s: Seq<u8>)
    ensures
        le_value(s) < byte_bound(s.len()),
    decreases s.len(),
{
    if s.len() > 0 {
        lemma_le_value_bound(s.drop_first());
        let r = le_value(s.drop_first());
        let b = byte_bound((s.len() - 1) as nat);
        assert(s[0] as nat + 256 * r < 256 * b) by (nonlinear_arith)
            requires
                r < b,
                s[0] < 256,
        ;
    }
}

pub proof fn lemma_byte_bounds()
    ensures
        byte_bound(1) == 0x100,
        byte_bound(4) == 0x1_0000_0000,
        byte_bound(8) == 0x1_0000_0000_0000_0000,
{
    reveal_with_fuel(byte_bound, 9);
}

/// Whatever fields are read, each fits its kind: byte regions keep within
/// their bound.
pub proof fn lemma_parsed_fields_fit(ks: Seq<FieldKind>, s: Seq<u8>)
    ensures
        parse_fields(ks, s) is Some ==> fields_fit(ks, parse_fields(ks, s)->Some_0.0),
    decreases ks.len(),
{
    if ks.len() > 0 {
        if let Some((f, n)) = parse_field(ks[0], s) {
            lemma_parsed_fields_fit(ks.drop_first(), s.skip(n as int));
            if let Some((fs, m)) = parse_fields(ks.drop_first(), s.skip(n as int)) {
                let all = seq![f] + fs;
                assert forall|i: int| 0 <= i < ks.len() implies field_fits(#[trigger] ks[i], all[i]) by {
                    if i > 0 {
                        assert(ks[i] == ks.drop_first()[i - 1]);
                    }
                }
            }
        }
    }
}

/// One field read back from its own bytes, whatever follows them.
pub proof fn lemma_field_round_trip(k: FieldKind, f: FieldValue, rest: Seq<u8>)
    requires
        field_fits(k, f),
    ensures
        parse_field(k, encode_field(f) + rest) == Some((f, encode_field(f).len())),
        (encode_field(f) + rest).skip(encode_field(f).len() as int) =~= rest,
{
    lemma_byte_bounds();
    let e = encode_field(f);
    match f {
        FieldValue::U8(v) => {},
        FieldValue::U32(v) => {
            lemma_le_round_trip(v as nat, 4);
            assert((e + rest).take(4) =~= e);
        },
        FieldValue::U64(v) => {
            lemma_le_round_trip(v as nat, 8);
            assert((e + rest).take(8) =~= e);
        },
        FieldValue::Bytes(s) => {
            let max = k->max;
            assert(s.len() < byte_bound(4));
            lemma_le_round_trip(s.len(), 4);
            assert((e + rest).take(4) =~= le_bytes(s.len(), 4));
            assert((e + rest).subrange(4, 4 + s.len() as int) =~= s);
        },
    }
}

/// The record law at the level of fields: reading back the bytes of
/// fitting fields, followed by any bytes at all, gives those fields and
/// consumes exactly their bytes.
pub proof fn lemma_fields_round_trip(ks: Seq<FieldKind>, fs: Seq<FieldValue>, rest: Seq<u8>)
    requires
        fields_fit(ks, fs),
    ensures
        parse_fields(ks, encode_fields(fs) + rest) == Some((fs, encode_fields(fs).len())),
    decreases ks.len(),
{
    if ks.len() == 0 {
        assert(fs =~= Seq::<FieldValue>::empty());
    } else {
        let tail = encode_fields(fs.drop_first()) + rest;
        assert(encode_fields(fs) + rest =~= encode_field(fs[0]) + tail);
        assert(field_fits(ks[0], fs[0]));
        lemma_field_round_trip(ks[0], fs[0], tail);
        assert(fields_fit(ks.drop_first(), fs.drop_first())) by {
            assert forall|i: int| 0 <= i < ks.drop_first().len() implies field_fits(
                #[trigger] ks.drop_first()[i],
                fs.drop_first()[i],
            ) by {
                assert(field_fits(ks[i + 1], fs[i + 1]));
            }
        }
        lemma_fields_round_trip(ks.drop_first(), fs.drop_first(), rest);
        assert(seq![fs[0]] + fs.drop_first() =~= fs);
    }
}


/// Appends the `n` low bytes of `v`, least significant first.
pub fn put_le(buf: &mut Vec<u8>, v: u64, n: usize)
    requires
        n <= 8,
        v < byte_bound(n as nat),
    ensures
        final(buf)@ == old(buf)@ + le_bytes(v as nat, n as nat),
{
    let mut x: u64 = v;
    let mut i: usize = 0;
    while i < n
        invariant
            i <= n,
            buf@ + le_bytes(x as nat, (n - i) as nat) == old(buf)@ + le_bytes(v as nat, n as nat),
        decreases n - i,
    {
        let ghost before = buf@;
        buf.push((x % 256) as u8);
        proof {
            let tail = le_bytes((x / 256) as nat, (n - i - 1) as nat);
            assert(le_bytes(x as nat, (n - i) as nat) == seq![(x % 256) as u8] + tail);
            assert(before + (seq![(x % 256) as u8] + tail) =~= buf@ + tail);
        }
        x = x / 256;
        i = i + 1;
    }
    assert(buf@ + le_bytes(x as nat, 0) =~= buf@);
}

/// The number spelled by `b[pos..pos + n]`, least significant byte first.
pub fn get_le(b: &[u8], pos: usize, n: usize) -> (r: u64)
    requires
        n <= 8,
        pos + n <= b@.len(),
    ensures
        r as nat == le_value(b@.subrange(pos as int, pos + n)),
{
    let mut acc: u64 = 0;
    let mut i: usize = n;
    let len = b.len();
    while i > 0
        invariant
            i <= n <= 8,
            len == b@.len(),
            pos + n <= b@.len(),
            acc as nat == le_value(b@.subrange(pos + i, pos + n)),
        decreases i,
    {
        let ghost s = b@.subrange(pos + i - 1, pos + n);
        proof {
            assert(s.drop_first() =~= b@.subrange(pos + i, pos + n));
            lemma_le_value_bound(s.drop_first());
            lemma_byte_bounds();
            assert(byte_bound((n - i) as nat) <= byte_bound(7)) by {
                lemma_byte_bound_mono((n - i) as nat, 7);
            }
            assert(byte_bound(7) == 0x100_0000_0000_0000) by {
                reveal_with_fuel(byte_bound, 8);
            }
        }
        acc = acc * 256 + b[pos + i - 1] as u64;
        i = i - 1;
    }
    acc
}

pub proof fn lemma_byte_bound_mono(a: nat, b: nat)
    requires
        a <= b,
    ensures
        byte_bound(a) <= byte_bound(b),
    decreases b,
{
    if a < b {
        lemma_byte_bound_mono(a, (b - 1) as nat);
    }
}

pub fn put_u8(buf: &mut Vec<u8>, v: u8)
    ensures
        final(buf)@ == old(buf)@ + encode_field(FieldValue::U8(v)),
{
    buf.push(v);
}

pub fn put_u32(buf: &mut Vec<u8>, v: u32)
    ensures
        final(buf)@ == old(buf)@ + encode_field(FieldValue::U32(v)),
{
    proof {
        lemma_byte_bounds();
    }
    put_le(buf, v as u64, 4);
}

pub fn put_u64(buf: &mut Vec<u8>, v: u64)
    ensures
        final(buf)@ == old(buf)@ + encode_field(FieldValue::U64(v)),
{
    proof {
        lemma_byte_bounds();
    }
    put_le(buf, v, 8);
}

/// Appends the length of `data` and then `data` itself.
pub fn put_bytes(buf: &mut Vec<u8>, data: &[u8])
    requires
        data@.len() <= u32::MAX,
    ensures
        final(buf)@ == old(buf)@ + encode_field(FieldValue::Bytes(data@)),
{
    proof {
        lemma_byte_bounds();
    }
    put_le(buf, data.len() as u64, 4);
    let ghost mid = buf@;
    let mut i: usize = 0;
    while i < data.len()
        invariant
            i <= data@.len(),
            buf@ == mid + data@.take(i as int),
        decreases data@.len() - i,
    {
        buf.push(data[i]);
        i = i + 1;
        assert(buf@ =~= mid + data@.take(i as int));
    }
    assert(data@.take(data@.len() as int) =~= data@);
}

pub fn get_u8(b: &[u8], pos: usize) -> (r: Option<u8>)
    requires
        pos <= b@.len(),
    ensures
        match r {
            Some(v) => parse_field(FieldKind::U8, b@.skip(pos as int)) == Some((FieldValue::U8(v), 1nat)),
            None => parse_field(FieldKind::U8, b@.skip(pos as int)) is None,
        },
{
    if pos < b.len() {
        Some(b[pos])
    } else {
        None
    }
}

pub fn get_u32(b: &[u8], pos: usize) -> (r: Option<u32>)
    requires
        pos <= b@.len(),
    ensures
        match r {
            Some(v) => parse_field(FieldKind::U32, b@.skip(pos as int)) == Some((FieldValue::U32(v), 4nat)),
            None => parse_field(FieldKind::U32, b@.skip(pos as int)) is None,
        },
{
    if b.len() - pos >= 4 {
        let v = get_le(b, pos, 4);
        proof {
            assert(b@.skip(pos as int).take(4) =~= b@.subrange(pos as int, pos + 4));
            lemma_le_value_bound(b@.subrange(pos as int, pos + 4));
            lemma_byte_bounds();
        }
        Some(v as u32)
    } else {
        None
    }
}

pub fn get_u64(b: &[u8], pos: usize) -> (r: Option<u64>)
    requires
        pos <= b@.len(),
    ensures
        match r {
            Some(v) => parse_field(FieldKind::U64, b@.skip(pos as int)) == Some((FieldValue::U64(v), 8nat)),
            None => parse_field(FieldKind::U64, b@.skip(pos as int)) is None,
        },
{
    if b.len() - pos >= 8 {
        let v = get_le(b, pos, 8);
        proof {
            assert(b@.skip(pos as int).take(8) =~= b@.subrange(pos as int, pos + 8));
        }
        Some(v)
    } else {
        None
    }
}

/// Reads a length-prefixed byte region at `pos`; `None` when the buffer
/// ends first or the length is over `max`.
pub fn get_bytes(b: &[u8], pos: usize, max: u32) -> (r: Option<Vec<u8>>)
    requires
        pos <= b@.len(),
    ensures
        match r {
            Some(d) => parse_field(FieldKind::Bytes { max }, b@.skip(pos as int)) == Some(
                (FieldValue::Bytes(d@), 4 + d@.len()),
            ),
            None => parse_field(FieldKind::Bytes { max }, b@.skip(pos as int)) is None,
        },
{
    if b.len() - pos < 4 {
        return None;
    }
    let n = get_le(b, pos, 4);
    proof {
        assert(b@.skip(pos as int).take(4) =~= b@.subrange(pos as int, pos + 4));
    }
    if n > max as u64 || ((b.len() - pos - 4) as u64) < n {
        return None;
    }
    let start: usize = pos + 4;
    let end: usize = start + n as usize;
    let mut d: Vec<u8> = Vec::new();
    let mut i: usize = start;
    while i < end
        invariant
            start <= i <= end <= b@.len(),
            d@ == b@.subrange(start as int, i as int),
        decreases end - i,
    {
        d.push(b[i]);
        i = i + 1;
        assert(d@ =~= b@.subrange(start as int, i as int));
    }
    proof {
        assert(b@.skip(pos as int).subrange(4, 4 + n as int) =~= d@);
    }
    Some(d)
}

} // verus!
