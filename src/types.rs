use vstd::prelude::*;
use vstd::string::StringExecFns;
use vstd::bytes::*;
use vstd::slice::{slice_subrange, slice_to_vec};
use crate::albastream::{Error, ErrorKind};
use crate::dynamic_int::{DynamicInteger, parse_varint, spec_varint, lemma_varint_round_trip, lemma_varint_truncated};
use crate::text::{lossy_text, utf8_of, lossy_string, push_bytes, lemma_lossy_of_utf8};
use crate::wire::encode_many;

verus! {

/// A column value or condition operand. Floating-point values are carried as
/// their IEEE-754 bit patterns.
#[derive(Debug)]
pub enum AlbaTypes {
    String(String),
    U8(u8),
    U16(u16),
    U32(u32),
    U64(u64),
    U128(u128),
    F32(u32),
    F64(u64),
    Bool(bool),
    I32(i32),
    I64(i64),
    Bytes(Vec<u8>),
}

/// The mathematical content of a value.
pub enum ValueV {
    Str(Seq<char>),
    U8(u8),
    U16(u16),
    U32(u32),
    U64(u64),
    U128(u128),
    F32(u32),
    F64(u64),
    Bool(bool),
    I32(i32),
    I64(i64),
    Bytes(Seq<u8>),
}

impl View for AlbaTypes {
    type V = ValueV;

    open spec fn view(&self) -> ValueV {
        match self {
            AlbaTypes::String(s) => ValueV::Str(s@),
            AlbaTypes::U8(x) => ValueV::U8(*x),
            AlbaTypes::U16(x) => ValueV::U16(*x),
            AlbaTypes::U32(x) => ValueV::U32(*x),
            AlbaTypes::U64(x) => ValueV::U64(*x),
            AlbaTypes::U128(x) => ValueV::U128(*x),
            AlbaTypes::F32(x) => ValueV::F32(*x),
            AlbaTypes::F64(x) => ValueV::F64(*x),
            AlbaTypes::Bool(x) => ValueV::Bool(*x),
            AlbaTypes::I32(x) => ValueV::I32(*x),
            AlbaTypes::I64(x) => ValueV::I64(*x),
            AlbaTypes::Bytes(b) => ValueV::Bytes(b@),
        }
    }
}

/// The tag byte of each kind of value.
pub open spec fn value_tag(v: ValueV) -> u8 {
    match v {
        ValueV::Str(_) => 0,
        ValueV::U8(_) => 1,
        ValueV::U16(_) => 2,
        ValueV::U32(_) => 3,
        ValueV::U64(_) => 4,
        ValueV::U128(_) => 5,
        ValueV::F32(_) => 6,
        ValueV::F64(_) => 7,
        ValueV::Bool(_) => 8,
        ValueV::I32(_) => 9,
        ValueV::I64(_) => 10,
        ValueV::Bytes(_) => 11,
    }
}

/// A variable-width integer length prefix followed by the bytes themselves.
pub open spec fn prefixed(b: Seq<u8>) -> Seq<u8> {
    spec_varint(b.len() as u64) + b
}

/// The payload written after the tag byte.
pub open spec fn value_payload(v: ValueV) -> Seq<u8> {
    match v {
        ValueV::Str(s) => prefixed(utf8_of(s)),
        ValueV::U8(x) => seq![x],
        ValueV::U16(x) => spec_u16_to_le_bytes(x),
        ValueV::U32(x) => spec_u32_to_le_bytes(x),
        ValueV::U64(x) => spec_u64_to_le_bytes(x),
        ValueV::U128(x) => spec_u128_to_le_bytes(x),
        ValueV::F32(x) => spec_u32_to_le_bytes(x),
        ValueV::F64(x) => spec_u64_to_le_bytes(x),
        ValueV::Bool(x) => seq![if x { 1u8 } else { 0u8 }],
        ValueV::I32(x) => spec_u32_to_le_bytes(x as u32),
        ValueV::I64(x) => spec_u64_to_le_bytes(x as u64),
        ValueV::Bytes(b) => prefixed(b),
    }
}

/// The encoding of a value: its tag byte, then its payload.
pub open spec fn encode_value(v: ValueV) -> Seq<u8> {
    seq![value_tag(v)] + value_payload(v)
}

/// A value is encodable when its variable-length contents fit a 64-bit length.
pub open spec fn value_fits(v: ValueV) -> bool {
    match v {
        ValueV::Str(s) => utf8_of(s).len() <= u64::MAX,
        ValueV::Bytes(b) => b.len() <= u64::MAX,
        _ => true,
    }
}

/// Payload width of the fixed-width tags 1..=10.
pub open spec fn fixed_width(tag: u8) -> nat {
    if tag == 1 || tag == 8 {
        1
    } else if tag == 2 {
        2
    } else if tag == 3 || tag == 6 || tag == 9 {
        4
    } else if tag == 4 || tag == 7 || tag == 10 {
        8
    } else {
        16
    }
}

/// The value of a fixed-width tag read from exactly its payload bytes `p`.
pub open spec fn read_fixed(tag: u8, p: Seq<u8>) -> ValueV {
    if tag == 1 {
        ValueV::U8(p[0])
    } else if tag == 2 {
        ValueV::U16(spec_u16_from_le_bytes(p))
    } else if tag == 3 {
        ValueV::U32(spec_u32_from_le_bytes(p))
    } else if tag == 4 {
        ValueV::U64(spec_u64_from_le_bytes(p))
    } else if tag == 5 {
        ValueV::U128(spec_u128_from_le_bytes(p))
    } else if tag == 6 {
        ValueV::F32(spec_u32_from_le_bytes(p))
    } else if tag == 7 {
        ValueV::F64(spec_u64_from_le_bytes(p))
    } else if tag == 8 {
        ValueV::Bool(p[0] != 0)
    } else if tag == 9 {
        ValueV::I32(spec_u32_from_le_bytes(p) as i32)
    } else {
        ValueV::I64(spec_u64_from_le_bytes(p) as i64)
    }
}

/// Decoding of a length-prefixed byte run at the start of `s`: the bytes and
/// the number of bytes consumed (prefix included).
pub open spec fn parse_prefixed(s: Seq<u8>) -> Result<(Seq<u8>, nat), ErrorKind> {
    match parse_varint(s) {
        None => Err(ErrorKind::InvalidInput),
        Some((n, k)) => if s.len() < k + n {
            Err(ErrorKind::UnexpectedEof)
        } else {
            Ok((s.subrange(k as int, k + n), (k + n) as nat))
        },
    }
}

/// Decoding of one value at the start of `s`: the value and the number of
/// bytes consumed.
pub open spec fn parse_value(s: Seq<u8>) -> Result<(ValueV, nat), ErrorKind> {
    if s.len() == 0 {
        Err(ErrorKind::InvalidInput)
    } else if s[0] > 11 {
        Err(ErrorKind::InvalidInput)
    } else if s[0] == 0 || s[0] == 11 {
        match parse_prefixed(s.subrange(1, s.len() as int)) {
            Err(e) => Err(e),
            Ok((b, n)) => Ok(
                (
                    if s[0] == 0 {
                        ValueV::Str(lossy_text(b))
                    } else {
                        ValueV::Bytes(b)
                    },
                    1 + n,
                ),
            ),
        }
    } else if s.len() < 1 + fixed_width(s[0]) {
        Err(ErrorKind::UnexpectedEof)
    } else {
        Ok((read_fixed(s[0], s.subrange(1, 1 + fixed_width(s[0]) as int)), 1 + fixed_width(s[0])))
    }
}

/// Appends a length prefix and then `b` to `out`.
pub fn push_prefixed(out: &mut Vec<u8>, b: &[u8])
    ensures
        final(out)@ == old(out)@ + prefixed(b@),
{
    let d = DynamicInteger::from_usize(b.len());
    let mut head = d.compile();
    out.append(&mut head);
    push_bytes(out, b);
    proof {
        assert(final(out)@ =~= old(out)@ + prefixed(b@));
    }
}

/// Reads a length-prefixed byte run at the start of `input`.
pub fn read_prefixed(input: &[u8]) -> (r: Result<(&[u8], usize), Error>)
    ensures
        match r {
            Ok((b, n)) => parse_prefixed(input@) == Ok::<(Seq<u8>, nat), ErrorKind>((b@, n as nat)) && n <= input@.len(),
            Err(e) => parse_prefixed(input@) == Err::<(Seq<u8>, nat), ErrorKind>(e.spec_kind()),
        },
{
    let (d, k) = DynamicInteger::from_bytes(input)?;
    let n64 = d.value_u64();
    if n64 > (input.len() - k) as u64 {
        return Err(Error::new(ErrorKind::UnexpectedEof, "Length-prefixed data truncated"));
    }
    let n = n64 as usize;
    Ok((slice_subrange(input, k, k + n), k + n))
}

impl AlbaTypes {
    pub fn from_id(id: u8) -> (r: Result<AlbaTypes, Error>)
        ensures
            match r {
                Ok(v) => id <= 11 && value_tag(v@) == id && v@ == zero_value(id),
                Err(e) => id > 11 && e.spec_kind() == ErrorKind::InvalidInput,
            },
    {
        if id == 0 {
            Ok(AlbaTypes::String(String::new()))
        } else if id == 1 {
            Ok(AlbaTypes::U8(0))
        } else if id == 2 {
            Ok(AlbaTypes::U16(0))
        } else if id == 3 {
            Ok(AlbaTypes::U32(0))
        } else if id == 4 {
            Ok(AlbaTypes::U64(0))
        } else if id == 5 {
            Ok(AlbaTypes::U128(0))
        } else if id == 6 {
            Ok(AlbaTypes::F32(0))
        } else if id == 7 {
            Ok(AlbaTypes::F64(0))
        } else if id == 8 {
            Ok(AlbaTypes::Bool(false))
        } else if id == 9 {
            Ok(AlbaTypes::I32(0))
        } else if id == 10 {
            Ok(AlbaTypes::I64(0))
        } else if id == 11 {
            Ok(AlbaTypes::Bytes(Vec::new()))
        } else {
            Err(Error::new(ErrorKind::InvalidInput, "Invalid AlbaType id"))
        }
    }

    pub fn id(&self) -> (r: u8)
        ensures
            r == value_tag(self@),
    {
        match self {
            AlbaTypes::String(_) => 0u8,
            AlbaTypes::U8(_) => 1u8,
            AlbaTypes::U16(_) => 2u8,
            AlbaTypes::U32(_) => 3u8,
            AlbaTypes::U64(_) => 4u8,
            AlbaTypes::U128(_) => 5u8,
            AlbaTypes::F32(_) => 6u8,
            AlbaTypes::F64(_) => 7u8,
            AlbaTypes::Bool(_) => 8u8,
            AlbaTypes::I32(_) => 9u8,
            AlbaTypes::I64(_) => 10u8,
            AlbaTypes::Bytes(_) => 11u8,
        }
    }

    /// Appends the encoding of this value to `out`.
    pub fn write_to(&self, out: &mut Vec<u8>)
        ensures
            final(out)@ == old(out)@ + encode_value(self@),
    {
        out.push(self.id());
        let ghost mid = out@;
        match self {
            AlbaTypes::String(s) => {
                push_prefixed(out, s.as_str().as_bytes());
            },
            AlbaTypes::Bytes(b) => {
                push_prefixed(out, b.as_slice());
            },
            AlbaTypes::U8(v) => {
                out.push(*v);
            },
            AlbaTypes::U16(v) => {
                let mut p = u16_to_le_bytes(*v);
                out.append(&mut p);
            },
            AlbaTypes::U32(v) => {
                let mut p = u32_to_le_bytes(*v);
                out.append(&mut p);
            },
            AlbaTypes::U64(v) => {
                let mut p = u64_to_le_bytes(*v);
                out.append(&mut p);
            },
            AlbaTypes::U128(v) => {
                let mut p = u128_to_le_bytes(*v);
                out.append(&mut p);
            },
            AlbaTypes::F32(v) => {
                let mut p = u32_to_le_bytes(*v);
                out.append(&mut p);
            },
            AlbaTypes::F64(v) => {
                let mut p = u64_to_le_bytes(*v);
                out.append(&mut p);
            },
            AlbaTypes::Bool(v) => {
                out.push(if *v { 1u8 } else { 0u8 });
            },
            AlbaTypes::I32(v) => {
                let mut p = u32_to_le_bytes(*v as u32);
                out.append(&mut p);
            },
            AlbaTypes::I64(v) => {
                let mut p = u64_to_le_bytes(*v as u64);
                out.append(&mut p);
            },
        }
        proof {
            assert(out@ =~= old(out)@ + encode_value(self@));
        }
    }

    pub fn as_bytes(&self) -> (r: Vec<u8>)
        ensures
            r@ == encode_value(self@),
    {
        let mut out: Vec<u8> = Vec::new();
        self.write_to(&mut out);
        proof {
            assert(out@ =~= encode_value(self@));
        }
        out
    }

    pub fn from_bytes(input: &[u8]) -> (r: Result<(Self, usize), Error>)
        ensures
            match r {
                Ok((v, n)) => parse_value(input@) == Ok::<(ValueV, nat), ErrorKind>((v@, n as nat)) && n <= input@.len(),
                Err(e) => parse_value(input@) == Err::<(ValueV, nat), ErrorKind>(e.spec_kind()),
            },
    {
        if input.len() == 0 {
            return Err(Error::new(ErrorKind::InvalidInput, "Input is empty"));
        }
        let id = input[0];
        if id > 11 {
            return Err(Error::new(ErrorKind::InvalidInput, "Invalid AlbaType id"));
        }
        if id == 0 || id == 11 {
            let rest = slice_subrange(input, 1, input.len());
            let (b, n) = read_prefixed(rest)?;
            let v = if id == 0 {
                AlbaTypes::String(lossy_string(b))
            } else {
                AlbaTypes::Bytes(slice_to_vec(b))
            };
            return Ok((v, 1 + n));
        }
        let w: usize = if id == 1 || id == 8 {
            1
        } else if id == 2 {
            2
        } else if id == 3 || id == 6 || id == 9 {
            4
        } else if id == 4 || id == 7 || id == 10 {
            8
        } else {
            16
        };
        if input.len() < 1 + w {
            return Err(Error::new(ErrorKind::UnexpectedEof, "Truncated fixed-width value"));
        }
        let p = slice_subrange(input, 1, 1 + w);
        let v = if id == 1 {
            AlbaTypes::U8(p[0])
        } else if id == 2 {
            AlbaTypes::U16(u16_from_le_bytes(p))
        } else if id == 3 {
            AlbaTypes::U32(u32_from_le_bytes(p))
        } else if id == 4 {
            AlbaTypes::U64(u64_from_le_bytes(p))
        } else if id == 5 {
            AlbaTypes::U128(u128_from_le_bytes(p))
        } else if id == 6 {
            AlbaTypes::F32(u32_from_le_bytes(p))
        } else if id == 7 {
            AlbaTypes::F64(u64_from_le_bytes(p))
        } else if id == 8 {
            AlbaTypes::Bool(p[0] != 0)
        } else if id == 9 {
            AlbaTypes::I32(u32_from_le_bytes(p) as i32)
        } else {
            AlbaTypes::I64(u64_from_le_bytes(p) as i64)
        };
        Ok((v, 1 + w))
    }
}

/// A length-prefixed byte run decodes back to itself, whatever follows it.
pub proof fn lemma_prefixed_round_trip(b: Seq<u8>, rest: Seq<u8>)
    requires
        b.len() <= u64::MAX,
    ensures
        parse_prefixed(prefixed(b) + rest) == Ok::<(Seq<u8>, nat), ErrorKind>((b, prefixed(b).len())),
{
    let h = spec_varint(b.len() as u64);
    lemma_varint_round_trip(b.len() as u64, b + rest);
    assert(prefixed(b) + rest =~= h + (b + rest));
    assert((h + (b + rest)).subrange(h.len() as int, (h.len() + b.len()) as int) =~= b);
}

/// A length-prefixed byte run with its last byte removed does not decode.
pub proof fn lemma_prefixed_truncated(b: Seq<u8>)
    requires
        b.len() <= u64::MAX,
    ensures
        parse_prefixed(prefixed(b).drop_last()) is Err,
{
    let h = spec_varint(b.len() as u64);
    if b.len() == 0 {
        lemma_varint_truncated(0);
        assert(prefixed(b).drop_last() =~= h.drop_last());
    } else {
        lemma_varint_round_trip(b.len() as u64, b.drop_last());
        assert(prefixed(b).drop_last() =~= h + b.drop_last());
    }
}

/// A fixed-width value is read back from its own payload.
proof fn lemma_read_fixed(v: ValueV)
    requires
        !(v is Str),
        !(v is Bytes),
    ensures
        value_payload(v).len() == fixed_width(value_tag(v)),
        read_fixed(value_tag(v), value_payload(v)) == v,
{
    lemma_auto_spec_u16_to_from_le_bytes();
    lemma_auto_spec_u32_to_from_le_bytes();
    lemma_auto_spec_u64_to_from_le_bytes();
    lemma_auto_spec_u128_to_from_le_bytes();
    match v {
        ValueV::U8(x) => {},
        ValueV::U16(x) => {},
        ValueV::U32(x) => {},
        ValueV::U64(x) => {},
        ValueV::U128(x) => {},
        ValueV::F32(x) => {},
        ValueV::F64(x) => {},
        ValueV::Bool(x) => {},
        ValueV::I32(x) => {
            let u: u32 = #[verifier::truncate] (x as u32);
            lemma_auto_spec_u32_to_from_le_bytes();
            assert(spec_u32_to_le_bytes(u).len() == 4);
            assert(spec_u32_from_le_bytes(spec_u32_to_le_bytes(u)) == u);
            assert((#[verifier::truncate] ((#[verifier::truncate] (x as u32)) as i32)) == x) by (bit_vector);
        },
        ValueV::I64(x) => {
            let u: u64 = #[verifier::truncate] (x as u64);
            assert(spec_u64_from_le_bytes(spec_u64_to_le_bytes(u)) == u);
            assert((#[verifier::truncate] ((#[verifier::truncate] (x as u64)) as i64)) == x) by (bit_vector);
        },
        _ => {},
    }
}

/// Decoding the encoding of a value, whatever follows it, gives back the value
/// and consumes exactly the encoding.
pub proof fn lemma_value_round_trip(v: ValueV, rest: Seq<u8>)
    requires
        value_fits(v),
    ensures
        parse_value(encode_value(v) + rest) == Ok::<(ValueV, nat), ErrorKind>((v, encode_value(v).len())),
{
    lemma_auto_spec_u16_to_from_le_bytes();
    lemma_auto_spec_u32_to_from_le_bytes();
    lemma_auto_spec_u64_to_from_le_bytes();
    lemma_auto_spec_u128_to_from_le_bytes();
    let s = encode_value(v) + rest;
    let tail = s.subrange(1, s.len() as int);
    assert(tail =~= value_payload(v) + rest);
    match v {
        ValueV::Str(t) => {
            lemma_prefixed_round_trip(utf8_of(t), rest);
            lemma_lossy_of_utf8(t);
            assert(tail =~= prefixed(utf8_of(t)) + rest);
            assert(s[0] == 0);
        },
        ValueV::Bytes(b) => {
            lemma_prefixed_round_trip(b, rest);
            assert(s[0] == 11);
            assert(tail =~= prefixed(b) + rest);
        },
        _ => {
            let w = fixed_width(value_tag(v)) as int;
            lemma_read_fixed(v);
            assert(s.subrange(1, 1 + w) =~= value_payload(v));
        },
    }
}

/// A value's encoding with its last byte removed does not decode.
pub proof fn lemma_value_truncated(v: ValueV)
    requires
        value_fits(v),
    ensures
        parse_value(encode_value(v).drop_last()) is Err,
{
    let s = encode_value(v).drop_last();
    match v {
        ValueV::Str(t) => {
            lemma_prefixed_truncated(utf8_of(t));
            assert(s.subrange(1, s.len() as int) =~= prefixed(utf8_of(t)).drop_last());
        },
        ValueV::Bytes(b) => {
            lemma_prefixed_truncated(b);
            assert(s.subrange(1, s.len() as int) =~= prefixed(b).drop_last());
        },
        _ => {
            lemma_auto_spec_u16_to_from_le_bytes();
            lemma_auto_spec_u32_to_from_le_bytes();
            lemma_auto_spec_u64_to_from_le_bytes();
            lemma_auto_spec_u128_to_from_le_bytes();
        },
    }
}

/// A vector holding the bytes of `b`.
pub fn copy_bytes(b: &[u8]) -> (r: Vec<u8>)
    ensures
        r@ == b@,
{
    slice_to_vec(b)
}

/// The zero value of each kind, as `from_id` creates it.
pub open spec fn zero_value(id: u8) -> ValueV {
    if id == 0 {
        ValueV::Str(Seq::empty())
    } else if id == 1 {
        ValueV::U8(0)
    } else if id == 2 {
        ValueV::U16(0)
    } else if id == 3 {
        ValueV::U32(0)
    } else if id == 4 {
        ValueV::U64(0)
    } else if id == 5 {
        ValueV::U128(0)
    } else if id == 6 {
        ValueV::F32(0)
    } else if id == 7 {
        ValueV::F64(0)
    } else if id == 8 {
        ValueV::Bool(false)
    } else if id == 9 {
        ValueV::I32(0)
    } else if id == 10 {
        ValueV::I64(0)
    } else {
        ValueV::Bytes(Seq::empty())
    }
}

/// The bare bytes of a value, without tag or length prefix.
pub open spec fn raw_bytes(v: ValueV) -> Seq<u8> {
    match v {
        ValueV::Str(s) => utf8_of(s),
        ValueV::Bytes(b) => b,
        _ => value_payload(v),
    }
}

pub open spec fn raw_encoder() -> spec_fn(ValueV) -> Seq<u8> {
    |v: ValueV| raw_bytes(v)
}

/// The bare bytes of each value, one after another.
pub fn digest_values(values: &Vec<AlbaTypes>) -> (r: Vec<u8>)
    ensures
        r@ == encode_many(values@.map_values(|x: AlbaTypes| x@), raw_encoder()),
{
    let ghost vs = values@.map_values(|x: AlbaTypes| x@);
    let mut bytes: Vec<u8> = Vec::new();
    let mut i: usize = 0;
    while i < values.len()
        invariant
            0 <= i <= values@.len(),
            vs == values@.map_values(|x: AlbaTypes| x@),
            bytes@ == encode_many(vs.take(i as int), raw_encoder()),
        decreases values@.len() - i,
    {
        let ghost before = bytes@;
        match &values[i] {
            AlbaTypes::String(s) => push_bytes(&mut bytes, s.as_str().as_bytes()),
            AlbaTypes::Bytes(b) => push_bytes(&mut bytes, b.as_slice()),
            other => {
                let mut full: Vec<u8> = Vec::new();
                other.write_to(&mut full);
                push_bytes(&mut bytes, slice_subrange(full.as_slice(), 1, full.len()));
                proof {
                    assert(full@.subrange(1, full@.len() as int) =~= value_payload(other@));
                }
            },
        }
        proof {
            assert(vs.take(i + 1).drop_last() =~= vs.take(i as int));
            assert(vs.take(i + 1).last() == values@[i as int]@);
        }
        i = i + 1;
    }
    proof {
        assert(vs.take(i as int) =~= vs);
    }
    bytes
}

/// Values that flatten to their bare bytes.
pub trait Digest {
    fn digest(&self) -> Vec<u8>;
}

impl Digest for Vec<AlbaTypes> {
    fn digest(&self) -> Vec<u8> {
        digest_values(self)
    }
}

/// Conversion of a plain Rust value into a protocol value.
pub trait ToAlbaAlbaTypes {
    fn to_alba_alba_types(&self) -> AlbaTypes;
}

impl ToAlbaAlbaTypes for u64 {
    fn to_alba_alba_types(&self) -> AlbaTypes {
        AlbaTypes::U64(*self)
    }
}

impl ToAlbaAlbaTypes for u32 {
    fn to_alba_alba_types(&self) -> AlbaTypes {
        AlbaTypes::U32(*self)
    }
}

impl ToAlbaAlbaTypes for i64 {
    fn to_alba_alba_types(&self) -> AlbaTypes {
        AlbaTypes::I64(*self)
    }
}

impl ToAlbaAlbaTypes for i32 {
    fn to_alba_alba_types(&self) -> AlbaTypes {
        AlbaTypes::I32(*self)
    }
}

impl ToAlbaAlbaTypes for u16 {
    fn to_alba_alba_types(&self) -> AlbaTypes {
        AlbaTypes::U16(*self)
    }
}

impl ToAlbaAlbaTypes for u8 {
    fn to_alba_alba_types(&self) -> AlbaTypes {
        AlbaTypes::U8(*self)
    }
}

impl ToAlbaAlbaTypes for bool {
    fn to_alba_alba_types(&self) -> AlbaTypes {
        AlbaTypes::Bool(*self)
    }
}

impl ToAlbaAlbaTypes for String {
    fn to_alba_alba_types(&self) -> AlbaTypes {
        AlbaTypes::String(self.clone())
    }
}

impl ToAlbaAlbaTypes for Vec<u8> {
    fn to_alba_alba_types(&self) -> AlbaTypes {
        AlbaTypes::Bytes(self.clone())
    }
}

impl ToAlbaAlbaTypes for &str {
    fn to_alba_alba_types(&self) -> AlbaTypes {
        AlbaTypes::String(String::from_str(*self))
    }
}

} // verus!
