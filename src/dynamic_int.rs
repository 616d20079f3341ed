use vstd::prelude::*;
use vstd::bytes::*;
use vstd::slice::slice_subrange;
use crate::albastream::{Error, ErrorKind};

verus! {

/// The payload width in bytes selected by a width tag (0..=3).
pub open spec fn tag_width(tag: u8) -> nat {
    if tag == 0 {
        1
    } else if tag == 1 {
        2
    } else if tag == 2 {
        4
    } else {
        8
    }
}

/// The narrowest width tag whose payload holds `n`.
pub open spec fn narrowest_tag(n: u64) -> u8 {
    if n <= 0xff {
        0
    } else if n <= 0xffff {
        1
    } else if n <= 0xffff_ffff {
        2
    } else {
        3
    }
}

/// The little-endian payload of `n` at the width that `tag` selects.
pub open spec fn payload_bytes(tag: u8, n: u64) -> Seq<u8> {
    if tag == 0 {
        seq![n as u8]
    } else if tag == 1 {
        spec_u16_to_le_bytes(n as u16)
    } else if tag == 2 {
        spec_u32_to_le_bytes(n as u32)
    } else {
        spec_u64_to_le_bytes(n)
    }
}

/// The canonical encoding of `n`: the narrowest width tag, then the payload.
pub open spec fn spec_varint(n: u64) -> Seq<u8> {
    seq![narrowest_tag(n)] + payload_bytes(narrowest_tag(n), n)
}

/// Reads the payload of the given width from `s` (little-endian).
pub open spec fn read_payload(tag: u8, s: Seq<u8>) -> u64 {
    if tag == 0 {
        s[0] as u64
    } else if tag == 1 {
        spec_u16_from_le_bytes(s.subrange(0, 2)) as u64
    } else if tag == 2 {
        spec_u32_from_le_bytes(s.subrange(0, 4)) as u64
    } else {
        spec_u64_from_le_bytes(s.subrange(0, 8))
    }
}

/// Decoding of a variable-width integer at the start of `s`: the value and the
/// number of bytes consumed, or `None` for an unknown tag or too few bytes.
pub open spec fn parse_varint(s: Seq<u8>) -> Option<(u64, nat)> {
    if s.len() == 0 || s[0] > 3 {
        None
    } else if s.len() < 1 + tag_width(s[0]) {
        None
    } else {
        Some((read_payload(s[0], s.subrange(1, s.len() as int)), 1 + tag_width(s[0])))
    }
}

/// The first value that no longer fits the payload width of `tag`.
pub open spec fn tag_capacity(tag: u8) -> int {
    if tag == 0 {
        0x100
    } else if tag == 1 {
        0x1_0000
    } else if tag == 2 {
        0x1_0000_0000
    } else {
        0x1_0000_0000_0000_0000
    }
}

/// Decoding the encoding of `n`, whatever follows it, gives back `n` and
/// consumes exactly the encoding.
pub proof fn lemma_varint_round_trip(n: u64, rest: Seq<u8>)
    ensures
        parse_varint(spec_varint(n) + rest) == Some((n, spec_varint(n).len())),
        spec_varint(n).len() == 1 + tag_width(narrowest_tag(n)),
{
    lemma_auto_spec_u16_to_from_le_bytes();
    lemma_auto_spec_u32_to_from_le_bytes();
    lemma_auto_spec_u64_to_from_le_bytes();
    let t = narrowest_tag(n);
    let s = spec_varint(n) + rest;
    let w = tag_width(t) as int;
    assert(s.subrange(1, s.len() as int).subrange(0, w) =~= payload_bytes(t, n));
    if t == 0 {
        assert(s[1] == n as u8);
    }
}

/// The encoder picks the narrowest of the four widths: `n` fits the chosen
/// width and fits none of the narrower ones.
pub proof fn lemma_varint_minimal(n: u64)
    ensures
        spec_varint(n)[0] == narrowest_tag(n),
        n < tag_capacity(narrowest_tag(n)),
        forall|t: u8| t < narrowest_tag(n) ==> n >= #[trigger] tag_capacity(t),
{
}

/// An encoding with its last byte removed does not decode.
pub proof fn lemma_varint_truncated(n: u64)
    ensures
        parse_varint(spec_varint(n).drop_last()) is None,
{
    lemma_varint_round_trip(n, Seq::empty());
    assert(spec_varint(n).drop_last()[0] == spec_varint(n)[0]);
}

/// Concatenation of two slices into a new vector.
pub fn vec_from_two_vec<T: Clone>(vec0: &[T], vec1: &[T]) -> (r: Vec<T>)
    requires
        vec0@.len() + vec1@.len() <= usize::MAX,
    ensures
        r@.len() == vec0@.len() + vec1@.len(),
        forall|i: int| 0 <= i < vec0@.len() ==> cloned::<T>(vec0@[i], #[trigger] r@[i]),
        forall|i: int|
            vec0@.len() <= i < r@.len() ==> cloned::<T>(vec1@[i - vec0@.len()], #[trigger] r@[i]),
{
    let mut vec2 = Vec::with_capacity(vec0.len() + vec1.len());
    vec2.extend_from_slice(vec0);
    vec2.extend_from_slice(vec1);
    vec2
}

/// An unsigned integer together with the width tag it is written with.
#[derive(Debug)]
pub enum DynamicInteger {
    U8((u8, u8)),
    U16((u8, u16)),
    U32((u8, u32)),
    U64((u8, u64)),
}

impl DynamicInteger {
    pub open spec fn value(&self) -> u64 {
        match self {
            DynamicInteger::U8(a) => a.1 as u64,
            DynamicInteger::U16(a) => a.1 as u64,
            DynamicInteger::U32(a) => a.1 as u64,
            DynamicInteger::U64(a) => a.1,
        }
    }

    pub open spec fn tag(&self) -> u8 {
        match self {
            DynamicInteger::U8(a) => a.0,
            DynamicInteger::U16(a) => a.0,
            DynamicInteger::U32(a) => a.0,
            DynamicInteger::U64(a) => a.0,
        }
    }

    /// The width that the variant itself selects.
    pub open spec fn variant_tag(&self) -> u8 {
        match self {
            DynamicInteger::U8(_) => 0,
            DynamicInteger::U16(_) => 1,
            DynamicInteger::U32(_) => 2,
            DynamicInteger::U64(_) => 3,
        }
    }

    /// The stored tag agrees with the variant.
    pub open spec fn wf(&self) -> bool {
        self.tag() == self.variant_tag()
    }

    /// The bytes that `compile` writes.
    pub open spec fn spec_bytes(&self) -> Seq<u8> {
        seq![self.tag()] + payload_bytes(self.variant_tag(), self.value())
    }

    pub fn from_usize(num: usize) -> (r: DynamicInteger)
        ensures
            r.wf(),
            r.value() == num as u64,
            r.variant_tag() == narrowest_tag(num as u64),
            r.spec_bytes() == spec_varint(num as u64),
    {
        if num <= u8::MAX as usize {
            DynamicInteger::U8((0u8, num as u8))
        } else if num <= u16::MAX as usize {
            DynamicInteger::U16((1u8, num as u16))
        } else if num as u64 <= u32::MAX as u64 {
            DynamicInteger::U32((2u8, num as u32))
        } else {
            DynamicInteger::U64((3u8, num as u64))
        }
    }

    pub fn from_bytes(bytes: &[u8]) -> (r: Result<(DynamicInteger, usize), Error>)
        ensures
            match r {
                Ok((d, n)) => {
                    &&& parse_varint(bytes@) == Some((d.value(), n as nat))
                    &&& d.wf()
                    &&& d.tag() == bytes@[0]
                },
                Err(e) => parse_varint(bytes@) is None && e.spec_kind() == ErrorKind::InvalidInput,
            },
    {
        if bytes.len() == 0 {
            return Err(Error::new(ErrorKind::InvalidInput, "Empty byte array"));
        }
        let type_flag = bytes[0];
        if type_flag == 0 {
            if bytes.len() < 2 {
                return Err(Error::new(ErrorKind::InvalidInput, "Insufficient bytes for U8 variant"));
            }
            Ok((DynamicInteger::U8((0u8, bytes[1])), 2))
        } else if type_flag == 1 {
            if bytes.len() < 3 {
                return Err(Error::new(ErrorKind::InvalidInput, "Insufficient bytes for U16 variant"));
            }
            let value = u16_from_le_bytes(slice_subrange(bytes, 1, 3));
            proof {
                assert(bytes@.subrange(1, bytes@.len() as int).subrange(0, 2) =~= bytes@.subrange(1, 3));
            }
            Ok((DynamicInteger::U16((1u8, value)), 3))
        } else if type_flag == 2 {
            if bytes.len() < 5 {
                return Err(Error::new(ErrorKind::InvalidInput, "Insufficient bytes for U32 variant"));
            }
            let value = u32_from_le_bytes(slice_subrange(bytes, 1, 5));
            proof {
                assert(bytes@.subrange(1, bytes@.len() as int).subrange(0, 4) =~= bytes@.subrange(1, 5));
            }
            Ok((DynamicInteger::U32((2u8, value)), 5))
        } else if type_flag == 3 {
            if bytes.len() < 9 {
                return Err(Error::new(ErrorKind::InvalidInput, "Insufficient bytes for U64 variant"));
            }
            let value = u64_from_le_bytes(slice_subrange(bytes, 1, 9));
            proof {
                assert(bytes@.subrange(1, bytes@.len() as int).subrange(0, 8) =~= bytes@.subrange(1, 9));
            }
            Ok((DynamicInteger::U64((3u8, value)), 9))
        } else {
            Err(Error::new(ErrorKind::InvalidInput, "Invalid type flag"))
        }
    }

    pub fn to_usize(&self) -> (r: usize)
        ensures
            r == self.value() as usize,
    {
        self.usize()
    }

    /// The value as a 64-bit integer, whatever the platform's word size.
    pub fn value_u64(&self) -> (r: u64)
        ensures
            r == self.value(),
    {
        match self {
            DynamicInteger::U8(a) => a.1 as u64,
            DynamicInteger::U16(a) => a.1 as u64,
            DynamicInteger::U32(a) => a.1 as u64,
            DynamicInteger::U64(a) => a.1,
        }
    }

    pub fn size(&self) -> (r: usize)
        ensures
            r == 1 + tag_width(self.variant_tag()),
    {
        match self {
            DynamicInteger::U8(_) => 2,
            DynamicInteger::U16(_) => 3,
            DynamicInteger::U32(_) => 5,
            DynamicInteger::U64(_) => 9,
        }
    }

    pub fn usize(&self) -> (r: usize)
        ensures
            r == self.value() as usize,
    {
        match self {
            DynamicInteger::U8(a) => a.1 as usize,
            DynamicInteger::U16(a) => a.1 as usize,
            DynamicInteger::U32(a) => a.1 as usize,
            DynamicInteger::U64(a) => a.1 as usize,
        }
    }

    pub fn compile(&self) -> (r: Vec<u8>)
        ensures
            r@ == self.spec_bytes(),
    {
        let mut out = vec![0u8];
        match self {
            DynamicInteger::U8(a) => {
                out.set(0, a.0);
                out.push(a.1);
            },
            DynamicInteger::U16(a) => {
                out.set(0, a.0);
                let mut p = u16_to_le_bytes(a.1);
                out.append(&mut p);
            },
            DynamicInteger::U32(a) => {
                out.set(0, a.0);
                let mut p = u32_to_le_bytes(a.1);
                out.append(&mut p);
            },
            DynamicInteger::U64(a) => {
                out.set(0, a.0);
                let mut p = u64_to_le_bytes(a.1);
                out.append(&mut p);
            },
        }
        proof {
            assert(out@ =~= self.spec_bytes());
        }
        out
    }

    /// Decodes a buffer that holds exactly one encoded integer.
    pub fn decompile(bytes: &[u8]) -> (r: Result<DynamicInteger, &'static str>)
        ensures
            match r {
                Ok(d) => parse_varint(bytes@) == Some((d.value(), bytes@.len())) && d.wf() && d.tag() == bytes@[0],
                Err(_) => !(parse_varint(bytes@) matches Some((_, n)) && n == bytes@.len()),
            },
    {
        match DynamicInteger::from_bytes(bytes) {
            Ok((d, n)) => {
                if n == bytes.len() {
                    Ok(d)
                } else {
                    Err("Invalid byte length for the variant")
                }
            },
            Err(_) => Err("Invalid type flag or byte length"),
        }
    }
}

} // verus!
