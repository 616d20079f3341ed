use vstd::prelude::*;
use vstd::slice::slice_subrange;
use crate::albastream::{Error, ErrorKind};
use crate::command_format::{values_view, value_encoder, value_parser, values_fit, lemma_values_round_trip};
use crate::dynamic_int::{DynamicInteger, spec_varint, parse_varint, lemma_varint_round_trip};
use crate::text::{lossy_string, lossy_text};
use crate::types::{AlbaTypes, ValueV};
use crate::wire::{PResult, after, encode_many, parse_many, lemma_parse_many_err, lemma_many_round_trip};

verus! {

/// One row of a reply: its values in column order.
#[derive(Debug)]
pub struct Row(pub Vec<AlbaTypes>);

impl View for Row {
    type V = Seq<ValueV>;

    open spec fn view(&self) -> Seq<ValueV> {
        values_view(self.0@)
    }
}

/// A row: its value count, then the values.
pub open spec fn encode_row(r: Seq<ValueV>) -> Seq<u8> {
    spec_varint(r.len() as u64) + encode_many(r, value_encoder())
}

pub open spec fn parse_row(s: Seq<u8>) -> PResult<Seq<ValueV>> {
    match parse_varint(s) {
        None => Err(ErrorKind::InvalidInput),
        Some((n, k)) => match parse_many(after(s, k), n as nat, value_parser()) {
            Err(e) => Err(e),
            Ok((vs, m)) => Ok((vs, k + m)),
        },
    }
}

pub open spec fn row_encoder() -> spec_fn(Seq<ValueV>) -> Seq<u8> {
    |r: Seq<ValueV>| encode_row(r)
}

pub open spec fn row_parser() -> spec_fn(Seq<u8>) -> PResult<Seq<ValueV>> {
    |s: Seq<u8>| parse_row(s)
}

/// A reply body: the row count, then the rows.
pub open spec fn encode_response(rows: Seq<Seq<ValueV>>) -> Seq<u8> {
    spec_varint(rows.len() as u64) + encode_many(rows, row_encoder())
}

pub open spec fn parse_response(s: Seq<u8>) -> PResult<Seq<Seq<ValueV>>> {
    match parse_varint(s) {
        None => Err(ErrorKind::InvalidInput),
        Some((n, k)) => match parse_many(after(s, k), n as nat, row_parser()) {
            Err(e) => Err(e),
            Ok((rows, m)) => Ok((rows, k + m)),
        },
    }
}

/// Reads `count` values one after another.
fn read_values(input: &[u8], count: u64) -> (r: Result<(Vec<AlbaTypes>, usize), Error>)
    ensures
        match r {
            Ok((v, n)) => parse_many(input@, count as nat, value_parser()) == Ok::<(Seq<ValueV>, nat), ErrorKind>((values_view(v@), n as nat)) && n <= input@.len(),
            Err(e) => parse_many(input@, count as nat, value_parser()) == Err::<(Seq<ValueV>, nat), ErrorKind>(e.spec_kind()),
        },
{
    let mut v: Vec<AlbaTypes> = Vec::new();
    let mut off: usize = 0;
    let mut i: u64 = 0;
    proof {
        assert(values_view(v@) =~= Seq::<ValueV>::empty());
    }
    while i < count
        invariant
            0 <= i <= count,
            off <= input@.len(),
            parse_many(input@, i as nat, value_parser()) == Ok::<(Seq<ValueV>, nat), ErrorKind>((values_view(v@), off as nat)),
        decreases count - i,
    {
        let rest = slice_subrange(input, off, input.len());
        match AlbaTypes::from_bytes(rest) {
            Ok((x, n)) => {
                proof {
                    assert(values_view(v@.push(x)) =~= values_view(v@).push(x@));
                }
                v.push(x);
                off = off + n;
                i = i + 1;
            },
            Err(e) => {
                proof {
                    lemma_parse_many_err(input@, (i + 1) as nat, count as nat, value_parser());
                }
                return Err(e);
            },
        }
    }
    Ok((v, off))
}

impl Row {
    pub fn new(i: Vec<AlbaTypes>) -> (r: Self)
        ensures
            r@ == values_view(i@),
    {
        Row(i)
    }

    pub fn encode(&self) -> (r: Vec<u8>)
        ensures
            r@ == encode_row(self@),
    {
        let mut bytes = DynamicInteger::from_usize(self.0.len()).compile();
        let ghost head = bytes@;
        let ghost vs = self@;
        let mut i: usize = 0;
        while i < self.0.len()
            invariant
                0 <= i <= self.0@.len(),
                vs == self@,
                head == spec_varint(self.0@.len() as u64),
                bytes@ == head + encode_many(vs.take(i as int), value_encoder()),
            decreases self.0@.len() - i,
        {
            self.0[i].write_to(&mut bytes);
            proof {
                assert(vs.take(i + 1).drop_last() =~= vs.take(i as int));
                assert(vs.take(i + 1).last() == self.0@[i as int]@);
            }
            i = i + 1;
        }
        proof {
            assert(vs.take(i as int) =~= vs);
        }
        bytes
    }

    pub fn decode(input: &[u8]) -> (r: Result<(Self, usize), Error>)
        ensures
            match r {
                Ok((row, n)) => parse_row(input@) == Ok::<(Seq<ValueV>, nat), ErrorKind>((row@, n as nat)) && n <= input@.len(),
                Err(e) => parse_row(input@) == Err::<(Seq<ValueV>, nat), ErrorKind>(e.spec_kind()),
            },
    {
        let (d, k) = DynamicInteger::from_bytes(input)?;
        let (v, m) = read_values(slice_subrange(input, k, input.len()), d.value_u64())?;
        Ok((Row(v), k + m))
    }
}

/// The rows of a reply, with the row count its header announced.
#[derive(Debug)]
pub struct DBResponse {
    length: u64,
    pub row_list: Vec<Row>,
}

pub open spec fn rows_of(v: Seq<Row>) -> Seq<Seq<ValueV>> {
    v.map_values(|r: Row| r@)
}

impl View for DBResponse {
    type V = Seq<Seq<ValueV>>;

    closed spec fn view(&self) -> Seq<Seq<ValueV>> {
        rows_of(self.row_list@)
    }
}

impl DBResponse {
    /// The header agrees with the rows.
    pub closed spec fn wf(&self) -> bool {
        self.length == self.row_list@.len()
    }

    pub fn decode(input: &[u8]) -> (r: Result<(Self, usize), Error>)
        ensures
            match r {
                Ok((resp, n)) => parse_response(input@) == Ok::<(Seq<Seq<ValueV>>, nat), ErrorKind>((resp@, n as nat))
                    && n <= input@.len() && resp.wf(),
                Err(e) => parse_response(input@) == Err::<(Seq<Seq<ValueV>>, nat), ErrorKind>(e.spec_kind()),
            },
    {
        let (d, k) = DynamicInteger::from_bytes(input)?;
        let count = d.value_u64();
        let body = slice_subrange(input, k, input.len());
        let mut row_list: Vec<Row> = Vec::new();
        let mut off: usize = 0;
        let mut i: u64 = 0;
        proof {
            assert(rows_of(row_list@) =~= Seq::<Seq<ValueV>>::empty());
        }
        while i < count
            invariant
                0 <= i <= count,
                row_list@.len() == i,
                off <= body@.len(),
                parse_varint(input@) == Some((count, k as nat)),
                body@ == after(input@, k as nat),
                parse_many(body@, i as nat, row_parser()) == Ok::<(Seq<Seq<ValueV>>, nat), ErrorKind>((rows_of(row_list@), off as nat)),
            decreases count - i,
        {
            let rest = slice_subrange(body, off, body.len());
            match Row::decode(rest) {
                Ok((x, n)) => {
                    proof {
                        assert(rows_of(row_list@.push(x)) =~= rows_of(row_list@).push(x@));
                    }
                    row_list.push(x);
                    off = off + n;
                    i = i + 1;
                },
                Err(e) => {
                    proof {
                        lemma_parse_many_err(body@, (i + 1) as nat, count as nat, row_parser());
                    }
                    return Err(e);
                },
            }
        }
        Ok((DBResponse { length: count, row_list }, k + off))
    }

    pub fn encode(&self) -> (r: Vec<u8>)
        ensures
            r@ == encode_response(self@),
    {
        let mut b = DynamicInteger::from_usize(self.row_list.len()).compile();
        let ghost head = b@;
        let ghost rows = self@;
        let mut i: usize = 0;
        while i < self.row_list.len()
            invariant
                0 <= i <= self.row_list@.len(),
                rows == self@,
                head == spec_varint(self.row_list@.len() as u64),
                b@ == head + encode_many(rows.take(i as int), row_encoder()),
            decreases self.row_list@.len() - i,
        {
            let mut e = self.row_list[i].encode();
            b.append(&mut e);
            proof {
                assert(rows.take(i + 1).drop_last() =~= rows.take(i as int));
                assert(rows.take(i + 1).last() == self.row_list@[i as int]@);
            }
            i = i + 1;
        }
        proof {
            assert(rows.take(i as int) =~= rows);
        }
        b
    }

    pub fn new(row_list: Vec<Row>) -> (r: Self)
        ensures
            r@ == rows_of(row_list@),
            r.wf(),
    {
        let n = row_list.len() as u64;
        DBResponse { length: n, row_list }
    }

    /// The number of rows the header announced.
    pub fn length(&self) -> (r: u64)
        requires
            self.wf(),
        ensures
            r == self@.len(),
    {
        self.length
    }

    pub fn from_bytes(i: &[u8]) -> (r: Result<DBResponse, Error>)
        ensures
            match r {
                Ok(resp) => parse_response(i@) matches Ok((rows, _)) && rows == resp@,
                Err(e) => parse_response(i@) == Err::<(Seq<Seq<ValueV>>, nat), ErrorKind>(e.spec_kind()),
            },
    {
        let (resp, _) = DBResponse::decode(i)?;
        Ok(resp)
    }
}

/// Decoding of a reply envelope: a status byte, then on success a reply body
/// and on failure the store's message.
pub open spec fn parse_reply(s: Seq<u8>) -> Result<Seq<Seq<ValueV>>, ErrorKind> {
    if s.len() == 0 {
        Err(ErrorKind::UnexpectedEof)
    } else if s[0] == 1 {
        Err(ErrorKind::Other)
    } else {
        match parse_response(after(s, 1)) {
            Err(e) => Err(e),
            Ok((rows, _)) => Ok(rows),
        }
    }
}

/// Turns the store's reply into rows, or into the error the store reported.
pub fn read_reply(reply: &[u8]) -> (r: Result<DBResponse, Error>)
    ensures
        match r {
            Ok(resp) => parse_reply(reply@) == Ok::<Seq<Seq<ValueV>>, ErrorKind>(resp@),
            Err(e) => {
                &&& parse_reply(reply@) == Err::<Seq<Seq<ValueV>>, ErrorKind>(e.spec_kind())
                &&& reply@.len() > 0 && reply@[0] == 1 ==> e.spec_message() == lossy_text(after(reply@, 1))
            },
        },
{
    if reply.len() == 0 {
        return Err(Error::new(ErrorKind::UnexpectedEof, "Empty reply"));
    }
    let body = slice_subrange(reply, 1, reply.len());
    if reply[0] == 1 {
        let text = lossy_string(body);
        return Err(Error::new(ErrorKind::Other, text.as_str()));
    }
    DBResponse::from_bytes(body)
}

/// A response decodes back to its rows from its encoding.
pub proof fn lemma_response_round_trip(rows: Seq<Seq<ValueV>>, rest: Seq<u8>)
    requires
        rows.len() <= u64::MAX,
        forall|i: int| 0 <= i < rows.len() ==> (#[trigger] rows[i]).len() <= u64::MAX && values_fit(rows[i]),
    ensures
        parse_response(encode_response(rows) + rest) == Ok::<(Seq<Seq<ValueV>>, nat), ErrorKind>(
            (rows, encode_response(rows).len()),
        ),
{
    assert forall|i: int, r: Seq<u8>| 0 <= i < rows.len() implies #[trigger] row_parser()(row_encoder()(rows[i]) + r)
        == Ok::<(Seq<ValueV>, nat), ErrorKind>((rows[i], row_encoder()(rows[i]).len())) by {
        let x = rows[i];
        let vb = encode_many(x, value_encoder());
        lemma_varint_round_trip(x.len() as u64, vb + r);
        assert(encode_row(x) + r =~= spec_varint(x.len() as u64) + (vb + r));
        lemma_values_round_trip(x, r);
        assert(after(encode_row(x) + r, spec_varint(x.len() as u64).len()) =~= vb + r);
    }
    let rb = encode_many(rows, row_encoder());
    lemma_many_round_trip(rows, row_encoder(), row_parser(), rest);
    lemma_varint_round_trip(rows.len() as u64, rb + rest);
    assert(encode_response(rows) + rest =~= spec_varint(rows.len() as u64) + (rb + rest));
    assert(after(encode_response(rows) + rest, spec_varint(rows.len() as u64).len()) =~= rb + rest);
}

} // verus!
