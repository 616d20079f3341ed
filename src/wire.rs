use vstd::prelude::*;
use vstd::slice::slice_subrange;
use crate::albastream::{Error, ErrorKind};
use crate::text::{lossy_text, utf8_of, lossy_string, push_str_bytes, utf8_len, lemma_lossy_of_utf8};
use crate::types::{prefixed, parse_prefixed, read_prefixed, push_prefixed, lemma_prefixed_round_trip};

verus! {

/// Outcome of decoding one item at the start of a buffer: the item and the
/// number of bytes consumed, or the kind of failure.
pub type PResult<T> = Result<(T, nat), ErrorKind>;

/// The bytes from `n` on.
pub open spec fn after(s: Seq<u8>, n: nat) -> Seq<u8> {
    s.subrange(n as int, s.len() as int)
}

/// Items encoded one after another.
pub open spec fn encode_many<T>(xs: Seq<T>, f: spec_fn(T) -> Seq<u8>) -> Seq<u8>
    decreases xs.len(),
{
    if xs.len() == 0 {
        Seq::empty()
    } else {
        encode_many(xs.drop_last(), f) + f(xs.last())
    }
}

/// Decoding of `count` items one after another.
pub open spec fn parse_many<T>(
    s: Seq<u8>,
    count: nat,
    p: spec_fn(Seq<u8>) -> PResult<T>,
) -> PResult<Seq<T>>
    decreases count,
{
    if count == 0 {
        Ok((Seq::empty(), 0))
    } else {
        match parse_many(s, (count - 1) as nat, p) {
            Err(e) => Err(e),
            Ok((xs, n)) => match p(after(s, n)) {
                Err(e) => Err(e),
                Ok((x, m)) => Ok((xs.push(x), n + m)),
            },
        }
    }
}

/// A failure while decoding the first `i` items is the failure of the whole run.
pub proof fn lemma_parse_many_err<T>(
    s: Seq<u8>,
    i: nat,
    count: nat,
    p: spec_fn(Seq<u8>) -> PResult<T>,
)
    requires
        i <= count,
        parse_many(s, i, p) is Err,
    ensures
        parse_many(s, count, p) == parse_many(s, i, p),
    decreases count - i,
{
    if i < count {
        lemma_parse_many_err(s, i, (count - 1) as nat, p);
    }
}

/// Items that each decode back from their own encoding decode back as a run.
pub proof fn lemma_many_round_trip<T>(
    xs: Seq<T>,
    f: spec_fn(T) -> Seq<u8>,
    p: spec_fn(Seq<u8>) -> PResult<T>,
    rest: Seq<u8>,
)
    requires
        forall|i: int, r: Seq<u8>|
            0 <= i < xs.len() ==> #[trigger] p(f(xs[i]) + r) == Ok::<(T, nat), ErrorKind>(
                (xs[i], f(xs[i]).len()),
            ),
    ensures
        parse_many(encode_many(xs, f) + rest, xs.len(), p) == Ok::<(Seq<T>, nat), ErrorKind>(
            (xs, encode_many(xs, f).len()),
        ),
    decreases xs.len(),
{
    if xs.len() > 0 {
        let ys = xs.drop_last();
        let x = xs.last();
        let s = encode_many(xs, f) + rest;
        assert forall|i: int, r: Seq<u8>| 0 <= i < ys.len() implies #[trigger] p(f(ys[i]) + r)
            == Ok::<(T, nat), ErrorKind>((ys[i], f(ys[i]).len())) by {
            assert(ys[i] == xs[i]);
        }
        lemma_many_round_trip(ys, f, p, f(x) + rest);
        assert(s =~= encode_many(ys, f) + (f(x) + rest));
        assert(after(s, encode_many(ys, f).len()) =~= f(x) + rest);
        assert(p(f(xs[xs.len() - 1]) + rest) == Ok::<(T, nat), ErrorKind>((x, f(x).len())));
        assert(ys.push(x) =~= xs);
    } else {
        assert(xs =~= Seq::<T>::empty());
        assert(encode_many(xs, f) + rest =~= rest);
    }
}

/// A name written with a one-byte length prefix.
pub open spec fn name8(s: Seq<char>) -> Seq<u8> {
    seq![utf8_of(s).len() as u8] + utf8_of(s)
}

/// A name written with a variable-width length prefix.
pub open spec fn name_var(s: Seq<char>) -> Seq<u8> {
    prefixed(utf8_of(s))
}

/// Decoding of a name with a one-byte length prefix.
pub open spec fn parse_name8(s: Seq<u8>) -> PResult<Seq<char>> {
    if s.len() == 0 || s.len() < 1 + s[0] {
        Err(ErrorKind::UnexpectedEof)
    } else {
        Ok((lossy_text(s.subrange(1, 1 + s[0])), (1 + s[0]) as nat))
    }
}

/// Decoding of a name with a variable-width length prefix.
pub open spec fn parse_name_var(s: Seq<u8>) -> PResult<Seq<char>> {
    match parse_prefixed(s) {
        Err(e) => Err(e),
        Ok((b, n)) => Ok((lossy_text(b), n)),
    }
}

pub open spec fn name8_encoder() -> spec_fn(Seq<char>) -> Seq<u8> {
    |s: Seq<char>| name8(s)
}

pub open spec fn name8_parser() -> spec_fn(Seq<u8>) -> PResult<Seq<char>> {
    |s: Seq<u8>| parse_name8(s)
}

/// A name of at most 255 bytes decodes back from its encoding.
pub proof fn lemma_name8_round_trip(s: Seq<char>, rest: Seq<u8>)
    requires
        utf8_of(s).len() <= 255,
    ensures
        parse_name8(name8(s) + rest) == Ok::<(Seq<char>, nat), ErrorKind>((s, name8(s).len())),
{
    lemma_lossy_of_utf8(s);
    let t = name8(s) + rest;
    assert(t.subrange(1, 1 + t[0]) =~= utf8_of(s));
}

/// A name decodes back from its variable-width prefixed encoding.
pub proof fn lemma_name_var_round_trip(s: Seq<char>, rest: Seq<u8>)
    requires
        utf8_of(s).len() <= u64::MAX,
    ensures
        parse_name_var(name_var(s) + rest) == Ok::<(Seq<char>, nat), ErrorKind>((s, name_var(s).len())),
{
    lemma_lossy_of_utf8(s);
    lemma_prefixed_round_trip(utf8_of(s), rest);
}

/// Names of at most 255 bytes decode back as a run.
pub proof fn lemma_names_round_trip(xs: Seq<Seq<char>>, rest: Seq<u8>)
    requires
        forall|i: int| 0 <= i < xs.len() ==> (#[trigger] utf8_of(xs[i])).len() <= 255,
    ensures
        parse_many(encode_many(xs, name8_encoder()) + rest, xs.len(), name8_parser())
            == Ok::<(Seq<Seq<char>>, nat), ErrorKind>((xs, encode_many(xs, name8_encoder()).len())),
{
    assert forall|i: int, r: Seq<u8>| 0 <= i < xs.len() implies #[trigger] name8_parser()(
        name8_encoder()(xs[i]) + r,
    ) == Ok::<(Seq<char>, nat), ErrorKind>((xs[i], name8_encoder()(xs[i]).len())) by {
        lemma_name8_round_trip(xs[i], r);
    }
    lemma_many_round_trip(xs, name8_encoder(), name8_parser(), rest);
}

/// Reads the byte at `off`.
pub fn read_u8(input: &[u8], off: usize) -> (r: Result<u8, Error>)
    ensures
        match r {
            Ok(b) => off < input@.len() && b == input@[off as int],
            Err(e) => off >= input@.len() && e.spec_kind() == ErrorKind::UnexpectedEof,
        },
{
    if off >= input.len() {
        return Err(Error::new(ErrorKind::UnexpectedEof, "Unexpected end of input"));
    }
    Ok(input[off])
}

/// Reads a name with a one-byte length prefix at the start of `input`.
pub fn read_name8(input: &[u8]) -> (r: Result<(String, usize), Error>)
    ensures
        match r {
            Ok((s, n)) => parse_name8(input@) == Ok::<(Seq<char>, nat), ErrorKind>((s@, n as nat)) && n <= input@.len(),
            Err(e) => parse_name8(input@) == Err::<(Seq<char>, nat), ErrorKind>(e.spec_kind()),
        },
{
    if input.len() == 0 {
        return Err(Error::new(ErrorKind::UnexpectedEof, "Missing name length"));
    }
    let n = input[0] as usize;
    if input.len() < 1 + n {
        return Err(Error::new(ErrorKind::UnexpectedEof, "Name extends beyond input"));
    }
    Ok((lossy_string(slice_subrange(input, 1, 1 + n)), 1 + n))
}

/// Reads a name with a variable-width length prefix at the start of `input`.
pub fn read_name_var(input: &[u8]) -> (r: Result<(String, usize), Error>)
    ensures
        match r {
            Ok((s, n)) => parse_name_var(input@) == Ok::<(Seq<char>, nat), ErrorKind>((s@, n as nat)) && n <= input@.len(),
            Err(e) => parse_name_var(input@) == Err::<(Seq<char>, nat), ErrorKind>(e.spec_kind()),
        },
{
    let (b, n) = read_prefixed(input)?;
    Ok((lossy_string(b), n))
}

/// Appends a name with a one-byte length prefix.
pub fn push_name8(out: &mut Vec<u8>, s: &String)
    requires
        utf8_of(s@).len() <= 255,
    ensures
        final(out)@ == old(out)@ + name8(s@),
{
    let n = utf8_len(s);
    out.push(n as u8);
    push_str_bytes(out, s);
    proof {
        assert(final(out)@ =~= old(out)@ + name8(s@));
    }
}

/// Appends a name with a variable-width length prefix.
pub fn push_name_var(out: &mut Vec<u8>, s: &String)
    ensures
        final(out)@ == old(out)@ + name_var(s@),
{
    push_prefixed(out, s.as_str().as_bytes());
}

/// Appends names, each with a one-byte length prefix.
pub fn push_names8(out: &mut Vec<u8>, names: &Vec<String>)
    requires
        forall|i: int| 0 <= i < names@.len() ==> (#[trigger] utf8_of(names@[i]@)).len() <= 255,
    ensures
        final(out)@ == old(out)@ + encode_many(names_view(names@), name8_encoder()),
{
    let mut i: usize = 0;
    while i < names.len()
        invariant
            0 <= i <= names@.len(),
            forall|j: int| 0 <= j < names@.len() ==> (#[trigger] utf8_of(names@[j]@)).len() <= 255,
            out@ == old(out)@ + encode_many(names_view(names@).take(i as int), name8_encoder()),
        decreases names@.len() - i,
    {
        push_name8(out, &names[i]);
        proof {
            let v = names_view(names@);
            assert(v.take(i + 1).drop_last() =~= v.take(i as int));
            assert(v.take(i + 1).last() == names@[i as int]@);
        }
        i = i + 1;
    }
    proof {
        assert(names_view(names@).take(i as int) =~= names_view(names@));
    }
}

/// Reads `count` names, each with a one-byte length prefix.
pub fn read_names8(input: &[u8], count: usize) -> (r: Result<(Vec<String>, usize), Error>)
    ensures
        match r {
            Ok((v, n)) => parse_many(input@, count as nat, name8_parser())
                == Ok::<(Seq<Seq<char>>, nat), ErrorKind>((names_view(v@), n as nat)) && n <= input@.len(),
            Err(e) => parse_many(input@, count as nat, name8_parser())
                == Err::<(Seq<Seq<char>>, nat), ErrorKind>(e.spec_kind()),
        },
{
    let mut v: Vec<String> = Vec::new();
    let mut off: usize = 0;
    let mut i: usize = 0;
    proof {
        assert(names_view(v@) =~= Seq::<Seq<char>>::empty());
    }
    while i < count
        invariant
            0 <= i <= count,
            off <= input@.len(),
            parse_many(input@, i as nat, name8_parser()) == Ok::<(Seq<Seq<char>>, nat), ErrorKind>(
                (names_view(v@), off as nat),
            ),
        decreases count - i,
    {
        let rest = slice_subrange(input, off, input.len());
        match read_name8(rest) {
            Ok((s, n)) => {
                proof {
                    assert(names_view(v@.push(s)) =~= names_view(v@).push(s@));
                }
                v.push(s);
                off = off + n;
                i = i + 1;
            },
            Err(e) => {
                proof {
                    lemma_parse_many_err(input@, (i + 1) as nat, count as nat, name8_parser());
                }
                return Err(e);
            },
        }
    }
    Ok((v, off))
}

/// The characters of each name.
pub open spec fn names_view(v: Seq<String>) -> Seq<Seq<char>> {
    v.map_values(|s: String| s@)
}

/// A run of items cut short by its last byte fails to decode when its last
/// item, cut short the same way, fails on its own.
pub proof fn lemma_many_truncated<T>(
    xs: Seq<T>,
    f: spec_fn(T) -> Seq<u8>,
    p: spec_fn(Seq<u8>) -> PResult<T>,
)
    requires
        xs.len() > 0,
        f(xs.last()).len() > 0,
        forall|i: int, r: Seq<u8>|
            0 <= i < xs.len() ==> #[trigger] p(f(xs[i]) + r) == Ok::<(T, nat), ErrorKind>(
                (xs[i], f(xs[i]).len()),
            ),
        p(f(xs.last()).drop_last()) is Err,
    ensures
        parse_many(encode_many(xs, f).drop_last(), xs.len(), p) is Err,
{
    let ys = xs.drop_last();
    let x = xs.last();
    let t = encode_many(xs, f).drop_last();
    assert(t =~= encode_many(ys, f) + f(x).drop_last());
    assert forall|i: int, r: Seq<u8>| 0 <= i < ys.len() implies #[trigger] p(f(ys[i]) + r)
        == Ok::<(T, nat), ErrorKind>((ys[i], f(ys[i]).len())) by {
        assert(ys[i] == xs[i]);
    }
    lemma_many_round_trip(ys, f, p, f(x).drop_last());
    assert(after(t, encode_many(ys, f).len()) =~= f(x).drop_last());
}

/// A name with a one-byte length, cut short by its last byte, fails.
pub proof fn lemma_name8_truncated(s: Seq<char>)
    requires
        utf8_of(s).len() <= 255,
    ensures
        parse_name8(name8(s).drop_last()) is Err,
{
}

/// A name with a variable-width length, cut short by its last byte, fails.
pub proof fn lemma_name_var_truncated(s: Seq<char>)
    requires
        utf8_of(s).len() <= u64::MAX,
    ensures
        parse_name_var(name_var(s).drop_last()) is Err,
{
    crate::types::lemma_prefixed_truncated(utf8_of(s));
}

/// Skipping `a` bytes and then `b` more skips `a + b`.
pub proof fn lemma_after_after(s: Seq<u8>, a: nat, b: nat)
    requires
        a + b <= s.len(),
    ensures
        after(s, a + b) == after(after(s, a), b),
{
    assert(after(s, a + b) =~= after(after(s, a), b));
}

} // verus!
