use vstd::prelude::*;
use vstd::bytes::*;
use vstd::slice::slice_subrange;
use crate::albastream::{Error, ErrorKind};
use crate::conditions::{
    ConditionSet, columns_ok, ConditionsV, column_ok, conditions_ok, conditions_fit, encode_conditions,
    parse_conditions, lemma_conditions_round_trip,
};
use crate::dynamic_int::{DynamicInteger, spec_varint, parse_varint, lemma_varint_round_trip};
use crate::text::utf8_of;
use crate::types::{prefixed, parse_prefixed, read_prefixed, push_prefixed, lemma_prefixed_round_trip};
use crate::wire::{
    PResult, after, encode_many, parse_many, name8_encoder, name8_parser, name_var,
    parse_name_var, names_view, push_names8, push_name_var, read_names8, read_name_var,
    lemma_names_round_trip, lemma_name_var_round_trip, read_u8,
};

verus! {

broadcast use vstd::seq::axiom_seq_index_decreases;

/// The longest container name, in bytes.
pub const MAX_CONTAINER_NAME_LENGTH: usize = 100;

/// How many virtual containers may nest inside one another.
pub const MAX_CONTAINER_DEPTH: usize = 32;

/// A data source: a named container, or a virtual one defined by queries.
#[derive(Debug)]
pub enum AlbaContainer {
    Real(String),
    Virtual(Vec<Search>),
}

/// A query: the container it reads, its filter, and the columns it asks for.
#[derive(Debug)]
pub struct Search {
    pub container: AlbaContainer,
    pub conditions: ConditionSet,
    pub col_nam: Vec<String>,
}

pub enum ContainerV {
    Real(Seq<char>),
    Virtual(Seq<SearchV>),
}

pub struct SearchV {
    pub container: ContainerV,
    pub conditions: ConditionsV,
    pub columns: Seq<Seq<char>>,
}

pub open spec fn search_view(s: Search) -> SearchV
    decreases s, 0nat,
{
    SearchV {
        container: container_view(s.container),
        conditions: s.conditions@,
        columns: names_view(s.col_nam@),
    }
}

pub open spec fn container_view(c: AlbaContainer) -> ContainerV
    decreases c, 0nat,
{
    match c {
        AlbaContainer::Real(n) => ContainerV::Real(n@),
        AlbaContainer::Virtual(v) => ContainerV::Virtual(searches_view(v@, v@.len())),
    }
}

/// The views of the first `n` queries of `v`.
pub open spec fn searches_view(v: Seq<Search>, n: nat) -> Seq<SearchV>
    decreases v, n,
{
    if n == 0 || n > v.len() {
        Seq::empty()
    } else {
        searches_view(v, (n - 1) as nat).push(search_view(v[n - 1]))
    }
}

impl View for Search {
    type V = SearchV;

    open spec fn view(&self) -> SearchV {
        search_view(*self)
    }
}

impl View for AlbaContainer {
    type V = ContainerV;

    open spec fn view(&self) -> ContainerV {
        container_view(*self)
    }
}

pub proof fn lemma_searches_view(v: Seq<Search>, n: nat)
    requires
        n <= v.len(),
    ensures
        searches_view(v, n).len() == n,
        forall|i: int| 0 <= i < n ==> #[trigger] searches_view(v, n)[i] == search_view(v[i]),
    decreases n,
{
    if n > 0 {
        lemma_searches_view(v, (n - 1) as nat);
    }
}

/// The limits a query must respect, with `d` levels of virtual nesting left.
pub open spec fn search_ok(s: SearchV, d: nat) -> bool
    decreases s, 0nat,
{
    &&& s.columns.len() <= 255
    &&& forall|i: int| 0 <= i < s.columns.len() ==> column_ok(#[trigger] s.columns[i])
    &&& conditions_ok(s.conditions)
    &&& container_ok(s.container, d)
}

pub open spec fn container_ok(c: ContainerV, d: nat) -> bool
    decreases c, 0nat,
{
    match c {
        ContainerV::Real(n) => utf8_of(n).len() <= MAX_CONTAINER_NAME_LENGTH,
        ContainerV::Virtual(ss) => d > 0 && searches_ok(ss, ss.len(), (d - 1) as nat),
    }
}

/// The first `n` queries of `ss` respect their limits.
pub open spec fn searches_ok(ss: Seq<SearchV>, n: nat, d: nat) -> bool
    decreases ss, n,
{
    if n == 0 || n > ss.len() {
        true
    } else {
        searches_ok(ss, (n - 1) as nat, d) && search_ok(ss[n - 1], d)
    }
}

pub proof fn lemma_searches_ok(ss: Seq<SearchV>, n: nat, d: nat)
    requires
        n <= ss.len(),
    ensures
        searches_ok(ss, n, d) <==> forall|i: int| 0 <= i < n ==> search_ok(#[trigger] ss[i], d),
    decreases n,
{
    if n > 0 {
        lemma_searches_ok(ss, (n - 1) as nat, d);
    }
}

/// Every operand's contents fit a 64-bit length.
pub open spec fn search_fits(s: SearchV) -> bool
    decreases s, 0nat,
{
    &&& conditions_fit(s.conditions)
    &&& encode_search(s).len() <= u64::MAX
    &&& match s.container {
        ContainerV::Real(_) => true,
        ContainerV::Virtual(ss) => ss.len() <= u64::MAX && searches_fit(ss, ss.len()),
    }
}

pub open spec fn searches_fit(ss: Seq<SearchV>, n: nat) -> bool
    decreases ss, n,
{
    if n == 0 || n > ss.len() {
        true
    } else {
        searches_fit(ss, (n - 1) as nat) && search_fits(ss[n - 1])
    }
}

pub proof fn lemma_searches_fit(ss: Seq<SearchV>, n: nat)
    requires
        n <= ss.len(),
    ensures
        searches_fit(ss, n) <==> forall|i: int| 0 <= i < n ==> search_fits(#[trigger] ss[i]),
    decreases n,
{
    if n > 0 {
        lemma_searches_fit(ss, (n - 1) as nat);
    }
}

pub open spec fn encode_search(s: SearchV) -> Seq<u8>
    decreases s, 0nat,
{
    let c = encode_container(s.container);
    seq![5u8, s.columns.len() as u8] + encode_many(s.columns, name8_encoder())
        + encode_conditions(s.conditions) + spec_u64_to_le_bytes(c.len() as u64) + c
}

pub open spec fn encode_container(c: ContainerV) -> Seq<u8>
    decreases c, 0nat,
{
    match c {
        ContainerV::Real(n) => seq![0u8] + name_var(n),
        ContainerV::Virtual(ss) => seq![1u8] + spec_varint(ss.len() as u64) + encode_searches(
            ss,
            ss.len(),
        ),
    }
}

/// The first `n` queries of `ss`, each with a length prefix.
pub open spec fn encode_searches(ss: Seq<SearchV>, n: nat) -> Seq<u8>
    decreases ss, n,
{
    if n == 0 || n > ss.len() {
        Seq::empty()
    } else {
        encode_searches(ss, (n - 1) as nat) + prefixed(encode_search(ss[n - 1]))
    }
}

/// Decoding of a query at the start of `s`, with `d` levels of virtual
/// nesting allowed below it.
pub open spec fn parse_search(s: Seq<u8>, d: nat) -> PResult<SearchV>
    decreases d, 2nat, 0nat,
{
    if s.len() == 0 {
        Err(ErrorKind::UnexpectedEof)
    } else if s[0] != 5 {
        Err(ErrorKind::InvalidInput)
    } else if s.len() < 2 {
        Err(ErrorKind::UnexpectedEof)
    } else {
        match parse_many(after(s, 2), s[1] as nat, name8_parser()) {
            Err(e) => Err(e),
            Ok((cols, n)) => match parse_conditions(after(s, 2 + n)) {
                Err(e) => Err(e),
                Ok((conds, m)) => {
                    let p: int = (2 + n + m) as int;
                    if s.len() < p + 8 {
                        Err(ErrorKind::UnexpectedEof)
                    } else {
                        let len = spec_u64_from_le_bytes(s.subrange(p, p + 8));
                        if s.len() - (p + 8) < len {
                            Err(ErrorKind::UnexpectedEof)
                        } else {
                            match parse_container(s.subrange(p + 8, p + 8 + len), d) {
                                Err(e) => Err(e),
                                Ok((c, _)) => Ok(
                                    (
                                        SearchV { container: c, conditions: conds, columns: cols },
                                        (p + 8 + len) as nat,
                                    ),
                                ),
                            }
                        }
                    }
                },
            },
        }
    }
}

/// Decoding of a container at the start of `s`.
pub open spec fn parse_container(s: Seq<u8>, d: nat) -> PResult<ContainerV>
    decreases d, 1nat, 0nat,
{
    if s.len() == 0 {
        Err(ErrorKind::UnexpectedEof)
    } else if s[0] == 0 {
        match parse_name_var(after(s, 1)) {
            Err(e) => Err(e),
            Ok((n, k)) => Ok((ContainerV::Real(n), 1 + k)),
        }
    } else if s[0] == 1 {
        if d == 0 {
            Err(ErrorKind::InvalidInput)
        } else {
            match parse_varint(after(s, 1)) {
                None => Err(ErrorKind::InvalidInput),
                Some((count, k)) => match parse_searches(after(s, 1 + k), count as nat, (d - 1) as nat) {
                    Err(e) => Err(e),
                    Ok((ss, m)) => Ok((ContainerV::Virtual(ss), 1 + k + m)),
                },
            }
        }
    } else {
        Err(ErrorKind::InvalidInput)
    }
}

/// Decoding of `count` length-prefixed queries.
pub open spec fn parse_searches(s: Seq<u8>, count: nat, d: nat) -> PResult<Seq<SearchV>>
    decreases d, 3nat, count,
{
    if count == 0 {
        Ok((Seq::empty(), 0))
    } else {
        match parse_searches(s, (count - 1) as nat, d) {
            Err(e) => Err(e),
            Ok((xs, n)) => match parse_prefixed(after(s, n)) {
                Err(e) => Err(e),
                Ok((b, m)) => match parse_search(b, d) {
                    Err(e) => Err(e),
                    Ok((x, _)) => Ok((xs.push(x), n + m)),
                },
            },
        }
    }
}

pub proof fn lemma_parse_searches_err(s: Seq<u8>, i: nat, count: nat, d: nat)
    requires
        i <= count,
        parse_searches(s, i, d) is Err,
    ensures
        parse_searches(s, count, d) == parse_searches(s, i, d),
    decreases count - i,
{
    if i < count {
        lemma_parse_searches_err(s, i, (count - 1) as nat, d);
    }
}

pub proof fn lemma_searches_view_push(v: Seq<Search>, x: Search, n: nat)
    requires
        n <= v.len(),
    ensures
        searches_view(v.push(x), n) == searches_view(v, n),
    decreases n,
{
    if n > 0 {
        lemma_searches_view_push(v, x, (n - 1) as nat);
        assert(v.push(x)[n - 1] == v[n - 1]);
    }
}

impl Search {
    /// Whether the query respects its limits with `d` levels of virtual
    /// nesting left.
    pub fn check(&self, d: usize) -> (r: bool)
        ensures
            r == search_ok(self@, d as nat),
        decreases self, 0nat,
    {
        if self.col_nam.len() > 255 {
            return false;
        }
        if !columns_ok(&self.col_nam) {
            return false;
        }
        if !self.conditions.is_valid() {
            return false;
        }
        self.container.check(d)
    }

    pub(crate) fn write_to(&self, out: &mut Vec<u8>, Ghost(d): Ghost<nat>)
        requires
            search_ok(self@, d),
        ensures
            final(out)@ == old(out)@ + encode_search(self@),
        decreases self, 0nat,
    {
        out.push(5u8);
        out.push(self.col_nam.len() as u8);
        proof {
            assert forall|i: int| 0 <= i < self.col_nam@.len() implies (#[trigger] utf8_of(self.col_nam@[i]@)).len() <= 255 by {
                assert(self@.columns[i] == self.col_nam@[i]@);
            }
        }
        push_names8(out, &self.col_nam);
        self.conditions.write_to(out);
        let mut cb: Vec<u8> = Vec::new();
        self.container.write_to(&mut cb, Ghost(d));
        let mut lb = u64_to_le_bytes(cb.len() as u64);
        out.append(&mut lb);
        out.append(&mut cb);
        proof {
            assert(final(out)@ =~= old(out)@ + encode_search(self@));
        }
    }

    pub(crate) fn read(input: &[u8], d: usize) -> (r: Result<(Search, usize), Error>)
        ensures
            match r {
                Ok((x, n)) => parse_search(input@, d as nat) == Ok::<(SearchV, nat), ErrorKind>((x@, n as nat)),
                Err(e) => parse_search(input@, d as nat) == Err::<(SearchV, nat), ErrorKind>(e.spec_kind()),
            },
        decreases d, 2nat, 0nat,
    {
        let op = read_u8(input, 0)?;
        if op != 5 {
            return Err(Error::new(ErrorKind::InvalidInput, "Invalid magic byte"));
        }
        let count = read_u8(input, 1)?;
        let (col_nam, n) = read_names8(slice_subrange(input, 2, input.len()), count as usize)?;
        let (conditions, m) = ConditionSet::read(slice_subrange(input, 2 + n, input.len()))?;
        let p = 2 + n + m;
        if input.len() - p < 8 {
            return Err(Error::new(ErrorKind::UnexpectedEof, "Not enough bytes for container length"));
        }
        let len = u64_from_le_bytes(slice_subrange(input, p, p + 8));
        if ((input.len() - (p + 8)) as u64) < len {
            return Err(Error::new(ErrorKind::UnexpectedEof, "Container data extends beyond input"));
        }
        let len = len as usize;
        let (container, _) = AlbaContainer::read(slice_subrange(input, p + 8, p + 8 + len), d)?;
        Ok((Search { container, conditions, col_nam }, p + 8 + len))
    }
}

impl AlbaContainer {
    pub fn check(&self, d: usize) -> (r: bool)
        ensures
            r == container_ok(self@, d as nat),
        decreases self, 0nat,
    {
        match self {
            AlbaContainer::Real(n) => n.as_str().as_bytes().len() <= MAX_CONTAINER_NAME_LENGTH,
            AlbaContainer::Virtual(v) => {
                if d == 0 {
                    return false;
                }
                proof {
                    lemma_searches_view(v@, v@.len());
                    assert(self@ == ContainerV::Virtual(searches_view(v@, v@.len())));
                    lemma_searches_ok(searches_view(v@, v@.len()), v@.len(), (d - 1) as nat);
                }
                let mut i: usize = 0;
                while i < v.len()
                    invariant
                        0 <= i <= v@.len(),
                        d > 0,
                        searches_view(v@, v@.len()).len() == v@.len(),
                        forall|k: int| 0 <= k < v@.len() ==> #[trigger] searches_view(v@, v@.len())[k] == search_view(v@[k]),
                        forall|j: int| 0 <= j < i ==> search_ok(#[trigger] searches_view(v@, v@.len())[j], (d - 1) as nat),
                        self@ == ContainerV::Virtual(searches_view(v@, v@.len())),
                        *self == AlbaContainer::Virtual(*v),
                        searches_ok(searches_view(v@, v@.len()), v@.len(), (d - 1) as nat) <==> forall|k: int| 0 <= k < v@.len() ==> search_ok(#[trigger] searches_view(v@, v@.len())[k], (d - 1) as nat),
                    decreases v@.len() - i,
                {
                    proof {
                        vstd::std_specs::vec::axiom_vec_index_decreases(*v, i as int);
                        assert(decreases_to!(*self => *v));
                        assert(decreases_to!(*self => v[i as int]));
                        assert(self@ == ContainerV::Virtual(searches_view(v@, v@.len())));
                    }
                    if !v[i].check(d - 1) {
                        proof {
                            let sv = searches_view(v@, v@.len());
                            assert(!search_ok(sv[i as int], (d - 1) as nat));
                            assert(!searches_ok(sv, v@.len(), (d - 1) as nat));
                            assert(!container_ok(ContainerV::Virtual(sv), d as nat));
                        }
                        return false;
                    }
                    i = i + 1;
                }
                true
            },
        }
    }

    pub(crate) fn write_to(&self, out: &mut Vec<u8>, Ghost(d): Ghost<nat>)
        requires
            container_ok(self@, d),
        ensures
            final(out)@ == old(out)@ + encode_container(self@),
        decreases self, 0nat,
    {
        match self {
            AlbaContainer::Real(n) => {
                out.push(0u8);
                push_name_var(out, n);
                proof {
                    assert(final(out)@ =~= old(out)@ + encode_container(self@));
                }
            },
            AlbaContainer::Virtual(v) => {
                let ghost sv = searches_view(v@, v@.len());
                proof {
                    lemma_searches_view(v@, v@.len());
                    assert(self@ == ContainerV::Virtual(sv));
                    lemma_searches_ok(sv, sv.len(), (d - 1) as nat);
                }
                out.push(1u8);
                let mut head = DynamicInteger::from_usize(v.len()).compile();
                out.append(&mut head);
                let mut i: usize = 0;
                while i < v.len()
                    invariant
                        0 <= i <= v@.len(),
                        sv == searches_view(v@, v@.len()),
                        sv.len() == v@.len(),
                        forall|k: int| 0 <= k < v@.len() ==> #[trigger] sv[k] == search_view(v@[k]),
                        d > 0,
                        forall|k: int| 0 <= k < sv.len() ==> search_ok(#[trigger] sv[k], (d - 1) as nat),
                        self@ == ContainerV::Virtual(sv),
                        *self == AlbaContainer::Virtual(*v),
                        out@ == old(out)@ + seq![1u8] + spec_varint(v@.len() as u64) + encode_searches(sv, i as nat),
                    decreases v@.len() - i,
                {
                    let mut eb: Vec<u8> = Vec::new();
                    proof {
                        assert(sv[i as int] == v@[i as int]@);
                        vstd::std_specs::vec::axiom_vec_index_decreases(*v, i as int);
                    }
                    v[i].write_to(&mut eb, Ghost((d - 1) as nat));
                    push_prefixed(out, eb.as_slice());
                    i = i + 1;
                }
                proof {
                    assert(final(out)@ =~= old(out)@ + encode_container(self@));
                }
            },
        }
    }

    pub(crate) fn read(input: &[u8], d: usize) -> (r: Result<(AlbaContainer, usize), Error>)
        ensures
            match r {
                Ok((c, n)) => parse_container(input@, d as nat) == Ok::<(ContainerV, nat), ErrorKind>((c@, n as nat)),
                Err(e) => parse_container(input@, d as nat) == Err::<(ContainerV, nat), ErrorKind>(e.spec_kind()),
            },
        decreases d, 1nat, 0nat,
    {
        let tag = read_u8(input, 0)?;
        if tag == 0 {
            let (name, k) = read_name_var(slice_subrange(input, 1, input.len()))?;
            return Ok((AlbaContainer::Real(name), 1 + k));
        }
        if tag != 1 {
            return Err(Error::new(ErrorKind::InvalidInput, "Invalid container kind"));
        }
        if d == 0 {
            return Err(Error::new(ErrorKind::InvalidInput, "Virtual containers nest too deeply"));
        }
        let (dv, k) = DynamicInteger::from_bytes(slice_subrange(input, 1, input.len()))?;
        let count = dv.value_u64();
        let body = slice_subrange(input, 1 + k, input.len());
        let mut v: Vec<Search> = Vec::new();
        let mut off: usize = 0;
        let mut i: u64 = 0;
        proof {
            assert(searches_view(v@, 0) =~= Seq::<SearchV>::empty());
        }
        while i < count
            invariant
                0 <= i <= count,
                v@.len() == i,
                off <= body@.len(),
                d > 0,
                input@.len() > 0,
                input@[0] == 1,
                parse_varint(after(input@, 1)) == Some((count, k as nat)),
                body@ == after(input@, 1 + k as nat),
                parse_searches(body@, i as nat, (d - 1) as nat) == Ok::<(Seq<SearchV>, nat), ErrorKind>(
                    (searches_view(v@, v@.len()), off as nat),
                ),
            decreases count - i,
        {
            let rest = slice_subrange(body, off, body.len());
            let (b, m) = match read_prefixed(rest) {
                Ok(x) => x,
                Err(e) => {
                    proof {
                        assert(rest@ == after(body@, off as nat));
                        lemma_parse_searches_err(body@, (i + 1) as nat, count as nat, (d - 1) as nat);
                    }
                    return Err(e);
                },
            };
            let (x, _) = match Search::read(b, d - 1) {
                Ok(x) => x,
                Err(e) => {
                    proof {
                        assert(rest@ == after(body@, off as nat));
                        lemma_parse_searches_err(body@, (i + 1) as nat, count as nat, (d - 1) as nat);
                    }
                    return Err(e);
                },
            };
            proof {
                assert(rest@ == after(body@, off as nat));
                lemma_searches_view_push(v@, x, v@.len());
            }
            v.push(x);
            off = off + m;
            i = i + 1;
        }
        Ok((AlbaContainer::Virtual(v), 1 + k + off))
    }
}

/// A query within its limits decodes back from its encoding, whatever
/// follows it.
#[verifier::spinoff_prover]
#[verifier::rlimit(100)]
pub proof fn lemma_search_round_trip(s: SearchV, rest: Seq<u8>, d: nat)
    requires
        search_ok(s, d),
        search_fits(s),
    ensures
        parse_search(encode_search(s) + rest, d) == Ok::<(SearchV, nat), ErrorKind>((s, encode_search(s).len())),
    decreases s, 0nat,
{
    lemma_auto_spec_u64_to_from_le_bytes();
    let ec = encode_many(s.columns, name8_encoder());
    let ek = encode_conditions(s.conditions);
    let c = encode_container(s.container);
    let lb = spec_u64_to_le_bytes(c.len() as u64);
    let t = encode_search(s) + rest;
    assert(t =~= seq![5u8, s.columns.len() as u8] + (ec + (ek + (lb + (c + rest)))));
    assert forall|i: int| 0 <= i < s.columns.len() implies (#[trigger] utf8_of(s.columns[i])).len() <= 255 by {
        assert(column_ok(s.columns[i]));
    }
    lemma_names_round_trip(s.columns, ek + (lb + (c + rest)));
    assert(after(t, 2) =~= ec + (ek + (lb + (c + rest))));
    lemma_conditions_round_trip(s.conditions, lb + (c + rest));
    assert(after(t, 2 + ec.len()) =~= ek + (lb + (c + rest)));
    let p: int = (2 + ec.len() + ek.len()) as int;
    assert(t.subrange(p, p + 8) =~= lb);
    assert(c.len() <= encode_search(s).len());
    lemma_container_round_trip(s.container, Seq::empty(), d);
    assert(t.subrange(p + 8, p + 8 + c.len()) =~= c + Seq::<u8>::empty());
    assert(t[0] == 5);
    assert(t[1] == s.columns.len() as u8);
}

#[verifier::spinoff_prover]
#[verifier::rlimit(100)]
pub proof fn lemma_container_round_trip(c: ContainerV, rest: Seq<u8>, d: nat)
    requires
        container_ok(c, d),
        match c {
            ContainerV::Real(_) => true,
            ContainerV::Virtual(ss) => ss.len() <= u64::MAX && searches_fit(ss, ss.len()),
        },
    ensures
        parse_container(encode_container(c) + rest, d) == Ok::<(ContainerV, nat), ErrorKind>((c, encode_container(c).len())),
    decreases c, 0nat,
{
    let t = encode_container(c) + rest;
    match c {
        ContainerV::Real(n) => {
            lemma_name_var_round_trip(n, rest);
            assert(after(t, 1) =~= name_var(n) + rest);
        },
        ContainerV::Virtual(ss) => {
            let h = spec_varint(ss.len() as u64);
            let es = encode_searches(ss, ss.len());
            lemma_varint_round_trip(ss.len() as u64, es + rest);
            assert(after(t, 1) =~= h + (es + rest));
            lemma_searches_round_trip(ss, ss.len(), rest, (d - 1) as nat);
            assert(after(t, 1 + h.len()) =~= es + rest);
            assert(ss.take(ss.len() as int) =~= ss);
        },
    }
}

#[verifier::spinoff_prover]
#[verifier::rlimit(100)]
pub proof fn lemma_searches_round_trip(ss: Seq<SearchV>, n: nat, rest: Seq<u8>, d: nat)
    requires
        n <= ss.len(),
        searches_ok(ss, n, d),
        searches_fit(ss, n),
    ensures
        parse_searches(encode_searches(ss, n) + rest, n, d) == Ok::<(Seq<SearchV>, nat), ErrorKind>(
            (ss.take(n as int), encode_searches(ss, n).len()),
        ),
    decreases ss, n,
{
    if n == 0 {
        assert(ss.take(0) =~= Seq::<SearchV>::empty());
    } else {
        let x = ss[n - 1];
        let ex = encode_search(x);
        let prev = encode_searches(ss, (n - 1) as nat);
        let t = encode_searches(ss, n) + rest;
        lemma_searches_ok(ss, n, d);
        lemma_searches_fit(ss, n);
        assert(search_fits(x));
        lemma_searches_round_trip(ss, (n - 1) as nat, prefixed(ex) + rest, d);
        assert(t =~= prev + (prefixed(ex) + rest));
        lemma_prefixed_round_trip(ex, rest);
        assert(after(t, prev.len()) =~= prefixed(ex) + rest);
        lemma_search_round_trip(x, Seq::empty(), d);
        assert(ex + Seq::<u8>::empty() =~= ex);
        assert(ss.take(n - 1).push(x) =~= ss.take(n as int));
    }
}

impl AlbaContainer {
    /// Compiles the container on its own: checks its limits, then writes it.
    pub fn compile(&self) -> (r: Result<Vec<u8>, Error>)
        ensures
            match r {
                Ok(b) => container_ok(self@, MAX_CONTAINER_DEPTH as nat) && b@ == encode_container(self@),
                Err(e) => !container_ok(self@, MAX_CONTAINER_DEPTH as nat) && e.spec_kind() == ErrorKind::InvalidInput,
            },
    {
        if !self.check(MAX_CONTAINER_DEPTH) {
            return Err(Error::new(ErrorKind::InvalidInput, "The container exceeds a length or nesting limit"));
        }
        let mut out: Vec<u8> = Vec::new();
        self.write_to(&mut out, Ghost(MAX_CONTAINER_DEPTH as nat));
        proof {
            assert(out@ =~= encode_container(self@));
        }
        Ok(out)
    }

    /// Decodes a container that stands alone at the start of `input`.
    pub fn decompile(input: &[u8]) -> (r: Result<AlbaContainer, Error>)
        ensures
            match r {
                Ok(c) => parse_container(input@, MAX_CONTAINER_DEPTH as nat) matches Ok((v, _)) && v == c@,
                Err(e) => parse_container(input@, MAX_CONTAINER_DEPTH as nat) == Err::<(ContainerV, nat), ErrorKind>(e.spec_kind()),
            },
    {
        let (c, _) = AlbaContainer::read(input, MAX_CONTAINER_DEPTH)?;
        Ok(c)
    }
}

/// The column list and the conditions at the head of a query decode back,
/// whatever follows them.
#[verifier::spinoff_prover]
#[verifier::rlimit(100)]
pub proof fn lemma_search_head(s: SearchV, d: nat, tail: Seq<u8>)
    requires
        search_ok(s, d),
        search_fits(s),
    ensures
        ({
            let ec = encode_many(s.columns, name8_encoder());
            let ek = encode_conditions(s.conditions);
            let t = seq![5u8, s.columns.len() as u8] + (ec + (ek + tail));
            &&& parse_many(after(t, 2), s.columns.len(), name8_parser()) == Ok::<(Seq<Seq<char>>, nat), ErrorKind>((s.columns, ec.len()))
            &&& parse_conditions(after(t, 2 + ec.len())) == Ok::<(ConditionsV, nat), ErrorKind>((s.conditions, ek.len()))
            &&& after(t, 2 + ec.len() + ek.len()) == tail
            &&& t[0] == 5 && t[1] == s.columns.len() as u8
        }),
{
    let ec = encode_many(s.columns, name8_encoder());
    let ek = encode_conditions(s.conditions);
    let t = seq![5u8, s.columns.len() as u8] + (ec + (ek + tail));
    assert forall|i: int| 0 <= i < s.columns.len() implies (#[trigger] utf8_of(s.columns[i])).len() <= 255 by {
        assert(column_ok(s.columns[i]));
    }
    lemma_names_round_trip(s.columns, ek + tail);
    assert(after(t, 2) =~= ec + (ek + tail));
    lemma_conditions_round_trip(s.conditions, tail);
    assert(after(t, 2 + ec.len()) =~= ek + tail);
    assert(after(t, 2 + ec.len() + ek.len()) =~= tail);
}

/// A query cut short by its last byte fails to decode: the container block
/// no longer holds the length its prefix announces.
#[verifier::spinoff_prover]
#[verifier::rlimit(100)]
pub proof fn lemma_search_truncated(s: SearchV, d: nat)
    requires
        search_ok(s, d),
        search_fits(s),
    ensures
        parse_search(encode_search(s).drop_last(), d) is Err,
{
    lemma_auto_spec_u64_to_from_le_bytes();
    let ec = encode_many(s.columns, name8_encoder());
    let ek = encode_conditions(s.conditions);
    let c = encode_container(s.container);
    let lb = spec_u64_to_le_bytes(c.len() as u64);
    let t = encode_search(s).drop_last();
    assert(c.len() >= 1) by {
        match s.container {
            ContainerV::Real(n) => {},
            ContainerV::Virtual(ss) => {},
        }
    }
    let tail = lb + c.drop_last();
    assert(t =~= seq![5u8, s.columns.len() as u8] + (ec + (ek + tail)));
    lemma_search_head(s, d, tail);
    let p: int = (2 + ec.len() + ek.len()) as int;
    assert(after(t, p as nat).subrange(0, 8) =~= lb);
    assert(t.subrange(p, p + 8) =~= lb);
    assert(c.len() <= encode_search(s).len());
}

} // verus!
