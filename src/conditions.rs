use vstd::prelude::*;
use vstd::slice::slice_subrange;
use crate::albastream::{Error, ErrorKind};
use crate::logical_operators::{LogicalOperator, operator_id, operator_of};
use crate::text::utf8_of;
use crate::types::{AlbaTypes, ValueV, encode_value, parse_value, value_fits, lemma_value_round_trip};
use crate::wire::{PResult, after, encode_many, parse_many, lemma_parse_many_err, lemma_many_round_trip, lemma_many_truncated, name8, parse_name8, lemma_name8_round_trip, read_name8, read_u8, push_name8, names_view};

verus! {

/// The longest column name, in bytes.
pub const MAX_CONTAINER_COLUMN_LENGTH: usize = 25;

/// How a gate combines the running result with the next predicate.
#[derive(Debug, PartialEq, Eq, Clone, Copy, Structural)]
pub enum Gate {
    And,
    Or,
}

/// One `(column, operator, operand)` test.
#[derive(Debug)]
pub struct Predicate {
    pub column: String,
    pub operator: LogicalOperator,
    pub value: AlbaTypes,
}

pub struct PredicateV {
    pub column: Seq<char>,
    pub operator: LogicalOperator,
    pub value: ValueV,
}

impl View for Predicate {
    type V = PredicateV;

    open spec fn view(&self) -> PredicateV {
        PredicateV { column: self.column@, operator: self.operator, value: self.value@ }
    }
}

/// An ordered list of predicates and the gates that fold them into one result.
#[derive(Debug)]
pub struct ConditionSet {
    pub predicates: Vec<Predicate>,
    pub gates: Vec<(u8, Gate)>,
}

pub struct ConditionsV {
    pub predicates: Seq<PredicateV>,
    pub gates: Seq<(u8, Gate)>,
}

impl View for ConditionSet {
    type V = ConditionsV;

    open spec fn view(&self) -> ConditionsV {
        ConditionsV {
            predicates: self.predicates@.map_values(|p: Predicate| p@),
            gates: self.gates@,
        }
    }
}

/// A column name that respects the length limit.
pub open spec fn column_ok(s: Seq<char>) -> bool {
    utf8_of(s).len() <= MAX_CONTAINER_COLUMN_LENGTH
}

pub open spec fn predicate_ok(p: PredicateV) -> bool {
    column_ok(p.column)
}

/// Every operand's variable-length contents fit a 64-bit length.
pub open spec fn conditions_fit(c: ConditionsV) -> bool {
    forall|i: int| 0 <= i < c.predicates.len() ==> value_fits(#[trigger] c.predicates[i].value)
}

/// The limits a condition set must respect before it is written.
pub open spec fn conditions_ok(c: ConditionsV) -> bool {
    &&& c.predicates.len() <= 255
    &&& c.gates.len() <= 255
    &&& forall|i: int| 0 <= i < c.predicates.len() ==> predicate_ok(#[trigger] c.predicates[i])
}

pub open spec fn gate_byte(g: Gate) -> u8 {
    match g {
        Gate::And => 1,
        Gate::Or => 0,
    }
}

pub open spec fn encode_predicate(p: PredicateV) -> Seq<u8> {
    name8(p.column) + seq![operator_id(p.operator)] + encode_value(p.value)
}

pub open spec fn encode_gate(g: (u8, Gate)) -> Seq<u8> {
    seq![g.0, gate_byte(g.1)]
}

pub open spec fn predicate_encoder() -> spec_fn(PredicateV) -> Seq<u8> {
    |p: PredicateV| encode_predicate(p)
}

pub open spec fn gate_encoder() -> spec_fn((u8, Gate)) -> Seq<u8> {
    |g: (u8, Gate)| encode_gate(g)
}

/// Predicate count, predicates, gate count, gates.
pub open spec fn encode_conditions(c: ConditionsV) -> Seq<u8> {
    seq![c.predicates.len() as u8] + encode_many(c.predicates, predicate_encoder()) + seq![
        c.gates.len() as u8,
    ] + encode_many(c.gates, gate_encoder())
}

pub open spec fn parse_predicate(s: Seq<u8>) -> PResult<PredicateV> {
    match parse_name8(s) {
        Err(e) => Err(e),
        Ok((col, n)) => if s.len() <= n {
            Err(ErrorKind::UnexpectedEof)
        } else if s[n as int] > 8 {
            Err(ErrorKind::InvalidInput)
        } else {
            match parse_value(after(s, n + 1)) {
                Err(e) => Err(e),
                Ok((v, m)) => Ok(
                    (
                        PredicateV { column: col, operator: operator_of(s[n as int]), value: v },
                        n + 1 + m,
                    ),
                ),
            }
        },
    }
}

pub open spec fn parse_gate(s: Seq<u8>) -> PResult<(u8, Gate)> {
    if s.len() < 2 {
        Err(ErrorKind::UnexpectedEof)
    } else {
        Ok(
            (
                (
                    s[0],
                    if s[1] == 1 {
                        Gate::And
                    } else {
                        Gate::Or
                    },
                ),
                2,
            ),
        )
    }
}

pub open spec fn predicate_parser() -> spec_fn(Seq<u8>) -> PResult<PredicateV> {
    |s: Seq<u8>| parse_predicate(s)
}

pub open spec fn gate_parser() -> spec_fn(Seq<u8>) -> PResult<(u8, Gate)> {
    |s: Seq<u8>| parse_gate(s)
}

pub open spec fn parse_conditions(s: Seq<u8>) -> PResult<ConditionsV> {
    if s.len() == 0 {
        Err(ErrorKind::UnexpectedEof)
    } else {
        match parse_many(after(s, 1), s[0] as nat, predicate_parser()) {
            Err(e) => Err(e),
            Ok((ps, n)) => if s.len() <= 1 + n {
                Err(ErrorKind::UnexpectedEof)
            } else {
                match parse_many(after(s, 2 + n), s[1 + n as int] as nat, gate_parser()) {
                    Err(e) => Err(e),
                    Ok((gs, m)) => Ok((ConditionsV { predicates: ps, gates: gs }, 2 + n + m)),
                }
            },
        }
    }
}

/// The running result combined with the next predicate's result.
pub open spec fn combine(acc: bool, g: Gate, next: bool) -> bool {
    match g {
        Gate::And => acc && next,
        Gate::Or => acc || next,
    }
}

/// The left fold of predicate results `rs` by the gates: the first result,
/// then each gate in order combining the running result with the next one.
/// No predicates at all select everything.
pub open spec fn gate_fold(gates: Seq<(u8, Gate)>, rs: Seq<bool>) -> bool
    decreases rs.len(),
{
    if rs.len() == 0 {
        true
    } else if rs.len() == 1 {
        rs[0]
    } else {
        combine(gate_fold(gates, rs.drop_last()), gates[rs.len() - 2].1, rs.last())
    }
}

pub proof fn lemma_predicate_round_trip(p: PredicateV, rest: Seq<u8>)
    requires
        predicate_ok(p),
        value_fits(p.value),
    ensures
        parse_predicate(encode_predicate(p) + rest) == Ok::<(PredicateV, nat), ErrorKind>(
            (p, encode_predicate(p).len()),
        ),
{
    let s = encode_predicate(p) + rest;
    let n = name8(p.column).len();
    lemma_name8_round_trip(p.column, seq![operator_id(p.operator)] + encode_value(p.value) + rest);
    assert(s =~= name8(p.column) + (seq![operator_id(p.operator)] + encode_value(p.value) + rest));
    assert(s[n as int] == operator_id(p.operator));
    lemma_value_round_trip(p.value, rest);
    assert(after(s, n + 1) =~= encode_value(p.value) + rest);
}

/// A condition set within its limits decodes back from its encoding.
pub proof fn lemma_conditions_round_trip(c: ConditionsV, rest: Seq<u8>)
    requires
        conditions_ok(c),
        conditions_fit(c),
    ensures
        parse_conditions(encode_conditions(c) + rest) == Ok::<(ConditionsV, nat), ErrorKind>(
            (c, encode_conditions(c).len()),
        ),
{
    let ep = encode_many(c.predicates, predicate_encoder());
    let eg = encode_many(c.gates, gate_encoder());
    let s = encode_conditions(c) + rest;
    assert forall|i: int, r: Seq<u8>| 0 <= i < c.predicates.len() implies #[trigger] predicate_parser()(
        predicate_encoder()(c.predicates[i]) + r,
    ) == Ok::<(PredicateV, nat), ErrorKind>(
        (c.predicates[i], predicate_encoder()(c.predicates[i]).len()),
    ) by {
        lemma_predicate_round_trip(c.predicates[i], r);
    }
    assert forall|i: int, r: Seq<u8>| 0 <= i < c.gates.len() implies #[trigger] gate_parser()(
        gate_encoder()(c.gates[i]) + r,
    ) == Ok::<((u8, Gate), nat), ErrorKind>((c.gates[i], gate_encoder()(c.gates[i]).len())) by {
        let t = encode_gate(c.gates[i]) + r;
        assert(t[0] == c.gates[i].0);
        assert(t[1] == gate_byte(c.gates[i].1));
    }
    let tail_g = seq![c.gates.len() as u8] + eg + rest;
    lemma_many_round_trip(c.predicates, predicate_encoder(), predicate_parser(), tail_g);
    assert(after(s, 1) =~= ep + tail_g);
    assert(s[1 + ep.len() as int] == c.gates.len() as u8);
    lemma_many_round_trip(c.gates, gate_encoder(), gate_parser(), rest);
    assert(after(s, 2 + ep.len()) =~= eg + rest);
    assert(s[0] == c.predicates.len() as u8);
}

/// Whether every column name respects the length limit.
pub fn columns_ok(names: &Vec<String>) -> (r: bool)
    ensures
        r == forall|i: int| 0 <= i < names@.len() ==> column_ok(#[trigger] names_view(names@)[i]),
{
    let mut i: usize = 0;
    while i < names.len()
        invariant
            0 <= i <= names@.len(),
            forall|j: int| 0 <= j < i ==> column_ok(#[trigger] names_view(names@)[j]),
        decreases names@.len() - i,
    {
        if names[i].as_str().as_bytes().len() > MAX_CONTAINER_COLUMN_LENGTH {
            proof {
                assert(!column_ok(names_view(names@)[i as int]));
            }
            return false;
        }
        i = i + 1;
    }
    true
}

/// A condition set cut short by its last byte fails to decode.
pub proof fn lemma_conditions_truncated(c: ConditionsV)
    requires
        conditions_ok(c),
        conditions_fit(c),
    ensures
        parse_conditions(encode_conditions(c).drop_last()) is Err,
{
    let ep = encode_many(c.predicates, predicate_encoder());
    let eg = encode_many(c.gates, gate_encoder());
    let t = encode_conditions(c).drop_last();
    assert forall|i: int, r: Seq<u8>| 0 <= i < c.predicates.len() implies #[trigger] predicate_parser()(
        predicate_encoder()(c.predicates[i]) + r,
    ) == Ok::<(PredicateV, nat), ErrorKind>(
        (c.predicates[i], predicate_encoder()(c.predicates[i]).len()),
    ) by {
        lemma_predicate_round_trip(c.predicates[i], r);
    }
    if c.gates.len() == 0 {
        assert(eg =~= Seq::<u8>::empty());
        assert(t =~= seq![c.predicates.len() as u8] + ep);
        lemma_many_round_trip(c.predicates, predicate_encoder(), predicate_parser(), Seq::empty());
        assert(after(t, 1) =~= ep + Seq::<u8>::empty());
    } else {
        let tail = seq![c.gates.len() as u8] + eg.drop_last();
        assert(t =~= seq![c.predicates.len() as u8] + ep + tail);
        lemma_many_round_trip(c.predicates, predicate_encoder(), predicate_parser(), tail);
        assert(after(t, 1) =~= ep + tail);
        assert(t[1 + ep.len() as int] == c.gates.len() as u8);
        assert forall|i: int, r: Seq<u8>| 0 <= i < c.gates.len() implies #[trigger] gate_parser()(
            gate_encoder()(c.gates[i]) + r,
        ) == Ok::<((u8, Gate), nat), ErrorKind>((c.gates[i], gate_encoder()(c.gates[i]).len())) by {
            let u = encode_gate(c.gates[i]) + r;
            assert(u[0] == c.gates[i].0);
            assert(u[1] == gate_byte(c.gates[i].1));
        }
        lemma_many_truncated(c.gates, gate_encoder(), gate_parser());
        assert(after(t, 2 + ep.len()) =~= eg.drop_last());
    }
    assert(t[0] == c.predicates.len() as u8);
}

impl Predicate {
    pub fn write_to(&self, out: &mut Vec<u8>)
        requires
            predicate_ok(self@),
        ensures
            final(out)@ == old(out)@ + encode_predicate(self@),
    {
        push_name8(out, &self.column);
        out.push(self.operator.id());
        self.value.write_to(out);
        proof {
            assert(final(out)@ =~= old(out)@ + encode_predicate(self@));
        }
    }

    pub fn read(input: &[u8]) -> (r: Result<(Predicate, usize), Error>)
        ensures
            match r {
                Ok((p, n)) => parse_predicate(input@) == Ok::<(PredicateV, nat), ErrorKind>((p@, n as nat)) && n <= input@.len(),
                Err(e) => parse_predicate(input@) == Err::<(PredicateV, nat), ErrorKind>(e.spec_kind()),
            },
    {
        let (column, n) = read_name8(input)?;
        let id = read_u8(input, n)?;
        let operator = LogicalOperator::from_id(id)?;
        let (value, m) = AlbaTypes::from_bytes(slice_subrange(input, n + 1, input.len()))?;
        Ok((Predicate { column, operator, value }, n + 1 + m))
    }
}

impl ConditionSet {
    pub fn new() -> (r: ConditionSet)
        ensures
            r@.predicates.len() == 0,
            r@.gates.len() == 0,
    {
        ConditionSet { predicates: Vec::new(), gates: Vec::new() }
    }

    /// Whether the set respects the count and name-length limits.
    pub fn is_valid(&self) -> (r: bool)
        ensures
            r == conditions_ok(self@),
    {
        if self.predicates.len() > 255 || self.gates.len() > 255 {
            return false;
        }
        let mut i: usize = 0;
        while i < self.predicates.len()
            invariant
                0 <= i <= self.predicates@.len(),
                forall|j: int| 0 <= j < i ==> predicate_ok(#[trigger] self@.predicates[j]),
            decreases self.predicates@.len() - i,
        {
            let p = &self.predicates[i];
            let len = p.column.as_str().as_bytes().len();
            if len > MAX_CONTAINER_COLUMN_LENGTH {
                proof {
                    assert(!predicate_ok(self@.predicates[i as int]));
                }
                return false;
            }
            i = i + 1;
        }
        true
    }

    pub fn write_to(&self, out: &mut Vec<u8>)
        requires
            conditions_ok(self@),
        ensures
            final(out)@ == old(out)@ + encode_conditions(self@),
    {
        let ghost v = self@;
        out.push(self.predicates.len() as u8);
        let mut i: usize = 0;
        while i < self.predicates.len()
            invariant
                0 <= i <= self.predicates@.len(),
                v == self@,
                conditions_ok(v),
                out@ == old(out)@ + seq![v.predicates.len() as u8] + encode_many(
                    v.predicates.take(i as int),
                    predicate_encoder(),
                ),
            decreases self.predicates@.len() - i,
        {
            proof {
                assert(v.predicates[i as int] == self.predicates@[i as int]@);
            }
            self.predicates[i].write_to(out);
            proof {
                assert(v.predicates.take(i + 1).drop_last() =~= v.predicates.take(i as int));
                assert(v.predicates.take(i + 1).last() == self.predicates@[i as int]@);
            }
            i = i + 1;
        }
        proof {
            assert(v.predicates.take(i as int) =~= v.predicates);
        }
        out.push(self.gates.len() as u8);
        let mut j: usize = 0;
        while j < self.gates.len()
            invariant
                0 <= j <= self.gates@.len(),
                v == self@,
                out@ == old(out)@ + seq![v.predicates.len() as u8] + encode_many(
                    v.predicates,
                    predicate_encoder(),
                ) + seq![v.gates.len() as u8] + encode_many(v.gates.take(j as int), gate_encoder()),
            decreases self.gates@.len() - j,
        {
            let g = self.gates[j];
            out.push(g.0);
            out.push(
                match g.1 {
                    Gate::And => 1u8,
                    Gate::Or => 0u8,
                },
            );
            proof {
                assert(v.gates.take(j + 1).drop_last() =~= v.gates.take(j as int));
                assert(v.gates.take(j + 1).last() == g);
            }
            j = j + 1;
        }
        proof {
            assert(v.gates.take(j as int) =~= v.gates);
            assert(final(out)@ =~= old(out)@ + encode_conditions(v));
        }
    }

    pub fn read(input: &[u8]) -> (r: Result<(ConditionSet, usize), Error>)
        ensures
            match r {
                Ok((c, n)) => parse_conditions(input@) == Ok::<(ConditionsV, nat), ErrorKind>((c@, n as nat)) && n <= input@.len(),
                Err(e) => parse_conditions(input@) == Err::<(ConditionsV, nat), ErrorKind>(e.spec_kind()),
            },
    {
        let count = read_u8(input, 0)? as usize;
        let body = slice_subrange(input, 1, input.len());
        let mut predicates: Vec<Predicate> = Vec::new();
        let mut off: usize = 0;
        let mut i: usize = 0;
        proof {
            assert(predicates@.map_values(|p: Predicate| p@) =~= Seq::<PredicateV>::empty());
        }
        while i < count
            invariant
                0 <= i <= count,
                off <= body@.len(),
                input@.len() > 0,
                count as nat == input@[0] as nat,
                body@ == after(input@, 1),
                parse_many(body@, i as nat, predicate_parser()) == Ok::<(Seq<PredicateV>, nat), ErrorKind>(
                    (predicates@.map_values(|p: Predicate| p@), off as nat),
                ),
            decreases count - i,
        {
            let rest = slice_subrange(body, off, body.len());
            match Predicate::read(rest) {
                Ok((p, n)) => {
                    proof {
                        assert(predicates@.push(p).map_values(|p: Predicate| p@) =~= predicates@.map_values(
                            |p: Predicate| p@,
                        ).push(p@));
                    }
                    predicates.push(p);
                    off = off + n;
                    i = i + 1;
                },
                Err(e) => {
                    proof {
                        assert(rest@ == after(body@, off as nat));
                        assert(parse_many(body@, (i + 1) as nat, predicate_parser()) == Err::<(Seq<PredicateV>, nat), ErrorKind>(e.spec_kind()));
                        lemma_parse_many_err(body@, (i + 1) as nat, count as nat, predicate_parser());
                        assert(input@[0] as nat == count as nat);
                    }
                    return Err(e);
                },
            }
        }
        let gcount = read_u8(input, 1 + off)? as usize;
        let gbody = slice_subrange(input, 2 + off, input.len());
        let mut gates: Vec<(u8, Gate)> = Vec::new();
        let mut goff: usize = 0;
        let mut j: usize = 0;
        proof {
            assert(gates@ =~= Seq::<(u8, Gate)>::empty());
        }
        while j < gcount
            invariant
                0 <= j <= gcount,
                goff <= gbody@.len(),
                input@.len() > 1 + off,
                gcount as nat == input@[1 + off as int] as nat,
                gbody@ == after(input@, 2 + off as nat),
                parse_many(body@, count as nat, predicate_parser()) == Ok::<(Seq<PredicateV>, nat), ErrorKind>(
                    (predicates@.map_values(|p: Predicate| p@), off as nat),
                ),
                body@ == after(input@, 1),
                input@.len() > 0,
                count as nat == input@[0] as nat,
                parse_many(gbody@, j as nat, gate_parser()) == Ok::<(Seq<(u8, Gate)>, nat), ErrorKind>(
                    (gates@, goff as nat),
                ),
            decreases gcount - j,
        {
            if gbody.len() - goff < 2 {
                proof {
                    assert(after(gbody@, goff as nat).len() < 2);
                    assert(parse_many(gbody@, (j + 1) as nat, gate_parser()) is Err);
                    lemma_parse_many_err(gbody@, (j + 1) as nat, gcount as nat, gate_parser());
                    assert(gbody@ == after(input@, 2 + off as nat));
                }
                return Err(Error::new(ErrorKind::UnexpectedEof, "Unexpected end of input while reading gates"));
            }
            let index = gbody[goff];
            let g = if gbody[goff + 1] == 1 {
                Gate::And
            } else {
                Gate::Or
            };
            gates.push((index, g));
            goff = goff + 2;
            j = j + 1;
        }
        Ok((ConditionSet { predicates, gates }, 2 + off + goff))
    }

    /// Folds one result per predicate into the set's overall result, left to
    /// right, each gate combining the running result with the next one.
    pub fn fold_results(&self, results: &[bool]) -> (r: bool)
        requires
            results@.len() > 0 ==> self.gates@.len() + 1 >= results@.len(),
        ensures
            r == gate_fold(self.gates@, results@),
    {
        if results.len() == 0 {
            return true;
        }
        let mut acc = results[0];
        let mut i: usize = 1;
        proof {
            assert(results@.take(1).len() == 1);
        }
        while i < results.len()
            invariant
                1 <= i <= results@.len(),
                self.gates@.len() + 1 >= results@.len(),
                acc == gate_fold(self.gates@, results@.take(i as int)),
            decreases results@.len() - i,
        {
            let g = self.gates[i - 1].1;
            acc = match g {
                Gate::And => acc && results[i],
                Gate::Or => acc || results[i],
            };
            proof {
                assert(results@.take(i + 1).drop_last() =~= results@.take(i as int));
            }
            i = i + 1;
        }
        proof {
            assert(results@.take(i as int) =~= results@);
        }
        acc
    }
}

} // verus!
