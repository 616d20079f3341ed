use vstd::prelude::*;
use vstd::bytes::*;
use crate::albastream::ErrorKind;
use crate::commands::{Commands, Batch};
use crate::conditions::{ConditionsV, column_ok, conditions_ok, conditions_fit, encode_conditions, parse_conditions};
use crate::container::{
    SearchV, MAX_CONTAINER_NAME_LENGTH, MAX_CONTAINER_DEPTH, search_ok, search_fits, encode_search,
    parse_search, lemma_search_round_trip,
};
use crate::conditions::lemma_conditions_round_trip;
use crate::types::lemma_value_round_trip;
use crate::wire::{lemma_many_round_trip, lemma_names_round_trip, lemma_name8_round_trip, lemma_name_var_round_trip};
use crate::text::utf8_of;
use crate::types::{ValueV, encode_value, parse_value, value_fits};
use crate::wire::{
    PResult, after, encode_many, parse_many, name8, parse_name8, name8_encoder, name8_parser,
    name_var, parse_name_var, names_view,
};

verus! {

broadcast use {vstd::seq::axiom_seq_index_decreases, vstd::seq::axiom_seq_subrange_decreases};

/// The mathematical content of a command.
pub enum CommandV {
    CreateContainer { name: Seq<char>, columns: Seq<Seq<char>>, types: Seq<u8> },
    CreateRow { container: Seq<char>, columns: Seq<Seq<char>>, values: Seq<ValueV> },
    EditRow {
        container: Seq<char>,
        columns: Seq<Seq<char>>,
        values: Seq<ValueV>,
        conditions: ConditionsV,
    },
    DeleteRow { container: Seq<char>, conditions: Option<ConditionsV> },
    DeleteContainer { container: Seq<char> },
    Search(SearchV),
    Commit { container: Option<Seq<char>> },
    Rollback { container: Option<Seq<char>> },
    BatchCreateRows { container: Seq<char>, columns: Seq<Seq<char>>, rows: Seq<Seq<ValueV>> },
    Batch { transaction: bool, commands: Seq<CommandV> },
}

/// The opcode of each command.
pub open spec fn opcode(c: CommandV) -> u8 {
    match c {
        CommandV::CreateContainer { .. } => 0,
        CommandV::CreateRow { .. } => 1,
        CommandV::EditRow { .. } => 2,
        CommandV::DeleteRow { .. } => 3,
        CommandV::DeleteContainer { .. } => 4,
        CommandV::Search(_) => 5,
        CommandV::Commit { .. } => 6,
        CommandV::Rollback { .. } => 7,
        CommandV::BatchCreateRows { .. } => 8,
        CommandV::Batch { .. } => 9,
    }
}

pub open spec fn values_view(v: Seq<crate::types::AlbaTypes>) -> Seq<ValueV> {
    v.map_values(|x: crate::types::AlbaTypes| x@)
}

pub open spec fn rows_view(v: Seq<Vec<crate::types::AlbaTypes>>) -> Seq<Seq<ValueV>> {
    v.map_values(|r: Vec<crate::types::AlbaTypes>| values_view(r@))
}

pub open spec fn command_view(c: Commands) -> CommandV
    decreases c, 0nat,
{
    match c {
        Commands::CreateContainer(x) => CommandV::CreateContainer {
            name: x.name@,
            columns: names_view(x.col_nam@),
            types: x.col_val@,
        },
        Commands::CreateRow(x) => CommandV::CreateRow {
            container: x.container@,
            columns: names_view(x.col_nam@),
            values: values_view(x.col_val@),
        },
        Commands::EditRow(x) => CommandV::EditRow {
            container: x.container@,
            columns: names_view(x.col_nam@),
            values: values_view(x.col_val@),
            conditions: x.conditions@,
        },
        Commands::DeleteRow(x) => CommandV::DeleteRow {
            container: x.container@,
            conditions: match x.conditions {
                Some(c) => Some(c@),
                None => None,
            },
        },
        Commands::DeleteContainer(x) => CommandV::DeleteContainer { container: x.container@ },
        Commands::Search(x) => CommandV::Search(x@),
        Commands::Commit(x) => CommandV::Commit {
            container: match x.container {
                Some(n) => Some(n@),
                None => None,
            },
        },
        Commands::Rollback(x) => CommandV::Rollback {
            container: match x.container {
                Some(n) => Some(n@),
                None => None,
            },
        },
        Commands::BatchCreateRows(x) => CommandV::BatchCreateRows {
            container: x.container@,
            columns: names_view(x.col_nam@),
            rows: rows_view(x.col_val@),
        },
        Commands::Batch(b) => CommandV::Batch {
            transaction: b.transaction,
            commands: commands_view(b.commands@, b.commands@.len()),
        },
    }
}

/// The views of the first `n` commands of `v`.
pub open spec fn commands_view(v: Seq<Commands>, n: nat) -> Seq<CommandV>
    decreases v, n,
{
    if n == 0 || n > v.len() {
        Seq::empty()
    } else {
        commands_view(v, (n - 1) as nat).push(command_view(v[n - 1]))
    }
}

pub proof fn lemma_commands_view(v: Seq<Commands>, n: nat)
    requires
        n <= v.len(),
    ensures
        commands_view(v, n).len() == n,
        forall|i: int| 0 <= i < n ==> #[trigger] commands_view(v, n)[i] == command_view(v[i]),
    decreases n,
{
    if n > 0 {
        lemma_commands_view(v, (n - 1) as nat);
    }
}

pub proof fn lemma_commands_view_push(v: Seq<Commands>, x: Commands, n: nat)
    requires
        n <= v.len(),
    ensures
        commands_view(v.push(x), n) == commands_view(v, n),
    decreases n,
{
    if n > 0 {
        lemma_commands_view_push(v, x, (n - 1) as nat);
        assert(v.push(x)[n - 1] == v[n - 1]);
    }
}

pub open spec fn value_encoder() -> spec_fn(ValueV) -> Seq<u8> {
    |v: ValueV| encode_value(v)
}

pub open spec fn value_parser() -> spec_fn(Seq<u8>) -> PResult<ValueV> {
    |s: Seq<u8>| parse_value(s)
}

pub open spec fn row_encoder() -> spec_fn(Seq<ValueV>) -> Seq<u8> {
    |r: Seq<ValueV>| encode_many(r, value_encoder())
}

pub open spec fn row_parser(k: nat) -> spec_fn(Seq<u8>) -> PResult<Seq<ValueV>> {
    |s: Seq<u8>| parse_many(s, k, value_parser())
}

/// A column list: its count byte, then each name with a one-byte length.
pub open spec fn columns_bytes(cols: Seq<Seq<char>>) -> Seq<u8> {
    seq![cols.len() as u8] + encode_many(cols, name8_encoder())
}

/// An optional part: a flag byte, then the part when present.
pub open spec fn optional_bytes(present: bool, part: Seq<u8>) -> Seq<u8> {
    if present {
        seq![1u8] + part
    } else {
        seq![0u8]
    }
}

/// The signed command count of a batch: negative for a transaction.
pub open spec fn batch_count(transaction: bool, n: nat) -> i32 {
    if transaction {
        (-(n as int)) as i32
    } else {
        n as i32
    }
}

pub open spec fn encode_command(c: CommandV) -> Seq<u8>
    decreases c, 0nat,
{
    match c {
        CommandV::CreateContainer { name, columns, types } => seq![0u8] + name8(name)
            + columns_bytes(columns) + types,
        CommandV::CreateRow { container, columns, values } => seq![1u8] + name8(container)
            + columns_bytes(columns) + encode_many(values, value_encoder()),
        CommandV::EditRow { container, columns, values, conditions } => seq![2u8] + name8(
            container,
        ) + columns_bytes(columns) + encode_many(values, value_encoder()) + encode_conditions(
            conditions,
        ),
        CommandV::DeleteRow { container, conditions } => seq![3u8] + name8(container)
            + match conditions {
            Some(k) => optional_bytes(true, encode_conditions(k)),
            None => optional_bytes(false, Seq::empty()),
        },
        CommandV::DeleteContainer { container } => seq![4u8] + name8(container),
        CommandV::Search(s) => encode_search(s),
        CommandV::Commit { container } => seq![6u8] + match container {
            Some(n) => optional_bytes(true, name_var(n)),
            None => optional_bytes(false, Seq::empty()),
        },
        CommandV::Rollback { container } => seq![7u8] + match container {
            Some(n) => optional_bytes(true, name_var(n)),
            None => optional_bytes(false, Seq::empty()),
        },
        CommandV::BatchCreateRows { container, columns, rows } => seq![8u8] + name8(container)
            + columns_bytes(columns) + spec_u32_to_le_bytes(rows.len() as u32) + encode_many(
            rows,
            row_encoder(),
        ),
        CommandV::Batch { transaction, commands } => seq![9u8] + spec_u32_to_le_bytes(
            batch_count(transaction, commands.len()) as u32,
        ) + encode_items(commands),
    }
}

/// Commands one after another, each behind a 32-bit length.
pub open spec fn encode_items(cs: Seq<CommandV>) -> Seq<u8>
    decreases cs, 1nat,
{
    if cs.len() == 0 {
        Seq::empty()
    } else {
        let b = encode_command(cs[0]);
        spec_u32_to_le_bytes(b.len() as u32) + b + encode_items(cs.drop_first())
    }
}

/// The limits of the data model that a command must respect before it is
/// written.
pub open spec fn command_ok(c: CommandV) -> bool
    decreases c, 0nat,
{
    match c {
        CommandV::CreateContainer { name, columns, types } => {
            &&& name_ok(name)
            &&& column_list_ok(columns)
            &&& columns.len() == types.len()
        },
        CommandV::CreateRow { container, columns, values } => {
            &&& name_ok(container)
            &&& column_list_ok(columns)
            &&& columns.len() == values.len()
        },
        CommandV::EditRow { container, columns, values, conditions } => {
            &&& name_ok(container)
            &&& column_list_ok(columns)
            &&& columns.len() == values.len()
            &&& conditions_ok(conditions)
        },
        CommandV::DeleteRow { container, conditions } => {
            &&& name_ok(container)
            &&& (conditions matches Some(k) ==> conditions_ok(k))
        },
        CommandV::DeleteContainer { container } => name_ok(container),
        CommandV::Search(s) => search_ok(s, MAX_CONTAINER_DEPTH as nat),
        CommandV::Commit { container } => container matches Some(n) ==> name_ok(n),
        CommandV::Rollback { container } => container matches Some(n) ==> name_ok(n),
        CommandV::BatchCreateRows { container, columns, rows } => {
            &&& name_ok(container)
            &&& column_list_ok(columns)
            &&& rows.len() <= u32::MAX
            &&& forall|i: int| 0 <= i < rows.len() ==> (#[trigger] rows[i]).len() == columns.len()
        },
        CommandV::Batch { transaction, commands } => {
            &&& commands.len() <= i32::MAX
            &&& items_ok(commands, commands.len())
        },
    }
}

/// The first `n` commands of a batch respect their limits, and each one's
/// encoding fits a 32-bit length.
pub open spec fn items_ok(cs: Seq<CommandV>, n: nat) -> bool
    decreases cs, n,
{
    if n == 0 || n > cs.len() {
        true
    } else {
        &&& items_ok(cs, (n - 1) as nat)
        &&& command_ok(cs[n - 1])
        &&& encode_command(cs[n - 1]).len() <= u32::MAX
    }
}

pub open spec fn name_ok(s: Seq<char>) -> bool {
    utf8_of(s).len() <= MAX_CONTAINER_NAME_LENGTH
}

pub open spec fn column_list_ok(cols: Seq<Seq<char>>) -> bool {
    &&& cols.len() <= 255
    &&& forall|i: int| 0 <= i < cols.len() ==> column_ok(#[trigger] cols[i])
}

/// Decoding of a column list: its count byte, then the names.
pub open spec fn parse_columns(s: Seq<u8>) -> PResult<Seq<Seq<char>>> {
    if s.len() == 0 {
        Err(ErrorKind::UnexpectedEof)
    } else {
        match parse_many(after(s, 1), s[0] as nat, name8_parser()) {
            Err(e) => Err(e),
            Ok((cols, n)) => Ok((cols, 1 + n)),
        }
    }
}

/// The command count that a batch's signed count field announces.
pub open spec fn count_magnitude(c: i32) -> nat {
    if c < 0 {
        (-c) as nat
    } else {
        c as nat
    }
}

/// Decoding of the command at the start of `s`.
pub open spec fn parse_command(s: Seq<u8>) -> PResult<CommandV>
    decreases s.len(), 0nat,
{
    if s.len() == 0 {
        Err(ErrorKind::UnexpectedEof)
    } else if s[0] == 5 {
        match parse_search(s, MAX_CONTAINER_DEPTH as nat) {
            Err(e) => Err(e),
            Ok((x, n)) => Ok((CommandV::Search(x), n)),
        }
    } else if s[0] == 6 || s[0] == 7 {
        if s.len() < 2 {
            Err(ErrorKind::UnexpectedEof)
        } else {
            let r: PResult<Option<Seq<char>>> = if s[1] == 0 {
                Ok((None, 0))
            } else {
                match parse_name_var(after(s, 2)) {
                    Err(e) => Err(e),
                    Ok((n, k)) => Ok((Some(n), k)),
                }
            };
            match r {
                Err(e) => Err(e),
                Ok((container, k)) => Ok(
                    (
                        if s[0] == 6 {
                            CommandV::Commit { container }
                        } else {
                            CommandV::Rollback { container }
                        },
                        2 + k,
                    ),
                ),
            }
        }
    } else if s[0] == 9 {
        if s.len() < 5 {
            Err(ErrorKind::UnexpectedEof)
        } else {
            let c = spec_u32_from_le_bytes(s.subrange(1, 5)) as i32;
            match parse_items(after(s, 5), count_magnitude(c)) {
                Err(e) => Err(e),
                Ok((cs, m)) => Ok((CommandV::Batch { transaction: c < 0, commands: cs }, 5 + m)),
            }
        }
    } else if s[0] > 9 {
        Err(ErrorKind::InvalidInput)
    } else {
        match parse_name8(after(s, 1)) {
            Err(e) => Err(e),
            Ok((name, a)) => {
                let p = 1 + a;
                if s[0] == 4 {
                    Ok((CommandV::DeleteContainer { container: name }, p))
                } else if s[0] == 3 {
                    if s.len() <= p {
                        Err(ErrorKind::UnexpectedEof)
                    } else if s[p as int] == 0 {
                        Ok((CommandV::DeleteRow { container: name, conditions: None }, p + 1))
                    } else {
                        match parse_conditions(after(s, p + 1)) {
                            Err(e) => Err(e),
                            Ok((k, m)) => Ok(
                                (CommandV::DeleteRow { container: name, conditions: Some(k) }, p + 1 + m),
                            ),
                        }
                    }
                } else {
                    parse_column_command(s, name, p)
                }
            },
        }
    }
}

/// Decoding of the part that follows the container name in the commands
/// that carry a column list (opcodes 0, 1, 2 and 8).
pub open spec fn parse_column_command(s: Seq<u8>, name: Seq<char>, p: nat) -> PResult<CommandV> {
    match parse_columns(after(s, p)) {
        Err(e) => Err(e),
        Ok((cols, b)) => {
            let q = p + b;
            if s[0] == 0 {
                if s.len() < q + cols.len() {
                    Err(ErrorKind::UnexpectedEof)
                } else {
                    Ok(
                        (
                            CommandV::CreateContainer {
                                name,
                                columns: cols,
                                types: s.subrange(q as int, (q + cols.len()) as int),
                            },
                            q + cols.len(),
                        ),
                    )
                }
            } else if s[0] == 8 {
                if s.len() < q + 4 {
                    Err(ErrorKind::UnexpectedEof)
                } else {
                    let rc = spec_u32_from_le_bytes(s.subrange(q as int, (q + 4) as int));
                    match parse_many(after(s, q + 4), rc as nat, row_parser(cols.len())) {
                        Err(e) => Err(e),
                        Ok((rows, m)) => Ok(
                            (
                                CommandV::BatchCreateRows { container: name, columns: cols, rows },
                                q + 4 + m,
                            ),
                        ),
                    }
                }
            } else {
                match parse_many(after(s, q), cols.len(), value_parser()) {
                    Err(e) => Err(e),
                    Ok((vals, m)) => if s[0] == 1 {
                        Ok(
                            (
                                CommandV::CreateRow { container: name, columns: cols, values: vals },
                                q + m,
                            ),
                        )
                    } else {
                        match parse_conditions(after(s, q + m)) {
                            Err(e) => Err(e),
                            Ok((k, r)) => Ok(
                                (
                                    CommandV::EditRow {
                                        container: name,
                                        columns: cols,
                                        values: vals,
                                        conditions: k,
                                    },
                                    q + m + r,
                                ),
                            ),
                        }
                    },
                }
            }
        },
    }
}

/// Decoding of `count` batch items, each a 32-bit length and then that many
/// bytes holding one command.
pub open spec fn parse_items(s: Seq<u8>, count: nat) -> PResult<Seq<CommandV>>
    decreases s.len(), count,
{
    if count == 0 {
        Ok((Seq::empty(), 0))
    } else if s.len() < 4 {
        Err(ErrorKind::UnexpectedEof)
    } else {
        let len = spec_u32_from_le_bytes(s.subrange(0, 4));
        if s.len() - 4 < len {
            Err(ErrorKind::UnexpectedEof)
        } else {
            match parse_command(s.subrange(4, 4 + len)) {
                Err(e) => Err(e),
                Ok((x, _)) => match parse_items(after(s, (4 + len) as nat), (count - 1) as nat) {
                    Err(e) => Err(e),
                    Ok((xs, m)) => Ok((seq![x] + xs, (4 + len + m) as nat)),
                },
            }
        }
    }
}

/// `r` is what compiling the command `v` must give: its encoding when it
/// respects the limits, else an `InvalidInput` error.
pub open spec fn compiled(v: CommandV, r: Result<Vec<u8>, crate::albastream::Error>) -> bool {
    match r {
        Ok(b) => command_ok(v) && b@ == encode_command(v),
        Err(e) => !command_ok(v) && e.spec_kind() == ErrorKind::InvalidInput,
    }
}

pub proof fn lemma_items_ok_prefix(cs: Seq<CommandV>, m: nat, n: nat)
    requires
        m <= n <= cs.len(),
        items_ok(cs, n),
    ensures
        items_ok(cs, m),
    decreases n - m,
{
    if m < n {
        lemma_items_ok_prefix(cs, m, (n - 1) as nat);
    }
}

/// The items decoded so far, `xs` over `off` bytes, joined to the outcome
/// of decoding the rest.
pub open spec fn shifted(xs: Seq<CommandV>, off: nat, r: PResult<Seq<CommandV>>) -> PResult<Seq<CommandV>> {
    match r {
        Err(e) => Err(e),
        Ok((ys, m)) => Ok((xs + ys, off + m)),
    }
}

/// Decoding of one batch item: a 32-bit length and then the command.
pub open spec fn parse_item(s: Seq<u8>) -> PResult<CommandV> {
    if s.len() < 4 {
        Err(ErrorKind::UnexpectedEof)
    } else {
        let len = spec_u32_from_le_bytes(s.subrange(0, 4));
        if s.len() - 4 < len {
            Err(ErrorKind::UnexpectedEof)
        } else {
            match parse_command(s.subrange(4, 4 + len)) {
                Err(e) => Err(e),
                Ok((x, _)) => Ok((x, (4 + len) as nat)),
            }
        }
    }
}

pub proof fn lemma_parse_items_step(s: Seq<u8>, count: nat)
    requires
        count > 0,
    ensures
        parse_items(s, count) == match parse_item(s) {
            Err(e) => Err(e),
            Ok((x, n)) => shifted(seq![x], n, parse_items(after(s, n), (count - 1) as nat)),
        },
{
}

/// One more batch item decoded moves it from the rest to the decoded part.
pub proof fn lemma_items_advance(
    body: Seq<u8>,
    off: nat,
    left: nat,
    xs: Seq<CommandV>,
    x: CommandV,
    n: nat,
)
    requires
        left > 0,
        off + n <= body.len(),
        parse_item(after(body, off)) == Ok::<(CommandV, nat), ErrorKind>((x, n)),
    ensures
        shifted(xs, off, parse_items(after(body, off), left)) == shifted(
            xs.push(x),
            off + n,
            parse_items(after(body, off + n), (left - 1) as nat),
        ),
{
    lemma_parse_items_step(after(body, off), left);
    assert(after(after(body, off), n) =~= after(body, off + n));
    match parse_items(after(body, off + n), (left - 1) as nat) {
        Ok((ys, m)) => {
            assert(xs + (seq![x] + ys) =~= xs.push(x) + ys);
        },
        Err(_) => {},
    }
}

/// A batch item that fails to decode fails the whole batch.
pub proof fn lemma_items_fail(body: Seq<u8>, off: nat, left: nat, xs: Seq<CommandV>)
    requires
        left > 0,
        parse_item(after(body, off)) is Err,
    ensures
        match parse_item(after(body, off)) {
            Err(e) => shifted(xs, off, parse_items(after(body, off), left)) == Err::<(Seq<CommandV>, nat), ErrorKind>(e),
            Ok(_) => true,
        },
{
    lemma_parse_items_step(after(body, off), left);
}

/// How a batch command decodes.
pub proof fn lemma_parse_batch(s: Seq<u8>)
    requires
        s.len() >= 5,
        s[0] == 9,
    ensures
        parse_command(s) == ({
            let c = spec_u32_from_le_bytes(s.subrange(1, 5)) as i32;
            match parse_items(after(s, 5), count_magnitude(c)) {
                Err(e) => Err(e),
                Ok((cs, m)) => Ok((CommandV::Batch { transaction: c < 0, commands: cs }, 5 + m)),
            }
        }),
{
}

/// Every value's variable-length contents fit a 64-bit length.
pub open spec fn values_fit(vs: Seq<ValueV>) -> bool {
    forall|i: int| 0 <= i < vs.len() ==> value_fits(#[trigger] vs[i])
}

/// A command's contents fit their length fields, and no transactional batch
/// is empty (an empty batch has no sign to carry the flag).
pub open spec fn command_fits(c: CommandV) -> bool
    decreases c, 0nat,
{
    match c {
        CommandV::CreateRow { values, .. } => values_fit(values),
        CommandV::EditRow { values, conditions, .. } => values_fit(values) && conditions_fit(conditions),
        CommandV::DeleteRow { conditions, .. } => conditions matches Some(k) ==> conditions_fit(k),
        CommandV::Search(s) => search_fits(s),
        CommandV::BatchCreateRows { rows, .. } => forall|i: int| 0 <= i < rows.len() ==> values_fit(#[trigger] rows[i]),
        CommandV::Batch { transaction, commands } => {
            &&& !(transaction && commands.len() == 0)
            &&& items_fit(commands, commands.len())
        },
        _ => true,
    }
}

pub open spec fn items_fit(cs: Seq<CommandV>, n: nat) -> bool
    decreases cs, n,
{
    if n == 0 || n > cs.len() {
        true
    } else {
        items_fit(cs, (n - 1) as nat) && command_fits(cs[n - 1])
    }
}

pub proof fn lemma_items_all(cs: Seq<CommandV>, n: nat)
    requires
        n <= cs.len(),
    ensures
        items_ok(cs, n) <==> forall|i: int| 0 <= i < n ==> command_ok(#[trigger] cs[i]) && encode_command(cs[i]).len() <= u32::MAX,
        items_fit(cs, n) <==> forall|i: int| 0 <= i < n ==> command_fits(#[trigger] cs[i]),
    decreases n,
{
    if n > 0 {
        lemma_items_all(cs, (n - 1) as nat);
    }
}

pub proof fn lemma_columns_round_trip(cols: Seq<Seq<char>>, rest: Seq<u8>)
    requires
        column_list_ok(cols),
    ensures
        parse_columns(columns_bytes(cols) + rest) == Ok::<(Seq<Seq<char>>, nat), ErrorKind>((cols, columns_bytes(cols).len())),
{
    assert forall|i: int| 0 <= i < cols.len() implies (#[trigger] utf8_of(cols[i])).len() <= 255 by {
        assert(column_ok(cols[i]));
    }
    lemma_names_round_trip(cols, rest);
    let t = columns_bytes(cols) + rest;
    assert(after(t, 1) =~= encode_many(cols, name8_encoder()) + rest);
}

pub proof fn lemma_values_round_trip(vs: Seq<ValueV>, rest: Seq<u8>)
    requires
        values_fit(vs),
    ensures
        parse_many(encode_many(vs, value_encoder()) + rest, vs.len(), value_parser())
            == Ok::<(Seq<ValueV>, nat), ErrorKind>((vs, encode_many(vs, value_encoder()).len())),
{
    assert forall|i: int, r: Seq<u8>| 0 <= i < vs.len() implies #[trigger] value_parser()(value_encoder()(vs[i]) + r)
        == Ok::<(ValueV, nat), ErrorKind>((vs[i], value_encoder()(vs[i]).len())) by {
        lemma_value_round_trip(vs[i], r);
    }
    lemma_many_round_trip(vs, value_encoder(), value_parser(), rest);
}

pub proof fn lemma_rows_round_trip(rows: Seq<Seq<ValueV>>, k: nat, rest: Seq<u8>)
    requires
        forall|i: int| 0 <= i < rows.len() ==> (#[trigger] rows[i]).len() == k && values_fit(rows[i]),
    ensures
        parse_many(encode_many(rows, row_encoder()) + rest, rows.len(), row_parser(k))
            == Ok::<(Seq<Seq<ValueV>>, nat), ErrorKind>((rows, encode_many(rows, row_encoder()).len())),
{
    assert forall|i: int, r: Seq<u8>| 0 <= i < rows.len() implies #[trigger] row_parser(k)(row_encoder()(rows[i]) + r)
        == Ok::<(Seq<ValueV>, nat), ErrorKind>((rows[i], row_encoder()(rows[i]).len())) by {
        lemma_values_round_trip(rows[i], r);
    }
    lemma_many_round_trip(rows, row_encoder(), row_parser(k), rest);
}

pub proof fn lemma_batch_count(transaction: bool, n: nat)
    requires
        n <= i32::MAX,
        !(transaction && n == 0),
    ensures
        ({
            let c = spec_u32_from_le_bytes(spec_u32_to_le_bytes(batch_count(transaction, n) as u32)) as i32;
            &&& count_magnitude(c) == n
            &&& (c < 0) == transaction
        }),
{
    lemma_auto_spec_u32_to_from_le_bytes();
    let x = batch_count(transaction, n);
    let u: u32 = #[verifier::truncate] (x as u32);
    lemma_auto_spec_u32_to_from_le_bytes();
    assert(spec_u32_to_le_bytes(u).len() == 4);
    assert(spec_u32_from_le_bytes(spec_u32_to_le_bytes(u)) == u);
    assert((#[verifier::truncate] ((#[verifier::truncate] (x as u32)) as i32)) == x) by (bit_vector);
}

#[verifier::spinoff_prover]
#[verifier::rlimit(100)]
pub proof fn lemma_items_round_trip(cs: Seq<CommandV>, rest: Seq<u8>)
    requires
        forall|i: int| 0 <= i < cs.len() ==> command_ok(#[trigger] cs[i]) && command_fits(cs[i])
            && encode_command(cs[i]).len() <= u32::MAX,
    ensures
        parse_items(encode_items(cs) + rest, cs.len()) == Ok::<(Seq<CommandV>, nat), ErrorKind>(
            (cs, encode_items(cs).len()),
        ),
    decreases cs, 1nat,
{
    if cs.len() == 0 {
        assert(encode_items(cs) + rest =~= rest);
        assert(cs =~= Seq::<CommandV>::empty());
    } else {
        lemma_auto_spec_u32_to_from_le_bytes();
        let b = encode_command(cs[0]);
        let lb = spec_u32_to_le_bytes(b.len() as u32);
        let tail = cs.drop_first();
        let t = encode_items(cs) + rest;
        assert(t =~= lb + (b + (encode_items(tail) + rest)));
        assert(t.subrange(0, 4) =~= lb);
        lemma_command_round_trip(cs[0], Seq::empty());
        assert(t.subrange(4, 4 + b.len() as int) =~= b + Seq::<u8>::empty());
        assert forall|i: int| 0 <= i < tail.len() implies command_ok(#[trigger] tail[i]) && command_fits(tail[i])
            && encode_command(tail[i]).len() <= u32::MAX by {
            assert(tail[i] == cs[i + 1]);
        }
        lemma_items_round_trip(tail, rest);
        assert(after(t, (4 + b.len()) as nat) =~= encode_items(tail) + rest);
        assert(seq![cs[0]] + tail =~= cs);
    }
}

/// A command within the data model's limits decodes back to itself from its
/// encoding, whatever follows it, and the decoder consumes exactly the
/// encoding.
pub proof fn lemma_command_round_trip(c: CommandV, rest: Seq<u8>)
    requires
        command_ok(c),
        command_fits(c),
    ensures
        parse_command(encode_command(c) + rest) == Ok::<(CommandV, nat), ErrorKind>((c, encode_command(c).len())),
    decreases c, 0nat,
{
    match c {
        CommandV::Search(s) => {
            lemma_search_round_trip(s, rest, MAX_CONTAINER_DEPTH as nat);
        },
        CommandV::Commit { .. } => {
            lemma_marker_round_trip(c, rest);
        },
        CommandV::Rollback { .. } => {
            lemma_marker_round_trip(c, rest);
        },
        CommandV::Batch { transaction, commands } => {
            lemma_items_all(commands, commands.len());
            lemma_items_round_trip(commands, rest);
            lemma_batch_round_trip(c, rest);
        },
        CommandV::CreateContainer { .. } => {
            lemma_create_container_round_trip(c, rest);
        },
        CommandV::CreateRow { .. } => {
            lemma_row_round_trip(c, rest);
        },
        CommandV::EditRow { .. } => {
            lemma_row_round_trip(c, rest);
        },
        CommandV::BatchCreateRows { .. } => {
            lemma_batch_rows_round_trip(c, rest);
        },
        _ => {
            lemma_delete_round_trip(c, rest);
        },
    }
}

#[verifier::spinoff_prover]
#[verifier::rlimit(100)]
proof fn lemma_batch_round_trip(c: CommandV, rest: Seq<u8>)
    requires
        c is Batch,
        command_ok(c),
        command_fits(c),
        parse_items(encode_items(c->commands) + rest, c->commands.len()) == Ok::<(Seq<CommandV>, nat), ErrorKind>(
            (c->commands, encode_items(c->commands).len()),
        ),
    ensures
        parse_command(encode_command(c) + rest) == Ok::<(CommandV, nat), ErrorKind>((c, encode_command(c).len())),
{
    let transaction = c->transaction;
    let commands = c->commands;
    let t = encode_command(c) + rest;
    lemma_auto_spec_u32_to_from_le_bytes();
    let cb = spec_u32_to_le_bytes(batch_count(transaction, commands.len()) as u32);
    assert(t =~= seq![9u8] + (cb + (encode_items(commands) + rest)));
    assert(t.subrange(1, 5) =~= cb);
    lemma_batch_count(transaction, commands.len());
    assert(after(t, 5) =~= encode_items(commands) + rest);
    lemma_parse_batch(t);
}

#[verifier::spinoff_prover]
#[verifier::rlimit(100)]
proof fn lemma_marker_round_trip(c: CommandV, rest: Seq<u8>)
    requires
        c is Commit || c is Rollback,
        command_ok(c),
    ensures
        parse_command(encode_command(c) + rest) == Ok::<(CommandV, nat), ErrorKind>((c, encode_command(c).len())),
{
    let n = if c is Commit { c->Commit_container } else { c->Rollback_container };
    let t = encode_command(c) + rest;
    assert(t =~= seq![opcode(c)] + (optional_name(n) + rest));
    lemma_optional_name_round_trip(n, rest);
    assert(after(t, 2) =~= after(optional_name(n) + rest, 1));
    assert(t[1] == (optional_name(n) + rest)[0]);
}

#[verifier::spinoff_prover]
#[verifier::rlimit(100)]
proof fn lemma_create_container_round_trip(c: CommandV, rest: Seq<u8>)
    requires
        c is CreateContainer,
        command_ok(c),
    ensures
        parse_command(encode_command(c) + rest) == Ok::<(CommandV, nat), ErrorKind>((c, encode_command(c).len())),
{
    let name = c->CreateContainer_name;
    let columns = c->CreateContainer_columns;
    let types = c->CreateContainer_types;
    let t = encode_command(c) + rest;
    let cb = columns_bytes(columns);
    assert(t =~= seq![0u8] + (name8(name) + (cb + (types + rest))));
    lemma_name8_round_trip(name, cb + (types + rest));
    assert(after(t, 1) =~= name8(name) + (cb + (types + rest)));
    let p = 1 + name8(name).len();
    lemma_columns_round_trip(columns, types + rest);
    assert(after(t, p) =~= cb + (types + rest));
    let q = p + cb.len();
    assert(t.subrange(q as int, (q + columns.len()) as int) =~= types);
}

/// The container name, columns, values and conditions of a row command.
pub open spec fn row_parts(c: CommandV) -> (Seq<char>, Seq<Seq<char>>, Seq<ValueV>, Seq<u8>) {
    match c {
        CommandV::CreateRow { container, columns, values } => (container, columns, values, Seq::<u8>::empty()),
        CommandV::EditRow { container, columns, values, conditions } => (
            container,
            columns,
            values,
            encode_conditions(conditions),
        ),
        _ => arbitrary(),
    }
}

#[verifier::spinoff_prover]
#[verifier::rlimit(100)]
proof fn lemma_row_body(c: CommandV, rest: Seq<u8>)
    requires
        c is CreateRow || c is EditRow,
        command_ok(c),
        command_fits(c),
    ensures
        parse_column_command(encode_command(c) + rest, row_parts(c).0, 1 + name8(row_parts(c).0).len())
            == Ok::<(CommandV, nat), ErrorKind>((c, encode_command(c).len())),
{
    let t = encode_command(c) + rest;
    let (container, columns, values, kb) = row_parts(c);
    let cb = columns_bytes(columns);
    let vb = encode_many(values, value_encoder());
    assert(t =~= seq![opcode(c)] + (name8(container) + (cb + (vb + (kb + rest)))));
    let p = 1 + name8(container).len();
    lemma_columns_round_trip(columns, vb + (kb + rest));
    assert(after(t, p) =~= cb + (vb + (kb + rest)));
    let q = p + cb.len();
    lemma_values_round_trip(values, kb + rest);
    assert(after(t, q) =~= vb + (kb + rest));
    if let CommandV::EditRow { conditions, .. } = c {
        lemma_conditions_round_trip(conditions, rest);
        assert(after(t, q + vb.len()) =~= kb + rest);
    }
}

#[verifier::spinoff_prover]
#[verifier::rlimit(100)]
proof fn lemma_row_round_trip(c: CommandV, rest: Seq<u8>)
    requires
        c is CreateRow || c is EditRow,
        command_ok(c),
        command_fits(c),
    ensures
        parse_command(encode_command(c) + rest) == Ok::<(CommandV, nat), ErrorKind>((c, encode_command(c).len())),
{
    let t = encode_command(c) + rest;
    let (container, columns, values, kb) = row_parts(c);
    let tail = columns_bytes(columns) + (encode_many(values, value_encoder()) + (kb + rest));
    assert(t =~= seq![opcode(c)] + (name8(container) + tail));
    lemma_name8_round_trip(container, tail);
    assert(after(t, 1) =~= name8(container) + tail);
    lemma_row_body(c, rest);
}

#[verifier::spinoff_prover]
#[verifier::rlimit(100)]
proof fn lemma_batch_rows_round_trip(c: CommandV, rest: Seq<u8>)
    requires
        c is BatchCreateRows,
        command_ok(c),
        command_fits(c),
    ensures
        parse_command(encode_command(c) + rest) == Ok::<(CommandV, nat), ErrorKind>((c, encode_command(c).len())),
{
    let container = c->BatchCreateRows_container;
    let columns = c->BatchCreateRows_columns;
    let rows = c->BatchCreateRows_rows;
    let t = encode_command(c) + rest;
    lemma_auto_spec_u32_to_from_le_bytes();
    let cb = columns_bytes(columns);
    let rc = spec_u32_to_le_bytes(rows.len() as u32);
    let rb = encode_many(rows, row_encoder());
    assert(t =~= seq![8u8] + (name8(container) + (cb + (rc + (rb + rest)))));
    lemma_name8_round_trip(container, cb + (rc + (rb + rest)));
    assert(after(t, 1) =~= name8(container) + (cb + (rc + (rb + rest))));
    let p = 1 + name8(container).len();
    lemma_columns_round_trip(columns, rc + (rb + rest));
    assert(after(t, p) =~= cb + (rc + (rb + rest)));
    let q = p + cb.len();
    assert(t.subrange(q as int, (q + 4) as int) =~= rc);
    lemma_rows_round_trip(rows, columns.len(), rest);
    assert(after(t, q + 4) =~= rb + rest);
}

#[verifier::spinoff_prover]
#[verifier::rlimit(100)]
proof fn lemma_delete_round_trip(c: CommandV, rest: Seq<u8>)
    requires
        c is DeleteRow || c is DeleteContainer,
        command_ok(c),
        command_fits(c),
    ensures
        parse_command(encode_command(c) + rest) == Ok::<(CommandV, nat), ErrorKind>((c, encode_command(c).len())),
{
    let t = encode_command(c) + rest;
    match c {
        CommandV::DeleteRow { container, conditions } => {
            let ob = match conditions {
                Some(k) => optional_bytes(true, encode_conditions(k)),
                None => optional_bytes(false, Seq::empty()),
            };
            assert(t =~= seq![3u8] + (name8(container) + (ob + rest)));
            lemma_name8_round_trip(container, ob + rest);
            assert(after(t, 1) =~= name8(container) + (ob + rest));
            let p = 1 + name8(container).len();
            if let Some(k) = conditions {
                lemma_conditions_round_trip(k, rest);
                assert(after(t, p + 1) =~= encode_conditions(k) + rest);
            }
        },
        CommandV::DeleteContainer { container } => {
            assert(t =~= seq![4u8] + (name8(container) + rest));
            lemma_name8_round_trip(container, rest);
            assert(after(t, 1) =~= name8(container) + rest);
        },
        _ => {},
    }
}

/// The flag byte and optional variable-length name of a commit or rollback.
pub open spec fn optional_name(n: Option<Seq<char>>) -> Seq<u8> {
    match n {
        Some(x) => optional_bytes(true, name_var(x)),
        None => optional_bytes(false, Seq::empty()),
    }
}

pub proof fn lemma_optional_name_round_trip(n: Option<Seq<char>>, rest: Seq<u8>)
    requires
        n matches Some(x) ==> name_ok(x),
    ensures
        ({
            let t = optional_name(n) + rest;
            &&& t.len() >= 1
            &&& (t[0] == 0) == (n is None)
            &&& n matches Some(x) ==> parse_name_var(after(t, 1)) == Ok::<(Seq<char>, nat), ErrorKind>((x, name_var(x).len()))
                && optional_name(n).len() == 1 + name_var(x).len()
            &&& n is None ==> optional_name(n).len() == 1
        }),
{
    if let Some(x) = n {
        lemma_name_var_round_trip(x, rest);
        assert(after(optional_name(n) + rest, 1) =~= name_var(x) + rest);
    }
}

/// A batch writes its command count as a signed 32-bit field, negative
/// exactly when the batch is a transaction, and decoding it gives back the
/// flag and the commands in order.
pub proof fn lemma_batch_sign(transaction: bool, commands: Seq<CommandV>)
    requires
        command_ok(CommandV::Batch { transaction, commands }),
        command_fits(CommandV::Batch { transaction, commands }),
    ensures
        ({
            let b = encode_command(CommandV::Batch { transaction, commands });
            let c = spec_u32_from_le_bytes(b.subrange(1, 5)) as i32;
            &&& c == batch_count(transaction, commands.len())
            &&& (c < 0) == transaction
            &&& count_magnitude(c) == commands.len()
            &&& parse_command(b) == Ok::<(CommandV, nat), ErrorKind>((CommandV::Batch { transaction, commands }, b.len()))
        }),
{
    let v = CommandV::Batch { transaction, commands };
    let b = encode_command(v);
    let cb = spec_u32_to_le_bytes(batch_count(transaction, commands.len()) as u32);
    lemma_auto_spec_u32_to_from_le_bytes();
    assert(b.subrange(1, 5) =~= cb);
    lemma_batch_count(transaction, commands.len());
    let x = batch_count(transaction, commands.len());
    assert((#[verifier::truncate] ((#[verifier::truncate] (x as u32)) as i32)) == x) by (bit_vector);
    lemma_command_round_trip(v, Seq::empty());
    assert(b + Seq::<u8>::empty() =~= b);
}

} // verus!
