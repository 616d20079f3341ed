use vstd::prelude::*;
use vstd::bytes::*;
use crate::albastream::{Error, ErrorKind};
use crate::command_format::{CommandV, command_view, commands_view, lemma_commands_view, compiled, command_ok, encode_command, encode_items, items_ok, lemma_items_ok_prefix, name_ok, column_list_ok, columns_bytes, values_view, rows_view, value_encoder, row_encoder, optional_bytes, opcode, parse_command, parse_column_command, parse_columns, parse_items, count_magnitude, value_parser, row_parser, shifted, lemma_commands_view_push, parse_item, lemma_parse_items_step, lemma_items_advance, lemma_items_fail, lemma_parse_batch};
use crate::conditions::{ConditionSet, columns_ok};
use crate::container::{Search, SearchV, MAX_CONTAINER_NAME_LENGTH, MAX_CONTAINER_DEPTH, parse_search};
use crate::types::AlbaTypes;
use crate::wire::{PResult, after, encode_many, parse_many, lemma_parse_many_err, name8_encoder, names_view, push_name8, push_name_var, push_names8, read_u8, read_name8, read_name_var, read_names8};
use crate::conditions::ConditionsV;
use crate::types::ValueV;
use vstd::slice::slice_subrange;
use crate::text::utf8_of;

verus! {

/// Creates a container with the given column names and type ids.
#[derive(Debug)]
pub struct CreateContainer {
    pub name: String,
    pub col_nam: Vec<String>,
    pub col_val: Vec<u8>,
}

/// Inserts one row.
#[derive(Debug)]
pub struct CreateRow {
    pub col_nam: Vec<String>,
    pub col_val: Vec<AlbaTypes>,
    pub container: String,
}

/// Sets columns of the rows that match the conditions.
#[derive(Debug)]
pub struct EditRow {
    pub col_nam: Vec<String>,
    pub col_val: Vec<AlbaTypes>,
    pub container: String,
    pub conditions: ConditionSet,
}

/// Deletes the rows that match the conditions, or every row without them.
#[derive(Debug)]
pub struct DeleteRow {
    pub container: String,
    pub conditions: Option<ConditionSet>,
}

/// Drops a container.
#[derive(Debug)]
pub struct DeleteContainer {
    pub container: String,
}

/// Commits pending changes, of one container or of all.
#[derive(Debug)]
pub struct Commit {
    pub container: Option<String>,
}

/// Discards pending changes, of one container or of all.
#[derive(Debug)]
pub struct Rollback {
    pub container: Option<String>,
}

/// Inserts many rows that share one column list.
#[derive(Debug)]
pub struct BatchCreateRows {
    pub col_nam: Vec<String>,
    pub col_val: Vec<Vec<AlbaTypes>>,
    pub container: String,
}

/// Commands sent together, optionally as one transaction.
#[derive(Debug)]
pub struct Batch {
    pub transaction: bool,
    pub commands: Vec<Commands>,
}

/// One operation of the protocol.
#[derive(Debug)]
pub enum Commands {
    CreateContainer(CreateContainer),
    CreateRow(CreateRow),
    EditRow(EditRow),
    DeleteRow(DeleteRow),
    DeleteContainer(DeleteContainer),
    Search(Search),
    Commit(Commit),
    Rollback(Rollback),
    BatchCreateRows(BatchCreateRows),
    Batch(Batch),
}

/// Whether a container name respects the length limit.
fn check_name(s: &String) -> (r: bool)
    ensures
        r == name_ok(s@),
{
    s.as_str().as_bytes().len() <= MAX_CONTAINER_NAME_LENGTH
}

/// Whether a column list respects the count and length limits.
fn check_columns(cols: &Vec<String>) -> (r: bool)
    ensures
        r == column_list_ok(names_view(cols@)),
{
    cols.len() <= 255 && columns_ok(cols)
}

fn push_columns(out: &mut Vec<u8>, cols: &Vec<String>)
    requires
        column_list_ok(names_view(cols@)),
    ensures
        final(out)@ == old(out)@ + columns_bytes(names_view(cols@)),
{
    out.push(cols.len() as u8);
    proof {
        assert forall|i: int| 0 <= i < cols@.len() implies (#[trigger] utf8_of(cols@[i]@)).len() <= 255 by {
            assert(names_view(cols@)[i] == cols@[i]@);
        }
    }
    push_names8(out, cols);
    proof {
        assert(final(out)@ =~= old(out)@ + columns_bytes(names_view(cols@)));
    }
}

fn push_values(out: &mut Vec<u8>, vals: &Vec<AlbaTypes>)
    ensures
        final(out)@ == old(out)@ + encode_many(values_view(vals@), value_encoder()),
{
    let ghost v = values_view(vals@);
    let mut i: usize = 0;
    while i < vals.len()
        invariant
            0 <= i <= vals@.len(),
            v == values_view(vals@),
            out@ == old(out)@ + encode_many(v.take(i as int), value_encoder()),
        decreases vals@.len() - i,
    {
        vals[i].write_to(out);
        proof {
            assert(v.take(i + 1).drop_last() =~= v.take(i as int));
            assert(v.take(i + 1).last() == vals@[i as int]@);
        }
        i = i + 1;
    }
    proof {
        assert(v.take(i as int) =~= v);
    }
}

impl CreateContainer {
    pub fn compile(&self) -> (r: Result<Vec<u8>, Error>)
        ensures
            compiled(command_view(Commands::CreateContainer(*self)), r),
    {
        if !check_name(&self.name) || !check_columns(&self.col_nam)
            || self.col_nam.len() != self.col_val.len() {
            return Err(Error::new(ErrorKind::InvalidInput, "Invalid container name, column count or column name length"));
        }
        let mut out: Vec<u8> = vec![0u8];
        push_name8(&mut out, &self.name);
        push_columns(&mut out, &self.col_nam);
        crate::text::push_bytes(&mut out, self.col_val.as_slice());
        proof {
            assert(out@ =~= encode_command(command_view(Commands::CreateContainer(*self))));
        }
        Ok(out)
    }
}

impl CreateRow {
    pub fn compile(&self) -> (r: Result<Vec<u8>, Error>)
        ensures
            compiled(command_view(Commands::CreateRow(*self)), r),
    {
        if !check_name(&self.container) || !check_columns(&self.col_nam)
            || self.col_nam.len() != self.col_val.len() {
            return Err(Error::new(ErrorKind::InvalidInput, "Invalid container name, column count or column name length"));
        }
        let mut out: Vec<u8> = vec![1u8];
        push_name8(&mut out, &self.container);
        push_columns(&mut out, &self.col_nam);
        push_values(&mut out, &self.col_val);
        proof {
            assert(out@ =~= encode_command(command_view(Commands::CreateRow(*self))));
        }
        Ok(out)
    }
}

impl EditRow {
    pub fn compile(&self) -> (r: Result<Vec<u8>, Error>)
        ensures
            compiled(command_view(Commands::EditRow(*self)), r),
    {
        if !check_name(&self.container) || !check_columns(&self.col_nam)
            || self.col_nam.len() != self.col_val.len() || !self.conditions.is_valid() {
            return Err(Error::new(ErrorKind::InvalidInput, "Invalid container name, column list or conditions"));
        }
        let mut out: Vec<u8> = vec![2u8];
        push_name8(&mut out, &self.container);
        push_columns(&mut out, &self.col_nam);
        push_values(&mut out, &self.col_val);
        self.conditions.write_to(&mut out);
        proof {
            assert(out@ =~= encode_command(command_view(Commands::EditRow(*self))));
        }
        Ok(out)
    }
}

impl DeleteRow {
    pub fn compile(&self) -> (r: Result<Vec<u8>, Error>)
        ensures
            compiled(command_view(Commands::DeleteRow(*self)), r),
    {
        if !check_name(&self.container) {
            return Err(Error::new(ErrorKind::InvalidInput, "The container name exceeds the limit"));
        }
        let mut out: Vec<u8> = vec![3u8];
        push_name8(&mut out, &self.container);
        match &self.conditions {
            Some(c) => {
                if !c.is_valid() {
                    return Err(Error::new(ErrorKind::InvalidInput, "The condition count exceeds the limit of 255"));
                }
                out.push(1u8);
                c.write_to(&mut out);
            },
            None => {
                out.push(0u8);
            },
        }
        proof {
            assert(out@ =~= encode_command(command_view(Commands::DeleteRow(*self))));
        }
        Ok(out)
    }
}

impl DeleteContainer {
    pub fn compile(&self) -> (r: Result<Vec<u8>, Error>)
        ensures
            compiled(command_view(Commands::DeleteContainer(*self)), r),
    {
        if !check_name(&self.container) {
            return Err(Error::new(ErrorKind::InvalidInput, "The container name exceeds the limit"));
        }
        let mut out: Vec<u8> = vec![4u8];
        push_name8(&mut out, &self.container);
        proof {
            assert(out@ =~= encode_command(command_view(Commands::DeleteContainer(*self))));
        }
        Ok(out)
    }
}

impl Search {
    pub fn compile(&self) -> (r: Result<Vec<u8>, Error>)
        ensures
            compiled(command_view(Commands::Search(*self)), r),
    {
        if !self.check(MAX_CONTAINER_DEPTH) {
            return Err(Error::new(ErrorKind::InvalidInput, "The search exceeds a count, length or nesting limit"));
        }
        let mut out: Vec<u8> = Vec::new();
        self.write_to(&mut out, Ghost(MAX_CONTAINER_DEPTH as nat));
        proof {
            assert(out@ =~= encode_command(command_view(Commands::Search(*self))));
        }
        Ok(out)
    }
}

/// The flag byte and, when present, the variable-length name.
fn push_optional_name(out: &mut Vec<u8>, name: &Option<String>) -> (ok: bool)
    ensures
        ok == (name matches Some(n) ==> name_ok(n@)),
        ok ==> final(out)@ == old(out)@ + match name {
            Some(n) => optional_bytes(true, crate::wire::name_var(n@)),
            None => optional_bytes(false, Seq::empty()),
        },
{
    match name {
        Some(n) => {
            if !check_name(n) {
                return false;
            }
            out.push(1u8);
            push_name_var(out, n);
        },
        None => {
            out.push(0u8);
        },
    }
    proof {
        assert(final(out)@ =~= old(out)@ + match name {
            Some(n) => optional_bytes(true, crate::wire::name_var(n@)),
            None => optional_bytes(false, Seq::empty()),
        });
    }
    true
}

impl Commit {
    pub fn compile(&self) -> (r: Result<Vec<u8>, Error>)
        ensures
            compiled(command_view(Commands::Commit(*self)), r),
    {
        let mut out: Vec<u8> = vec![6u8];
        if !push_optional_name(&mut out, &self.container) {
            return Err(Error::new(ErrorKind::InvalidInput, "The container name exceeds the limit"));
        }
        proof {
            assert(out@ =~= encode_command(command_view(Commands::Commit(*self))));
        }
        Ok(out)
    }
}

impl Rollback {
    pub fn compile(&self) -> (r: Result<Vec<u8>, Error>)
        ensures
            compiled(command_view(Commands::Rollback(*self)), r),
    {
        let mut out: Vec<u8> = vec![7u8];
        if !push_optional_name(&mut out, &self.container) {
            return Err(Error::new(ErrorKind::InvalidInput, "The container name exceeds the limit"));
        }
        proof {
            assert(out@ =~= encode_command(command_view(Commands::Rollback(*self))));
        }
        Ok(out)
    }
}

impl BatchCreateRows {
    pub fn compile(&self) -> (r: Result<Vec<u8>, Error>)
        ensures
            compiled(command_view(Commands::BatchCreateRows(*self)), r),
    {
        let ghost rows = rows_view(self.col_val@);
        if !check_name(&self.container) || !check_columns(&self.col_nam)
            || self.col_val.len() > u32::MAX as usize {
            return Err(Error::new(ErrorKind::InvalidInput, "Invalid container name, column list or row count"));
        }
        let mut k: usize = 0;
        while k < self.col_val.len()
            invariant
                0 <= k <= self.col_val@.len(),
                rows == rows_view(self.col_val@),
                forall|j: int| 0 <= j < k ==> (#[trigger] rows[j]).len() == self.col_nam@.len(),
            decreases self.col_val@.len() - k,
        {
            if self.col_val[k].len() != self.col_nam.len() {
                proof {
                    assert(rows[k as int].len() != names_view(self.col_nam@).len());
                }
                return Err(Error::new(ErrorKind::InvalidInput, "A row's value count differs from the column count"));
            }
            k = k + 1;
        }
        let mut out: Vec<u8> = vec![8u8];
        push_name8(&mut out, &self.container);
        push_columns(&mut out, &self.col_nam);
        let mut rc = u32_to_le_bytes(self.col_val.len() as u32);
        out.append(&mut rc);
        let ghost head = out@;
        let mut i: usize = 0;
        while i < self.col_val.len()
            invariant
                0 <= i <= self.col_val@.len(),
                rows == rows_view(self.col_val@),
                out@ == head + encode_many(rows.take(i as int), row_encoder()),
            decreases self.col_val@.len() - i,
        {
            push_values(&mut out, &self.col_val[i]);
            proof {
                assert(rows.take(i + 1).drop_last() =~= rows.take(i as int));
                assert(rows.take(i + 1).last() == values_view(self.col_val@[i as int]@));
            }
            i = i + 1;
        }
        proof {
            assert(rows.take(i as int) =~= rows);
            assert(out@ =~= encode_command(command_view(Commands::BatchCreateRows(*self))));
        }
        Ok(out)
    }
}

impl Batch {
    pub fn compile(&self) -> (r: Result<Vec<u8>, Error>)
        ensures
            compiled(command_view(Commands::Batch(*self)), r),
        decreases self, 0nat,
    {
        let ghost cv = commands_view(self.commands@, self.commands@.len());
        proof {
            lemma_commands_view(self.commands@, self.commands@.len());
        }
        if self.commands.len() > i32::MAX as usize {
            return Err(Error::new(ErrorKind::InvalidInput, "The command count cannot exceed 2147483647"));
        }
        let mut items: Vec<u8> = Vec::new();
        let mut i: usize = 0;
        proof {
            assert(cv.skip(0) =~= cv);
        }
        while i < self.commands.len()
            invariant
                0 <= i <= self.commands@.len(),
                cv == commands_view(self.commands@, self.commands@.len()),
                cv.len() == self.commands@.len(),
                forall|k: int| 0 <= k < cv.len() ==> #[trigger] cv[k] == command_view(self.commands@[k]),
                items_ok(cv, i as nat),
                items@ + encode_items(cv.skip(i as int)) == encode_items(cv),
            decreases self.commands@.len() - i,
        {
            proof {
                vstd::std_specs::vec::axiom_vec_index_decreases(self.commands, i as int);
            }
            let b = match self.commands[i].compile() {
                Ok(b) => b,
                Err(e) => {
                    proof {
                        if command_ok(command_view(Commands::Batch(*self))) {
                            lemma_items_ok_prefix(cv, (i + 1) as nat, cv.len());
                        }
                    }
                    return Err(e);
                },
            };
            if b.len() > u32::MAX as usize {
                proof {
                    if command_ok(command_view(Commands::Batch(*self))) {
                        lemma_items_ok_prefix(cv, (i + 1) as nat, cv.len());
                    }
                }
                return Err(Error::new(ErrorKind::InvalidInput, "A command in the batch is too long"));
            }
            let mut lb = u32_to_le_bytes(b.len() as u32);
            items.append(&mut lb);
            let mut b = b;
            items.append(&mut b);
            proof {
                let rest = cv.skip(i as int);
                assert(rest[0] == cv[i as int]);
                assert(rest.drop_first() =~= cv.skip(i + 1));
            }
            i = i + 1;
        }
        proof {
            assert(cv.skip(i as int) =~= Seq::<CommandV>::empty());
            assert(items@ =~= encode_items(cv));
        }
        let n = self.commands.len() as i32;
        let count: i32 = if self.transaction { -n } else { n };
        let mut out: Vec<u8> = vec![9u8];
        let mut cb = u32_to_le_bytes(count as u32);
        out.append(&mut cb);
        out.append(&mut items);
        proof {
            assert(out@ =~= encode_command(command_view(Commands::Batch(*self))));
        }
        Ok(out)
    }
}

impl Commands {
    pub fn compile(&self) -> (r: Result<Vec<u8>, Error>)
        ensures
            compiled(command_view(*self), r),
        decreases self, 1nat,
    {
        match self {
            Commands::CreateContainer(x) => x.compile(),
            Commands::CreateRow(x) => x.compile(),
            Commands::EditRow(x) => x.compile(),
            Commands::DeleteRow(x) => x.compile(),
            Commands::DeleteContainer(x) => x.compile(),
            Commands::Search(x) => x.compile(),
            Commands::Commit(x) => x.compile(),
            Commands::Rollback(x) => x.compile(),
            Commands::BatchCreateRows(x) => x.compile(),
            Commands::Batch(x) => x.compile(),
        }
    }

    pub fn id(&self) -> (r: u8)
        ensures
            r == opcode(command_view(*self)),
    {
        match self {
            Commands::CreateContainer(_) => 0,
            Commands::CreateRow(_) => 1,
            Commands::EditRow(_) => 2,
            Commands::DeleteRow(_) => 3,
            Commands::DeleteContainer(_) => 4,
            Commands::Search(_) => 5,
            Commands::Commit(_) => 6,
            Commands::Rollback(_) => 7,
            Commands::BatchCreateRows(_) => 8,
            Commands::Batch(_) => 9,
        }
    }
}

fn read_columns(input: &[u8]) -> (r: Result<(Vec<String>, usize), Error>)
    ensures
        match r {
            Ok((v, n)) => parse_columns(input@) == Ok::<(Seq<Seq<char>>, nat), ErrorKind>((names_view(v@), n as nat)) && n <= input@.len(),
            Err(e) => parse_columns(input@) == Err::<(Seq<Seq<char>>, nat), ErrorKind>(e.spec_kind()),
        },
{
    let count = read_u8(input, 0)?;
    let (v, n) = read_names8(slice_subrange(input, 1, input.len()), count as usize)?;
    Ok((v, 1 + n))
}

fn read_values(input: &[u8], count: usize) -> (r: Result<(Vec<AlbaTypes>, usize), Error>)
    ensures
        match r {
            Ok((v, n)) => parse_many(input@, count as nat, value_parser()) == Ok::<(Seq<ValueV>, nat), ErrorKind>((values_view(v@), n as nat)) && n <= input@.len(),
            Err(e) => parse_many(input@, count as nat, value_parser()) == Err::<(Seq<ValueV>, nat), ErrorKind>(e.spec_kind()),
        },
{
    let mut v: Vec<AlbaTypes> = Vec::new();
    let mut off: usize = 0;
    let mut i: usize = 0;
    proof {
        assert(values_view(v@) =~= Seq::<ValueV>::empty());
    }
    while i < count
        invariant
            0 <= i <= count,
            off <= input@.len(),
            parse_many(input@, i as nat, value_parser()) == Ok::<(Seq<ValueV>, nat), ErrorKind>((values_view(v@), off as nat)),
        decreases count - i,
    {
        let rest = slice_subrange(input, off, input.len());
        match AlbaTypes::from_bytes(rest) {
            Ok((x, n)) => {
                proof {
                    assert(values_view(v@.push(x)) =~= values_view(v@).push(x@));
                }
                v.push(x);
                off = off + n;
                i = i + 1;
            },
            Err(e) => {
                proof {
                    lemma_parse_many_err(input@, (i + 1) as nat, count as nat, value_parser());
                }
                return Err(e);
            },
        }
    }
    Ok((v, off))
}

fn read_rows(input: &[u8], count: usize, k: usize) -> (r: Result<(Vec<Vec<AlbaTypes>>, usize), Error>)
    ensures
        match r {
            Ok((v, n)) => parse_many(input@, count as nat, row_parser(k as nat)) == Ok::<(Seq<Seq<ValueV>>, nat), ErrorKind>((rows_view(v@), n as nat)) && n <= input@.len(),
            Err(e) => parse_many(input@, count as nat, row_parser(k as nat)) == Err::<(Seq<Seq<ValueV>>, nat), ErrorKind>(e.spec_kind()),
        },
{
    let mut v: Vec<Vec<AlbaTypes>> = Vec::new();
    let mut off: usize = 0;
    let mut i: usize = 0;
    proof {
        assert(rows_view(v@) =~= Seq::<Seq<ValueV>>::empty());
    }
    while i < count
        invariant
            0 <= i <= count,
            off <= input@.len(),
            parse_many(input@, i as nat, row_parser(k as nat)) == Ok::<(Seq<Seq<ValueV>>, nat), ErrorKind>((rows_view(v@), off as nat)),
        decreases count - i,
    {
        let rest = slice_subrange(input, off, input.len());
        match read_values(rest, k) {
            Ok((x, n)) => {
                proof {
                    assert(rows_view(v@.push(x)) =~= rows_view(v@).push(values_view(x@)));
                }
                v.push(x);
                off = off + n;
                i = i + 1;
            },
            Err(e) => {
                proof {
                    lemma_parse_many_err(input@, (i + 1) as nat, count as nat, row_parser(k as nat));
                }
                return Err(e);
            },
        }
    }
    Ok((v, off))
}

/// What `Commands::read` must give for `input`.
pub open spec fn decoded(input: Seq<u8>, r: Result<(Commands, usize), Error>) -> bool {
    match r {
        Ok((c, n)) => parse_command(input) == Ok::<(CommandV, nat), ErrorKind>((command_view(c), n as nat)) && n <= input.len(),
        Err(e) => parse_command(input) == Err::<(CommandV, nat), ErrorKind>(e.spec_kind()),
    }
}

fn read_column_command(input: &[u8], name: String, p: usize) -> (r: Result<(Commands, usize), Error>)
    requires
        p <= input@.len(),
        input@.len() > 0,
        input@[0] == 0 || input@[0] == 1 || input@[0] == 2 || input@[0] == 8,
    ensures
        match r {
            Ok((c, n)) => parse_column_command(input@, name@, p as nat) == Ok::<(CommandV, nat), ErrorKind>((command_view(c), n as nat)) && n <= input@.len(),
            Err(e) => parse_column_command(input@, name@, p as nat) == Err::<(CommandV, nat), ErrorKind>(e.spec_kind()),
        },
{
    let op = input[0];
    let (col_nam, b) = read_columns(slice_subrange(input, p, input.len()))?;
    let q = p + b;
    if op == 0 {
        let k = col_nam.len();
        if input.len() - q < k {
            return Err(Error::new(ErrorKind::UnexpectedEof, "Unexpected end of input while reading column types"));
        }
        let col_val = crate::types::copy_bytes(slice_subrange(input, q, q + k));
        proof {
            assert(names_view(col_nam@).len() == k);
        }
        return Ok((Commands::CreateContainer(CreateContainer { name, col_nam, col_val }), q + k));
    }
    if op == 8 {
        if input.len() - q < 4 {
            return Err(Error::new(ErrorKind::UnexpectedEof, "Unexpected end of input while reading the row count"));
        }
        let rc = u32_from_le_bytes(slice_subrange(input, q, q + 4));
        let (col_val, m) = read_rows(slice_subrange(input, q + 4, input.len()), rc as usize, col_nam.len())?;
        return Ok((Commands::BatchCreateRows(BatchCreateRows { col_nam, col_val, container: name }), q + 4 + m));
    }
    let (col_val, m) = read_values(slice_subrange(input, q, input.len()), col_nam.len())?;
    if op == 1 {
        return Ok((Commands::CreateRow(CreateRow { col_nam, col_val, container: name }), q + m));
    }
    let (conditions, r) = ConditionSet::read(slice_subrange(input, q + m, input.len()))?;
    Ok((Commands::EditRow(EditRow { col_nam, col_val, container: name, conditions }), q + m + r))
}

impl Commands {
    /// Decodes the command at the start of `input`, with the number of bytes
    /// it takes.
    pub fn read(input: &[u8]) -> (r: Result<(Commands, usize), Error>)
        ensures
            decoded(input@, r),
        decreases input@.len(),
    {
        let op = read_u8(input, 0)?;
        if op == 5 {
            let (s, n) = Search::read(input, MAX_CONTAINER_DEPTH)?;
            return Ok((Commands::Search(s), n));
        }
        if op == 6 || op == 7 {
            let flag = read_u8(input, 1)?;
            let (container, k) = if flag == 0 {
                (None, 0)
            } else {
                let (n, k) = read_name_var(slice_subrange(input, 2, input.len()))?;
                (Some(n), k)
            };
            if op == 6 {
                return Ok((Commands::Commit(Commit { container }), 2 + k));
            } else {
                return Ok((Commands::Rollback(Rollback { container }), 2 + k));
            }
        }
        if op == 9 {
            return Batch::read(input);
        }
        if op > 9 {
            return Err(Error::new(ErrorKind::InvalidInput, "Invalid command opcode"));
        }
        let (name, a) = read_name8(slice_subrange(input, 1, input.len()))?;
        let p = 1 + a;
        if op == 4 {
            return Ok((Commands::DeleteContainer(DeleteContainer { container: name }), p));
        }
        if op == 3 {
            let flag = read_u8(input, p)?;
            if flag == 0 {
                return Ok((Commands::DeleteRow(DeleteRow { container: name, conditions: None }), p + 1));
            }
            let (c, m) = ConditionSet::read(slice_subrange(input, p + 1, input.len()))?;
            return Ok((Commands::DeleteRow(DeleteRow { container: name, conditions: Some(c) }), p + 1 + m));
        }
        read_column_command(input, name, p)
    }

    pub fn decompile(input: &[u8]) -> (r: Result<Commands, Error>)
        ensures
            match r {
                Ok(c) => parse_command(input@) matches Ok((v, _)) && v == command_view(c),
                Err(e) => parse_command(input@) == Err::<(CommandV, nat), ErrorKind>(e.spec_kind()),
            },
    {
        let (c, _) = Commands::read(input)?;
        Ok(c)
    }
}

impl Batch {
    fn read_item(rest: &[u8]) -> (r: Result<(Commands, usize), Error>)
        ensures
            match r {
                Ok((c, n)) => parse_item(rest@) == Ok::<(CommandV, nat), ErrorKind>((command_view(c), n as nat)) && n <= rest@.len(),
                Err(e) => parse_item(rest@) == Err::<(CommandV, nat), ErrorKind>(e.spec_kind()),
            },
        decreases rest@.len(), 0nat,
    {
        if rest.len() < 4 {
            return Err(Error::new(ErrorKind::UnexpectedEof, "Insufficient data for command length"));
        }
        let len = u32_from_le_bytes(slice_subrange(rest, 0, 4)) as usize;
        if rest.len() - 4 < len {
            return Err(Error::new(ErrorKind::UnexpectedEof, "Insufficient data for command"));
        }
        let (x, _) = Commands::read(slice_subrange(rest, 4, 4 + len))?;
        Ok((x, 4 + len))
    }

    #[verifier::rlimit(50)]
    fn read(input: &[u8]) -> (r: Result<(Commands, usize), Error>)
        requires
            input@.len() > 0,
            input@[0] == 9,
        ensures
            decoded(input@, r),
        decreases input@.len(), 1nat,
    {
        if input.len() < 5 {
            return Err(Error::new(ErrorKind::UnexpectedEof, "Insufficient data for command count"));
        }
        let c = u32_from_le_bytes(slice_subrange(input, 1, 5)) as i32;
        let count: u64 = if c < 0 { (-(c as i64)) as u64 } else { c as u64 };
        let transaction = c < 0;
        let body = slice_subrange(input, 5, input.len());
        let mut commands: Vec<Commands> = Vec::new();
        let mut off: usize = 0;
        let mut i: u64 = 0;
        proof {
            assert(commands_view(commands@, 0) =~= Seq::<CommandV>::empty());
            assert(after(body@, 0) =~= body@);
            assert(shifted(Seq::<CommandV>::empty(), 0, parse_items(body@, count as nat)) == parse_items(body@, count as nat)) by {
                match parse_items(body@, count as nat) {
                    Ok((ys, m)) => {
                        assert(Seq::<CommandV>::empty() + ys =~= ys);
                    },
                    Err(_) => {},
                }
            }
        }
        while i < count
            invariant
                0 <= i <= count,
                count as nat == count_magnitude(c),
                c == spec_u32_from_le_bytes(input@.subrange(1, 5)) as i32,
                transaction == (c < 0),
                input@[0] == 9,
                body@ == after(input@, 5),
                input@.len() >= 5,
                off <= body@.len(),
                commands@.len() == i,
                parse_items(body@, count as nat) == shifted(
                    commands_view(commands@, commands@.len()),
                    off as nat,
                    parse_items(after(body@, off as nat), (count - i) as nat),
                ),
            decreases count - i,
        {
            let rest = slice_subrange(body, off, body.len());
            let (x, n) = match Batch::read_item(rest) {
                Ok(p) => p,
                Err(e) => {
                    proof {
                        lemma_items_fail(body@, off as nat, (count - i) as nat, commands_view(commands@, commands@.len()));
                        lemma_parse_batch(input@);
                    }
                    return Err(e);
                },
            };
            proof {
                lemma_items_advance(body@, off as nat, (count - i) as nat, commands_view(commands@, commands@.len()), command_view(x), n as nat);
                lemma_commands_view_push(commands@, x, commands@.len());
            }
            commands.push(x);
            off = off + n;
            i = i + 1;
        }
        proof {
            lemma_parse_batch(input@);
            lemma_commands_view(commands@, commands@.len());
            assert(after(body@, off as nat).len() >= 0);
            assert(commands_view(commands@, commands@.len()) + Seq::<CommandV>::empty() =~= commands_view(commands@, commands@.len()));
        }
        Ok((Commands::Batch(Batch { transaction, commands }), 5 + off))
    }
}

/// Something that compiles to the wire format.
pub trait Compile {
    fn compile(&self) -> Result<Vec<u8>, Error>;
}

/// Something that decodes from the wire format on its own.
pub trait StandAloneDecompile {
    type Output: Compile;

    fn decompile(input: &[u8]) -> Result<Self::Output, Error>;
}

impl Compile for Commands {
    fn compile(&self) -> Result<Vec<u8>, Error> {
        Commands::compile(self)
    }
}

impl Compile for CreateContainer {
    fn compile(&self) -> Result<Vec<u8>, Error> {
        CreateContainer::compile(self)
    }
}

impl Compile for CreateRow {
    fn compile(&self) -> Result<Vec<u8>, Error> {
        CreateRow::compile(self)
    }
}

impl Compile for EditRow {
    fn compile(&self) -> Result<Vec<u8>, Error> {
        EditRow::compile(self)
    }
}

impl Compile for DeleteRow {
    fn compile(&self) -> Result<Vec<u8>, Error> {
        DeleteRow::compile(self)
    }
}

impl Compile for DeleteContainer {
    fn compile(&self) -> Result<Vec<u8>, Error> {
        DeleteContainer::compile(self)
    }
}

impl Compile for Search {
    fn compile(&self) -> Result<Vec<u8>, Error> {
        Search::compile(self)
    }
}

impl Compile for Commit {
    fn compile(&self) -> Result<Vec<u8>, Error> {
        Commit::compile(self)
    }
}

impl Compile for Rollback {
    fn compile(&self) -> Result<Vec<u8>, Error> {
        Rollback::compile(self)
    }
}

impl Compile for BatchCreateRows {
    fn compile(&self) -> Result<Vec<u8>, Error> {
        BatchCreateRows::compile(self)
    }
}

impl Compile for Batch {
    fn compile(&self) -> Result<Vec<u8>, Error> {
        Batch::compile(self)
    }
}

impl Search {
    /// Decodes a query that stands alone at the start of `input`.
    pub fn decompile(input: &[u8]) -> (r: Result<Search, Error>)
        ensures
            match r {
                Ok(x) => parse_search(input@, MAX_CONTAINER_DEPTH as nat) matches Ok((v, _)) && v == x@,
                Err(e) => parse_search(input@, MAX_CONTAINER_DEPTH as nat) == Err::<(SearchV, nat), ErrorKind>(e.spec_kind()),
            },
    {
        let (x, _) = Search::read(input, MAX_CONTAINER_DEPTH)?;
        Ok(x)
    }
}

impl StandAloneDecompile for Search {
    type Output = Search;

    fn decompile(input: &[u8]) -> Result<Search, Error> {
        Search::decompile(input)
    }
}

impl StandAloneDecompile for Commands {
    type Output = Commands;

    fn decompile(input: &[u8]) -> Result<Commands, Error> {
        Commands::decompile(input)
    }
}

} // verus!
