use vstd::prelude::*;
use vstd::bytes::*;
use crate::albastream::ErrorKind;
use crate::command_format::{
    CommandV, command_ok, command_fits, encode_command, encode_items, parse_command, parse_column_command,
    parse_columns, parse_items, columns_bytes, column_list_ok, optional_bytes, optional_name, name_ok,
    batch_count, count_magnitude, value_encoder, value_parser, row_encoder, row_parser, values_fit,
    items_ok, items_fit, lemma_items_all, lemma_columns_round_trip, lemma_values_round_trip,
    lemma_command_round_trip, lemma_batch_count, lemma_parse_batch, opcode,
};
use crate::conditions::{encode_conditions, lemma_conditions_truncated};
use crate::container::{MAX_CONTAINER_DEPTH, lemma_search_truncated};
use crate::db_response::{encode_row, parse_row};
use crate::dynamic_int::{spec_varint, lemma_varint_round_trip, lemma_varint_truncated};
use crate::types::{ValueV, encode_value, lemma_value_round_trip, lemma_value_truncated};
use crate::wire::{
    PResult, after, encode_many, parse_many, name8, name_var, lemma_many_truncated, lemma_name8_round_trip,
    lemma_name8_truncated, lemma_name_var_truncated, lemma_after_after,
};

verus! {

broadcast use vstd::seq::axiom_seq_subrange_decreases;

/// Every command's encoding holds at least its opcode byte.
pub proof fn lemma_command_nonempty(c: CommandV)
    ensures
        encode_command(c).len() >= 1,
{
    match c {
        CommandV::Search(s) => {},
        _ => {},
    }
}

/// Values cut short by their last byte fail to decode.
pub proof fn lemma_values_truncated(vs: Seq<ValueV>)
    requires
        vs.len() > 0,
        values_fit(vs),
    ensures
        parse_many(encode_many(vs, value_encoder()).drop_last(), vs.len(), value_parser()) is Err,
{
    assert forall|i: int, r: Seq<u8>| 0 <= i < vs.len() implies #[trigger] value_parser()(value_encoder()(vs[i]) + r)
        == Ok::<(ValueV, nat), ErrorKind>((vs[i], value_encoder()(vs[i]).len())) by {
        lemma_value_round_trip(vs[i], r);
    }
    lemma_value_truncated(vs.last());
    lemma_many_truncated(vs, value_encoder(), value_parser());
}

/// Rows of `k > 0` values, cut short by their last byte, fail to decode.
pub proof fn lemma_rows_truncated(rows: Seq<Seq<ValueV>>, k: nat)
    requires
        rows.len() > 0,
        k > 0,
        forall|i: int| 0 <= i < rows.len() ==> (#[trigger] rows[i]).len() == k && values_fit(rows[i]),
    ensures
        parse_many(encode_many(rows, row_encoder()).drop_last(), rows.len(), row_parser(k)) is Err,
{
    assert forall|i: int, r: Seq<u8>| 0 <= i < rows.len() implies #[trigger] row_parser(k)(row_encoder()(rows[i]) + r)
        == Ok::<(Seq<ValueV>, nat), ErrorKind>((rows[i], row_encoder()(rows[i]).len())) by {
        lemma_values_round_trip(rows[i], r);
    }
    let x = rows.last();
    assert(rows[rows.len() - 1] == x);
    lemma_values_truncated(x);
    assert(encode_many(x, value_encoder()).len() > 0);
    lemma_many_truncated(rows, row_encoder(), row_parser(k));
}

/// A row cut short by its last byte fails to decode.
pub proof fn lemma_row_truncated(r: Seq<ValueV>)
    requires
        r.len() <= u64::MAX,
        values_fit(r),
    ensures
        parse_row(encode_row(r).drop_last()) is Err,
{
    let h = spec_varint(r.len() as u64);
    let vb = encode_many(r, value_encoder());
    if r.len() == 0 {
        assert(vb =~= Seq::<u8>::empty());
        assert(encode_row(r).drop_last() =~= h.drop_last());
        lemma_varint_truncated(0);
    } else {
        lemma_values_truncated(r);
        assert(vb.len() > 0);
        let t = encode_row(r).drop_last();
        assert(t =~= h + vb.drop_last());
        lemma_varint_round_trip(r.len() as u64, vb.drop_last());
        assert(after(t, h.len()) =~= vb.drop_last());
    }
}

/// Batch items cut short by their last byte fail to decode.
pub proof fn lemma_items_truncated(cs: Seq<CommandV>)
    requires
        cs.len() > 0,
        forall|i: int| 0 <= i < cs.len() ==> command_ok(#[trigger] cs[i]) && command_fits(cs[i])
            && encode_command(cs[i]).len() <= u32::MAX,
    ensures
        parse_items(encode_items(cs).drop_last(), cs.len()) is Err,
    decreases cs.len(),
{
    lemma_auto_spec_u32_to_from_le_bytes();
    let b = encode_command(cs[0]);
    lemma_command_nonempty(cs[0]);
    let lb = spec_u32_to_le_bytes(b.len() as u32);
    let tail = cs.drop_first();
    let t = encode_items(cs).drop_last();
    if tail.len() == 0 {
        assert(encode_items(tail) =~= Seq::<u8>::empty());
        assert(t =~= lb + b.drop_last());
        assert(t.subrange(0, 4) =~= lb);
    } else {
        let et = encode_items(tail);
        assert forall|i: int| 0 <= i < tail.len() implies command_ok(#[trigger] tail[i]) && command_fits(tail[i])
            && encode_command(tail[i]).len() <= u32::MAX by {
            assert(tail[i] == cs[i + 1]);
        }
        lemma_items_truncated(tail);
        assert(et.len() > 0) by {
            lemma_command_nonempty(tail[0]);
        }
        assert(t =~= lb + (b + et.drop_last()));
        assert(t.subrange(0, 4) =~= lb);
        lemma_command_round_trip(cs[0], Seq::empty());
        assert(t.subrange(4, 4 + b.len() as int) =~= b + Seq::<u8>::empty());
        assert(after(t, (4 + b.len()) as nat) =~= et.drop_last());
    }
}

/// Rows without values encode to nothing.
proof fn lemma_empty_rows(rows: Seq<Seq<ValueV>>)
    requires
        forall|i: int| 0 <= i < rows.len() ==> (#[trigger] rows[i]).len() == 0,
    ensures
        encode_many(rows, row_encoder()) == Seq::<u8>::empty(),
    decreases rows.len(),
{
    if rows.len() > 0 {
        let ys = rows.drop_last();
        assert forall|i: int| 0 <= i < ys.len() implies (#[trigger] ys[i]).len() == 0 by {
            assert(ys[i] == rows[i]);
        }
        lemma_empty_rows(ys);
        assert(rows[rows.len() - 1].len() == 0);
        assert(encode_many(rows.last(), value_encoder()) =~= Seq::<u8>::empty());
        assert(encode_many(rows, row_encoder()) =~= Seq::<u8>::empty());
    }
}

/// The commands that carry a column list (opcodes 0, 1, 2 and 8), cut
/// short by their last byte: what follows the container name fails.
proof fn lemma_column_command_truncated(c: CommandV, t: Seq<u8>)
    requires
        c is CreateContainer || c is CreateRow || c is EditRow || c is BatchCreateRows,
        command_ok(c),
        command_fits(c),
        named_parts(c).1.len() > 0,
        t == seq![opcode(c)] + (name8(named_parts(c).0) + named_parts(c).1.drop_last()),
    ensures
        parse_column_command(t, named_parts(c).0, 1 + name8(named_parts(c).0).len()) is Err,
{
    let p = 1 + name8(named_parts(c).0).len();
    assert(after(t, p) =~= named_parts(c).1.drop_last());
    assert(t[0] == opcode(c));
    match c {
        CommandV::CreateContainer { .. } => lemma_create_container_tail(c, t, p),
        CommandV::CreateRow { .. } => lemma_row_tail(c, t, p),
        CommandV::EditRow { .. } => lemma_row_tail(c, t, p),
        _ => lemma_batch_rows_tail(c, t, p),
    }
}

#[verifier::spinoff_prover]
#[verifier::rlimit(100)]
proof fn lemma_create_container_tail(c: CommandV, t: Seq<u8>, p: nat)
    requires
        c is CreateContainer,
        command_ok(c),
        t.len() > 0,
        t[0] == 0,
        after(t, p) == named_parts(c).1.drop_last(),
        named_parts(c).1.len() > 0,
        p <= t.len(),
    ensures
        parse_column_command(t, named_parts(c).0, p) is Err,
{
    let columns = c->CreateContainer_columns;
    let types = c->CreateContainer_types;
    let cb = columns_bytes(columns);
    if types.len() == 0 {
        assert(after(t, p) =~= Seq::<u8>::empty());
    } else {
        lemma_columns_round_trip(columns, types.drop_last());
        assert(after(t, p) =~= cb + types.drop_last());
    }
}

#[verifier::spinoff_prover]
#[verifier::rlimit(100)]
proof fn lemma_row_tail(c: CommandV, t: Seq<u8>, p: nat)
    requires
        c is CreateRow || c is EditRow,
        command_ok(c),
        command_fits(c),
        t.len() > 0,
        t[0] == opcode(c),
        after(t, p) == named_parts(c).1.drop_last(),
        named_parts(c).1.len() > 0,
        p <= t.len(),
    ensures
        parse_column_command(t, named_parts(c).0, p) is Err,
{
    let (columns, values, kb) = match c {
        CommandV::CreateRow { columns, values, .. } => (columns, values, Seq::<u8>::empty()),
        CommandV::EditRow { columns, values, conditions, .. } => (columns, values, encode_conditions(conditions)),
        _ => arbitrary(),
    };
    let cb = columns_bytes(columns);
    let vb = encode_many(values, value_encoder());
    assert(named_parts(c).1 =~= cb + vb + kb);
    if let CommandV::EditRow { conditions, .. } = c {
        lemma_conditions_truncated(conditions);
        assert(after(t, p) =~= cb + (vb + kb.drop_last()));
        lemma_columns_round_trip(columns, vb + kb.drop_last());
        lemma_values_round_trip(values, kb.drop_last());
        lemma_after_after(t, p, cb.len());
        assert(after(after(t, p), cb.len()) =~= vb + kb.drop_last());
        lemma_after_after(t, p + cb.len(), vb.len());
        assert(after(vb + kb.drop_last(), vb.len()) =~= kb.drop_last());
    } else if values.len() == 0 {
        assert(vb =~= Seq::<u8>::empty());
        assert(after(t, p) =~= Seq::<u8>::empty());
    } else {
        lemma_values_truncated(values);
        assert(vb.len() > 0);
        assert(after(t, p) =~= cb + vb.drop_last());
        lemma_columns_round_trip(columns, vb.drop_last());
        lemma_after_after(t, p, cb.len());
        assert(after(after(t, p), cb.len()) =~= vb.drop_last());
    }
}

#[verifier::spinoff_prover]
#[verifier::rlimit(100)]
proof fn lemma_batch_rows_tail(c: CommandV, t: Seq<u8>, p: nat)
    requires
        c is BatchCreateRows,
        command_ok(c),
        command_fits(c),
        t.len() > 0,
        t[0] == 8,
        after(t, p) == named_parts(c).1.drop_last(),
        named_parts(c).1.len() > 0,
        p <= t.len(),
    ensures
        parse_column_command(t, named_parts(c).0, p) is Err,
{
    lemma_auto_spec_u32_to_from_le_bytes();
    let columns = c->BatchCreateRows_columns;
    let rows = c->BatchCreateRows_rows;
    let cb = columns_bytes(columns);
    let rc = spec_u32_to_le_bytes(rows.len() as u32);
    let rb = encode_many(rows, row_encoder());
    if columns.len() == 0 {
        lemma_empty_rows(rows);
    }
    if rb.len() == 0 {
        assert(after(t, p) =~= cb + rc.drop_last());
        lemma_columns_round_trip(columns, rc.drop_last());
        assert(t.len() == p + cb.len() + 3);
    } else {
        assert(rows.len() > 0);
        lemma_rows_truncated(rows, columns.len());
        assert(after(t, p) =~= cb + (rc + rb.drop_last()));
        lemma_columns_round_trip(columns, rc + rb.drop_last());
        let q = p + cb.len();
        lemma_after_after(t, p, cb.len());
        assert(after(after(t, p), cb.len()) =~= rc + rb.drop_last());
        assert(after(t, q).subrange(0, 4) =~= rc);
        assert(t.subrange(q as int, (q + 4) as int) =~= rc);
        lemma_after_after(t, q, 4);
        assert(after(rc + rb.drop_last(), 4) =~= rb.drop_last());
    }
}

/// A command within the data model's limits, cut short by its last byte,
/// fails to decode.
pub proof fn lemma_command_truncated(c: CommandV)
    requires
        command_ok(c),
        command_fits(c),
    ensures
        parse_command(encode_command(c).drop_last()) is Err,
{
    match c {
        CommandV::Search(s) => {
            lemma_search_truncated(s, MAX_CONTAINER_DEPTH as nat);
        },
        CommandV::Batch { .. } => {
            lemma_batch_truncated(c);
        },
        CommandV::Commit { .. } => {
            lemma_marker_truncated(c);
        },
        CommandV::Rollback { .. } => {
            lemma_marker_truncated(c);
        },
        _ => {
            lemma_named_truncated(c);
        },
    }
}

#[verifier::spinoff_prover]
#[verifier::rlimit(100)]
proof fn lemma_marker_truncated(c: CommandV)
    requires
        c is Commit || c is Rollback,
        command_ok(c),
    ensures
        parse_command(encode_command(c).drop_last()) is Err,
{
    let n = if c is Commit { c->Commit_container } else { c->Rollback_container };
    let t = encode_command(c).drop_last();
    match n {
        Some(x) => {
            assert(t =~= seq![opcode(c), 1u8] + name_var(x).drop_last());
            lemma_name_var_truncated(x);
            assert(after(t, 2) =~= name_var(x).drop_last());
        },
        None => {
            assert(t =~= seq![opcode(c)]);
        },
    }
}

#[verifier::spinoff_prover]
#[verifier::rlimit(100)]
proof fn lemma_batch_truncated(c: CommandV)
    requires
        c is Batch,
        command_ok(c),
        command_fits(c),
    ensures
        parse_command(encode_command(c).drop_last()) is Err,
{
    let transaction = c->transaction;
    let commands = c->commands;
    lemma_auto_spec_u32_to_from_le_bytes();
    let cb = spec_u32_to_le_bytes(batch_count(transaction, commands.len()) as u32);
    let ei = encode_items(commands);
    let t = encode_command(c).drop_last();
    if commands.len() == 0 {
        assert(ei =~= Seq::<u8>::empty());
        assert(t.len() == 4);
    } else {
        lemma_items_all(commands, commands.len());
        lemma_items_truncated(commands);
        assert(ei.len() > 0) by {
            lemma_command_nonempty(commands[0]);
        }
        assert(t =~= seq![9u8] + (cb + ei.drop_last()));
        assert(t.subrange(1, 5) =~= cb);
        lemma_batch_count(transaction, commands.len());
        assert(after(t, 5) =~= ei.drop_last());
        lemma_parse_batch(t);
    }
}

#[verifier::spinoff_prover]
#[verifier::rlimit(100)]
proof fn lemma_named_truncated(c: CommandV)
    requires
        command_ok(c),
        command_fits(c),
        opcode(c) <= 4 || opcode(c) == 8,
    ensures
        parse_command(encode_command(c).drop_last()) is Err,
{
    let t = encode_command(c).drop_last();
    let (name, tail) = named_parts(c);
    assert(encode_command(c) =~= seq![opcode(c)] + (name8(name) + tail)) by {
        lemma_named_parts(c);
    }
    assert(name_ok(name)) by {
        lemma_named_parts(c);
    }
    if tail.len() == 0 {
        assert(t =~= seq![opcode(c)] + name8(name).drop_last());
        lemma_name8_truncated(name);
        assert(after(t, 1) =~= name8(name).drop_last());
    } else {
        lemma_name8_round_trip(name, tail.drop_last());
        assert(t =~= seq![opcode(c)] + (name8(name) + tail.drop_last()));
        assert(after(t, 1) =~= name8(name) + tail.drop_last());
        let p = 1 + name8(name).len();
        if c is DeleteRow {
            lemma_delete_row_tail(c, tail);
            assert(after(t, p) =~= tail.drop_last());
        } else {
            lemma_column_command_truncated(c, t);
        }
    }
}

/// The container name and what follows it, for the commands that start
/// with a name.
pub open spec fn named_parts(c: CommandV) -> (Seq<char>, Seq<u8>) {
    match c {
        CommandV::CreateContainer { name, columns, types } => (name, columns_bytes(columns) + types),
        CommandV::CreateRow { container, columns, values } => (
            container,
            columns_bytes(columns) + encode_many(values, value_encoder()),
        ),
        CommandV::EditRow { container, columns, values, conditions } => (
            container,
            columns_bytes(columns) + encode_many(values, value_encoder()) + encode_conditions(conditions),
        ),
        CommandV::DeleteRow { container, conditions } => (
            container,
            match conditions {
                Some(k) => optional_bytes(true, encode_conditions(k)),
                None => optional_bytes(false, Seq::empty()),
            },
        ),
        CommandV::DeleteContainer { container } => (container, Seq::empty()),
        CommandV::BatchCreateRows { container, columns, rows } => (
            container,
            columns_bytes(columns) + spec_u32_to_le_bytes(rows.len() as u32) + encode_many(
                rows,
                row_encoder(),
            ),
        ),
        _ => arbitrary(),
    }
}

proof fn lemma_named_parts(c: CommandV)
    requires
        command_ok(c),
        opcode(c) <= 4 || opcode(c) == 8,
    ensures
        encode_command(c) =~= seq![opcode(c)] + (name8(named_parts(c).0) + named_parts(c).1),
        name_ok(named_parts(c).0),
{
}

/// A delete-row command cut short: its flag byte or its conditions fail.
#[verifier::spinoff_prover]
#[verifier::rlimit(100)]
proof fn lemma_delete_row_tail(c: CommandV, tail: Seq<u8>)
    requires
        c is DeleteRow,
        command_ok(c),
        command_fits(c),
        tail == named_parts(c).1,
    ensures
        ({
            let name = named_parts(c).0;
            let t = seq![3u8] + (name8(name) + tail.drop_last());
            &&& tail.len() > 0
            &&& parse_command(t) is Err
        }),
{
    let name = named_parts(c).0;
    let t = seq![3u8] + (name8(name) + tail.drop_last());
    lemma_name8_round_trip(name, tail.drop_last());
    assert(after(t, 1) =~= name8(name) + tail.drop_last());
    let p = 1 + name8(name).len();
    match c->DeleteRow_conditions {
        Some(k) => {
            lemma_conditions_truncated(k);
            assert(tail.drop_last() =~= seq![1u8] + encode_conditions(k).drop_last());
            assert(t[p as int] == 1u8);
            assert(after(t, p + 1) =~= encode_conditions(k).drop_last());
        },
        None => {
            assert(t.len() == p);
        },
    }
}

} // verus!
