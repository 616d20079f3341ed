use tytodb_client::albastream::ErrorKind;
use tytodb_client::commands::{
    Batch, BatchCreateRows, Commands, Commit, CreateContainer, CreateRow, DeleteContainer, DeleteRow,
    EditRow, Rollback,
};
use tytodb_client::conditions::{ConditionSet, Gate, Predicate};
use tytodb_client::container::{AlbaContainer, Search};
use tytodb_client::logical_operators::LogicalOperator;
use tytodb_client::types::AlbaTypes;

fn s(x: &str) -> String {
    x.to_string()
}

fn id_equals(v: u64) -> ConditionSet {
    ConditionSet {
        predicates: vec![Predicate { column: s("id"), operator: LogicalOperator::Equal, value: AlbaTypes::U64(v) }],
        gates: vec![],
    }
}

fn users_search() -> Search {
    Search { container: AlbaContainer::Real(s("users")), conditions: id_equals(7), col_nam: vec![] }
}

fn recompile(c: &Commands) -> Vec<u8> {
    let b = c.compile().expect("compiles");
    let d = Commands::decompile(&b).expect("decompiles");
    let again = d.compile().expect("compiles again");
    assert_eq!(again, b);
    b
}

#[test]
fn create_container_scenario() {
    let c = Commands::CreateContainer(CreateContainer { name: s("users"), col_nam: vec![s("id"), s("name")], col_val: vec![4, 0] });
    let b = c.compile().unwrap();
    let mut expected = vec![0u8, 5];
    expected.extend_from_slice(b"users");
    expected.push(2);
    expected.push(2);
    expected.extend_from_slice(b"id");
    expected.push(4);
    expected.extend_from_slice(b"name");
    expected.extend_from_slice(&[4, 0]);
    assert_eq!(b, expected);
    match Commands::decompile(&b).unwrap() {
        Commands::CreateContainer(x) => {
            assert_eq!(x.name, "users");
            assert_eq!(x.col_nam, vec![s("id"), s("name")]);
            assert_eq!(x.col_val, vec![4, 0]);
        },
        other => panic!("unexpected {:?}", other),
    }
}

#[test]
fn search_scenario_single_predicate_has_no_gate() {
    let b = Commands::Search(users_search()).compile().unwrap();
    assert_eq!(b[0], 5);
    match Commands::decompile(&b).unwrap() {
        Commands::Search(x) => {
            assert_eq!(x.conditions.predicates.len(), 1);
            assert_eq!(x.conditions.predicates[0].column, "id");
            assert_eq!(x.conditions.predicates[0].operator, LogicalOperator::Equal);
            assert!(matches!(x.conditions.predicates[0].value, AlbaTypes::U64(7)));
            assert!(x.conditions.gates.is_empty());
            assert!(x.col_nam.is_empty());
            assert!(matches!(x.container, AlbaContainer::Real(ref n) if n == "users"));
        },
        other => panic!("unexpected {:?}", other),
    }
}

#[test]
fn batch_sign_carries_the_transaction_flag() {
    for transaction in [true, false] {
        let c = Commands::Batch(Batch {
            transaction,
            commands: vec![
                Commands::Commit(Commit { container: None }),
                Commands::DeleteContainer(DeleteContainer { container: s("t") }),
            ],
        });
        let b = c.compile().unwrap();
        assert_eq!(b[0], 9);
        let count = i32::from_le_bytes([b[1], b[2], b[3], b[4]]);
        assert_eq!(count, if transaction { -2 } else { 2 });
        match Commands::decompile(&b).unwrap() {
            Commands::Batch(x) => {
                assert_eq!(x.transaction, transaction);
                assert_eq!(x.commands.len(), 2);
                assert!(matches!(x.commands[0], Commands::Commit(Commit { container: None })));
                assert!(matches!(x.commands[1], Commands::DeleteContainer(ref d) if d.container == "t"));
            },
            other => panic!("unexpected {:?}", other),
        }
    }
}

#[test]
fn virtual_container_round_trips() {
    let inner = Search { container: AlbaContainer::Real(s("t")), conditions: ConditionSet::new(), col_nam: vec![s("a")] };
    let outer = Search { container: AlbaContainer::Virtual(vec![inner]), conditions: ConditionSet::new(), col_nam: vec![] };
    let b = recompile(&Commands::Search(outer));
    match Commands::decompile(&b).unwrap() {
        Commands::Search(x) => match x.container {
            AlbaContainer::Virtual(v) => {
                assert_eq!(v.len(), 1);
                assert_eq!(v[0].col_nam, vec![s("a")]);
                assert!(matches!(v[0].container, AlbaContainer::Real(ref n) if n == "t"));
            },
            other => panic!("unexpected {:?}", other),
        },
        other => panic!("unexpected {:?}", other),
    }
}

#[test]
fn every_command_round_trips() {
    let two = ConditionSet {
        predicates: vec![
            Predicate { column: s("a"), operator: LogicalOperator::Higher, value: AlbaTypes::I64(-4) },
            Predicate { column: s("b"), operator: LogicalOperator::StringContains, value: AlbaTypes::String(s("x")) },
        ],
        gates: vec![(1, Gate::Or)],
    };
    let cmds = vec![
        Commands::CreateRow(CreateRow { col_nam: vec![s("id")], col_val: vec![AlbaTypes::U32(1)], container: s("c") }),
        Commands::EditRow(EditRow { col_nam: vec![s("n")], col_val: vec![AlbaTypes::Bool(true)], container: s("c"), conditions: two }),
        Commands::DeleteRow(DeleteRow { container: s("c"), conditions: None }),
        Commands::DeleteRow(DeleteRow { container: s("c"), conditions: Some(id_equals(3)) }),
        Commands::DeleteContainer(DeleteContainer { container: s("c") }),
        Commands::Commit(Commit { container: Some(s("c")) }),
        Commands::Rollback(Rollback { container: Some(s("c")) }),
        Commands::Rollback(Rollback { container: None }),
        Commands::BatchCreateRows(BatchCreateRows {
            col_nam: vec![s("a"), s("b")],
            col_val: vec![vec![AlbaTypes::U8(1), AlbaTypes::Bytes(vec![2])], vec![AlbaTypes::U8(3), AlbaTypes::Bytes(vec![])]],
            container: s("c"),
        }),
        Commands::Batch(Batch { transaction: false, commands: vec![Commands::Batch(Batch { transaction: true, commands: vec![Commands::Search(users_search())] })] }),
    ];
    for c in cmds.iter() {
        let b = recompile(c);
        assert_eq!(b[0], c.id());
        for cut in 0..b.len() {
            let e = Commands::decompile(&b[..cut]).err().expect("a strict prefix does not decode");
            assert!(matches!(e.kind(), ErrorKind::UnexpectedEof | ErrorKind::InvalidInput));
        }
    }
}

#[test]
fn limits_are_checked_before_writing() {
    let long = "x".repeat(101);
    let e = Commands::DeleteContainer(DeleteContainer { container: long.clone() }).compile().err().unwrap();
    assert!(matches!(e.kind(), ErrorKind::InvalidInput));
    let e = Commands::Commit(Commit { container: Some(long) }).compile().err().unwrap();
    assert!(matches!(e.kind(), ErrorKind::InvalidInput));
    let e = Commands::CreateContainer(CreateContainer { name: s("t"), col_nam: vec![s("a")], col_val: vec![] }).compile().err().unwrap();
    assert!(matches!(e.kind(), ErrorKind::InvalidInput));
    let e = Commands::CreateRow(CreateRow { col_nam: vec!["y".repeat(26)], col_val: vec![AlbaTypes::U8(1)], container: s("t") }).compile().err().unwrap();
    assert!(matches!(e.kind(), ErrorKind::InvalidInput));
    let e = Commands::BatchCreateRows(BatchCreateRows { col_nam: vec![s("a")], col_val: vec![vec![]], container: s("t") }).compile().err().unwrap();
    assert!(matches!(e.kind(), ErrorKind::InvalidInput));
    let mut deep = Search { container: AlbaContainer::Real(s("t")), conditions: ConditionSet::new(), col_nam: vec![] };
    for _ in 0..33 {
        deep = Search { container: AlbaContainer::Virtual(vec![deep]), conditions: ConditionSet::new(), col_nam: vec![] };
    }
    let e = Commands::Search(deep).compile().err().unwrap();
    assert!(matches!(e.kind(), ErrorKind::InvalidInput));
}

#[test]
fn truncated_commands_fail() {
    let c = Commands::EditRow(EditRow { col_nam: vec![s("n")], col_val: vec![AlbaTypes::U16(9)], container: s("c"), conditions: id_equals(1) });
    let b = c.compile().unwrap();
    for cut in 0..b.len() {
        let e = Commands::decompile(&b[..cut]).err().expect("a strict prefix does not decode");
        assert!(matches!(e.kind(), ErrorKind::UnexpectedEof | ErrorKind::InvalidInput));
    }
}

#[test]
fn unknown_opcode_is_invalid_input() {
    let e = Commands::decompile(&[10, 0]).err().unwrap();
    assert!(matches!(e.kind(), ErrorKind::InvalidInput));
    let e = Commands::decompile(&[]).err().unwrap();
    assert!(matches!(e.kind(), ErrorKind::UnexpectedEof));
}

#[test]
fn gate_fold_is_a_left_fold() {
    let c = ConditionSet {
        predicates: vec![],
        gates: vec![(1, Gate::Or), (2, Gate::And)],
    };
    assert!(!c.fold_results(&[true, false, false]));
    assert!(c.fold_results(&[false, true, true]));
    assert!(!c.fold_results(&[false, false, true]));
    assert!(c.fold_results(&[true]));
    assert!(c.fold_results(&[]));
}
