use tytodb_client::conditions::Gate;
use tytodb_client::container::AlbaContainer;
use tytodb_client::albastream::ErrorKind;
use tytodb_client::commands::{Commands, Commit, DeleteContainer};
use tytodb_client::db_response::{read_reply, DBResponse, Row};
use tytodb_client::handler::{
    BatchBuilder, CommitBuilder, CreateContainerBuilder, DeleteContainerBuilder, RollbackBuilder, SearchBuilder,
};
use tytodb_client::logical_operators::LogicalOperator;
use tytodb_client::message::compile_message;
use tytodb_client::types::AlbaTypes;

#[test]
fn row_encoding_and_decoding() {
    let r = Row::new(vec![AlbaTypes::U8(1), AlbaTypes::String("a".to_string())]);
    let b = r.encode();
    assert_eq!(b, vec![0u8, 2, 1, 1, 0, 0, 1, b'a']);
    let (d, n) = Row::decode(&b).unwrap();
    assert_eq!(n, b.len());
    assert_eq!(d.0.len(), 2);
}

#[test]
fn response_round_trips_with_row_count() {
    let resp = DBResponse::new(vec![Row::new(vec![AlbaTypes::U32(5)]), Row::new(vec![])]);
    assert_eq!(resp.length(), 2);
    let b = resp.encode();
    assert_eq!(b[0..2], [0u8, 2]);
    let back = DBResponse::from_bytes(&b).unwrap();
    assert_eq!(back.row_list.len(), 2);
    assert!(matches!(back.row_list[0].0[0], AlbaTypes::U32(5)));
    assert!(back.row_list[1].0.is_empty());
}

#[test]
fn a_failing_value_fails_the_whole_response() {
    let e = DBResponse::from_bytes(&[0, 1, 0, 1, 99]).err().unwrap();
    assert!(matches!(e.kind(), ErrorKind::InvalidInput));
    let e = DBResponse::from_bytes(&[0, 2, 0, 0]).err().unwrap();
    assert!(matches!(e.kind(), ErrorKind::InvalidInput));
}

#[test]
fn reply_envelope_status() {
    let e = read_reply(&[1, b'b', b'a', b'd']).err().unwrap();
    assert!(matches!(e.kind(), ErrorKind::Other));
    assert_eq!(e.message(), "bad");
    let ok = read_reply(&[0, 0, 1, 0, 1, 4, 1, 0, 0, 0, 0, 0, 0, 0]).unwrap();
    assert_eq!(ok.row_list.len(), 1);
    assert!(matches!(ok.row_list[0].0[0], AlbaTypes::U64(1)));
    assert!(matches!(read_reply(&[]).err().unwrap().kind(), ErrorKind::UnexpectedEof));
}

#[test]
fn message_frames_each_command() {
    let cmds = vec![
        Commands::Commit(Commit { container: None }),
        Commands::DeleteContainer(DeleteContainer { container: "t".to_string() }),
    ];
    let b = compile_message(&cmds).unwrap();
    assert_eq!(b, vec![0u8, 2, 0, 2, 6, 0, 0, 3, 4, 1, b't']);
    let bad = vec![Commands::DeleteContainer(DeleteContainer { container: "x".repeat(200) })];
    assert!(matches!(compile_message(&bad).err().unwrap().kind(), ErrorKind::InvalidInput));
}

#[test]
fn builders_compile_their_command() {
    let b = CreateContainerBuilder::new()
        .put_container("users".to_string())
        .insert_header("id".to_string(), 4)
        .finish()
        .unwrap();
    assert_eq!(b, vec![0u8, 5, b'u', b's', b'e', b'r', b's', 1, 2, b'i', b'd', 4]);
    assert_eq!(DeleteContainerBuilder::new().put_container("t".to_string()).cloned_finish().unwrap(), vec![4u8, 1, b't']);
    assert_eq!(CommitBuilder::new().finish().unwrap(), vec![6u8, 0]);
    assert_eq!(RollbackBuilder::new().set_container("t".to_string()).finish().unwrap(), vec![7u8, 1, 0, 1, b't']);
    let search = SearchBuilder::new()
        .add_conditions(("id".to_string(), LogicalOperator::Equal, AlbaTypes::U64(7)), true)
        .add_conditions(("age".to_string(), LogicalOperator::Higher, AlbaTypes::U8(3)), false);
    assert_eq!(search.command.conditions.gates.len(), 1);
    let batch = BatchBuilder::new().transaction(true).push(CommitBuilder::new()).finish().unwrap();
    assert_eq!(batch[1..5], (-1i32).to_le_bytes());
}

#[test]
fn container_compiles_on_its_own() {
    let b = AlbaContainer::Real("t".to_string()).compile().unwrap();
    assert_eq!(b, vec![0u8, 0, 1, b't']);
    match AlbaContainer::decompile(&b).unwrap() {
        AlbaContainer::Real(n) => assert_eq!(n, "t"),
        other => panic!("unexpected {:?}", other),
    }
    let e = AlbaContainer::decompile(&[2]).err().unwrap();
    assert!(matches!(e.kind(), ErrorKind::InvalidInput));
}

#[test]
fn builder_gates_follow_the_left_fold() {
    let c = SearchBuilder::new()
        .add_conditions(("a".to_string(), LogicalOperator::Equal, AlbaTypes::U8(1)), false)
        .add_conditions(("b".to_string(), LogicalOperator::Equal, AlbaTypes::U8(2)), true)
        .add_conditions(("c".to_string(), LogicalOperator::Equal, AlbaTypes::U8(3)), false)
        .command
        .conditions;
    assert_eq!(c.predicates.len(), 3);
    assert_eq!(c.gates, vec![(1, Gate::And), (2, Gate::Or)]);
    // (a && b) || c
    assert!(c.fold_results(&[false, true, true]));
    assert!(!c.fold_results(&[false, true, false]));
    assert!(c.fold_results(&[true, true, false]));
}
