use fconv::batch::{Batch, ColumnData};
use fconv::schema::{Column, ColumnType, Schema};
use fconv::sink::{BatchSink, SinkState};

fn one_int_schema() -> Schema {
    Schema { cols: vec![Column { name: b"a".to_vec(), ctype: ColumnType::Int }] }
}

#[test]
fn sink_moves_from_created_through_writing_to_finalized() {
    let mut sink = BatchSink::new(one_int_schema());
    assert_eq!(sink.state, SinkState::Created);
    let batch = Batch { columns: vec![ColumnData::Ints(vec![1, 2])] };
    sink.submit(batch);
    assert_eq!(sink.state, SinkState::Writing);
    let bytes = sink.finalize().unwrap();
    assert_eq!(sink.state, SinkState::Finalized);
    assert!(!bytes.is_empty());
}

#[test]
fn sink_moves_to_failed_on_upstream_error() {
    let mut sink = BatchSink::new(one_int_schema());
    sink.fail();
    assert_eq!(sink.state, SinkState::Failed);
}
