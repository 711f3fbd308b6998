use differential_dataflow::Hashable;
use mz_ingest::debezium::coordinates::{
    EnvelopeError, PostgresOpCoordinates, RowCoordinates, SqlServerLsn,
};
use mz_ingest::debezium::datum::{Datum, Row};
use mz_ingest::debezium::dedup::{
    is_laid_out, read_commit, DebeziumDedupProjection, DebeziumDeduplicationState,
    DebeziumEnvelope, DebeziumSourceProjection, DebeziumTransactionMetadata,
};
use mz_ingest::debezium::render::{render, RenderState, Update};
use mz_ingest::debezium::render_tx::{
    data_dist, read_transaction, read_tx_row, render_tx, tx_dist, DataRecord, RenderTxState, TxRow,
};
use mz_ingest::source::types::{
    DataflowError, DecodeError, DecodeErrorKind, DecodeResult, GlobalId, MzOffset, PartitionId,
};

fn text(text: &str) -> Datum {
    Datum::String(text.to_owned())
}

fn row(datums: Vec<Datum>) -> Row {
    Row { datums, data: vec![] }
}

// A record is `(before, after, source, op, transaction)`, and its source starts with `snapshot`.
fn envelope(source_projection: DebeziumSourceProjection) -> DebeziumEnvelope {
    DebeziumEnvelope {
        before_idx: 0,
        after_idx: 1,
        dedup: DebeziumDedupProjection {
            op_idx: 3,
            source_idx: 2,
            snapshot_idx: 0,
            source_projection,
            tx_metadata: None,
        },
    }
}

fn mysql() -> DebeziumEnvelope {
    envelope(DebeziumSourceProjection::MySql { file: 1, pos: 2, row: 3 })
}

fn postgres() -> DebeziumEnvelope {
    envelope(DebeziumSourceProjection::Postgres { sequence: 1, lsn: 2 })
}

fn sql_server() -> DebeziumEnvelope {
    envelope(DebeziumSourceProjection::SqlServer { change_lsn: 1, event_serial_no: 2 })
}

fn metadata() -> DebeziumTransactionMetadata {
    DebeziumTransactionMetadata {
        tx_metadata_global_id: GlobalId::User(1),
        tx_status_idx: 0,
        tx_transaction_id_idx: 1,
        tx_data_collections_idx: 2,
        tx_data_collections_data_collection_idx: 0,
        tx_data_collections_event_count_idx: 1,
        tx_data_collection_name: "table".to_owned(),
        data_transaction_idx: 4,
        data_transaction_id_idx: 0,
    }
}

fn mysql_tx() -> DebeziumEnvelope {
    let mut envelope = mysql();
    envelope.dedup.tx_metadata = Some(metadata());
    envelope
}

fn record(before: Datum, after: Datum, source: Vec<Datum>, transaction: Datum) -> Row {
    row(vec![before, after, Datum::List(source), text("c"), transaction])
}

fn mysql_source(file: &str, pos: i64, at: i32) -> Vec<Datum> {
    vec![text("false"), text(file), Datum::Int64(pos), Datum::Int32(at)]
}

fn created(id: i64, source: Vec<Datum>) -> Row {
    record(Datum::Null, Datum::List(vec![Datum::Int64(id)]), source, Datum::Null)
}

fn created_in(tx_id: &str, id: i64, pos: i64) -> Row {
    record(
        Datum::Null,
        Datum::List(vec![Datum::Int64(id)]),
        mysql_source("f", pos, 0),
        Datum::List(vec![text(tx_id)]),
    )
}

fn decoded(value: Option<Result<(Row, i64), DecodeError>>, partition: PartitionId) -> DecodeResult {
    DecodeResult {
        key: None,
        value,
        position: MzOffset { offset: 0 },
        upstream_time_millis: None,
        partition,
        metadata: row(vec![]),
    }
}

fn good(value: Row) -> DecodeResult {
    decoded(Some(Ok((value, 1))), PartitionId::Whole)
}

fn decode_error() -> DecodeError {
    DecodeError { kind: DecodeErrorKind::Text("no".to_owned()), raw: vec![1] }
}

fn update(cap: u64, id: i64, time: u64, diff: i64) -> Update {
    Update { cap, data: Ok(vec![Datum::Int64(id)]), time, diff }
}

fn failure(cap: u64, err: DataflowError, time: u64) -> Update {
    Update { cap, data: Err(err), time, diff: 1 }
}

fn state(envelope: DebeziumEnvelope) -> DebeziumDeduplicationState {
    DebeziumDeduplicationState::new(envelope).unwrap()
}

#[test]
fn log_sequence_numbers_are_ordered_as_their_texts() {
    let texts = [
        "00000000:ffffffff:ffff",
        "00000001:00000000:000a",
        "00000001:00000000:000b",
        "00000001:0000000a:0000",
        "0000000a:00000009:0000",
        "0000000b:00000000:0000",
    ];
    for pair in texts.windows(2) {
        assert!(pair[0] < pair[1]);
        let lsn = |text: &str| SqlServerLsn::from_str(text).unwrap();
        assert!(lsn(pair[0]) < lsn(pair[1]));
    }
}

#[test]
fn log_sequence_numbers_are_read() {
    assert_eq!(
        SqlServerLsn::from_str("00000027:00000ac0:0002"),
        Ok(SqlServerLsn { file_seq_num: 0x27, log_block_offset: 0xac0, slot_num: 2 })
    );
    assert_eq!(
        SqlServerLsn::from_str("FFFFFFFF:ffffffff:ffff"),
        Ok(SqlServerLsn { file_seq_num: u32::MAX, log_block_offset: u32::MAX, slot_num: u16::MAX })
    );
    for input in [
        "",
        "00000027:00000ac0:000",
        "00000027-00000ac0:0002",
        "0000002g:00000ac0:0002",
        "+0000001:00000002:0003",
        "00000001:+0000002:0003",
        "00000001:00000002:+003",
    ] {
        assert_eq!(
            SqlServerLsn::from_str(input),
            Err(EnvelopeError::Debezium(format!("invalid lsn: {}", input)))
        );
    }
}

#[test]
fn coordinates_are_ordered() {
    let mysql = |file, pos, row| RowCoordinates::MySql { file, pos, row };
    assert!(mysql(0, 5, 1).is_after(&mysql(0, 5, 0)));
    assert!(mysql(1, 0, 0).is_after(&mysql(0, 5, 1)));
    assert!(!mysql(0, 5, 1).is_after(&mysql(0, 5, 1)));
    let postgres = |last_commit_lsn, lsn, op_type| RowCoordinates::Postgres {
        last_commit_lsn,
        lsn,
        op_type,
    };
    let delete = postgres(Some(3), 4, PostgresOpCoordinates::Delete);
    let create = postgres(Some(3), 4, PostgresOpCoordinates::Create);
    let other = postgres(Some(3), 4, PostgresOpCoordinates::Other);
    assert!(create.is_after(&delete));
    assert!(other.is_after(&create));
    assert!(delete.is_after(&postgres(None, 9, PostgresOpCoordinates::Other)));
    assert!(postgres(Some(0), 0, PostgresOpCoordinates::Delete)
        .is_after(&postgres(None, 9, PostgresOpCoordinates::Other)));
    let lsn = SqlServerLsn { file_seq_num: 1, log_block_offset: 2, slot_num: 3 };
    let server = |change_lsn, event_serial_no| RowCoordinates::SqlServer {
        change_lsn,
        event_serial_no,
    };
    assert!(server(lsn, 2).is_after(&server(lsn, 1)));
    for (a, b) in [
        (mysql(0, 5, 1), mysql(1, 0, 0)),
        (delete, create),
        (create, server(lsn, 0)),
        (mysql(9, 9, 9), delete),
    ] {
        assert_eq!(a.is_after(&b), a > b);
        assert_eq!(b.is_after(&a), b > a);
    }
}

#[test]
fn mysql_positions_are_read() {
    let mut state = state(mysql());
    let mut position = |source| state.extract_binlog_position(&created(1, source));
    assert_eq!(
        position(mysql_source("b", 10, 1)),
        Ok(Some(RowCoordinates::MySql { file: 0, pos: 10, row: 1 }))
    );
    assert_eq!(
        position(mysql_source("a", 11, 2)),
        Ok(Some(RowCoordinates::MySql { file: 1, pos: 11, row: 2 }))
    );
    assert_eq!(
        position(mysql_source("b", 12, 3)),
        Ok(Some(RowCoordinates::MySql { file: 0, pos: 12, row: 3 }))
    );
    assert_eq!(
        position(vec![text("false"), Datum::Null, Datum::Int64(1), Datum::Int32(1)]),
        Ok(None)
    );
    assert_eq!(position(vec![text("last"), Datum::Null, Datum::Null, Datum::Null]), Ok(None));
    assert_eq!(position(vec![Datum::True]), Ok(None));
}

#[test]
fn postgres_positions_are_read() {
    let mut state = state(postgres());
    let mut position = |sequence: Datum, lsn: Datum, op: &str| {
        let source = Datum::List(vec![Datum::False, sequence, lsn]);
        state.extract_binlog_position(&row(vec![Datum::Null, Datum::Null, source, text(op)]))
    };
    let coordinates = |last_commit_lsn, lsn, op_type| {
        Ok(Some(RowCoordinates::Postgres { last_commit_lsn, lsn, op_type }))
    };
    assert_eq!(
        position(text("[\"24\", \"25\"]"), Datum::Int64(26), "d"),
        coordinates(Some(24), 26, PostgresOpCoordinates::Delete)
    );
    assert_eq!(
        position(text("[null, \"25\"]"), Datum::Int64(26), "c"),
        coordinates(None, 26, PostgresOpCoordinates::Create)
    );
    assert_eq!(
        position(text("[\"24\"]"), Datum::Int64(26), "u"),
        coordinates(Some(24), 26, PostgresOpCoordinates::Other)
    );
    assert_eq!(position(Datum::Null, Datum::Int64(26), "u"), Ok(None));
    assert_eq!(position(text("[\"24\"]"), Datum::Null, "u"), Ok(None));
    for sequence in ["", "[]", "[1]", "[\"x\"]", "[\"18446744073709551616\"]", "{}"] {
        assert_eq!(
            position(text(sequence), Datum::Int64(26), "u"),
            Err(EnvelopeError::Debezium(format!("invalid sequence: {:?}", sequence)))
        );
    }
}

#[test]
fn commits_are_read_from_the_first_entry() {
    assert_eq!(read_commit(&vec![]), None);
    assert_eq!(read_commit(&vec![None, Some("1".to_owned())]), Some(None));
    assert_eq!(
        read_commit(&vec![Some("18446744073709551615".to_owned())]),
        Some(Some(u64::MAX))
    );
    assert_eq!(read_commit(&vec![Some("+7".to_owned())]), Some(Some(7)));
    assert_eq!(read_commit(&vec![Some("-7".to_owned())]), None);
    assert_eq!(read_commit(&vec![Some("".to_owned())]), None);
}

#[test]
fn sql_server_positions_are_read() {
    let mut state = state(sql_server());
    let mut position = |lsn: Datum, event: Datum| {
        state.extract_binlog_position(&created(1, vec![Datum::Null, lsn, event]))
    };
    assert_eq!(
        position(text("00000001:00000002:0003"), Datum::Int64(4)),
        Ok(Some(RowCoordinates::SqlServer {
            change_lsn: SqlServerLsn { file_seq_num: 1, log_block_offset: 2, slot_num: 3 },
            event_serial_no: 4,
        }))
    );
    assert_eq!(position(Datum::Null, Datum::Int64(4)), Ok(None));
    assert_eq!(position(text("00000001:00000002:0003"), Datum::Null), Ok(None));
    assert_eq!(
        position(text("nonsense"), Datum::Int64(4)),
        Err(EnvelopeError::Debezium("invalid lsn: nonsense".to_owned()))
    );
}

#[test]
fn duplicates_are_skipped() {
    let mut state = state(mysql());
    let mut used = |source| state.should_use_record(&created(1, source));
    assert_eq!(used(mysql_source("f", 10, 0)), Ok(true));
    assert_eq!(used(mysql_source("f", 10, 0)), Ok(false));
    assert_eq!(used(mysql_source("f", 9, 5)), Ok(false));
    assert_eq!(used(mysql_source("f", 10, 1)), Ok(true));
    assert_eq!(used(vec![Datum::True]), Ok(true));
    assert_eq!(used(mysql_source("f", 10, 1)), Ok(false));
    assert_eq!(used(mysql_source("g", 0, 0)), Ok(true));
    assert_eq!(used(mysql_source("f", 11, 0)), Ok(false));
    assert_eq!(state.messages_processed, MzOffset { offset: 8 });
    assert_eq!(state.last_position, Some(RowCoordinates::MySql { file: 1, pos: 0, row: 0 }));
}

#[test]
fn records_that_are_laid_out_otherwise_are_noticed() {
    let mut state = state(mysql());
    let wrong = created(1, vec![text("false"), Datum::Int32(1), Datum::Int64(1), Datum::Int32(1)]);
    assert!(!is_laid_out(&state.projection, &wrong));
    assert_eq!(state.try_should_use_record(&wrong), None);
    let right = created(1, mysql_source("f", 1, 1));
    assert!(is_laid_out(&state.projection, &right));
    assert_eq!(state.try_should_use_record(&right), Some(Ok(true)));
    state.messages_processed = MzOffset { offset: u64::MAX };
    assert_eq!(state.try_should_use_record(&right), None);
    assert!(!is_laid_out(&state.projection, &row(vec![])));
}

#[test]
fn records_are_rendered() {
    let mut state = RenderState::new(mysql());
    let updated = record(
        Datum::List(vec![Datum::Int64(1)]),
        Datum::List(vec![Datum::Int64(2)]),
        mysql_source("f", 11, 0),
        Datum::Null,
    );
    let updates = render(
        &mut state,
        5,
        vec![
            good(created(1, mysql_source("f", 10, 0))),
            good(created(1, mysql_source("f", 10, 0))),
            good(updated),
            decoded(None, PartitionId::Whole),
            decoded(Some(Err(decode_error())), PartitionId::Whole),
        ],
    );
    assert_eq!(
        updates,
        Some(vec![
            update(5, 1, 5, 1),
            update(5, 1, 5, -1),
            update(5, 2, 5, 1),
            failure(5, DataflowError::DecodeError(decode_error()), 5),
        ])
    );
    // The state outlives a batch.
    assert_eq!(
        render(&mut state, 6, vec![good(created(1, mysql_source("f", 10, 0)))]),
        Some(vec![])
    );
}

#[test]
fn partitions_are_deduplicated_apart() {
    let mut state = RenderState::new(mysql());
    let at = |partition| {
        decoded(Some(Ok((created(1, mysql_source("f", 10, 0)), 1))), partition)
    };
    let updates = render(
        &mut state,
        5,
        vec![at(PartitionId::Kafka(0)), at(PartitionId::Kafka(1)), at(PartitionId::Kafka(0))],
    );
    assert_eq!(updates, Some(vec![update(5, 1, 5, 1), update(5, 1, 5, 1)]));
}

#[test]
fn errors_in_envelopes_are_rendered() {
    let mut state = RenderState::new(sql_server());
    let updates = render(
        &mut state,
        5,
        vec![good(created(1, vec![Datum::Null, text("?"), Datum::Int64(1)]))],
    );
    let err = EnvelopeError::Debezium("invalid lsn: ?".to_owned());
    assert_eq!(updates, Some(vec![failure(5, DataflowError::EnvelopeError(err), 5)]));
}

#[test]
fn rendering_cannot_go_on_with_other_records() {
    let mut state = RenderState::new(mysql());
    let twice = decoded(Some(Ok((created(1, vec![Datum::True]), 2))), PartitionId::Whole);
    assert_eq!(render(&mut state, 5, vec![twice]), None);
    let no_row = record(Datum::Int64(1), Datum::Null, vec![Datum::True], Datum::Null);
    assert_eq!(render(&mut state, 5, vec![good(no_row)]), None);
    let no_source = row(vec![Datum::Null, Datum::Null, Datum::Int64(1)]);
    assert_eq!(render(&mut state, 5, vec![good(no_source)]), None);
}

fn end(tx_id: &str, count: Datum) -> Row {
    row(vec![
        text("END"),
        text(tx_id),
        Datum::List(vec![
            Datum::List(vec![text("other"), Datum::Int64(9)]),
            Datum::List(vec![text("table"), count]),
        ]),
    ])
}

fn ended(tx_id: &str, count: i64, cap: u64, time: u64) -> TxRow {
    TxRow { cap, row: end(tx_id, Datum::Int64(count)), time, diff: 1 }
}

fn arrived(value: Row, cap: u64) -> DataRecord {
    DataRecord { result: good(value), cap }
}

#[test]
fn ends_of_transactions_are_read() {
    let metadata = metadata();
    assert_eq!(
        read_tx_row(&metadata, &end("t", Datum::Int16(3))),
        Some(Some(("t".to_owned(), 3)))
    );
    assert_eq!(
        read_tx_row(&metadata, &end("t", Datum::Int32(4))),
        Some(Some(("t".to_owned(), 4)))
    );
    assert_eq!(read_tx_row(&metadata, &end("t", Datum::Null)), Some(Some(("t".to_owned(), 0))));
    assert_eq!(read_tx_row(&metadata, &end("t", Datum::True)), None);
    let begin = row(vec![text("BEGIN"), text("t"), Datum::Null]);
    assert_eq!(read_tx_row(&metadata, &begin), Some(None));
    let elsewhere = row(vec![text("END"), text("t"), Datum::Array(vec![])]);
    assert_eq!(read_tx_row(&metadata, &elsewhere), Some(Some(("t".to_owned(), 0))));
    assert_eq!(read_tx_row(&metadata, &row(vec![])), None);
}

#[test]
fn transactions_of_records_are_read() {
    let metadata = metadata();
    assert_eq!(
        read_transaction(&metadata, &created_in("t", 1, 1)),
        Some(Some(&"t".to_owned()))
    );
    assert_eq!(read_transaction(&metadata, &created(1, vec![])), Some(None));
    assert_eq!(read_transaction(&metadata, &row(vec![])), None);
}

#[test]
fn rows_and_records_of_a_transaction_meet() {
    let metadata = metadata();
    let worker = "t".hashed();
    assert_eq!(tx_dist(&metadata, &end("t", Datum::Int64(1)), 5), worker);
    assert_eq!(data_dist(&metadata, &good(created_in("t", 1, 1))), Some(worker));
    assert_eq!(tx_dist(&metadata, &row(vec![]), 5), 5u64.hashed());
    assert!(data_dist(&metadata, &good(created(1, vec![]))).is_some());
    assert!(data_dist(&metadata, &decoded(None, PartitionId::Whole)).is_some());
    assert_eq!(data_dist(&metadata, &good(row(vec![]))), None);
    let twice = decoded(Some(Ok((created_in("t", 1, 1), 2))), PartitionId::Whole);
    assert_eq!(data_dist(&metadata, &twice), None);
}

#[test]
fn records_go_out_at_the_time_of_their_transaction() {
    let mut state = RenderTxState::new(mysql_tx());
    let updates = render_tx(
        &mut state,
        vec![ended("t", 2, 3, 4)],
        vec![arrived(created_in("t", 1, 1), 7), arrived(created_in("t", 2, 2), 7)],
    );
    assert_eq!(updates, Some(vec![update(3, 1, 4, 1), update(3, 2, 4, 1)]));
    assert!(!state.needs_capability(3));
    assert!(!state.needs_capability(7));
}

#[test]
fn records_wait_for_the_end_of_their_transaction() {
    let mut state = RenderTxState::new(mysql_tx());
    let waiting = render_tx(
        &mut state,
        vec![],
        vec![arrived(created_in("t", 1, 1), 7), arrived(created(2, mysql_source("f", 2, 0)), 8)],
    );
    assert_eq!(waiting, Some(vec![]));
    assert!(state.needs_capability(7));
    assert!(state.needs_capability(8));
    let updates = render_tx(&mut state, vec![ended("t", 2, 3, 4)], vec![]);
    assert_eq!(updates, Some(vec![update(3, 1, 4, 1), update(8, 2, 8, 1)]));
    // One event of the transaction is still to come.
    assert!(state.needs_capability(3));
    assert!(!state.needs_capability(7));
    let updates = render_tx(&mut state, vec![], vec![arrived(created_in("t", 3, 3), 9)]);
    assert_eq!(updates, Some(vec![update(3, 3, 4, 1)]));
    assert!(!state.needs_capability(3));
}

#[test]
fn duplicates_of_a_transaction_are_skipped() {
    let mut state = RenderTxState::new(mysql_tx());
    render_tx(&mut state, vec![ended("t", 1, 3, 4)], vec![arrived(created_in("t", 1, 1), 7)]);
    let again = render_tx(
        &mut state,
        vec![ended("t", 1, 5, 4)],
        vec![arrived(created_in("t", 1, 1), 8)],
    );
    assert_eq!(again, Some(vec![]));
    assert!(!state.needs_capability(5));
}

#[test]
fn errors_with_transactions_are_rendered() {
    let mut state = RenderTxState::new(mysql_tx());
    let mut row = ended("t", 0, 3, 4);
    row.diff = -2;
    let failed = DataRecord {
        result: decoded(Some(Err(decode_error())), PartitionId::Whole),
        cap: 9,
    };
    let updates = render_tx(&mut state, vec![row], vec![failed]);
    let message = "Transaction metadata supplied diff value -2".to_owned();
    assert_eq!(
        updates,
        Some(vec![
            failure(3, DataflowError::EvalError(message), 4),
            failure(9, DataflowError::DecodeError(decode_error()), 9),
        ])
    );
}

#[test]
fn rendering_with_transactions_cannot_go_on() {
    let mut state = RenderTxState::new(mysql_tx());
    assert_eq!(
        render_tx(&mut state, vec![ended("t", 1, 3, 4), ended("t", 1, 3, 5)], vec![]),
        None
    );
    let mut state = RenderTxState::new(mysql_tx());
    let more = vec![arrived(created_in("t", 1, 1), 7), arrived(created_in("t", 2, 2), 7)];
    assert_eq!(render_tx(&mut state, vec![ended("t", 1, 3, 4)], more), None);
    let mut state = RenderTxState::new(mysql_tx());
    assert_eq!(
        render_tx(&mut state, vec![TxRow { cap: 0, row: row(vec![]), time: 0, diff: 1 }], vec![]),
        None
    );
}

#[test]
fn duplicates_hold_nothing_up() {
    let mut state = RenderTxState::new(mysql_tx());
    let first = vec![arrived(created_in("t", 1, 1), 7), arrived(created_in("u", 2, 2), 7)];
    let rows = vec![ended("t", 1, 3, 4)];
    assert_eq!(render_tx(&mut state, rows, first), Some(vec![update(3, 1, 4, 1)]));
    // All events of `t` have been seen. Its record arrives again, before other records.
    let again = vec![arrived(created_in("t", 1, 1), 8), arrived(created_in("u", 3, 3), 8)];
    assert_eq!(render_tx(&mut state, vec![], again), Some(vec![]));
    assert_eq!(
        render_tx(&mut state, vec![ended("u", 2, 5, 6)], vec![]),
        Some(vec![update(5, 2, 6, 1), update(5, 3, 6, 1)])
    );
}

#[test]
fn repeated_ends_change_nothing() {
    let records = || vec![arrived(created_in("t", 1, 1), 7), arrived(created_in("t", 2, 2), 7)];
    let mut once = RenderTxState::new(mysql_tx());
    assert_eq!(render_tx(&mut once, vec![ended("t", 2, 3, 4)], vec![]), Some(vec![]));
    let expected = render_tx(&mut once, vec![], records());
    assert_eq!(expected, Some(vec![update(3, 1, 4, 1), update(3, 2, 4, 1)]));
    let mut twice = RenderTxState::new(mysql_tx());
    assert_eq!(render_tx(&mut twice, vec![ended("t", 2, 3, 4)], vec![]), Some(vec![]));
    assert_eq!(render_tx(&mut twice, vec![ended("t", 2, 5, 4)], records()), expected);
    assert!(!twice.needs_capability(3));
    assert!(!twice.needs_capability(5));
    assert_eq!(render_tx(&mut twice, vec![ended("t", 2, 3, 9)], vec![]), None);
}

#[test]
fn records_of_two_activations_are_rendered_as_those_of_one() {
    let rows = || vec![ended("t", 2, 3, 4)];
    let record = |i: i64| arrived(created_in("t", i, i), 7);
    let mut one = RenderTxState::new(mysql_tx());
    let expected = render_tx(&mut one, rows(), vec![record(1), record(2)]);
    let mut two = RenderTxState::new(mysql_tx());
    let mut updates = render_tx(&mut two, rows(), vec![record(1)]).unwrap();
    updates.extend(render_tx(&mut two, vec![], vec![record(2)]).unwrap());
    assert_eq!(Some(updates), expected);
}

#[test]
fn log_files_are_numbered_from_zero() {
    let mut state = DebeziumDeduplicationState::new(mysql()).unwrap();
    let mut file = |name: &str| {
        let value = created(1, mysql_source(name, 1, 0));
        match state.extract_binlog_position(&value) {
            Ok(Some(RowCoordinates::MySql { file, .. })) => file,
            other => panic!("unexpected position {:?}", other),
        }
    };
    assert_eq!(file("b"), 0);
    assert_eq!(file("a"), 1);
    assert_eq!(file("b"), 0);
    assert_eq!(file("c"), 2);
    assert_eq!(file("a"), 1);
}

#[test]
fn used_positions_increase() {
    let mut state = DebeziumDeduplicationState::new(mysql()).unwrap();
    let mut used = vec![];
    for pos in [3, 1, 4, 1, 5, 9, 2, 6, 9, 10] {
        if state.should_use_record(&created(1, mysql_source("f", pos, 0))) == Ok(true) {
            used.push(pos);
        }
    }
    assert_eq!(used, vec![3, 4, 5, 9, 10]);
}
