//! What a caller gets from rendering: laws on what goes into each operation, and what comes out.

use vstd::prelude::*;

use crate::debezium::coordinates::{
    EnvelopeError, PostgresOpCoordinates, RowCoordinates, SqlServerLsn,
};
use crate::debezium::datum::{DatumView, Row};
use crate::debezium::dedup::{
    judge, DebeziumDeduplicationState, DebeziumEnvelope, DebeziumTransactionMetadata, DedupView,
};
use crate::debezium::position_laws::{
    has_source, holds, holds_text, lemma_no_source_is_always_used, lemma_snapshot_is_always_used,
    lemma_sql_server_order, lsn_before,
};
use crate::debezium::record_laws::{
    field_is_fine, is_fresh, lemma_before_is_taken_and_after_added, lemma_record_is_rendered,
    lemma_small_batches, takes_and_adds,
};
use crate::debezium::render::{
    changes, has_changes, render, send_changes, send_error, updates_view, RenderState, Update,
    UpdateView,
};
use crate::debezium::render_tx::{
    data_dist, read_transaction, read_tx_row, render_tx, transaction_of, tx_dist, DataRecord,
    DataRecordView, RenderTxState, TxRow, TxView,
};
use crate::debezium::tx_laws::{
    entry_counts, entry_named, entry_of_another, is_end, lemma_first_named_entry_counts,
    lemma_first_record_goes_first, lemma_no_named_entry_counts_nothing,
    lemma_rows_come_before_records, lemma_transaction_goes_out_at_its_end, lemma_waits_for_end,
};
use crate::source::types::{DataflowError, DecodeError, DecodeResult, Timestamp};

verus! {

/// The updates that were sent stay, and behind them come those that the record stands for: its
/// `before` row with diff -1 exactly if it has one, and its `after` row with diff 1 exactly if it
/// has one.
pub proof fn lemma_changes_are_sent(
    updates: &mut Vec<Update>,
    envelope: DebeziumEnvelope,
    cap: Timestamp,
    time: Timestamp,
    value: Row,
)
    requires
        field_is_fine(value@.datums, envelope.before_idx),
        field_is_fine(value@.datums, envelope.after_idx),
        call_ensures(send_changes, (updates, &envelope, cap, time, &value), ()),
    ensures
        ({
            let sent = old(updates)@.len() as int;
            let all = updates_view(final(updates)@);
            &&& all.len() >= sent
            &&& all.take(sent) == updates_view(old(updates)@)
            &&& takes_and_adds(envelope, value@.datums, cap, time, all.skip(sent))
        }),
{
    lemma_before_is_taken_and_after_added(envelope, cap, time, value@.datums);
    let sent = old(updates)@.len() as int;
    let all = updates_view(final(updates)@);
    let before = updates_view(old(updates)@);
    let more = changes(envelope, cap, time, value@.datums)->Some_0;
    assert(all == before + more);
    assert(all.take(sent) =~= before);
    assert(all.skip(sent) =~= more);
}

/// An error goes out behind the updates that were sent.
pub proof fn lemma_error_is_sent(
    updates: &mut Vec<Update>,
    cap: Timestamp,
    err: DataflowError,
    time: Timestamp,
)
    requires
        call_ensures(send_error, (updates, cap, err, time), ()),
    ensures
        ({
            let sent = old(updates)@.len() as int;
            let all = updates_view(final(updates)@);
            &&& all.len() == sent + 1
            &&& all.take(sent) == updates_view(old(updates)@)
            &&& all[sent] == (UpdateView { cap, data: Err(err@), time, diff: 1 })
        }),
{
    let sent = old(updates)@.len() as int;
    let all = updates_view(final(updates)@);
    assert(all.take(sent) =~= updates_view(old(updates)@));
}

/// A record can be turned into updates exactly if its `before` and `after` fields are rows or null.
pub proof fn lemma_changes_are_checked(envelope: DebeziumEnvelope, value: Row, has: bool)
    requires
        call_ensures(has_changes, (&envelope, &value), has),
    ensures
        has <==> field_is_fine(value@.datums, envelope.before_idx) && field_is_fine(
            value@.datums,
            envelope.after_idx,
        ),
{
}

/// A SQL Server position is after another if its log sequence number is, and not after it if the
/// other's is, whatever the serial numbers are. These decide where the log sequence numbers are
/// equal.
pub proof fn lemma_sql_server_after(
    a: SqlServerLsn,
    b: SqlServerLsn,
    a_serial: i64,
    b_serial: i64,
    after: bool,
)
    requires
        ({
            let x = RowCoordinates::SqlServer { change_lsn: a, event_serial_no: a_serial };
            let y = RowCoordinates::SqlServer { change_lsn: b, event_serial_no: b_serial };
            call_ensures(RowCoordinates::is_after, (&x, &y), after)
        }),
    ensures
        lsn_before(b, a) ==> after,
        lsn_before(a, b) ==> !after,
        a == b ==> (after <==> b_serial < a_serial),
{
    lemma_sql_server_order(a, b, a_serial, b_serial);
    lemma_sql_server_order(b, a, b_serial, a_serial);
}

/// A MySQL position is after another by its log file, then by its place in the file, then by its
/// row.
pub proof fn lemma_mysql_after(
    a: (i64, i64, i32),
    b: (i64, i64, i32),
    after: bool,
)
    requires
        ({
            let x = RowCoordinates::MySql { file: a.0, pos: a.1, row: a.2 };
            let y = RowCoordinates::MySql { file: b.0, pos: b.1, row: b.2 };
            call_ensures(RowCoordinates::is_after, (&x, &y), after)
        }),
    ensures
        a.0 != b.0 ==> (after <==> a.0 > b.0),
        a.0 == b.0 && a.1 != b.1 ==> (after <==> a.1 > b.1),
        a.0 == b.0 && a.1 == b.1 ==> (after <==> a.2 > b.2),
{
}

/// A PostgreSQL position is after another by the last commit, where none comes first, then by its
/// log sequence number, then by its operation: deletes come before creates, and both before all
/// others.
pub proof fn lemma_postgres_after(
    a: (Option<u64>, i64, PostgresOpCoordinates),
    b: (Option<u64>, i64, PostgresOpCoordinates),
    after: bool,
)
    requires
        ({
            let x = RowCoordinates::Postgres { last_commit_lsn: a.0, lsn: a.1, op_type: a.2 };
            let y = RowCoordinates::Postgres { last_commit_lsn: b.0, lsn: b.1, op_type: b.2 };
            call_ensures(RowCoordinates::is_after, (&x, &y), after)
        }),
    ensures
        a.0 is None && b.0 is Some ==> !after,
        a.0 is Some && b.0 is None ==> after,
        a.0 is Some && b.0 is Some && a.0 != b.0 ==> (after <==> a.0->Some_0 > b.0->Some_0),
        a.0 == b.0 && a.1 != b.1 ==> (after <==> a.1 > b.1),
        a.0 == b.0 && a.1 == b.1 ==> (after <==> (b.2 is Delete && !(a.2 is Delete)) || (b.2
            is Create && a.2 is Other)),
{
}

/// A record of a snapshot has no position, and its reading changes nothing.
pub proof fn lemma_snapshot_has_no_position(
    dedup: &mut DebeziumDeduplicationState,
    value: Row,
    source: Seq<DatumView>,
    snapshot: DatumView,
    position: Result<Option<RowCoordinates>, EnvelopeError>,
)
    requires
        has_source(old(dedup).projection, value@.datums, source, snapshot),
        snapshot is True || (snapshot matches DatumView::String(text) && text != "false"@),
        call_ensures(
            DebeziumDeduplicationState::extract_binlog_position,
            (dedup, &value),
            position,
        ),
    ensures
        position matches Ok(read) && read is None,
        final(dedup)@ == old(dedup)@,
        final(dedup).projection == old(dedup).projection,
{
    lemma_snapshot_is_always_used(
        old(dedup).projection,
        old(dedup)@,
        value@.datums,
        source,
        snapshot,
    );
}

/// A record of a snapshot, or without a source, is used whatever came before it, and moves neither
/// the last recorded position nor the numbers of log files.
pub proof fn lemma_snapshot_is_used(
    dedup: &mut DebeziumDeduplicationState,
    value: Row,
    source: Seq<DatumView>,
    snapshot: DatumView,
    verdict: Option<Result<bool, EnvelopeError>>,
)
    requires
        holds(value@.datums, old(dedup).projection.source_idx, DatumView::Null) || (has_source(
            old(dedup).projection,
            value@.datums,
            source,
            snapshot,
        ) && (snapshot is True || (snapshot matches DatumView::String(text) && text != "false"@))),
        old(dedup)@.messages_processed < u64::MAX,
        call_ensures(DebeziumDeduplicationState::try_should_use_record, (dedup, &value), verdict),
    ensures
        verdict matches Some(Ok(used)) && used,
        final(dedup)@.last_position == old(dedup)@.last_position,
        final(dedup)@.filenames == old(dedup)@.filenames,
        final(dedup)@.messages_processed == old(dedup)@.messages_processed + 1,
{
    if holds(value@.datums, old(dedup).projection.source_idx, DatumView::Null) {
        lemma_no_source_is_always_used(old(dedup).projection, old(dedup)@, value@.datums);
    } else {
        lemma_snapshot_is_always_used(
            old(dedup).projection,
            old(dedup)@,
            value@.datums,
            source,
            snapshot,
        );
    }
}

/// A row that ends a transaction is read with the number of events of the first entry that names
/// the data collection that is rendered, whatever follows it.
pub proof fn lemma_end_is_read(
    metadata: DebeziumTransactionMetadata,
    row: Row,
    tx_id: Seq<char>,
    collections: Seq<DatumView>,
    k: int,
    count: i64,
    read: Option<Option<(String, i64)>>,
)
    requires
        is_end(metadata, row@.datums, tx_id, collections),
        0 <= k <= collections.len(),
        forall|j: int|
            0 <= j < k ==> entry_of_another(metadata, #[trigger] collections[j]),
        k < collections.len() ==> entry_named(
            metadata,
            collections[k],
            metadata.tx_data_collection_name@,
        ) && entry_counts(metadata, collections[k], count),
        k == collections.len() ==> count == 0,
        call_ensures(read_tx_row, (&metadata, &row), read),
    ensures
        read matches Some(Some((id, events))) && id@ == tx_id && events == count,
{
    if k < collections.len() {
        lemma_first_named_entry_counts(metadata, row@.datums, tx_id, collections, k, count);
    } else {
        lemma_no_named_entry_counts_nothing(metadata, row@.datums, tx_id, collections);
    }
}

/// A record goes to the worker that the metadata of its transaction goes to.
pub proof fn lemma_records_meet_their_transaction(
    metadata: DebeziumTransactionMetadata,
    result: DecodeResult,
    value: Seq<DatumView>,
    tx_id: Seq<char>,
    row: Row,
    time: Timestamp,
    record_worker: Option<u64>,
    row_worker: u64,
)
    requires
        result@.value == Some(Ok::<_, DecodeError>((value, 1i64))),
        transaction_of(metadata, value) == Some(Some(tx_id)),
        holds_text(row@.datums, metadata.tx_transaction_id_idx, tx_id),
        call_ensures(data_dist, (&metadata, &result), record_worker),
        call_ensures(tx_dist, (&metadata, &row, time), row_worker),
    ensures
        record_worker == Some(row_worker),
{
}

/// Any record goes to some worker, unless its diff is not 1 or its transaction cannot be read.
pub proof fn lemma_records_go_somewhere(
    metadata: DebeziumTransactionMetadata,
    result: DecodeResult,
    worker: Option<u64>,
)
    requires
        call_ensures(data_dist, (&metadata, &result), worker),
    ensures
        match result@.value {
            Some(Ok((value, diff))) => worker is None <==> diff != 1
                || transaction_of(metadata, value) is None,
            _ => worker is Some,
        },
{
}

/// The transaction of a record is the one whose id its transaction field holds, and none if that
/// field is null.
pub proof fn lemma_transaction_of_record(
    metadata: DebeziumTransactionMetadata,
    value: Row,
    fields: Seq<DatumView>,
    tx_id: Seq<char>,
    read: Option<Option<&String>>,
)
    requires
        call_ensures(read_transaction, (&metadata, &value), read),
    ensures
        holds(value@.datums, metadata.data_transaction_idx, DatumView::Null) ==> (read matches Some(
            transaction,
        ) && transaction is None),
        holds(value@.datums, metadata.data_transaction_idx, DatumView::List(fields)) && holds_text(
            fields,
            metadata.data_transaction_id_idx,
            tx_id,
        ) ==> (read matches Some(Some(id)) && id@ == tx_id),
{
}

/// A capability is needed exactly as long as a transaction is open with it, or a record waits with
/// it.
pub proof fn lemma_capabilities_are_kept(
    state: RenderTxState,
    cap: Timestamp,
    tx_id: Seq<char>,
    i: int,
    needed: bool,
)
    requires
        state.wf(),
        call_ensures(RenderTxState::needs_capability, (&state, cap), needed),
    ensures
        state@.open.contains_key(tx_id) && state@.open[tx_id].0 == cap ==> needed,
        0 <= i < state@.data_buffer.len() && state@.data_buffer[i].cap == cap ==> needed,
        (forall|id: Seq<char>| #[trigger]
            state@.open.contains_key(id) ==> state@.open[id].0 != cap) && (forall|j: int|
            0 <= j < state@.data_buffer.len() ==> (#[trigger] state@.data_buffer[j]).cap != cap)
            ==> !needed,
{
}

/// A record that is used and comes alone is rendered as the updates that it stands for, at the time
/// of its batch.
pub proof fn lemma_record_comes_out(
    state: &mut RenderState,
    time: Timestamp,
    data: Vec<DecodeResult>,
    value: Seq<DatumView>,
    dedup: DedupView,
    updates: Option<Vec<Update>>,
)
    requires
        old(state).wf(),
        data@.len() == 1,
        data@[0]@.value == Some(Ok::<_, DecodeError>((value, 1i64))),
        if old(state).dedups@.contains_key(data@[0].partition) {
            dedup == old(state).dedups@[data@[0].partition]
        } else {
            is_fresh(dedup)
        },
        judge(old(state).envelope.dedup, dedup, value) matches Some((_, Ok(used))) && used,
        field_is_fine(value, old(state).envelope.before_idx),
        field_is_fine(value, old(state).envelope.after_idx),
        call_ensures(render, (state, time, data), updates),
    ensures
        updates matches Some(sent) && takes_and_adds(
            old(state).envelope,
            value,
            time,
            time,
            updates_view(sent@),
        ),
{
    let envelope = old(state).envelope;
    let dedups = old(state).dedups@;
    let record = data@[0]@;
    lemma_small_batches(envelope, dedups, time, record);
    lemma_record_is_rendered(envelope, dedups, time, record, value, dedup);
    assert(data@.map_values(|r: DecodeResult| r@) =~= seq![record]);
}

/// A record whose transaction ends at the same activation, on which nothing waits, comes out as the
/// updates that it stands for, at the time of the end and with its capability.
pub proof fn lemma_transaction_comes_out(
    state: &mut RenderTxState,
    tx_data: Vec<TxRow>,
    data: Vec<DataRecord>,
    collections: Seq<DatumView>,
    k: int,
    count: i64,
    tx_id: Seq<char>,
    value: Seq<DatumView>,
    dedup: DedupView,
    updates: Option<Vec<Update>>,
)
    requires
        old(state).wf(),
        old(state)@.data_buffer.len() == 0,
        !old(state)@.tx_mapping.contains_key(tx_id),
        tx_data@.len() == 1,
        is_end(old(state).metadata, tx_data@[0].row@.datums, tx_id, collections),
        tx_data@[0].diff == 1,
        0 <= k < collections.len(),
        forall|j: int|
            0 <= j < k ==> entry_of_another(old(state).metadata, #[trigger] collections[j]),
        entry_named(
            old(state).metadata,
            collections[k],
            old(state).metadata.tx_data_collection_name@,
        ),
        entry_counts(old(state).metadata, collections[k], count),
        count > 0,
        data@.len() == 1,
        data@[0].result@.value == Some(Ok::<_, DecodeError>((value, 1i64))),
        transaction_of(old(state).metadata, value) == Some(Some(tx_id)),
        if old(state)@.dedups.contains_key(data@[0].result.partition) {
            dedup == old(state)@.dedups[data@[0].result.partition]
        } else {
            is_fresh(dedup)
        },
        judge(old(state).envelope.dedup, dedup, value) matches Some((_, Ok(used))) && used,
        field_is_fine(value, old(state).envelope.before_idx),
        field_is_fine(value, old(state).envelope.after_idx),
        call_ensures(render_tx, (state, tx_data, data), updates),
    ensures
        updates matches Some(sent) && takes_and_adds(
            old(state).envelope,
            value,
            tx_data@[0].cap,
            tx_data@[0].time,
            updates_view(sent@),
        ),
        final(state)@.data_buffer.len() == 0,
        final(state)@.tx_mapping.contains_key(tx_id),
        final(state)@.open.contains_key(tx_id) <==> count != 1,
{
    lemma_transaction_goes_out_at_its_end(
        old(state).envelope,
        old(state).metadata,
        old(state)@,
        tx_data@[0]@,
        collections,
        k,
        count,
        tx_id,
        data@[0]@,
        value,
        dedup,
    );
    assert(tx_data@.map_values(|r: TxRow| r@) =~= seq![tx_data@[0]@]);
    assert(data@.map_values(|r: DataRecord| r@) =~= seq![data@[0]@]);
}

/// A record of a transaction whose end has not been read stays behind those that wait already, and
/// nothing comes out.
pub proof fn lemma_record_waits(
    state: &mut RenderTxState,
    tx_data: Vec<TxRow>,
    data: Vec<DataRecord>,
    value: Seq<DatumView>,
    tx_id: Seq<char>,
    updates: Option<Vec<Update>>,
)
    requires
        old(state).wf(),
        old(state)@.data_buffer.len() == 0,
        !old(state)@.tx_mapping.contains_key(tx_id),
        tx_data@.len() == 0,
        data@.len() == 1,
        data@[0].result@.value == Some(Ok::<_, DecodeError>((value, 1i64))),
        transaction_of(old(state).metadata, value) == Some(Some(tx_id)),
        call_ensures(render_tx, (state, tx_data, data), updates),
    ensures
        updates matches Some(sent) && sent@.len() == 0,
        final(state)@.data_buffer == seq![data@[0]@],
        final(state)@.tx_mapping == old(state)@.tx_mapping,
        final(state)@.open == old(state)@.open,
        final(state)@.dedups == old(state)@.dedups,
{
    let (envelope, metadata) = (old(state).envelope, old(state).metadata);
    let record = data@[0]@;
    lemma_first_record_goes_first(envelope, metadata, old(state)@, record, Seq::empty());
    lemma_waits_for_end(
        envelope,
        metadata,
        TxView { data_buffer: Seq::empty(), ..old(state)@ },
        record,
    );
    lemma_rows_come_before_records(envelope, metadata, old(state)@, Seq::empty(), seq![record]);
    assert(tx_data@.map_values(|r: TxRow| r@) =~= Seq::empty());
    assert(data@.map_values(|r: DataRecord| r@) =~= seq![record]);
    assert(old(state)@.data_buffer + seq![record] =~= seq![record] + Seq::empty());
    assert(seq![record] + Seq::<DataRecordView>::empty() =~= seq![record]);
}

} // verus!
