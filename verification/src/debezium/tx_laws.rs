//! What transaction metadata is for: which transactions have ended, with how many events, and what
//! that does to records.

use vstd::prelude::*;

use crate::debezium::datum::DatumView;
use crate::debezium::dedup::{
    fresh_dedup, judge, DebeziumEnvelope, DebeziumTransactionMetadata, DedupView,
};
use crate::debezium::position_laws::{holds, holds_text};
use crate::debezium::record_laws::{
    field_is_fine, is_fresh, lemma_before_is_taken_and_after_added, takes_and_adds,
};
use crate::debezium::render::UpdateView;
use crate::debezium::render_tx::{
    activate, data_record, drain, ended_transaction, find_event_count, transaction_of, tx_row,
    tx_rows, DataRecordView, Handled, TxRowView, TxView,
};
use crate::source::types::{DataflowErrorView, DecodeError};
use crate::text::signed_decimal;

verus! {

/// Whether an entry of the data collections of a transaction has a name.
pub open spec fn entry_named(
    metadata: DebeziumTransactionMetadata,
    entry: DatumView,
    name: Seq<char>,
) -> bool {
    &&& entry matches DatumView::List(fields)
    &&& holds_text(fields, metadata.tx_data_collections_data_collection_idx, name)
}

/// Whether an entry of the data collections of a transaction has a name other than that of the data
/// collection that is rendered.
pub open spec fn entry_of_another(metadata: DebeziumTransactionMetadata, entry: DatumView) -> bool {
    exists|name: Seq<char>| #[trigger]
        entry_named(metadata, entry, name) && name != metadata.tx_data_collection_name@
}

/// Whether an entry of the data collections of a transaction has a number of events: an integer of
/// any size, or null for 0.
pub open spec fn entry_counts(
    metadata: DebeziumTransactionMetadata,
    entry: DatumView,
    count: i64,
) -> bool {
    &&& entry matches DatumView::List(fields)
    &&& metadata.tx_data_collections_event_count_idx < fields.len()
    &&& match fields[metadata.tx_data_collections_event_count_idx as int] {
        DatumView::Int16(i) => count == i,
        DatumView::Int32(i) => count == i,
        DatumView::Int64(i) => count == i,
        DatumView::Null => count == 0,
        _ => false,
    }
}

/// Whether a row of transaction metadata is the end of a transaction, with data collections.
pub open spec fn is_end(
    metadata: DebeziumTransactionMetadata,
    row: Seq<DatumView>,
    tx_id: Seq<char>,
    collections: Seq<DatumView>,
) -> bool {
    &&& holds_text(row, metadata.tx_status_idx, "END"@)
    &&& holds_text(row, metadata.tx_transaction_id_idx, tx_id)
    &&& holds(row, metadata.tx_data_collections_idx, DatumView::List(collections)) || holds(
        row,
        metadata.tx_data_collections_idx,
        DatumView::Array(collections),
    )
}

proof fn lemma_count_from(
    metadata: DebeziumTransactionMetadata,
    collections: Seq<DatumView>,
    from: nat,
    k: int,
)
    requires
        from <= k <= collections.len(),
        forall|j: int|
            0 <= j < k ==> entry_of_another(metadata, #[trigger] collections[j]),
    ensures
        find_event_count(metadata, collections, from) == find_event_count(
            metadata,
            collections,
            k as nat,
        ),
    decreases k - from,
{
    if from < k {
        assert(entry_of_another(metadata, collections[from as int]));
        lemma_count_from(metadata, collections, from + 1, k);
    }
}

/// The number of events of a transaction is that of the first entry that names the data collection
/// that is rendered, whatever entries follow it.
pub proof fn lemma_first_named_entry_counts(
    metadata: DebeziumTransactionMetadata,
    row: Seq<DatumView>,
    tx_id: Seq<char>,
    collections: Seq<DatumView>,
    k: int,
    count: i64,
)
    requires
        is_end(metadata, row, tx_id, collections),
        0 <= k < collections.len(),
        forall|j: int|
            0 <= j < k ==> entry_of_another(metadata, #[trigger] collections[j]),
        entry_named(metadata, collections[k], metadata.tx_data_collection_name@),
        entry_counts(metadata, collections[k], count),
    ensures
        ended_transaction(metadata, row) == Some(Some((tx_id, count))),
{
    lemma_count_from(metadata, collections, 0, k);
}

/// A transaction has no events if no entry names the data collection that is rendered.
pub proof fn lemma_no_named_entry_counts_nothing(
    metadata: DebeziumTransactionMetadata,
    row: Seq<DatumView>,
    tx_id: Seq<char>,
    collections: Seq<DatumView>,
)
    requires
        is_end(metadata, row, tx_id, collections),
        forall|j: int|
            0 <= j < collections.len() ==> entry_of_another(metadata, #[trigger] collections[j]),
    ensures
        ended_transaction(metadata, row) == Some(Some((tx_id, 0i64))),
{
    lemma_count_from(metadata, collections, 0, collections.len() as int);
}

/// An entry that is no list with a name, or that names the data collection that is rendered and has
/// no number of events, cannot be read, unless an earlier one has named it.
pub proof fn lemma_entries_must_be_laid_out(
    metadata: DebeziumTransactionMetadata,
    row: Seq<DatumView>,
    tx_id: Seq<char>,
    collections: Seq<DatumView>,
    k: int,
)
    requires
        is_end(metadata, row, tx_id, collections),
        0 <= k < collections.len(),
        forall|j: int|
            0 <= j < k ==> entry_of_another(metadata, #[trigger] collections[j]),
        (forall|name: Seq<char>| !#[trigger] entry_named(metadata, collections[k], name)) || (
        entry_named(metadata, collections[k], metadata.tx_data_collection_name@) && forall|
            count: i64,
        |
            !#[trigger] entry_counts(metadata, collections[k], count)),
    ensures
        ended_transaction(metadata, row) is None,
{
    lemma_count_from(metadata, collections, 0, k);
    let entry = collections[k];
    if let DatumView::List(fields) = entry {
        let at = metadata.tx_data_collections_data_collection_idx;
        if at < fields.len() {
            if let DatumView::String(name) = fields[at as int] {
                assert(entry_named(metadata, entry, name));
                let place = metadata.tx_data_collections_event_count_idx;
                if place < fields.len() {
                    match fields[place as int] {
                        DatumView::Int16(i) => {
                            assert(entry_counts(metadata, entry, i as i64));
                        },
                        DatumView::Int32(i) => {
                            assert(entry_counts(metadata, entry, i as i64));
                        },
                        DatumView::Int64(i) => {
                            assert(entry_counts(metadata, entry, i));
                        },
                        DatumView::Null => {
                            assert(entry_counts(metadata, entry, 0));
                        },
                        _ => {},
                    }
                }
            }
        }
    }
}

/// A row with a status other than "END" says nothing of an end, whatever else it holds, and a row
/// without a status, or an end without a transaction or without data collections, cannot be read.
pub proof fn lemma_only_ends_count(
    metadata: DebeziumTransactionMetadata,
    row: Seq<DatumView>,
    status: Seq<char>,
)
    ensures
        holds_text(row, metadata.tx_status_idx, status) && status != "END"@ ==> ended_transaction(
            metadata,
            row,
        ) == Some(None::<(Seq<char>, i64)>),
        metadata.tx_status_idx >= row.len() || !(row[metadata.tx_status_idx as int] is String)
            ==> ended_transaction(metadata, row) is None,
        holds_text(row, metadata.tx_status_idx, "END"@) && (metadata.tx_transaction_id_idx
            >= row.len() || !(row[metadata.tx_transaction_id_idx as int] is String))
            ==> ended_transaction(metadata, row) is None,
        holds_text(row, metadata.tx_status_idx, "END"@) && (metadata.tx_data_collections_idx
            >= row.len() || !(row[metadata.tx_data_collections_idx as int] is List
            || row[metadata.tx_data_collections_idx as int] is Array)) ==> ended_transaction(
            metadata,
            row,
        ) is None,
{
}

/// Whether the updates of a row of transaction metadata are right: one error if its diff is other
/// than 1, and none otherwise.
pub open spec fn complains(row: TxRowView, updates: Seq<UpdateView>) -> bool {
    if row.diff == 1 {
        updates.len() == 0
    } else {
        &&& updates.len() == 1
        &&& updates[0].data == Err::<Seq<DatumView>, _>(
            DataflowErrorView::EvalError(
                "Transaction metadata supplied diff value "@ + signed_decimal(row.diff as int),
            ),
        )
        &&& updates[0].cap == row.cap
        &&& updates[0].time == row.time
        &&& updates[0].diff == 1
    }
}

/// The end of a transaction with events makes the transaction known at the time of the row, and
/// open with the capability of the row and as many events to come. If it is known already at the
/// same time, nothing changes; at another time, it cannot be handled. An end without events changes
/// nothing, and neither does a row that is no end. No record is touched by it.
pub proof fn lemma_end_opens_transaction(
    metadata: DebeziumTransactionMetadata,
    state: TxView,
    row: TxRowView,
)
    ensures
        ({
            let handled = tx_row(metadata, state, row);
            match ended_transaction(metadata, row.row) {
                None => handled is None,
                Some(None) => handled is Some && handled->Some_0.0 == state && complains(
                    row,
                    handled->Some_0.1,
                ),
                Some(Some((tx_id, count))) => {
                    let known = state.tx_mapping.contains_key(tx_id);
                    &&& handled is None <==> count != 0 && known && state.tx_mapping[tx_id]
                        != row.time
                    &&& handled is Some ==> complains(row, handled->Some_0.1)
                    &&& handled is Some && (count == 0 || known) ==> handled->Some_0.0 == state
                    &&& count != 0 && !known ==> {
                        let after = handled->Some_0.0;
                        &&& after.tx_mapping == state.tx_mapping.insert(tx_id, row.time)
                        &&& after.open == state.open.insert(tx_id, (row.cap, count))
                        &&& after.data_buffer == state.data_buffer
                        &&& after.dedups == state.dedups
                    }
                },
            }
        }),
{
}

/// No rows change nothing, and one row is handled as that row. With what is said of rows one behind
/// the other, this tells how any rows are handled.
pub proof fn lemma_few_rows(metadata: DebeziumTransactionMetadata, state: TxView, row: TxRowView)
    ensures
        tx_rows(metadata, state, Seq::empty()) matches Some((after, updates)) && after == state
            && updates.len() == 0,
        tx_rows(metadata, state, seq![row]) == tx_row(metadata, state, row),
{
    let one = seq![row];
    assert(one.drop_last() =~= Seq::empty());
    assert(one.last() == row);
    assert(tx_rows(metadata, state, one.drop_last()) == Some((state, Seq::<UpdateView>::empty())));
    if let Some((_, updates)) = tx_row(metadata, state, row) {
        assert(Seq::empty() + updates =~= updates);
    }
}

/// A record belongs to the transaction whose id its transaction field holds, or to none if that
/// field is null. Otherwise it cannot be read.
pub proof fn lemma_transaction_is_read(
    metadata: DebeziumTransactionMetadata,
    value: Seq<DatumView>,
)
    ensures
        ({
            let place = metadata.data_transaction_idx;
            let read = transaction_of(metadata, value);
            if place >= value.len() {
                read is None
            } else {
                match value[place as int] {
                    DatumView::Null => read == Some(None::<Seq<char>>),
                    DatumView::List(fields) => {
                        &&& forall|tx_id: Seq<char>| #[trigger]
                            holds_text(fields, metadata.data_transaction_id_idx, tx_id) ==> read
                                == Some(Some(tx_id))
                        &&& metadata.data_transaction_id_idx >= fields.len()
                            || !(fields[metadata.data_transaction_id_idx as int] is String) ==> read
                            is None
                    },
                    _ => read is None,
                }
            }
        }),
{
}

/// A record of a transaction whose end has not been read waits, and nothing else does.
pub proof fn lemma_waits_for_end(
    envelope: DebeziumEnvelope,
    metadata: DebeziumTransactionMetadata,
    state: TxView,
    record: DataRecordView,
)
    ensures
        data_record(envelope, metadata, state, record) == Some(Handled::Waits) <==> {
            &&& record.record.value matches Some(Ok((value, diff)))
            &&& diff == 1
            &&& transaction_of(metadata, value) matches Some(Some(tx_id))
            &&& !state.tx_mapping.contains_key(tx_id)
        },
{
}

/// A record without a value gives nothing, one that could not be decoded gives its error at its own
/// time, and neither changes anything. A record with a diff other than 1, or that cannot be told
/// which transaction it belongs to, cannot be rendered.
pub proof fn lemma_other_tx_records(
    envelope: DebeziumEnvelope,
    metadata: DebeziumTransactionMetadata,
    state: TxView,
    record: DataRecordView,
)
    ensures
        ({
            let handled = data_record(envelope, metadata, state, record);
            match record.record.value {
                None => handled matches Some(Handled::Done(after, updates)) && after == state
                    && updates.len() == 0,
                Some(Err(err)) => {
                    &&& handled matches Some(Handled::Done(after, updates))
                    &&& after == state
                    &&& updates.len() == 1
                    &&& updates[0].data == Err::<Seq<DatumView>, _>(
                        DataflowErrorView::DecodeError(err),
                    )
                    &&& updates[0].cap == record.cap
                    &&& updates[0].time == record.cap
                    &&& updates[0].diff == 1
                },
                Some(Ok((value, diff))) => diff != 1 || transaction_of(metadata, value) is None
                    ==> handled is None,
            }
        }),
{
}

/// A record that need not wait is judged by the messages of its partition. If it is used and
/// belongs to no transaction, its updates go out at its own time. If it belongs to a transaction,
/// they go out at the time of that, with the capability of that, and the transaction has one event
/// less to come: with none left it is closed, and if it was closed before, the record cannot be
/// rendered. One that is not used changes nothing else, and one whose envelope cannot be read gives
/// an error at its own time.
pub proof fn lemma_tx_record_is_rendered(
    envelope: DebeziumEnvelope,
    metadata: DebeziumTransactionMetadata,
    state: TxView,
    record: DataRecordView,
    value: Seq<DatumView>,
    transaction: Option<Seq<char>>,
    dedup: DedupView,
)
    requires
        record.record.value == Some(Ok::<_, DecodeError>((value, 1i64))),
        transaction_of(metadata, value) == Some(transaction),
        transaction matches Some(tx_id) ==> state.tx_mapping.contains_key(tx_id),
        if state.dedups.contains_key(record.record.partition) {
            dedup == state.dedups[record.record.partition]
        } else {
            is_fresh(dedup)
        },
    ensures
        ({
            let handled = data_record(envelope, metadata, state, record);
            match judge(envelope.dedup, dedup, value) {
                None => handled is None,
                Some((after_dedup, verdict)) => {
                    let judged = TxView {
                        dedups: state.dedups.insert(record.record.partition, after_dedup),
                        ..state
                    };
                    let fine = field_is_fine(value, envelope.before_idx) && field_is_fine(
                        value,
                        envelope.after_idx,
                    );
                    match verdict {
                        Err(message) => {
                            &&& handled matches Some(Handled::Done(after, updates))
                            &&& after == judged
                            &&& updates.len() == 1
                            &&& updates[0].data == Err::<Seq<DatumView>, _>(
                                DataflowErrorView::EnvelopeError(message),
                            )
                            &&& updates[0].cap == record.cap
                            &&& updates[0].time == record.cap
                            &&& updates[0].diff == 1
                        },
                        Ok(used) => if !used {
                            handled matches Some(Handled::Done(after, updates)) && after == judged
                                && updates.len() == 0
                        } else {
                            match transaction {
                                None => {
                                    &&& handled is Some <==> fine
                                    &&& fine ==> {
                                        &&& handled matches Some(Handled::Done(after, updates))
                                        &&& after == judged
                                        &&& takes_and_adds(
                                            envelope,
                                            value,
                                            record.cap,
                                            record.cap,
                                            updates,
                                        )
                                    }
                                },
                                Some(tx_id) => {
                                    let (cap, left) = state.open[tx_id];
                                    &&& handled is Some <==> fine && state.open.contains_key(tx_id)
                                        && left > i64::MIN
                                    &&& handled is Some ==> {
                                        &&& handled matches Some(Handled::Done(after, updates))
                                        &&& takes_and_adds(
                                            envelope,
                                            value,
                                            cap,
                                            state.tx_mapping[tx_id],
                                            updates,
                                        )
                                        &&& after.tx_mapping == state.tx_mapping
                                        &&& after.data_buffer == state.data_buffer
                                        &&& after.dedups == judged.dedups
                                        &&& after.open == if left == 1 {
                                            state.open.remove(tx_id)
                                        } else {
                                            state.open.insert(tx_id, (cap, (left - 1) as i64))
                                        }
                                    }
                                },
                            }
                        },
                    }
                },
            }
        }),
{
    lemma_before_is_taken_and_after_added(envelope, record.cap, record.cap, value);
    if let Some(tx_id) = transaction {
        lemma_before_is_taken_and_after_added(
            envelope,
            state.open[tx_id].0,
            state.tx_mapping[tx_id],
            value,
        );
    }
    if !state.dedups.contains_key(record.record.partition) {
        assert(dedup == fresh_dedup());
    }
}

/// Records that have not been rendered are rendered from the first on: nothing is done without one;
/// one that waits holds up itself and all behind it; one that can be rendered goes out before what
/// is behind it; and one that cannot be rendered stops everything.
pub proof fn lemma_first_record_goes_first(
    envelope: DebeziumEnvelope,
    metadata: DebeziumTransactionMetadata,
    state: TxView,
    first: DataRecordView,
    rest: Seq<DataRecordView>,
)
    ensures
        state.data_buffer.len() == 0 ==> (drain(envelope, metadata, state) matches Some(
            (after, updates),
        ) && after == state && updates.len() == 0),
        ({
            let full = TxView { data_buffer: seq![first] + rest, ..state };
            let behind = TxView { data_buffer: rest, ..state };
            match data_record(envelope, metadata, behind, first) {
                None => drain(envelope, metadata, full) is None,
                Some(Handled::Waits) => drain(envelope, metadata, full) matches Some(
                    (after, updates),
                ) && after == full && updates.len() == 0,
                Some(Handled::Done(next, updates)) => match drain(envelope, metadata, next) {
                    None => drain(envelope, metadata, full) is None,
                    Some((after, more)) => drain(envelope, metadata, full) == Some(
                        (after, updates + more),
                    ),
                },
            }
        }),
{
    let full = TxView { data_buffer: seq![first] + rest, ..state };
    assert(full.data_buffer.drop_first() =~= rest);
    assert(full.data_buffer[0] == first);
}

/// At an activation, the rows of transaction metadata are handled before any record, so that a
/// record whose transaction ends at the same activation need not wait; the records that arrive go
/// behind those that have not been rendered; and the errors of the rows come before the updates of
/// the records.
pub proof fn lemma_rows_come_before_records(
    envelope: DebeziumEnvelope,
    metadata: DebeziumTransactionMetadata,
    state: TxView,
    rows: Seq<TxRowView>,
    records: Seq<DataRecordView>,
)
    ensures
        match tx_rows(metadata, state, rows) {
            None => activate(envelope, metadata, state, rows, records) is None,
            Some((read, errors)) => {
                let ready = TxView { data_buffer: read.data_buffer + records, ..read };
                match drain(envelope, metadata, ready) {
                    None => activate(envelope, metadata, state, rows, records) is None,
                    Some((after, updates)) => activate(envelope, metadata, state, rows, records)
                        == Some((after, errors + updates)),
                }
            },
        },
{
}

/// A record whose transaction ends at the same activation, on which nothing else is waiting, goes
/// out at the time of the end, and the transaction stays open exactly if more records are owed.
pub proof fn lemma_transaction_goes_out_at_its_end(
    envelope: DebeziumEnvelope,
    metadata: DebeziumTransactionMetadata,
    state: TxView,
    end: TxRowView,
    collections: Seq<DatumView>,
    k: int,
    count: i64,
    tx_id: Seq<char>,
    record: DataRecordView,
    value: Seq<DatumView>,
    dedup: DedupView,
)
    requires
        state.data_buffer.len() == 0,
        !state.tx_mapping.contains_key(tx_id),
        is_end(metadata, end.row, tx_id, collections),
        end.diff == 1,
        0 <= k < collections.len(),
        forall|j: int|
            0 <= j < k ==> entry_of_another(metadata, #[trigger] collections[j]),
        entry_named(metadata, collections[k], metadata.tx_data_collection_name@),
        entry_counts(metadata, collections[k], count),
        count > 0,
        record.record.value == Some(Ok::<_, DecodeError>((value, 1i64))),
        transaction_of(metadata, value) == Some(Some(tx_id)),
        if state.dedups.contains_key(record.record.partition) {
            dedup == state.dedups[record.record.partition]
        } else {
            is_fresh(dedup)
        },
        judge(envelope.dedup, dedup, value) matches Some((_, Ok(used))) && used,
        field_is_fine(value, envelope.before_idx),
        field_is_fine(value, envelope.after_idx),
    ensures
        activate(envelope, metadata, state, seq![end], seq![record]) matches Some((after, updates))
            && takes_and_adds(envelope, value, end.cap, end.time, updates)
            && after.data_buffer.len() == 0 && after.tx_mapping.contains_key(tx_id)
            && after.tx_mapping[tx_id] == end.time && (after.open.contains_key(tx_id) <==> count
            != 1),
{
    lemma_first_named_entry_counts(metadata, end.row, tx_id, collections, k, count);
    lemma_few_rows(metadata, state, end);
    lemma_end_opens_transaction(metadata, state, end);
    let (read, errors) = tx_row(metadata, state, end)->Some_0;
    let ready = TxView { data_buffer: read.data_buffer + seq![record], ..read };
    let behind = TxView { data_buffer: Seq::empty(), ..read };
    assert(ready.data_buffer =~= seq![record] + Seq::<DataRecordView>::empty());
    lemma_first_record_goes_first(envelope, metadata, read, record, Seq::empty());
    lemma_tx_record_is_rendered(envelope, metadata, behind, record, value, Some(tx_id), dedup);
    if let Some(Handled::Done(next, updates)) = data_record(envelope, metadata, behind, record) {
        lemma_first_record_goes_first(envelope, metadata, next, record, Seq::empty());
        let more = drain(envelope, metadata, next)->Some_0.1;
        assert(updates + more =~= updates);
        assert(errors + updates =~= updates);
    }
}

} // verus!
