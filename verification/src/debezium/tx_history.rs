//! What holds of the rendering of a source with transaction metadata, over any number of
//! activations.

use vstd::prelude::*;

use crate::debezium::coordinates::RowCoordinates;
use crate::debezium::datum::DatumView;
use crate::debezium::dedup::{judge, DebeziumEnvelope, DebeziumTransactionMetadata, DedupView};
use crate::debezium::dedup_history::{
    has_position, lemma_judged_is_seen, lemma_seen_is_refused, lemma_seen_stays_seen, seen,
};
use crate::debezium::render::{changes, dedup_of, UpdateView};
use crate::debezium::render_tx::{
    activate, data_record, drain, ended_transaction, lemma_record_keeps_buffer,
    lemma_rendered_in_order, lemma_transaction_keeps_time, transaction_of, tx_row, tx_rows,
    DataRecordView, Handled, TxRowView, TxView,
};
use crate::source::types::{DecodeError, PartitionId, Timestamp};

verus! {

/// What arrives at an activation.
pub struct Arrival {
    pub rows: Seq<TxRowView>,
    pub records: Seq<DataRecordView>,
}

/// The state before any record.
pub open spec fn fresh_tx() -> TxView {
    TxView {
        tx_mapping: Map::empty(),
        open: Map::empty(),
        data_buffer: Seq::empty(),
        dedups: Map::empty(),
    }
}

/// What activations do, one after the other: the state after them, and all the updates that they
/// give. `None` if one of them cannot go on.
pub open spec fn run(
    envelope: DebeziumEnvelope,
    metadata: DebeziumTransactionMetadata,
    state: TxView,
    arrivals: Seq<Arrival>,
) -> Option<(TxView, Seq<UpdateView>)>
    decreases arrivals.len(),
{
    if arrivals.len() == 0 {
        Some((state, Seq::empty()))
    } else {
        match run(envelope, metadata, state, arrivals.drop_last()) {
            None => None,
            Some((state, updates)) => match activate(
                envelope,
                metadata,
                state,
                arrivals.last().rows,
                arrivals.last().records,
            ) {
                None => None,
                Some((state, more)) => Some((state, updates + more)),
            },
        }
    }
}

/// All the rows of transaction metadata that have arrived, in order.
pub open spec fn all_rows(arrivals: Seq<Arrival>) -> Seq<TxRowView>
    decreases arrivals.len(),
{
    if arrivals.len() == 0 {
        Seq::empty()
    } else {
        all_rows(arrivals.drop_last()) + arrivals.last().rows
    }
}

/// All the records that have arrived, in order.
pub open spec fn all_records(arrivals: Seq<Arrival>) -> Seq<DataRecordView>
    decreases arrivals.len(),
{
    if arrivals.len() == 0 {
        Seq::empty()
    } else {
        all_records(arrivals.drop_last()) + arrivals.last().records
    }
}

/// Whether a row of transaction metadata ends a transaction at a time, with events to come.
pub open spec fn ends_at(
    metadata: DebeziumTransactionMetadata,
    row: TxRowView,
    tx_id: Seq<char>,
    time: Timestamp,
) -> bool {
    &&& ended_transaction(metadata, row.row) matches Some(Some((ended, count)))
    &&& ended == tx_id
    &&& count != 0
    &&& row.time == time
}

/// Whether one of some rows of transaction metadata ends a transaction at a time.
pub open spec fn end_read(
    metadata: DebeziumTransactionMetadata,
    rows: Seq<TxRowView>,
    tx_id: Seq<char>,
    time: Timestamp,
) -> bool {
    exists|i: int| 0 <= i < rows.len() && ends_at(metadata, #[trigger] rows[i], tx_id, time)
}

/// Whether an update is a change that a record stands for: one that goes out at the time of the end
/// of the transaction of the record or, if it belongs to none, at the time of the record.
pub open spec fn is_change_of(
    envelope: DebeziumEnvelope,
    metadata: DebeziumTransactionMetadata,
    rows: Seq<TxRowView>,
    record: DataRecordView,
    update: UpdateView,
) -> bool {
    &&& record.record.value matches Some(Ok((value, _)))
    &&& changes(envelope, update.cap, update.time, value) matches Some(updates)
    &&& updates.contains(update)
    &&& match transaction_of(metadata, value) {
        Some(Some(tx_id)) => end_read(metadata, rows, tx_id, update.time),
        Some(None) => update.time == record.cap && update.cap == record.cap,
        None => false,
    }
}

/// Whether updates come from records in the order of the records: from those before `to`, and from
/// none before `from`. An update with an error may come from a row of transaction metadata.
pub open spec fn come_from(
    envelope: DebeziumEnvelope,
    metadata: DebeziumTransactionMetadata,
    rows: Seq<TxRowView>,
    records: Seq<DataRecordView>,
    updates: Seq<UpdateView>,
    sources: Seq<int>,
    from: int,
    to: int,
) -> bool {
    &&& sources.len() == updates.len()
    &&& forall|i: int| 0 <= i < sources.len() ==> from <= #[trigger] sources[i] <= to
    &&& forall|i: int, j: int| 0 <= i <= j < sources.len() ==> sources[i] <= sources[j]
    &&& forall|i: int|
        0 <= i < updates.len() && (#[trigger] updates[i]).data is Ok ==> sources[i] < to
            && is_change_of(envelope, metadata, rows, records[sources[i]], updates[i])
}

/// Whether the ends of all transactions with a time have been read, at that time.
spec fn ends_read(
    metadata: DebeziumTransactionMetadata,
    rows: Seq<TxRowView>,
    state: TxView,
) -> bool {
    forall|tx_id: Seq<char>| #[trigger]
        state.tx_mapping.contains_key(tx_id) ==> end_read(
            metadata,
            rows,
            tx_id,
            state.tx_mapping[tx_id],
        )
}

proof fn lemma_end_stays_read(
    metadata: DebeziumTransactionMetadata,
    rows: Seq<TxRowView>,
    more: Seq<TxRowView>,
    tx_id: Seq<char>,
    time: Timestamp,
)
    requires
        end_read(metadata, rows, tx_id, time),
    ensures
        end_read(metadata, rows + more, tx_id, time),
{
    let i = choose|i: int|
        0 <= i < rows.len() && ends_at(metadata, #[trigger] rows[i], tx_id, time);
    assert((rows + more)[i] == rows[i]);
}

proof fn lemma_rows_read(
    metadata: DebeziumTransactionMetadata,
    state: TxView,
    before: Seq<TxRowView>,
    rows: Seq<TxRowView>,
)
    requires
        ends_read(metadata, before, state),
        tx_rows(metadata, state, rows) is Some,
    ensures
        ends_read(metadata, before + rows, tx_rows(metadata, state, rows)->Some_0.0),
        tx_rows(metadata, state, rows)->Some_0.0.data_buffer == state.data_buffer,
        tx_rows(metadata, state, rows)->Some_0.0.dedups == state.dedups,
        forall|i: int|
            0 <= i < tx_rows(metadata, state, rows)->Some_0.1.len() ==> (
            #[trigger] tx_rows(metadata, state, rows)->Some_0.1[i]).data is Err,
    decreases rows.len(),
{
    if rows.len() == 0 {
        assert(before + rows =~= before);
    } else {
        lemma_rows_read(metadata, state, before, rows.drop_last());
        let (mid, _) = tx_rows(metadata, state, rows.drop_last())->Some_0;
        let after = tx_rows(metadata, state, rows)->Some_0.0;
        let read = before + rows.drop_last();
        assert(before + rows =~= read + seq![rows.last()]);
        assert forall|tx_id: Seq<char>| #[trigger] after.tx_mapping.contains_key(tx_id) implies
            end_read(metadata, before + rows, tx_id, after.tx_mapping[tx_id]) by {
            if mid.tx_mapping.contains_key(tx_id) {
                lemma_end_stays_read(
                    metadata,
                    read,
                    seq![rows.last()],
                    tx_id,
                    mid.tx_mapping[tx_id],
                );
            } else {
                assert((before + rows)[before.len() + rows.len() - 1] == rows.last());
            }
        }
    }
}

proof fn lemma_change_of_record(
    envelope: DebeziumEnvelope,
    metadata: DebeziumTransactionMetadata,
    rows: Seq<TxRowView>,
    state: TxView,
    record: DataRecordView,
)
    requires
        ends_read(metadata, rows, state),
        data_record(envelope, metadata, state, record) matches Some(Handled::Done(_, _)),
    ensures
        data_record(envelope, metadata, state, record) matches Some(Handled::Done(next, updates))
            && next.tx_mapping == state.tx_mapping && forall|i: int|
            0 <= i < updates.len() && (#[trigger] updates[i]).data is Ok ==> is_change_of(
                envelope,
                metadata,
                rows,
                record,
                updates[i],
            ),
{
    if let Some(Handled::Done(next, updates)) = data_record(envelope, metadata, state, record) {
        assert forall|i: int|
            0 <= i < updates.len() && (#[trigger] updates[i]).data is Ok implies is_change_of(
            envelope,
            metadata,
            rows,
            record,
            updates[i],
        ) by {
            assert(updates.contains(updates[i]));
            if let Some(Ok((value, _))) = record.record.value {
                if let Some(Some(tx_id)) = transaction_of(metadata, value) {
                    assert(state.tx_mapping.contains_key(tx_id));
                }
            }
        }
    }
}

proof fn lemma_drained_in_order(
    envelope: DebeziumEnvelope,
    metadata: DebeziumTransactionMetadata,
    rows: Seq<TxRowView>,
    records: Seq<DataRecordView>,
    state: TxView,
    from: int,
) -> (sources: Seq<int>)
    requires
        drain(envelope, metadata, state) is Some,
        ends_read(metadata, rows, state),
        0 <= from <= records.len(),
        state.data_buffer == records.skip(from),
    ensures
        come_from(
            envelope,
            metadata,
            rows,
            records,
            drain(envelope, metadata, state)->Some_0.1,
            sources,
            from,
            records.len() - drain(envelope, metadata, state)->Some_0.0.data_buffer.len(),
        ),
        drain(envelope, metadata, state)->Some_0.0.tx_mapping == state.tx_mapping,
    decreases state.data_buffer.len(),
{
    lemma_rendered_in_order(envelope, metadata, state);
    if state.data_buffer.len() == 0 {
        Seq::empty()
    } else {
        let rest = TxView { data_buffer: state.data_buffer.drop_first(), ..state };
        let record = state.data_buffer[0];
        assert(record == records[from]);
        match data_record(envelope, metadata, rest, record) {
            Some(Handled::Done(next, updates)) => {
                lemma_record_keeps_buffer(envelope, metadata, rest, record);
                assert(ends_read(metadata, rows, rest));
                lemma_change_of_record(envelope, metadata, rows, rest, record);
                assert(next.data_buffer =~= records.skip(from + 1));
                let more = lemma_drained_in_order(
                    envelope,
                    metadata,
                    rows,
                    records,
                    next,
                    from + 1,
                );
                lemma_rendered_in_order(envelope, metadata, next);
                Seq::new(updates.len(), |i: int| from) + more
            },
            _ => Seq::empty(),
        }
    }
}

proof fn lemma_come_from_grows(
    envelope: DebeziumEnvelope,
    metadata: DebeziumTransactionMetadata,
    rows: Seq<TxRowView>,
    records: Seq<DataRecordView>,
    updates: Seq<UpdateView>,
    sources: Seq<int>,
    to: int,
    more_rows: Seq<TxRowView>,
    more_records: Seq<DataRecordView>,
)
    requires
        come_from(envelope, metadata, rows, records, updates, sources, 0, to),
        0 <= to <= records.len(),
    ensures
        come_from(
            envelope,
            metadata,
            rows + more_rows,
            records + more_records,
            updates,
            sources,
            0,
            to,
        ),
{
    assert forall|i: int|
        0 <= i < updates.len() && (#[trigger] updates[i]).data is Ok implies sources[i] < to
        && is_change_of(
        envelope,
        metadata,
        rows + more_rows,
        (records + more_records)[sources[i]],
        updates[i],
    ) by {
        let record = records[sources[i]];
        assert((records + more_records)[sources[i]] == record);
        if let Some(Ok((value, _))) = record.record.value {
            if let Some(Some(tx_id)) = transaction_of(metadata, value) {
                lemma_end_stays_read(metadata, rows, more_rows, tx_id, updates[i].time);
            }
        }
    }
}

proof fn lemma_run_in_order(
    envelope: DebeziumEnvelope,
    metadata: DebeziumTransactionMetadata,
    arrivals: Seq<Arrival>,
) -> (sources: Seq<int>)
    requires
        run(envelope, metadata, fresh_tx(), arrivals) is Some,
    ensures
        ({
            let (after, updates) = run(envelope, metadata, fresh_tx(), arrivals)->Some_0;
            let (rows, records) = (all_rows(arrivals), all_records(arrivals));
            let rendered = records.len() - after.data_buffer.len();
            &&& 0 <= rendered
            &&& after.data_buffer == records.skip(rendered)
            &&& come_from(envelope, metadata, rows, records, updates, sources, 0, rendered)
            &&& ends_read(metadata, rows, after)
        }),
    decreases arrivals.len(),
{
    let (rows, records) = (all_rows(arrivals), all_records(arrivals));
    if arrivals.len() == 0 {
        assert(records.skip(0) =~= Seq::<DataRecordView>::empty());
        Seq::empty()
    } else {
        let front = arrivals.drop_last();
        let arrival = arrivals.last();
        let sources = lemma_run_in_order(envelope, metadata, front);
        let (before, updates) = run(envelope, metadata, fresh_tx(), front)->Some_0;
        let (old_rows, old_records) = (all_rows(front), all_records(front));
        let from = old_records.len() - before.data_buffer.len();
        lemma_come_from_grows(
            envelope,
            metadata,
            old_rows,
            old_records,
            updates,
            sources,
            from,
            arrival.rows,
            arrival.records,
        );
        lemma_rows_read(metadata, before, old_rows, arrival.rows);
        let (read, errors) = tx_rows(metadata, before, arrival.rows)->Some_0;
        let ready = TxView { data_buffer: read.data_buffer + arrival.records, ..read };
        assert(ready.data_buffer =~= records.skip(from));
        assert(ends_read(metadata, rows, ready));
        let more = lemma_drained_in_order(envelope, metadata, rows, records, ready, from);
        lemma_rendered_in_order(envelope, metadata, ready);
        let (after, drained) = drain(envelope, metadata, ready)->Some_0;
        let to = records.len() - after.data_buffer.len();
        assert(after.data_buffer =~= records.skip(to));
        let all = updates + (errors + drained);
        let all_sources = sources + (Seq::new(errors.len(), |i: int| from) + more);
        assert forall|i: int| 0 <= i < all.len() && (#[trigger] all[i]).data is Ok implies
            all_sources[i] < to && is_change_of(
            envelope,
            metadata,
            rows,
            records[all_sources[i]],
            all[i],
        ) by {
            if i < updates.len() {
                assert(all[i] == updates[i]);
                assert(all_sources[i] == sources[i]);
            } else if i < updates.len() + errors.len() {
                assert(all[i] == errors[i - updates.len()]);
            } else {
                let j = i - updates.len() - errors.len();
                assert(all[i] == drained[j]);
                assert(all_sources[i] == more[j]);
            }
        }
        all_sources
    }
}

/// Over any activations, the records are rendered in the order in which they arrived, and none is
/// lost: those that have not been rendered are the last of all that arrived, the first of them
/// belongs to a transaction whose end has not been read, and each change that was sent is one of a
/// record among the others, in the order of those records.
pub proof fn lemma_records_rendered_in_order(
    envelope: DebeziumEnvelope,
    metadata: DebeziumTransactionMetadata,
    arrivals: Seq<Arrival>,
)
    requires
        run(envelope, metadata, fresh_tx(), arrivals) is Some,
    ensures
        ({
            let (after, updates) = run(envelope, metadata, fresh_tx(), arrivals)->Some_0;
            let (rows, records) = (all_rows(arrivals), all_records(arrivals));
            let rendered = records.len() - after.data_buffer.len();
            &&& 0 <= rendered
            &&& after.data_buffer == records.skip(rendered)
            &&& after.data_buffer.len() > 0 ==> {
                &&& after.data_buffer[0].record.value matches Some(Ok((value, _)))
                &&& transaction_of(metadata, value) matches Some(Some(tx_id))
                &&& !after.tx_mapping.contains_key(tx_id)
            }
            &&& exists|sources: Seq<int>| #[trigger]
                come_from(envelope, metadata, rows, records, updates, sources, 0, rendered)
        }),
{
    let sources = lemma_run_in_order(envelope, metadata, arrivals);
    if arrivals.len() > 0 {
        let arrival = arrivals.last();
        let before = run(envelope, metadata, fresh_tx(), arrivals.drop_last())->Some_0.0;
        let read = tx_rows(metadata, before, arrival.rows)->Some_0.0;
        lemma_rendered_in_order(
            envelope,
            metadata,
            TxView { data_buffer: read.data_buffer + arrival.records, ..read },
        );
    }
}

/// Over any activations, each row that was sent is one of a record that arrived, and goes out at
/// the time at which the end of the transaction of the record was read or, if it belongs to none,
/// at the time of the record.
pub proof fn lemma_rows_at_transaction_time(
    envelope: DebeziumEnvelope,
    metadata: DebeziumTransactionMetadata,
    arrivals: Seq<Arrival>,
    i: int,
)
    requires
        run(envelope, metadata, fresh_tx(), arrivals) is Some,
        0 <= i < run(envelope, metadata, fresh_tx(), arrivals)->Some_0.1.len(),
        run(envelope, metadata, fresh_tx(), arrivals)->Some_0.1[i].data is Ok,
    ensures
        exists|k: int|
            0 <= k < all_records(arrivals).len() && is_change_of(
                envelope,
                metadata,
                all_rows(arrivals),
                #[trigger] all_records(arrivals)[k],
                run(envelope, metadata, fresh_tx(), arrivals)->Some_0.1[i],
            ),
{
    let sources = lemma_run_in_order(envelope, metadata, arrivals);
    let updates = run(envelope, metadata, fresh_tx(), arrivals)->Some_0.1;
    assert(updates[i].data is Ok);
    assert(0 <= sources[i]);
    let record = all_records(arrivals)[sources[i]];
}

proof fn lemma_record_ignores_buffer(
    envelope: DebeziumEnvelope,
    metadata: DebeziumTransactionMetadata,
    state: TxView,
    record: DataRecordView,
    buffer: Seq<DataRecordView>,
)
    ensures
        data_record(envelope, metadata, TxView { data_buffer: buffer, ..state }, record)
            == match data_record(envelope, metadata, state, record) {
            Some(Handled::Done(next, updates)) => Some(
                Handled::Done(TxView { data_buffer: buffer, ..next }, updates),
            ),
            other => other,
        },
{
}

proof fn lemma_drain_behind(
    envelope: DebeziumEnvelope,
    metadata: DebeziumTransactionMetadata,
    state: TxView,
    records: Seq<DataRecordView>,
)
    ensures
        drain(
            envelope,
            metadata,
            TxView { data_buffer: state.data_buffer + records, ..state },
        ) == match drain(envelope, metadata, state) {
            None => None,
            Some((mid, updates)) => match drain(
                envelope,
                metadata,
                TxView { data_buffer: mid.data_buffer + records, ..mid },
            ) {
                None => None,
                Some((after, more)) => Some((after, updates + more)),
            },
        },
    decreases state.data_buffer.len(),
{
    let longer = TxView { data_buffer: state.data_buffer + records, ..state };
    if state.data_buffer.len() == 0 {
        if let Some((_, more)) = drain(envelope, metadata, longer) {
            assert(Seq::empty() + more =~= more);
        }
    } else {
        let record = state.data_buffer[0];
        let rest = TxView { data_buffer: state.data_buffer.drop_first(), ..state };
        let buffer = longer.data_buffer.drop_first();
        assert(longer.data_buffer[0] == record);
        assert(buffer =~= rest.data_buffer + records);
        lemma_record_ignores_buffer(envelope, metadata, rest, record, buffer);
        match data_record(envelope, metadata, rest, record) {
            None => {},
            Some(Handled::Waits) => {
                if let Some((_, more)) = drain(envelope, metadata, longer) {
                    assert(Seq::empty() + more =~= more);
                }
            },
            Some(Handled::Done(next, updates)) => {
                lemma_record_keeps_buffer(envelope, metadata, rest, record);
                lemma_drain_behind(envelope, metadata, next, records);
                if let Some((mid, more)) = drain(envelope, metadata, next) {
                    if let Some((_, last)) = drain(
                        envelope,
                        metadata,
                        TxView { data_buffer: mid.data_buffer + records, ..mid },
                    ) {
                        assert(updates + (more + last) =~= (updates + more) + last);
                    }
                }
            },
        }
    }
}

/// Records that arrive at two activations are rendered as they are if they arrive at one: rendering
/// goes on where it stopped.
pub proof fn lemma_arrivals_join(
    envelope: DebeziumEnvelope,
    metadata: DebeziumTransactionMetadata,
    state: TxView,
    rows: Seq<TxRowView>,
    a: Seq<DataRecordView>,
    b: Seq<DataRecordView>,
)
    ensures
        activate(envelope, metadata, state, rows, a + b) == match activate(
            envelope,
            metadata,
            state,
            rows,
            a,
        ) {
            None => None,
            Some((mid, updates)) => match activate(envelope, metadata, mid, Seq::empty(), b) {
                None => None,
                Some((after, more)) => Some((after, updates + more)),
            },
        },
{
    if let Some((read, errors)) = tx_rows(metadata, state, rows) {
        let ready = TxView { data_buffer: read.data_buffer + a, ..read };
        lemma_drain_behind(envelope, metadata, ready, b);
        assert(read.data_buffer + (a + b) =~= ready.data_buffer + b);
        if let Some((mid, updates)) = drain(envelope, metadata, ready) {
            if let Some((_, more)) = drain(
                envelope,
                metadata,
                TxView { data_buffer: mid.data_buffer + b, ..mid },
            ) {
                assert(Seq::empty() + more =~= more);
                assert(errors + (updates + more) =~= (errors + updates) + more);
            }
        }
    }
}

/// Rows of transaction metadata one behind the other are handled as if the first came alone, and the
/// others after it.
pub proof fn lemma_rows_join(
    metadata: DebeziumTransactionMetadata,
    state: TxView,
    a: Seq<TxRowView>,
    b: Seq<TxRowView>,
)
    ensures
        tx_rows(metadata, state, a + b) == match tx_rows(metadata, state, a) {
            None => None,
            Some((mid, errors)) => match tx_rows(metadata, mid, b) {
                None => None,
                Some((after, more)) => Some((after, errors + more)),
            },
        },
    decreases b.len(),
{
    if b.len() == 0 {
        assert(a + b =~= a);
        if let Some((_, errors)) = tx_rows(metadata, state, a) {
            assert(errors + Seq::empty() =~= errors);
        }
    } else {
        lemma_rows_join(metadata, state, a, b.drop_last());
        assert((a + b).drop_last() =~= a + b.drop_last());
        assert((a + b).last() == b.last());
        if let Some((mid, errors)) = tx_rows(metadata, state, a) {
            if let Some((next, more)) = tx_rows(metadata, mid, b.drop_last()) {
                if let Some((_, last)) = tx_row(metadata, next, b.last()) {
                    assert((errors + more) + last =~= errors + (more + last));
                }
            }
        }
    }
}

/// A transaction keeps the time at which its end was first read, over any activations.
pub proof fn lemma_time_is_kept(
    envelope: DebeziumEnvelope,
    metadata: DebeziumTransactionMetadata,
    state: TxView,
    arrivals: Seq<Arrival>,
    tx_id: Seq<char>,
)
    requires
        run(envelope, metadata, state, arrivals) is Some,
        state.tx_mapping.contains_key(tx_id),
    ensures
        run(envelope, metadata, state, arrivals)->Some_0.0.tx_mapping.contains_key(tx_id),
        run(envelope, metadata, state, arrivals)->Some_0.0.tx_mapping[tx_id]
            == state.tx_mapping[tx_id],
    decreases arrivals.len(),
{
    if arrivals.len() > 0 {
        let arrival = arrivals.last();
        lemma_time_is_kept(envelope, metadata, state, arrivals.drop_last(), tx_id);
        let before = run(envelope, metadata, state, arrivals.drop_last())->Some_0.0;
        lemma_transaction_keeps_time(metadata, before, arrival.rows, tx_id);
        let read = tx_rows(metadata, before, arrival.rows)->Some_0.0;
        lemma_rendered_in_order(
            envelope,
            metadata,
            TxView { data_buffer: read.data_buffer + arrival.records, ..read },
        );
    }
}

/// Once the end of a transaction has been read, reading it again later at the same time changes
/// nothing, whatever number of events it comes with, and whatever arrived in between. Reading it
/// again at another time cannot be handled.
pub proof fn lemma_repeated_end_changes_nothing(
    envelope: DebeziumEnvelope,
    metadata: DebeziumTransactionMetadata,
    state: TxView,
    end: TxRowView,
    tx_id: Seq<char>,
    between: Seq<Arrival>,
    rows_before: Seq<TxRowView>,
    again: TxRowView,
    rows_after: Seq<TxRowView>,
    records: Seq<DataRecordView>,
)
    requires
        ends_at(metadata, end, tx_id, end.time),
        tx_row(metadata, state, end) is Some,
        run(envelope, metadata, tx_row(metadata, state, end)->Some_0.0, between) is Some,
        ends_at(metadata, again, tx_id, again.time),
        again.diff == 1,
    ensures
        ({
            let mid = run(
                envelope,
                metadata,
                tx_row(metadata, state, end)->Some_0.0,
                between,
            )->Some_0.0;
            activate(envelope, metadata, mid, rows_before.push(again) + rows_after, records)
                == if again.time == end.time {
                activate(envelope, metadata, mid, rows_before + rows_after, records)
            } else {
                None
            }
        }),
{
    let read = tx_row(metadata, state, end)->Some_0.0;
    let mid = run(envelope, metadata, read, between)->Some_0.0;
    lemma_time_is_kept(envelope, metadata, read, between, tx_id);
    lemma_rows_join(metadata, mid, rows_before.push(again), rows_after);
    lemma_rows_join(metadata, mid, rows_before, rows_after);
    assert(rows_before.push(again).drop_last() =~= rows_before);
    if let Some((next, errors)) = tx_rows(metadata, mid, rows_before) {
        lemma_transaction_keeps_time(metadata, mid, rows_before, tx_id);
        assert(errors + Seq::empty() =~= errors);
    }
}

/// Whether a record with a position has been seen in its partition.
spec fn seen_in(
    envelope: DebeziumEnvelope,
    state: TxView,
    partition: PartitionId,
    value: Seq<DatumView>,
    position: RowCoordinates,
) -> bool {
    seen(envelope.dedup, dedup_of(state.dedups, partition), value, position)
}

proof fn lemma_seen_past_record(
    envelope: DebeziumEnvelope,
    metadata: DebeziumTransactionMetadata,
    state: TxView,
    record: DataRecordView,
    partition: PartitionId,
    value: Seq<DatumView>,
    position: RowCoordinates,
)
    requires
        seen_in(envelope, state, partition, value, position),
    ensures
        data_record(envelope, metadata, state, record) matches Some(Handled::Done(next, _))
            ==> seen_in(envelope, next, partition, value, position),
{
    if let Some(Ok((other, _))) = record.record.value {
        let dedup = dedup_of(state.dedups, record.record.partition);
        if judge(envelope.dedup, dedup, other) is Some && record.record.partition == partition {
            lemma_seen_stays_seen(envelope.dedup, dedup, value, position, other);
        }
    }
}

proof fn lemma_seen_past_drain(
    envelope: DebeziumEnvelope,
    metadata: DebeziumTransactionMetadata,
    state: TxView,
    partition: PartitionId,
    value: Seq<DatumView>,
    position: RowCoordinates,
)
    requires
        seen_in(envelope, state, partition, value, position),
        drain(envelope, metadata, state) is Some,
    ensures
        seen_in(
            envelope,
            drain(envelope, metadata, state)->Some_0.0,
            partition,
            value,
            position,
        ),
    decreases state.data_buffer.len(),
{
    if state.data_buffer.len() > 0 {
        let rest = TxView { data_buffer: state.data_buffer.drop_first(), ..state };
        let record = state.data_buffer[0];
        lemma_record_keeps_buffer(envelope, metadata, rest, record);
        lemma_seen_past_record(envelope, metadata, rest, record, partition, value, position);
        if let Some(Handled::Done(next, _)) = data_record(envelope, metadata, rest, record) {
            lemma_seen_past_drain(envelope, metadata, next, partition, value, position);
        }
    }
}

proof fn lemma_rows_keep_dedups(
    metadata: DebeziumTransactionMetadata,
    state: TxView,
    rows: Seq<TxRowView>,
)
    requires
        tx_rows(metadata, state, rows) is Some,
    ensures
        tx_rows(metadata, state, rows)->Some_0.0.dedups == state.dedups,
    decreases rows.len(),
{
    if rows.len() > 0 {
        lemma_rows_keep_dedups(metadata, state, rows.drop_last());
    }
}

proof fn lemma_seen_past_run(
    envelope: DebeziumEnvelope,
    metadata: DebeziumTransactionMetadata,
    state: TxView,
    arrivals: Seq<Arrival>,
    partition: PartitionId,
    value: Seq<DatumView>,
    position: RowCoordinates,
)
    requires
        seen_in(envelope, state, partition, value, position),
        run(envelope, metadata, state, arrivals) is Some,
    ensures
        seen_in(
            envelope,
            run(envelope, metadata, state, arrivals)->Some_0.0,
            partition,
            value,
            position,
        ),
    decreases arrivals.len(),
{
    if arrivals.len() > 0 {
        let arrival = arrivals.last();
        lemma_seen_past_run(
            envelope,
            metadata,
            state,
            arrivals.drop_last(),
            partition,
            value,
            position,
        );
        let before = run(envelope, metadata, state, arrivals.drop_last())->Some_0.0;
        lemma_rows_keep_dedups(metadata, before, arrival.rows);
        let read = tx_rows(metadata, before, arrival.rows)->Some_0.0;
        lemma_seen_past_drain(
            envelope,
            metadata,
            TxView { data_buffer: read.data_buffer + arrival.records, ..read },
            partition,
            value,
            position,
        );
    }
}

/// A record with a position that has been rendered, and that arrives again later, holds nothing up,
/// even if all events of its transaction have been seen, and whatever arrived in between: no update
/// comes of it, no transaction changes by it, and the records behind it are rendered as they are
/// without it. All that changes is how many messages of its partition have been counted.
pub proof fn lemma_duplicate_holds_nothing_up(
    envelope: DebeziumEnvelope,
    metadata: DebeziumTransactionMetadata,
    state: TxView,
    record: DataRecordView,
    value: Seq<DatumView>,
    position: RowCoordinates,
    between: Seq<Arrival>,
    again: DataRecordView,
    later: Seq<DataRecordView>,
)
    requires
        data_record(envelope, metadata, state, record) matches Some(Handled::Done(next, _)) && run(
            envelope,
            metadata,
            next,
            between,
        ) is Some,
        record.record.value == Some(Ok::<_, DecodeError>((value, 1i64))),
        has_position(
            envelope.dedup,
            dedup_of(state.dedups, record.record.partition),
            value,
            position,
        ),
        again.record.value == record.record.value,
        again.record.partition == record.record.partition,
    ensures
        data_record(envelope, metadata, state, record) matches Some(Handled::Done(next, _)) && ({
            let mid = run(envelope, metadata, next, between)->Some_0.0;
            let dedup = dedup_of(mid.dedups, record.record.partition);
            let counted = DedupView {
                messages_processed: (dedup.messages_processed + 1) as u64,
                ..dedup
            };
            dedup.messages_processed < u64::MAX ==> drain(
                envelope,
                metadata,
                TxView { data_buffer: seq![again] + later, ..mid },
            ) == drain(
                envelope,
                metadata,
                TxView {
                    data_buffer: later,
                    dedups: mid.dedups.insert(record.record.partition, counted),
                    ..mid
                },
            )
        }),
{
    let partition = record.record.partition;
    if let Some(Handled::Done(next, _)) = data_record(envelope, metadata, state, record) {
        lemma_judged_is_seen(
            envelope.dedup,
            dedup_of(state.dedups, partition),
            value,
            position,
        );
        assert(seen_in(envelope, next, partition, value, position));
        lemma_seen_past_run(envelope, metadata, next, between, partition, value, position);
        let mid = run(envelope, metadata, next, between)->Some_0.0;
        let dedup = dedup_of(mid.dedups, partition);
        if let Some(Some(tx_id)) = transaction_of(metadata, value) {
            lemma_time_is_kept(envelope, metadata, next, between, tx_id);
        }
        if dedup.messages_processed < u64::MAX {
            assert(judge(envelope.dedup, dedup, value) is Some);
            lemma_seen_is_refused(envelope.dedup, dedup, value, position);
            let held = TxView { data_buffer: seq![again] + later, ..mid };
            assert(held.data_buffer[0] == again);
            assert(held.data_buffer.drop_first() =~= later);
            let rest = TxView { data_buffer: later, ..mid };
            let counted = DedupView {
                messages_processed: (dedup.messages_processed + 1) as u64,
                ..dedup
            };
            let after = TxView { dedups: mid.dedups.insert(partition, counted), ..rest };
            assert(data_record(envelope, metadata, rest, again) == Some(
                Handled::Done(after, Seq::empty()),
            ));
            if let Some((_, more)) = drain(envelope, metadata, after) {
                assert(Seq::empty() + more =~= more);
            }
        }
    }
}

} // verus!
