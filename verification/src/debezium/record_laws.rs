//! What the rendering of records is for: which updates a record stands for, and when they are sent.

use vstd::prelude::*;

use crate::debezium::datum::DatumView;
use crate::debezium::dedup::{fresh_dedup, judge, DebeziumEnvelope, DedupView};
use crate::debezium::render::{changes, render_record, render_records, UpdateView};
use crate::source::types::{DataflowErrorView, DecodeError, PartitionId, RecordView, Timestamp};

verus! {

/// Whether a field of a record holds a row, and which.
pub open spec fn field_is_row(value: Seq<DatumView>, place: usize, row: Seq<DatumView>) -> bool {
    place < value.len() && value[place as int] == DatumView::List(row)
}

/// Whether a field of a record holds some row.
pub open spec fn field_has_row(value: Seq<DatumView>, place: usize) -> bool {
    place < value.len() && value[place as int] is List
}

/// Whether a field of a record holds a row or null.
pub open spec fn field_is_fine(value: Seq<DatumView>, place: usize) -> bool {
    place < value.len() && (value[place as int] is List || value[place as int] is Null)
}

/// Whether updates are those that a record stands for: its `before` row is taken away if it has
/// one, its `after` row is added if it has one, each whether or not the other is there, and there
/// is no other update.
pub open spec fn takes_and_adds(
    envelope: DebeziumEnvelope,
    value: Seq<DatumView>,
    cap: Timestamp,
    time: Timestamp,
    updates: Seq<UpdateView>,
) -> bool {
    let has_before = field_has_row(value, envelope.before_idx);
    let has_after = field_has_row(value, envelope.after_idx);
    &&& updates.len() == (if has_before {
        1int
    } else {
        0
    }) + (if has_after {
        1int
    } else {
        0
    })
    &&& has_before ==> {
        &&& updates[0].data matches Ok(row)
        &&& field_is_row(value, envelope.before_idx, row)
        &&& updates[0].diff == -1
        &&& updates[0].cap == cap
        &&& updates[0].time == time
    }
    &&& has_after ==> {
        &&& updates.last().data matches Ok(row)
        &&& field_is_row(value, envelope.after_idx, row)
        &&& updates.last().diff == 1
        &&& updates.last().cap == cap
        &&& updates.last().time == time
    }
}

/// A record can be turned into updates exactly if its `before` and `after` fields are rows or null.
/// The updates hold the `before` row with diff -1 exactly if that field is a row, and the `after`
/// row with diff 1 exactly if that one is, each independently of the other.
pub proof fn lemma_before_is_taken_and_after_added(
    envelope: DebeziumEnvelope,
    cap: Timestamp,
    time: Timestamp,
    value: Seq<DatumView>,
)
    ensures
        changes(envelope, cap, time, value) is Some <==> field_is_fine(value, envelope.before_idx)
            && field_is_fine(value, envelope.after_idx),
        changes(envelope, cap, time, value) matches Some(updates) ==> {
            &&& takes_and_adds(envelope, value, cap, time, updates)
            &&& forall|row: Seq<DatumView>|
                updates.contains(UpdateView { cap, data: Ok(row), time, diff: -1i64 })
                    <==> #[trigger] field_is_row(value, envelope.before_idx, row)
            &&& forall|row: Seq<DatumView>|
                updates.contains(UpdateView { cap, data: Ok(row), time, diff: 1 })
                    <==> #[trigger] field_is_row(value, envelope.after_idx, row)
        },
{
    if let Some(updates) = changes(envelope, cap, time, value) {
        assert forall|row: Seq<DatumView>|
            updates.contains(UpdateView { cap, data: Ok(row), time, diff: -1i64 })
                <==> #[trigger] field_is_row(value, envelope.before_idx, row) by {
            if field_is_row(value, envelope.before_idx, row) {
                assert(updates[0] == (UpdateView { cap, data: Ok(row), time, diff: -1i64 }));
            }
        }
        assert forall|row: Seq<DatumView>|
            updates.contains(UpdateView { cap, data: Ok(row), time, diff: 1 })
                <==> #[trigger] field_is_row(value, envelope.after_idx, row) by {
            if field_is_row(value, envelope.after_idx, row) {
                assert(updates[updates.len() - 1] == (UpdateView {
                    cap,
                    data: Ok(row),
                    time,
                    diff: 1,
                }));
            }
        }
    }
}

/// The deduplication state that a partition starts with: no position, no message, no log file.
pub open spec fn is_fresh(dedup: DedupView) -> bool {
    &&& dedup.last_position is None
    &&& dedup.messages_processed == 0
    &&& dedup.filenames == Map::<Seq<char>, i64>::empty()
}

/// A record that is used gives the updates that it stands for, at the time of its batch; one that
/// is not used gives none; and one whose envelope cannot be read gives an error in their place. It
/// is judged by the messages of its own partition, and only their state changes.
pub proof fn lemma_record_is_rendered(
    envelope: DebeziumEnvelope,
    dedups: Map<PartitionId, DedupView>,
    time: Timestamp,
    record: RecordView,
    value: Seq<DatumView>,
    dedup: DedupView,
)
    requires
        record.value == Some(Ok::<_, DecodeError>((value, 1i64))),
        if dedups.contains_key(record.partition) {
            dedup == dedups[record.partition]
        } else {
            is_fresh(dedup)
        },
    ensures
        ({
            let rendered = render_record(envelope, dedups, time, record);
            match judge(envelope.dedup, dedup, value) {
                None => rendered is None,
                Some((after, Err(message))) => {
                    &&& rendered is Some
                    &&& rendered->Some_0.1.len() == 1
                    &&& rendered->Some_0.1[0].data == Err::<Seq<DatumView>, _>(
                        DataflowErrorView::EnvelopeError(message),
                    )
                    &&& rendered->Some_0.1[0].diff == 1
                    &&& rendered->Some_0.1[0].time == time
                    &&& rendered->Some_0.1[0].cap == time
                    &&& rendered->Some_0.0 == dedups.insert(record.partition, after)
                },
                Some((after, Ok(used))) => if used {
                    &&& rendered is Some <==> field_is_fine(value, envelope.before_idx)
                        && field_is_fine(value, envelope.after_idx)
                    &&& rendered is Some ==> {
                        &&& takes_and_adds(envelope, value, time, time, rendered->Some_0.1)
                        &&& rendered->Some_0.0 == dedups.insert(record.partition, after)
                    }
                } else {
                    &&& rendered is Some
                    &&& rendered->Some_0.1.len() == 0
                    &&& rendered->Some_0.0 == dedups.insert(record.partition, after)
                },
            }
        }),
{
    lemma_before_is_taken_and_after_added(envelope, time, time, value);
    if !dedups.contains_key(record.partition) {
        assert(dedup == fresh_dedup());
    }
}

/// A record without a value gives nothing, one that could not be decoded gives its error, and
/// neither is judged. A record with a diff other than 1 cannot be rendered.
pub proof fn lemma_other_records(
    envelope: DebeziumEnvelope,
    dedups: Map<PartitionId, DedupView>,
    time: Timestamp,
    record: RecordView,
)
    ensures
        ({
            let rendered = render_record(envelope, dedups, time, record);
            match record.value {
                None => rendered is Some && rendered->Some_0.1.len() == 0 && rendered->Some_0.0
                    == dedups,
                Some(Err(err)) => {
                    &&& rendered is Some
                    &&& rendered->Some_0.0 == dedups
                    &&& rendered->Some_0.1.len() == 1
                    &&& rendered->Some_0.1[0].data == Err::<Seq<DatumView>, _>(
                        DataflowErrorView::DecodeError(err),
                    )
                    &&& rendered->Some_0.1[0].diff == 1
                    &&& rendered->Some_0.1[0].time == time
                    &&& rendered->Some_0.1[0].cap == time
                },
                Some(Ok((_, diff))) => diff != 1 ==> rendered is None,
            }
        }),
{
}

/// A batch without records changes nothing, and a batch of one record is rendered as that record.
/// With what is said of two batches, this tells how any batch is rendered.
pub proof fn lemma_small_batches(
    envelope: DebeziumEnvelope,
    dedups: Map<PartitionId, DedupView>,
    time: Timestamp,
    record: RecordView,
)
    ensures
        render_records(envelope, dedups, time, Seq::empty()) matches Some((after, updates)) && after
            == dedups && updates.len() == 0,
        render_records(envelope, dedups, time, seq![record]) == render_record(
            envelope,
            dedups,
            time,
            record,
        ),
{
    let one = seq![record];
    assert(one.drop_last() =~= Seq::empty());
    assert(one.last() == record);
    assert(render_records(envelope, dedups, time, one.drop_last()) == Some(
        (dedups, Seq::<UpdateView>::empty()),
    ));
    if let Some((_, updates)) = render_record(envelope, dedups, time, record) {
        assert(Seq::empty() + updates =~= updates);
    }
}

} // verus!
