//! Which field of a message is which: what a field with each number does to the message.

use vstd::prelude::*;
use vstd::utf8::encode_utf8;

use crate::persist::proto::batch::{
    ProtoHollowBatch, ProtoHollowBatchPart, ProtoHollowBatchPartView, ProtoHollowBatchView,
    ProtoTrace, ProtoTraceView, ProtoU64Antichain, ProtoU64AntichainView, ProtoU64Description,
    ProtoU64DescriptionView,
};
use crate::persist::proto::diff::{
    ProtoStateDiff, ProtoStateDiffView, ProtoStateFieldDiffs, ProtoStateFieldDiffsView,
};
use crate::persist::proto::handle::{
    ProtoCriticalReaderState, ProtoCriticalReaderStateView, ProtoHandleDebugState,
    ProtoHandleDebugStateView, ProtoLeasedReaderState, ProtoLeasedReaderStateView,
    ProtoWriterState, ProtoWriterStateView,
};
use crate::persist::proto::rollup::{
    id_key, place_of, rollup_key, with_entry, ProtoKeyed, ProtoKeyedView, ProtoRollup,
    ProtoRollupView, ProtoStateRollup, ProtoStateRollupView,
};
use crate::proto::message::{lemma_text_field, message_with, Schema};
use crate::proto::wire::{FieldView, PayloadView};

verus! {

/// A field that holds a number.
pub open spec fn number_field(tag: u32, number: u64) -> FieldView {
    FieldView { tag, payload: PayloadView::Varint(number) }
}

/// A field that holds a text.
pub open spec fn text_field(tag: u32, text: Seq<char>) -> FieldView {
    FieldView { tag, payload: PayloadView::Bytes(encode_utf8(text)) }
}

/// A field that holds bytes.
pub open spec fn data_field(tag: u32, data: Seq<u8>) -> FieldView {
    FieldView { tag, payload: PayloadView::Bytes(data) }
}

/// A field that holds neither a number nor bytes.
pub open spec fn other_field(tag: u32) -> FieldView {
    FieldView { tag, payload: PayloadView::Other }
}

/// The field of a frontier: its times, which add up over fields. Any other field is passed over.
pub proof fn lemma_frontier_fields(
    message: ProtoU64AntichainView,
    number: u64,
    other: FieldView,
    limit: nat,
)
    ensures
        ProtoU64Antichain::with_field(message, number_field(1, number), limit) matches Some(after)
            && after.elements =~= message.elements.push(number as i64),
        ProtoU64Antichain::with_field(message, other_field(1), limit) is None,
        other.tag == 0 || other.tag > 1 ==> ProtoU64Antichain::with_field(
            message,
            other,
            limit,
        ) == Some(message),
{
    let one = seq![number];
    assert(Seq::empty().push(number) =~= one);
}

/// The fields of the frontiers of a batch: the lower one, the upper one, and the one that times may
/// be advanced to. Any other field is passed over.
pub proof fn lemma_frontiers_fields(
    message: ProtoU64DescriptionView,
    payload: PayloadView,
    other: FieldView,
    limit: nat,
)
    ensures
        ({
            let read_as = ProtoU64Description::with_field(
                message,
                FieldView { tag: 1, payload },
                limit,
            );
            match message_with::<ProtoU64Antichain>(message.lower, payload, limit) {
                Some(read) => read_as == Some(
                    ProtoU64DescriptionView { lower: Some(read), ..message },
                ),
                None => read_as is None,
            }
        }),
        ({
            let read_as = ProtoU64Description::with_field(
                message,
                FieldView { tag: 2, payload },
                limit,
            );
            match message_with::<ProtoU64Antichain>(message.upper, payload, limit) {
                Some(read) => read_as == Some(
                    ProtoU64DescriptionView { upper: Some(read), ..message },
                ),
                None => read_as is None,
            }
        }),
        ({
            let read_as = ProtoU64Description::with_field(
                message,
                FieldView { tag: 3, payload },
                limit,
            );
            match message_with::<ProtoU64Antichain>(message.since, payload, limit) {
                Some(read) => read_as == Some(
                    ProtoU64DescriptionView { since: Some(read), ..message },
                ),
                None => read_as is None,
            }
        }),
        other.tag == 0 || other.tag > 3 ==> ProtoU64Description::with_field(
            message,
            other,
            limit,
        ) == Some(message),
{
}

/// The fields of a part: its key and its size. Any other field is passed over.
pub proof fn lemma_part_fields(
    message: ProtoHollowBatchPartView,
    number: u64,
    text: Seq<char>,
    other: FieldView,
    limit: nat,
)
    ensures
        ProtoHollowBatchPart::with_field(message, text_field(1, text), limit) == Some(
            ProtoHollowBatchPartView { key: text, ..message },
        ),
        ProtoHollowBatchPart::with_field(message, other_field(1), limit) is None,
        ProtoHollowBatchPart::with_field(message, number_field(2, number), limit) == Some(
            ProtoHollowBatchPartView { encoded_size_bytes: number, ..message },
        ),
        ProtoHollowBatchPart::with_field(message, other_field(2), limit) is None,
        other.tag == 0 || other.tag > 2 ==> ProtoHollowBatchPart::with_field(
            message,
            other,
            limit,
        ) == Some(message),
{
    lemma_text_field(text);
}

/// The fields of a batch: its frontiers, its parts, its length, its runs, and keys without a size.
/// Any other field is passed over.
pub proof fn lemma_batch_fields(
    message: ProtoHollowBatchView,
    number: u64,
    text: Seq<char>,
    payload: PayloadView,
    other: FieldView,
    limit: nat,
)
    ensures
        ({
            let read_as = ProtoHollowBatch::with_field(
                message,
                FieldView { tag: 1, payload },
                limit,
            );
            match message_with::<ProtoU64Description>(message.desc, payload, limit) {
                Some(read) => read_as == Some(ProtoHollowBatchView { desc: Some(read), ..message }),
                None => read_as is None,
            }
        }),
        ({
            let read_as = ProtoHollowBatch::with_field(
                message,
                FieldView { tag: 2, payload },
                limit,
            );
            match message_with::<ProtoHollowBatchPart>(None, payload, limit) {
                Some(read) => read_as == Some(
                    ProtoHollowBatchView { parts: message.parts.push(read), ..message },
                ),
                None => read_as is None,
            }
        }),
        ProtoHollowBatch::with_field(message, number_field(3, number), limit) == Some(
            ProtoHollowBatchView { len: number, ..message },
        ),
        ProtoHollowBatch::with_field(message, other_field(3), limit) is None,
        ProtoHollowBatch::with_field(message, number_field(4, number), limit) == Some(
            ProtoHollowBatchView { runs: message.runs.push(number), ..message },
        ),
        ProtoHollowBatch::with_field(message, other_field(4), limit) is None,
        ProtoHollowBatch::with_field(message, text_field(5, text), limit) == Some(
            ProtoHollowBatchView { deprecated_keys: message.deprecated_keys.push(text), ..message },
        ),
        ProtoHollowBatch::with_field(message, other_field(5), limit) is None,
        other.tag == 0 || other.tag > 5 ==> ProtoHollowBatch::with_field(
            message,
            other,
            limit,
        ) == Some(message),
{
    lemma_text_field(text);
}

/// The fields of a trace: its frontier and its batches. Any other field is passed over.
pub proof fn lemma_trace_fields(
    message: ProtoTraceView,
    payload: PayloadView,
    other: FieldView,
    limit: nat,
)
    ensures
        ({
            let read_as = ProtoTrace::with_field(message, FieldView { tag: 1, payload }, limit);
            match message_with::<ProtoU64Antichain>(message.since, payload, limit) {
                Some(read) => read_as == Some(ProtoTraceView { since: Some(read), ..message }),
                None => read_as is None,
            }
        }),
        ({
            let read_as = ProtoTrace::with_field(message, FieldView { tag: 2, payload }, limit);
            match message_with::<ProtoHollowBatch>(None, payload, limit) {
                Some(read) => read_as == Some(
                    ProtoTraceView { spine: message.spine.push(read), ..message },
                ),
                None => read_as is None,
            }
        }),
        other.tag == 0 || other.tag > 2 ==> ProtoTrace::with_field(
            message,
            other,
            limit,
        ) == Some(message),
{
}

/// The fields of packed differences: the fields that differ, the kinds of the differences, and the
/// lengths and the bytes of their data. Any other field is passed over.
pub proof fn lemma_packed_differences_fields(
    message: ProtoStateFieldDiffsView,
    number: u64,
    data: Seq<u8>,
    other: FieldView,
    limit: nat,
)
    ensures
        ({
            let read_as = ProtoStateFieldDiffs::with_field(message, number_field(1, number), limit);
            &&& read_as matches Some(after)
            &&& after.fields =~= message.fields.push(number as i32)
            &&& after == (ProtoStateFieldDiffsView { fields: after.fields, ..message })
        }),
        ProtoStateFieldDiffs::with_field(message, other_field(1), limit) is None,
        ({
            let read_as = ProtoStateFieldDiffs::with_field(message, number_field(2, number), limit);
            &&& read_as matches Some(after)
            &&& after.diff_types =~= message.diff_types.push(number as i32)
            &&& after == (ProtoStateFieldDiffsView { diff_types: after.diff_types, ..message })
        }),
        ProtoStateFieldDiffs::with_field(message, other_field(2), limit) is None,
        ProtoStateFieldDiffs::with_field(message, number_field(3, number), limit) == Some(
            ProtoStateFieldDiffsView { data_lens: message.data_lens.push(number), ..message },
        ),
        ProtoStateFieldDiffs::with_field(message, other_field(3), limit) is None,
        ProtoStateFieldDiffs::with_field(message, data_field(4, data), limit) == Some(
            ProtoStateFieldDiffsView { data_bytes: data, ..message },
        ),
        ProtoStateFieldDiffs::with_field(message, other_field(4), limit) is None,
        other.tag == 0 || other.tag > 4 ==> ProtoStateFieldDiffs::with_field(
            message,
            other,
            limit,
        ) == Some(message),
{
    let one = seq![number];
    assert(Seq::empty().push(number) =~= one);
}

/// The fields of a difference between two states: the version, the numbers of the two states, the
/// last rollup, and the packed differences. Any other field is passed over.
pub proof fn lemma_difference_fields(
    message: ProtoStateDiffView,
    number: u64,
    text: Seq<char>,
    payload: PayloadView,
    other: FieldView,
    limit: nat,
)
    ensures
        ProtoStateDiff::with_field(message, text_field(1, text), limit) == Some(
            ProtoStateDiffView { applier_version: text, ..message },
        ),
        ProtoStateDiff::with_field(message, other_field(1), limit) is None,
        ProtoStateDiff::with_field(message, number_field(2, number), limit) == Some(
            ProtoStateDiffView { seqno_from: number, ..message },
        ),
        ProtoStateDiff::with_field(message, other_field(2), limit) is None,
        ProtoStateDiff::with_field(message, number_field(3, number), limit) == Some(
            ProtoStateDiffView { seqno_to: number, ..message },
        ),
        ProtoStateDiff::with_field(message, other_field(3), limit) is None,
        ProtoStateDiff::with_field(message, text_field(4, text), limit) == Some(
            ProtoStateDiffView { latest_rollup_key: text, ..message },
        ),
        ProtoStateDiff::with_field(message, other_field(4), limit) is None,
        ({
            let read_as = ProtoStateDiff::with_field(
                message,
                FieldView { tag: 5, payload },
                limit,
            );
            match message_with::<ProtoStateFieldDiffs>(message.field_diffs, payload, limit) {
                Some(read) => read_as == Some(
                    ProtoStateDiffView { field_diffs: Some(read), ..message },
                ),
                None => read_as is None,
            }
        }),
        other.tag == 0 || other.tag > 5 ==> ProtoStateDiff::with_field(
            message,
            other,
            limit,
        ) == Some(message),
{
    lemma_text_field(text);
}

/// The fields of who holds a handle: where, and what for. Any other field is passed over.
pub proof fn lemma_holder_fields(
    message: ProtoHandleDebugStateView,
    text: Seq<char>,
    other: FieldView,
    limit: nat,
)
    ensures
        ProtoHandleDebugState::with_field(message, text_field(1, text), limit) == Some(
            ProtoHandleDebugStateView { hostname: text, ..message },
        ),
        ProtoHandleDebugState::with_field(message, other_field(1), limit) is None,
        ProtoHandleDebugState::with_field(message, text_field(2, text), limit) == Some(
            ProtoHandleDebugStateView { purpose: text, ..message },
        ),
        ProtoHandleDebugState::with_field(message, other_field(2), limit) is None,
        other.tag == 0 || other.tag > 2 ==> ProtoHandleDebugState::with_field(
            message,
            other,
            limit,
        ) == Some(message),
{
    lemma_text_field(text);
}

/// The fields of a reader that has to renew its lease: the number of a state, its frontier, when it
/// was last heard of, how long its lease lasts, and who holds it. Any other field is passed over.
pub proof fn lemma_leased_reader_fields(
    message: ProtoLeasedReaderStateView,
    number: u64,
    payload: PayloadView,
    other: FieldView,
    limit: nat,
)
    ensures
        ProtoLeasedReaderState::with_field(message, number_field(1, number), limit) == Some(
            ProtoLeasedReaderStateView { seqno: number, ..message },
        ),
        ProtoLeasedReaderState::with_field(message, other_field(1), limit) is None,
        ({
            let read_as = ProtoLeasedReaderState::with_field(
                message,
                FieldView { tag: 2, payload },
                limit,
            );
            match message_with::<ProtoU64Antichain>(message.since, payload, limit) {
                Some(read) => read_as == Some(
                    ProtoLeasedReaderStateView { since: Some(read), ..message },
                ),
                None => read_as is None,
            }
        }),
        ProtoLeasedReaderState::with_field(message, number_field(3, number), limit) == Some(
            ProtoLeasedReaderStateView { last_heartbeat_timestamp_ms: number, ..message },
        ),
        ProtoLeasedReaderState::with_field(message, other_field(3), limit) is None,
        ProtoLeasedReaderState::with_field(message, number_field(4, number), limit) == Some(
            ProtoLeasedReaderStateView { lease_duration_ms: number, ..message },
        ),
        ProtoLeasedReaderState::with_field(message, other_field(4), limit) is None,
        ({
            let read_as = ProtoLeasedReaderState::with_field(
                message,
                FieldView { tag: 5, payload },
                limit,
            );
            match message_with::<ProtoHandleDebugState>(message.debug, payload, limit) {
                Some(read) => read_as == Some(
                    ProtoLeasedReaderStateView { debug: Some(read), ..message },
                ),
                None => read_as is None,
            }
        }),
        other.tag == 0 || other.tag > 5 ==> ProtoLeasedReaderState::with_field(
            message,
            other,
            limit,
        ) == Some(message),
{
}

/// The fields of a reader that holds back compaction: its frontier, what its holder keeps with it,
/// under which codec, and who holds it. Any other field is passed over.
pub proof fn lemma_critical_reader_fields(
    message: ProtoCriticalReaderStateView,
    number: u64,
    text: Seq<char>,
    payload: PayloadView,
    other: FieldView,
    limit: nat,
)
    ensures
        ({
            let read_as = ProtoCriticalReaderState::with_field(
                message,
                FieldView { tag: 1, payload },
                limit,
            );
            match message_with::<ProtoU64Antichain>(message.since, payload, limit) {
                Some(read) => read_as == Some(
                    ProtoCriticalReaderStateView { since: Some(read), ..message },
                ),
                None => read_as is None,
            }
        }),
        ProtoCriticalReaderState::with_field(message, number_field(2, number), limit) == Some(
            ProtoCriticalReaderStateView { opaque: number as i64, ..message },
        ),
        ProtoCriticalReaderState::with_field(message, other_field(2), limit) is None,
        ProtoCriticalReaderState::with_field(message, text_field(3, text), limit) == Some(
            ProtoCriticalReaderStateView { opaque_codec: text, ..message },
        ),
        ProtoCriticalReaderState::with_field(message, other_field(3), limit) is None,
        ({
            let read_as = ProtoCriticalReaderState::with_field(
                message,
                FieldView { tag: 4, payload },
                limit,
            );
            match message_with::<ProtoHandleDebugState>(message.debug, payload, limit) {
                Some(read) => read_as == Some(
                    ProtoCriticalReaderStateView { debug: Some(read), ..message },
                ),
                None => read_as is None,
            }
        }),
        other.tag == 0 || other.tag > 4 ==> ProtoCriticalReaderState::with_field(
            message,
            other,
            limit,
        ) == Some(message),
{
    lemma_text_field(text);
}

/// The fields of a writer: when it was last heard of, how long its lease lasts, its last write and
/// the frontier of that, and who holds it. Any other field is passed over.
pub proof fn lemma_writer_fields(
    message: ProtoWriterStateView,
    number: u64,
    text: Seq<char>,
    payload: PayloadView,
    other: FieldView,
    limit: nat,
)
    ensures
        ProtoWriterState::with_field(message, number_field(1, number), limit) == Some(
            ProtoWriterStateView { last_heartbeat_timestamp_ms: number, ..message },
        ),
        ProtoWriterState::with_field(message, other_field(1), limit) is None,
        ProtoWriterState::with_field(message, number_field(2, number), limit) == Some(
            ProtoWriterStateView { lease_duration_ms: number, ..message },
        ),
        ProtoWriterState::with_field(message, other_field(2), limit) is None,
        ProtoWriterState::with_field(message, text_field(3, text), limit) == Some(
            ProtoWriterStateView { most_recent_write_token: text, ..message },
        ),
        ProtoWriterState::with_field(message, other_field(3), limit) is None,
        ({
            let read_as = ProtoWriterState::with_field(
                message,
                FieldView { tag: 4, payload },
                limit,
            );
            let upper = message.most_recent_write_upper;
            match message_with::<ProtoU64Antichain>(upper, payload, limit) {
                Some(read) => read_as == Some(
                    ProtoWriterStateView { most_recent_write_upper: Some(read), ..message },
                ),
                None => read_as is None,
            }
        }),
        ({
            let read_as = ProtoWriterState::with_field(
                message,
                FieldView { tag: 5, payload },
                limit,
            );
            match message_with::<ProtoHandleDebugState>(message.debug, payload, limit) {
                Some(read) => read_as == Some(
                    ProtoWriterStateView { debug: Some(read), ..message },
                ),
                None => read_as is None,
            }
        }),
        other.tag == 0 || other.tag > 5 ==> ProtoWriterState::with_field(
            message,
            other,
            limit,
        ) == Some(message),
{
    lemma_text_field(text);
}

/// The fields of a rollup: the number of its state and its key. Any other field is passed over.
pub proof fn lemma_rollup_fields(
    message: ProtoRollupView,
    number: u64,
    text: Seq<char>,
    other: FieldView,
    limit: nat,
)
    ensures
        ProtoRollup::with_field(message, number_field(1, number), limit) == Some(
            ProtoRollupView { seqno: number, ..message },
        ),
        ProtoRollup::with_field(message, other_field(1), limit) is None,
        ProtoRollup::with_field(message, text_field(2, text), limit) == Some(
            ProtoRollupView { key: text, ..message },
        ),
        ProtoRollup::with_field(message, other_field(2), limit) is None,
        other.tag == 0 || other.tag > 2 ==> ProtoRollup::with_field(
            message,
            other,
            limit,
        ) == Some(message),
{
    lemma_text_field(text);
}

/// The fields of a state: the version, the shard, the number, the host, the four codecs, the last
/// collection of garbage, and the batches. Any other field is passed over.
pub proof fn lemma_state_fields(
    message: ProtoStateRollupView,
    number: u64,
    text: Seq<char>,
    payload: PayloadView,
    other: FieldView,
    limit: nat,
)
    ensures
        ProtoStateRollup::with_field(message, text_field(1, text), limit) == Some(
            ProtoStateRollupView { applier_version: text, ..message },
        ),
        ProtoStateRollup::with_field(message, other_field(1), limit) is None,
        ProtoStateRollup::with_field(message, text_field(2, text), limit) == Some(
            ProtoStateRollupView { shard_id: text, ..message },
        ),
        ProtoStateRollup::with_field(message, other_field(2), limit) is None,
        ProtoStateRollup::with_field(message, number_field(3, number), limit) == Some(
            ProtoStateRollupView { seqno: number, ..message },
        ),
        ProtoStateRollup::with_field(message, other_field(3), limit) is None,
        ProtoStateRollup::with_field(message, text_field(4, text), limit) == Some(
            ProtoStateRollupView { hostname: text, ..message },
        ),
        ProtoStateRollup::with_field(message, other_field(4), limit) is None,
        ProtoStateRollup::with_field(message, text_field(5, text), limit) == Some(
            ProtoStateRollupView { key_codec: text, ..message },
        ),
        ProtoStateRollup::with_field(message, other_field(5), limit) is None,
        ProtoStateRollup::with_field(message, text_field(6, text), limit) == Some(
            ProtoStateRollupView { val_codec: text, ..message },
        ),
        ProtoStateRollup::with_field(message, other_field(6), limit) is None,
        ProtoStateRollup::with_field(message, text_field(7, text), limit) == Some(
            ProtoStateRollupView { ts_codec: text, ..message },
        ),
        ProtoStateRollup::with_field(message, other_field(7), limit) is None,
        ProtoStateRollup::with_field(message, text_field(8, text), limit) == Some(
            ProtoStateRollupView { diff_codec: text, ..message },
        ),
        ProtoStateRollup::with_field(message, other_field(8), limit) is None,
        ProtoStateRollup::with_field(message, number_field(9, number), limit) == Some(
            ProtoStateRollupView { last_gc_req: number, ..message },
        ),
        ProtoStateRollup::with_field(message, other_field(9), limit) is None,
        ({
            let read_as = ProtoStateRollup::with_field(
                message,
                FieldView { tag: 14, payload },
                limit,
            );
            match message_with::<ProtoTrace>(message.trace, payload, limit) {
                Some(read) => read_as == Some(
                    ProtoStateRollupView { trace: Some(read), ..message },
                ),
                None => read_as is None,
            }
        }),
        other.tag == 0 || other.tag > 14 ==> ProtoStateRollup::with_field(
            message,
            other,
            limit,
        ) == Some(message),
{
    lemma_text_field(text);
}

/// Whether entries have one more, in the place of the one with its key if there was one, and behind
/// all others if there was none.
pub open spec fn is_replaced<E, K>(
    before: Seq<E>,
    after: Seq<E>,
    key: spec_fn(E) -> K,
    entry: E,
) -> bool {
    ||| exists|i: int|
        0 <= i < before.len() && key(#[trigger] before[i]) == key(entry) && after == before.update(
            i,
            entry,
        )
    ||| after == before.push(entry) && forall|i: int|
        0 <= i < before.len() ==> key(#[trigger] before[i]) != key(entry)
}

proof fn lemma_entry_is_replaced<E, K>(entries: Seq<E>, key: spec_fn(E) -> K, entry: E)
    ensures
        is_replaced(entries, with_entry(entries, key, entry), key, entry),
{
    lemma_place(entries, key, key(entry));
}

proof fn lemma_place<E, K>(entries: Seq<E>, key: spec_fn(E) -> K, k: K)
    ensures
        match place_of(entries, key, k) {
            Some(place) => 0 <= place < entries.len() && key(entries[place]) == k,
            None => forall|i: int| 0 <= i < entries.len() ==> key(#[trigger] entries[i]) != k,
        },
    decreases entries.len(),
{
    if entries.len() > 0 && key(entries.last()) != k {
        let front = entries.drop_last();
        lemma_place(front, key, k);
        if place_of(front, key, k) is None {
            assert forall|i: int| 0 <= i < entries.len() implies key(#[trigger] entries[i])
                != k by {
                if i < front.len() {
                    assert(key(front[i]) != k);
                }
            }
        }
    }
}

/// The fields of a state that hold entries: its rollups by their numbers, and its readers and
/// writers by their ids. An entry takes the place of the one with the same number or id.
pub proof fn lemma_state_entries(
    message: ProtoStateRollupView,
    rollup: ProtoRollupView,
    reader: ProtoKeyedView<ProtoLeasedReaderStateView>,
    critical: ProtoKeyedView<ProtoCriticalReaderStateView>,
    writer: ProtoKeyedView<ProtoWriterStateView>,
    payload: PayloadView,
    limit: nat,
)
    ensures
        rollup_key()(rollup) == rollup.seqno,
        id_key()(reader) == reader.id,
        id_key()(critical) == critical.id,
        id_key()(writer) == writer.id,
        ({
            let read_as = ProtoStateRollup::with_field(
                message,
                FieldView { tag: 10, payload },
                limit,
            );
            match message_with::<ProtoRollup>(None, payload, limit) {
                Some(entry) => {
                    &&& read_as matches Some(after)
                    &&& is_replaced(message.rollups, after.rollups, rollup_key(), entry)
                    &&& after == (ProtoStateRollupView { rollups: after.rollups, ..message })
                },
                None => read_as is None,
            }
        }),
        ({
            let read_as = ProtoStateRollup::with_field(
                message,
                FieldView { tag: 11, payload },
                limit,
            );
            match message_with::<ProtoKeyed<ProtoLeasedReaderState>>(None, payload, limit) {
                Some(entry) => {
                    &&& read_as matches Some(after)
                    &&& is_replaced(message.leased_readers, after.leased_readers, id_key(), entry)
                    &&& after == (ProtoStateRollupView {
                        leased_readers: after.leased_readers,
                        ..message
                    })
                },
                None => read_as is None,
            }
        }),
        ({
            let read_as = ProtoStateRollup::with_field(
                message,
                FieldView { tag: 12, payload },
                limit,
            );
            match message_with::<ProtoKeyed<ProtoCriticalReaderState>>(None, payload, limit) {
                Some(entry) => {
                    &&& read_as matches Some(after)
                    &&& is_replaced(
                        message.critical_readers,
                        after.critical_readers,
                        id_key(),
                        entry,
                    )
                    &&& after == (ProtoStateRollupView {
                        critical_readers: after.critical_readers,
                        ..message
                    })
                },
                None => read_as is None,
            }
        }),
        ({
            let read_as = ProtoStateRollup::with_field(
                message,
                FieldView { tag: 13, payload },
                limit,
            );
            match message_with::<ProtoKeyed<ProtoWriterState>>(None, payload, limit) {
                Some(entry) => {
                    &&& read_as matches Some(after)
                    &&& is_replaced(message.writers, after.writers, id_key(), entry)
                    &&& after == (ProtoStateRollupView { writers: after.writers, ..message })
                },
                None => read_as is None,
            }
        }),
{
    if let Some(entry) = message_with::<ProtoRollup>(None, payload, limit) {
        lemma_entry_is_replaced(message.rollups, rollup_key(), entry);
    }
    if let Some(entry) = message_with::<ProtoKeyed<ProtoLeasedReaderState>>(None, payload, limit) {
        lemma_entry_is_replaced(message.leased_readers, id_key(), entry);
    }
    if let Some(entry) = message_with::<ProtoKeyed<ProtoCriticalReaderState>>(
        None,
        payload,
        limit,
    ) {
        lemma_entry_is_replaced(message.critical_readers, id_key(), entry);
    }
    if let Some(entry) = message_with::<ProtoKeyed<ProtoWriterState>>(None, payload, limit) {
        lemma_entry_is_replaced(message.writers, id_key(), entry);
    }
}

} // verus!
