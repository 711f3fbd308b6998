//! What the parts of a source are for: which messages of a reader are handed on, how things are
//! named, and what is measured.

use vstd::prelude::*;
use vstd::utf8::encode_utf8;

use crate::debezium::datum::Row;
use crate::debezium::position_laws::lemma_decimal_is_read_back;
use crate::persist::ids::id_text;
use crate::source::metrics::{
    new_partition_metrics, new_reader_partition_metrics, new_source_metrics, sink_labels,
    with_all_progress, with_partition, with_progress, PartitionMetricsView, Progress,
    SourceMetricsView, SourceReaderMetricsView,
};
use crate::source::types::{
    emitted, global_id_text, partition_id_text, step_of, Delay, GlobalId, MaybeLength, NextMessage,
    NextStep, PartitionId, SourceMessageType, Value,
};
use crate::text::{decimal, signed_decimal, unsigned_value};

verus! {

/// A message is handed on as it is. A hiccup is waited out for a millisecond, and a reader without
/// a message is asked again after the granularity of timestamps. A reader that has finished is not
/// asked again.
pub proof fn lemma_replies_decide<Key, Value, D>(
    reply: NextMessage<Key, Value, D>,
    timestamp_granularity: Delay,
)
    ensures
        match reply {
            NextMessage::Ready(message) => step_of(reply, timestamp_granularity) == NextStep::Emit(
                message,
            ),
            NextMessage::TransientDelay => step_of(reply, timestamp_granularity) matches
                NextStep::Sleep(delay) && delay.secs == 0 && delay.nanos == 1_000_000,
            NextMessage::Pending => step_of(reply, timestamp_granularity) matches NextStep::Sleep(
                delay,
            ) && delay == timestamp_granularity,
            NextMessage::Finished => step_of(reply, timestamp_granularity) is Stop,
        },
{
}

/// Without a reply, nothing is handed on. A message is handed on behind those before it, if the
/// reader has not finished before. With what is said of delays and of the end, this tells what is
/// handed on of any replies.
pub proof fn lemma_message_is_handed_on<Key, Value, D>(
    before: Seq<NextMessage<Key, Value, D>>,
    message: SourceMessageType<Key, Value, D>,
    timestamp_granularity: Delay,
)
    requires
        forall|i: int| 0 <= i < before.len() ==> !((#[trigger] before[i]) is Finished),
    ensures
        emitted(Seq::<NextMessage<Key, Value, D>>::empty(), timestamp_granularity).len() == 0,
        emitted(before.push(NextMessage::Ready(message)), timestamp_granularity) == emitted(
            before,
            timestamp_granularity,
        ).push(message),
    decreases before.len(),
{
    let all = before.push(NextMessage::Ready(message));
    if before.len() == 0 {
        let none = all.skip(1);
        assert(none.len() == 0);
        let nothing = emitted(none, timestamp_granularity);
        assert(nothing.len() == 0);
        assert(seq![message] + nothing =~= seq![message]);
        assert(emitted(before, timestamp_granularity).push(message) =~= seq![message]);
        assert(all[0] == NextMessage::<Key, Value, D>::Ready(message));
    } else {
        assert(!(before[0] is Finished));
        let rest = before.skip(1);
        assert forall|i: int| 0 <= i < rest.len() implies !((#[trigger] rest[i]) is Finished) by {
            assert(rest[i] == before[i + 1]);
        }
        lemma_message_is_handed_on(rest, message, timestamp_granularity);
        assert(all.skip(1) =~= rest.push(NextMessage::Ready(message)));
        let later = emitted(rest, timestamp_granularity);
        if let NextMessage::Ready(first) = before[0] {
            assert(seq![first] + later.push(message) =~= (seq![first] + later).push(message));
        }
    }
}

/// Different numbers have different decimal forms.
pub proof fn lemma_decimals_are_apart(a: nat, b: nat)
    requires
        decimal(a) == decimal(b),
    ensures
        a == b,
{
    let max = if a < b {
        b
    } else {
        a
    };
    lemma_decimal_is_read_back(a, max);
    lemma_decimal_is_read_back(b, max);
    assert(unsigned_value(encode_utf8(decimal(a)), 10, max) == Some(a));
    assert(unsigned_value(encode_utf8(decimal(b)), 10, max) == Some(b));
}

/// The decimal form of a number has digits only, and no leading zero but for 0 itself.
pub proof fn lemma_decimal_form(n: nat)
    ensures
        decimal(n).len() > 0,
        forall|i: int| 0 <= i < decimal(n).len() ==> '0' <= #[trigger] decimal(n)[i] <= '9',
        n > 0 ==> decimal(n)[0] != '0',
        n == 0 ==> decimal(n) == seq!['0'],
    decreases n,
{
    if n >= 10 {
        lemma_decimal_form(n / 10);
        assert(decimal(n)[0] == decimal(n / 10)[0]);
    }
}

/// A negative number is written with a sign before its digits, and any other without.
pub proof fn lemma_signed_decimal_form(i: int)
    ensures
        i >= 0 ==> signed_decimal(i) == decimal(i as nat),
        i < 0 ==> signed_decimal(i) == seq!['-'] + decimal((-i) as nat),
{
}

/// The ids of objects are a letter for their namespace and their number, and different ids have
/// different texts.
pub proof fn lemma_global_ids_are_apart(a: GlobalId, b: GlobalId)
    ensures
        a matches GlobalId::System(n) ==> global_id_text(a) == seq!['s'] + decimal(n as nat),
        a matches GlobalId::User(n) ==> global_id_text(a) == seq!['u'] + decimal(n as nat),
        a matches GlobalId::Transient(n) ==> global_id_text(a) == seq!['t'] + decimal(n as nat),
        a is Explain ==> global_id_text(a) == "Explained Query"@,
        global_id_text(a) == global_id_text(b) ==> a == b,
{
    reveal_strlit("s");
    reveal_strlit("u");
    reveal_strlit("t");
    reveal_strlit("Explained Query");
    assert("s"@ =~= seq!['s']);
    assert("u"@ =~= seq!['u']);
    assert("t"@ =~= seq!['t']);
    if global_id_text(a) == global_id_text(b) {
        let text = global_id_text(a);
        assert(global_id_text(a)[0] == global_id_text(b)[0]);
        match (a, b) {
            (GlobalId::System(n), GlobalId::System(m)) => {
                assert(text.skip(1) =~= decimal(n as nat));
                assert(text.skip(1) =~= decimal(m as nat));
                lemma_decimals_are_apart(n as nat, m as nat);
            },
            (GlobalId::User(n), GlobalId::User(m)) => {
                assert(text.skip(1) =~= decimal(n as nat));
                assert(text.skip(1) =~= decimal(m as nat));
                lemma_decimals_are_apart(n as nat, m as nat);
            },
            (GlobalId::Transient(n), GlobalId::Transient(m)) => {
                assert(text.skip(1) =~= decimal(n as nat));
                assert(text.skip(1) =~= decimal(m as nat));
                lemma_decimals_are_apart(n as nat, m as nat);
            },
            _ => {},
        }
    }
}

/// The ids of partitions are their number, or "none" where there are no partitions, and different
/// ids have different texts.
pub proof fn lemma_partition_ids_are_apart(a: PartitionId, b: PartitionId)
    ensures
        a matches PartitionId::Kafka(n) ==> partition_id_text(a) == signed_decimal(n as int),
        a is Whole ==> partition_id_text(a) == "none"@,
        partition_id_text(a) == partition_id_text(b) ==> a == b,
{
    reveal_strlit("none");
    if let PartitionId::Kafka(n) = a {
        lemma_signed_start(n as int);
        if let PartitionId::Kafka(m) = b {
            lemma_signed_start(m as int);
            if signed_decimal(n as int) == signed_decimal(m as int) {
                let text = signed_decimal(n as int);
                if n < 0 {
                    assert(text.skip(1) =~= decimal((-n) as nat));
                    assert(text.skip(1) =~= decimal((-m) as nat));
                    lemma_decimals_are_apart((-n) as nat, (-m) as nat);
                } else {
                    lemma_decimals_are_apart(n as nat, m as nat);
                }
            }
        }
    }
    if let PartitionId::Kafka(m) = b {
        lemma_signed_start(m as int);
    }
}

proof fn lemma_signed_start(i: int)
    ensures
        signed_decimal(i).len() > 0,
        i < 0 <==> signed_decimal(i)[0] == '-',
        i >= 0 ==> '0' <= signed_decimal(i)[0] <= '9',
{
    lemma_decimal_form(
        if i < 0 {
            (-i) as nat
        } else {
            i as nat
        },
    );
}

/// What is measured of an output of a source is labelled by the source, the output and the shard,
/// in this order.
pub proof fn lemma_sink_labels(shard_id: Seq<u8>, source_id: GlobalId, output_index: usize)
    ensures
        ({
            let labels = sink_labels(shard_id, source_id, output_index);
            &&& labels.len() == 3
            &&& labels[0] == global_id_text(source_id)
            &&& labels[1] == decimal(output_index as nat)
            &&& labels[2] == id_text('s', shard_id)
        }),
{
}

/// What is measured of a source is labelled by its name, its id and the worker, and what is resumed
/// of it by its id. It starts at 0, without partitions.
pub proof fn lemma_fresh_source_metrics(
    source_name: Seq<char>,
    source_id: GlobalId,
    worker_id: Seq<char>,
)
    ensures
        ({
            let metrics = new_source_metrics(source_name, source_id, worker_id);
            &&& metrics.capability.labels == seq![
                source_name,
                global_id_text(source_id),
                worker_id,
            ]
            &&& metrics.capability.value == 0
            &&& metrics.resume_upper.labels == seq![global_id_text(source_id)]
            &&& metrics.resume_upper.value == 0
            &&& metrics.partition_metrics == Map::<PartitionId, PartitionMetricsView>::empty()
            &&& metrics.source_name == source_name
            &&& metrics.source_id == source_id
        }),
{
}

/// What is measured of a partition is labelled by the name and the id of its source and by its own
/// id, and starts at 0.
pub proof fn lemma_fresh_partition_metrics(
    source_name: Seq<char>,
    source_id: GlobalId,
    partition_id: PartitionId,
)
    ensures
        ({
            let metrics = new_partition_metrics(source_name, source_id, partition_id);
            let labels = seq![
                source_name,
                global_id_text(source_id),
                partition_id_text(partition_id),
            ];
            &&& metrics.offset_ingested.labels == labels && metrics.offset_ingested.value == 0
            &&& metrics.offset_received.labels == labels && metrics.offset_received.value == 0
            &&& metrics.closed_ts.labels == labels && metrics.closed_ts.value == 0
            &&& metrics.messages_ingested.labels == labels && metrics.messages_ingested.value == 0
            &&& metrics.last_offset == 0
            &&& metrics.last_timestamp == 0
        }),
{
}

/// Whether the metrics of a partition have been moved on by some progress: the messages are added
/// up, both offsets are raised if the new one is higher, and the last offset and timestamp are the
/// new ones. The labels stay, and so does the closed timestamp.
pub open spec fn moved_on(
    before: PartitionMetricsView,
    after: PartitionMetricsView,
    offset: u64,
    timestamp: u64,
    count: i64,
) -> bool {
    &&& after.messages_ingested.value == before.messages_ingested.value.wrapping_add(count)
    &&& after.offset_ingested.value >= offset && after.offset_ingested.value
        >= before.offset_ingested.value
    &&& after.offset_ingested.value == offset || after.offset_ingested.value
        == before.offset_ingested.value
    &&& after.offset_received.value >= offset && after.offset_received.value
        >= before.offset_received.value
    &&& after.offset_received.value == offset || after.offset_received.value
        == before.offset_received.value
    &&& after.last_offset == offset
    &&& after.last_timestamp == timestamp as i64
    &&& after.closed_ts == before.closed_ts
    &&& after.offset_ingested.labels == before.offset_ingested.labels
    &&& after.offset_received.labels == before.offset_received.labels
    &&& after.messages_ingested.labels == before.messages_ingested.labels
}

/// Progress of a partition moves its metrics on, or those of a fresh partition if it was not
/// measured before. Nothing else that is measured of the source changes.
pub proof fn lemma_progress_moves_partition(metrics: SourceMetricsView, progress: Progress)
    ensures
        ({
            let (partition, (offset, timestamp, count)) = progress;
            let after = with_progress(metrics, progress);
            let before = if metrics.partition_metrics.contains_key(partition) {
                metrics.partition_metrics[partition]
            } else {
                new_partition_metrics(metrics.source_name, metrics.source_id, partition)
            };
            &&& after.partition_metrics.contains_key(partition)
            &&& moved_on(
                before,
                after.partition_metrics[partition],
                offset.offset,
                timestamp,
                count,
            )
            &&& forall|other: PartitionId|
                other != partition ==> (#[trigger] after.partition_metrics.contains_key(other)
                    <==> metrics.partition_metrics.contains_key(other))
                    && after.partition_metrics[other] == metrics.partition_metrics[other]
            &&& after.capability == metrics.capability
            &&& after.resume_upper == metrics.resume_upper
            &&& after.source_name == metrics.source_name
            &&& after.source_id == metrics.source_id
        }),
{
}

/// Progress is recorded one after the other, each exactly once.
pub proof fn lemma_progress_is_recorded_in_order(
    metrics: SourceMetricsView,
    offsets: Seq<Progress>,
    progress: Progress,
)
    ensures
        with_all_progress(metrics, Seq::empty()) == metrics,
        with_all_progress(metrics, offsets.push(progress)) == with_progress(
            with_all_progress(metrics, offsets),
            progress,
        ),
{
    assert(offsets.push(progress).drop_last() =~= offsets);
}

/// What a reader measures of a partition is labelled by the ids of the source and of the partition,
/// starts at 0, and is made once: asking for it again changes nothing, and leaves all others alone.
pub proof fn lemma_reader_metrics_are_made_once(
    metrics: SourceReaderMetricsView,
    pid: PartitionId,
)
    ensures
        ({
            let fresh = new_reader_partition_metrics(metrics.source_id, pid);
            let after = with_partition(metrics, pid);
            &&& fresh.labels == seq![global_id_text(metrics.source_id), partition_id_text(pid)]
            &&& fresh.value == 0
            &&& after.source_id == metrics.source_id
            &&& after.partition_metrics.contains_key(pid)
            &&& after.partition_metrics[pid] == if metrics.partition_metrics.contains_key(pid) {
                metrics.partition_metrics[pid]
            } else {
                fresh
            }
            &&& forall|other: PartitionId|
                other != pid ==> (#[trigger] after.partition_metrics.contains_key(other)
                    <==> metrics.partition_metrics.contains_key(other))
                    && after.partition_metrics[other] == metrics.partition_metrics[other]
            &&& with_partition(after, pid) == after
        }),
{
}

/// The length of bytes is how many there are, that of a row is how many bytes it is packed into,
/// and that of something that may be missing is that of what is there. Nothing and encoded values
/// have no known length.
pub proof fn lemma_lengths<T: MaybeLength>(bytes: Vec<u8>, row: Row, value: Value, thing: T)
    requires
        bytes@.len() <= usize::MAX,
        row.data@.len() <= usize::MAX,
    ensures
        ().length() is None,
        value.length() is None,
        bytes.length() matches Some(len) && len == bytes@.len(),
        row.length() matches Some(len) && len == row.data@.len(),
        Some(thing).length() == thing.length(),
        None::<T>.length() is None,
{
}

} // verus!
