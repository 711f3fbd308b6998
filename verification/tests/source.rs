use differential_dataflow::Hashable;
use mz_ingest::debezium::datum::Row;
use mz_ingest::persist::ids::ShardId;
use mz_ingest::source::metrics::{
    Metric, PartitionMetrics, SourceMetrics, SourcePersistSinkMetrics, SourceReaderMetrics,
    SourceReaderPartitionMetrics,
};
use mz_ingest::source::types::{
    next_step, Delay, GlobalId, HealthStatus, MaybeLength, MzOffset, NextMessage, NextStep,
    PartitionId, SourceErrorDetails, SourceMessage, SourceMessageType, SourceOutput,
    SourceReaderError, Value,
};

fn labels(labels: &[&str]) -> Vec<String> {
    labels.iter().map(|label| label.to_string()).collect()
}

fn metric<T>(names: &[&str], value: T) -> Metric<T> {
    Metric { labels: labels(names), value }
}

#[test]
fn ids_have_texts() {
    assert_eq!(GlobalId::System(1).to_string(), "s1");
    assert_eq!(GlobalId::User(u64::MAX).to_string(), "u18446744073709551615");
    assert_eq!(GlobalId::Transient(30).to_string(), "t30");
    assert_eq!(GlobalId::Explain.to_string(), "Explained Query");
    assert_eq!(PartitionId::Kafka(-7).to_string(), "-7");
    assert_eq!(PartitionId::Kafka(12).to_string(), "12");
    assert_eq!(PartitionId::Whole.to_string(), "none");
}

#[test]
fn lengths_are_known_or_not() {
    assert_eq!(MaybeLength::len(&()), None);
    assert_eq!(MaybeLength::len(&vec![1u8, 2, 3]), Some(3));
    let row = Row { datums: vec![], data: vec![0; 5] };
    assert_eq!(MaybeLength::len(&row), Some(5));
    assert_eq!(MaybeLength::len(&Value { data: vec![1] }), None);
    assert_eq!(MaybeLength::len(&Some(vec![1u8])), Some(1));
    assert_eq!(MaybeLength::len(&None::<Vec<u8>>), None);
    assert_eq!(MaybeLength::len(&Some(())), None);
}

#[test]
fn errors_of_readers_keep_their_text() {
    assert_eq!(
        SourceReaderError::other_definite("broken"),
        SourceReaderError { inner: SourceErrorDetails::Other("broken".to_owned()) }
    );
}

#[test]
fn outputs_hold_what_they_are_built_from() {
    let headers = Some(vec![("h".to_owned(), None), ("i".to_owned(), Some(vec![1u8]))]);
    let output = SourceOutput::new(
        "key",
        vec![1u8],
        MzOffset { offset: 5 },
        Some(6),
        PartitionId::Kafka(2),
        headers.clone(),
        -1i64,
    );
    assert_eq!(output.key, "key");
    assert_eq!(output.value, vec![1]);
    assert_eq!(output.position, MzOffset { offset: 5 });
    assert_eq!(output.upstream_time_millis, Some(6));
    assert_eq!(output.partition, PartitionId::Kafka(2));
    assert_eq!(output.headers, headers);
    assert_eq!(output.diff, -1);
    assert_eq!(output.position_hash(), MzOffset { offset: 5 }.hashed());
}

type Reply = NextMessage<(), Vec<u8>, i64>;

fn message(offset: u64) -> SourceMessageType<(), Vec<u8>, i64> {
    SourceMessageType::Finalized(
        Ok(SourceMessage {
            output: 0,
            upstream_time_millis: None,
            key: (),
            value: vec![1],
            headers: None,
        }),
        (PartitionId::Whole, MzOffset { offset }),
        1,
    )
}

const GRANULARITY: Delay = Delay { secs: 1, nanos: 5 };

#[test]
fn replies_decide_what_is_done() {
    assert!(matches!(
        next_step(Reply::Ready(message(3)), GRANULARITY),
        NextStep::Emit(SourceMessageType::Finalized(
            Ok(_),
            (PartitionId::Whole, MzOffset { offset: 3 }),
            1
        ))
    ));
    assert!(matches!(
        next_step(Reply::Ready(SourceMessageType::SourceStatus(HealthStatus::Running)), GRANULARITY),
        NextStep::Emit(SourceMessageType::SourceStatus(HealthStatus::Running))
    ));
    assert!(matches!(
        next_step(Reply::TransientDelay, GRANULARITY),
        NextStep::Sleep(Delay { secs: 0, nanos: 1_000_000 })
    ));
    assert!(matches!(
        next_step(Reply::Pending, GRANULARITY),
        NextStep::Sleep(Delay { secs: 1, nanos: 5 })
    ));
    assert!(matches!(next_step(Reply::Finished, GRANULARITY), NextStep::Stop));
}

fn offsets(replies: Vec<Reply>) -> Vec<u64> {
    let mut offsets = vec![];
    for reply in replies {
        match next_step(reply, GRANULARITY) {
            NextStep::Emit(SourceMessageType::Finalized(_, (_, offset), _)) => {
                offsets.push(offset.offset)
            }
            NextStep::Emit(_) | NextStep::Sleep(_) => {}
            NextStep::Stop => return offsets,
        }
    }
    offsets
}

#[test]
fn delays_lose_no_messages_and_the_end_is_last() {
    let ready = |offset| Reply::Ready(message(offset));
    assert_eq!(
        offsets(vec![Reply::Pending, ready(1), Reply::TransientDelay, ready(2)]),
        offsets(vec![ready(1), ready(2)])
    );
    assert_eq!(offsets(vec![ready(1), Reply::Finished, ready(2)]), vec![1]);
}

#[test]
fn sink_metrics_are_labelled() {
    let metrics = SourcePersistSinkMetrics::new(&ShardId([0; 16]), GlobalId::User(4), 2);
    let names = ["u4", "2", "s00000000-0000-0000-0000-000000000000"];
    assert_eq!(
        metrics,
        SourcePersistSinkMetrics {
            progress: metric(&names, 0),
            row_inserts: metric(&names, 0),
            row_retractions: metric(&names, 0),
            error_inserts: metric(&names, 0),
            error_retractions: metric(&names, 0),
            processed_batches: metric(&names, 0),
        }
    );
}

#[test]
fn source_metrics_are_labelled() {
    let metrics = SourceMetrics::new("name", GlobalId::User(4), "worker");
    assert_eq!(metrics.capability, metric(&["name", "u4", "worker"], 0));
    assert_eq!(metrics.resume_upper, metric(&["u4"], 0));
    assert_eq!(metrics.partition_metrics.get(PartitionId::Whole), None);
}

#[test]
fn partition_offsets_are_recorded() {
    let mut metrics = SourceMetrics::new("name", GlobalId::User(4), "worker");
    let first = PartitionId::Kafka(0);
    let second = PartitionId::Kafka(1);
    metrics.record_partition_offsets(&vec![
        (first, (MzOffset { offset: 10 }, 100, 3)),
        (second, (MzOffset { offset: 20 }, u64::MAX, 4)),
    ]);
    metrics.record_partition_offsets(&vec![(first, (MzOffset { offset: 15 }, 101, 5))]);
    let names = ["name", "u4", "0"];
    assert_eq!(
        metrics.partition_metrics.get(first),
        Some(&PartitionMetrics {
            offset_ingested: metric(&names, 15),
            offset_received: metric(&names, 15),
            closed_ts: metric(&names, 0),
            messages_ingested: metric(&names, 8),
            last_offset: 15,
            last_timestamp: 101,
        })
    );
    let other = metrics.partition_metrics.get(second).unwrap();
    assert_eq!(other.messages_ingested, metric(&["name", "u4", "1"], 4));
    assert_eq!(other.last_timestamp, -1);
    assert_eq!(metrics.partition_metrics.get(PartitionId::Whole), None);
}

#[test]
fn outputs_at_one_position_go_to_one_worker() {
    let output = |key: u8, offset: u64, partition: PartitionId| {
        SourceOutput::new(key, (), MzOffset { offset }, None, partition, None, 1)
    };
    let outputs = vec![
        output(1, 5, PartitionId::Whole),
        output(2, 6, PartitionId::Whole),
        output(3, 5, PartitionId::Kafka(1)),
    ];
    let hashes = SourceOutput::position_hashes(&outputs);
    assert_eq!(hashes, vec![5u64.hashed(), 6u64.hashed(), 5u64.hashed()]);
}

#[test]
fn offsets_are_measured_up_to_the_highest() {
    let mut metrics = SourceMetrics::new("name", GlobalId::User(4), "worker");
    let partition = PartitionId::Kafka(0);
    metrics.record_partition_offsets(&vec![(partition, (MzOffset { offset: 10 }, 100, 1))]);
    metrics.record_partition_offsets(&vec![(partition, (MzOffset { offset: 7 }, 102, 1))]);
    metrics.record_partition_offsets(&vec![(partition, (MzOffset { offset: 5 }, 101, 1))]);
    let names = ["name", "u4", "0"];
    assert_eq!(
        metrics.partition_metrics.get(partition),
        Some(&PartitionMetrics {
            offset_ingested: metric(&names, 10),
            offset_received: metric(&names, 10),
            closed_ts: metric(&names, 0),
            messages_ingested: metric(&names, 3),
            last_offset: 5,
            last_timestamp: 101,
        })
    );
}

#[test]
fn the_order_of_partitions_does_not_matter() {
    let a = (PartitionId::Kafka(0), (MzOffset { offset: 10 }, 100, 3));
    let b = (PartitionId::Whole, (MzOffset { offset: 20 }, 200, 4));
    let mut one = SourceMetrics::new("name", GlobalId::Explain, "w");
    one.record_partition_offsets(&vec![a, b]);
    let mut other = SourceMetrics::new("name", GlobalId::Explain, "w");
    other.record_partition_offsets(&vec![b, a]);
    for partition in [a.0, b.0] {
        assert_eq!(
            one.partition_metrics.get(partition),
            other.partition_metrics.get(partition)
        );
    }
}

#[test]
fn fresh_partition_metrics_are_zero() {
    let metrics = PartitionMetrics::new("name", GlobalId::System(1), &PartitionId::Whole);
    let names = ["name", "s1", "none"];
    assert_eq!(metrics.offset_ingested, metric(&names, 0));
    assert_eq!(metrics.last_offset, 0);
    assert_eq!(metrics.last_timestamp, 0);
}

#[test]
fn reader_metrics_are_made_once() {
    let mut metrics = SourceReaderMetrics::new(GlobalId::User(1));
    let partition = PartitionId::Kafka(3);
    assert_eq!(metrics.partition_metrics.get(partition), None);
    let expected = SourceReaderPartitionMetrics::new(GlobalId::User(1), &partition);
    assert_eq!(expected.source_resume_upper, metric(&["u1", "3"], 0));
    assert_eq!(metrics.metrics_for_partition(&partition), &expected);
    assert_eq!(metrics.metrics_for_partition(&partition), &expected);
    assert_eq!(metrics.partition_metrics.get(partition), Some(&expected));
    assert_eq!(metrics.partition_metrics.get(PartitionId::Whole), None);
}
