//! What is measured of sources.

use vstd::prelude::*;

use crate::persist::ids::{id_text, ShardId};
use crate::proto::message::views;
use crate::source::types::{
    global_id_text, partition_id_text, GlobalId, MzOffset, PartitionId, Timestamp,
};
use crate::text::{decimal, u64_text};

verus! {

/// Something that is measured, under labels.
#[derive(Debug, PartialEq, Eq)]
pub struct Metric<T> {
    pub labels: Vec<String>,
    pub value: T,
}

/// The contents of a [`Metric`].
#[verifier::ext_equal]
pub struct MetricView<T> {
    pub labels: Seq<Seq<char>>,
    pub value: T,
}

impl<T> View for Metric<T> {
    type V = MetricView<T>;

    open spec fn view(&self) -> MetricView<T> {
        MetricView { labels: views(self.labels@), value: self.value }
    }
}

/// A metric under labels.
pub open spec fn labelled<T>(labels: Seq<Seq<char>>, value: T) -> MetricView<T> {
    MetricView { labels, value }
}

impl<T> Metric<T> {
    fn new(labels: &Vec<String>, value: T) -> (metric: Metric<T>)
        ensures
            metric@ == labelled(views(labels@), value),
    {
        let mut copy: Vec<String> = Vec::new();
        let mut i: usize = 0;
        while i < labels.len()
            invariant
                i <= labels.len(),
                copy@.len() == i,
                forall|j: int| 0 <= j < i ==> #[trigger] copy@[j]@ == labels@[j]@,
            decreases labels.len() - i,
        {
            copy.push(labels[i].clone());
            i = i + 1;
        }
        assert(views(copy@) =~= views(labels@));
        Metric { labels: copy, value }
    }
}

/// Source-specific metrics in the persist sink
#[derive(Debug, PartialEq, Eq)]
pub struct SourcePersistSinkMetrics {
    pub progress: Metric<i64>,
    pub row_inserts: Metric<u64>,
    pub row_retractions: Metric<u64>,
    pub error_inserts: Metric<u64>,
    pub error_retractions: Metric<u64>,
    pub processed_batches: Metric<u64>,
}

/// The labels of what is measured of an output of a source: the source, the output, and the shard.
pub open spec fn sink_labels(shard_id: Seq<u8>, source_id: GlobalId, output_index: usize) -> Seq<
    Seq<char>,
> {
    seq![global_id_text(source_id), decimal(output_index as nat), id_text('s', shard_id)]
}

impl SourcePersistSinkMetrics {
    /// Initialises source metrics for a given output of a source
    pub fn new(shard_id: &ShardId, source_id: GlobalId, output_index: usize) -> (metrics:
        SourcePersistSinkMetrics)
        ensures
            ({
                let labels = sink_labels(shard_id@, source_id, output_index);
                &&& metrics.progress@ == labelled(labels, 0i64)
                &&& metrics.row_inserts@ == labelled(labels, 0u64)
                &&& metrics.row_retractions@ == labelled(labels, 0u64)
                &&& metrics.error_inserts@ == labelled(labels, 0u64)
                &&& metrics.error_retractions@ == labelled(labels, 0u64)
                &&& metrics.processed_batches@ == labelled(labels, 0u64)
            }),
    {
        let mut labels: Vec<String> = Vec::new();
        labels.push(source_id.to_string());
        labels.push(u64_text(output_index as u64));
        labels.push(shard_id.to_string());
        assert(views(labels@) =~= sink_labels(shard_id@, source_id, output_index));
        SourcePersistSinkMetrics {
            progress: Metric::new(&labels, 0),
            row_inserts: Metric::new(&labels, 0),
            row_retractions: Metric::new(&labels, 0),
            error_inserts: Metric::new(&labels, 0),
            error_retractions: Metric::new(&labels, 0),
            processed_batches: Metric::new(&labels, 0),
        }
    }
}

/// What is measured of each partition of a source.
#[derive(Debug, PartialEq, Eq)]
pub struct PartitionMap<M> {
    entries: Vec<(PartitionId, M)>,
}

/// The place of the first entry of a partition; the number of entries, if there is none.
spec fn place<M>(entries: Seq<(PartitionId, M)>, partition_id: PartitionId) -> nat
    decreases entries.len(),
{
    if entries.len() == 0 {
        0
    } else if place(entries.drop_last(), partition_id) < entries.len() - 1 {
        place(entries.drop_last(), partition_id)
    } else if entries.last().0 == partition_id {
        (entries.len() - 1) as nat
    } else {
        entries.len()
    }
}

proof fn lemma_place<M>(entries: Seq<(PartitionId, M)>, partition_id: PartitionId)
    ensures
        ({
            let p = place(entries, partition_id);
            &&& p <= entries.len()
            &&& p < entries.len() ==> entries[p as int].0 == partition_id
            &&& forall|i: int| 0 <= i < p ==> (#[trigger] entries[i]).0 != partition_id
        }),
    decreases entries.len(),
{
    if entries.len() > 0 {
        let front = entries.drop_last();
        lemma_place(front, partition_id);
        assert forall|i: int| 0 <= i < place(entries, partition_id) implies (
        #[trigger] entries[i]).0 != partition_id by {
            if i < front.len() {
                assert(entries[i] == front[i]);
            }
        }
    }
}

proof fn lemma_place_update<M>(entries: Seq<(PartitionId, M)>, i: int, metrics: M, p: PartitionId)
    requires
        0 <= i < entries.len(),
    ensures
        place(entries.update(i, (entries[i].0, metrics)), p) == place(entries, p),
    decreases entries.len(),
{
    let after = entries.update(i, (entries[i].0, metrics));
    if i < entries.len() - 1 {
        lemma_place_update(entries.drop_last(), i, metrics, p);
        assert(after.drop_last() =~= entries.drop_last().update(i, (entries[i].0, metrics)));
    } else {
        assert(after.drop_last() =~= entries.drop_last());
    }
}

impl<M: View> View for PartitionMap<M> {
    type V = Map<PartitionId, M::V>;

    closed spec fn view(&self) -> Map<PartitionId, M::V> {
        Map::new(
            |p: PartitionId| place(self.entries@, p) < self.entries@.len(),
            |p: PartitionId| self.entries@[place(self.entries@, p) as int].1@,
        )
    }
}

impl<M: View> PartitionMap<M> {
    /// Nothing is measured yet.
    pub fn new() -> (map: PartitionMap<M>)
        ensures
            map@ == Map::<PartitionId, M::V>::empty(),
    {
        let map = PartitionMap { entries: Vec::new() };
        assert(map@ =~= Map::<PartitionId, M::V>::empty());
        map
    }

    fn find(&self, partition_id: PartitionId) -> (i: usize)
        ensures
            i == place(self.entries@, partition_id),
            i <= self.entries.len(),
            i < self.entries.len() ==> self@.contains_key(partition_id) && self@[partition_id]
                == self.entries@[i as int].1@,
            i == self.entries.len() ==> !self@.contains_key(partition_id),
    {
        proof {
            lemma_place(self.entries@, partition_id);
        }
        let mut i: usize = 0;
        while i < self.entries.len() && self.entries[i].0 != partition_id
            invariant
                i <= place(self.entries@, partition_id) <= self.entries.len(),
                place(self.entries@, partition_id) < self.entries@.len()
                    ==> self.entries@[place(self.entries@, partition_id) as int].0 == partition_id,
            decreases self.entries.len() - i,
        {
            i = i + 1;
        }
        i
    }

    /// What is measured of a partition, if anything is.
    pub fn get(&self, partition_id: PartitionId) -> (metrics: Option<&M>)
        ensures
            match metrics {
                Some(metrics) => self@.contains_key(partition_id) && self@[partition_id]
                    == metrics@,
                None => !self@.contains_key(partition_id),
            },
    {
        let i: usize = self.find(partition_id);
        if i < self.entries.len() {
            Some(&self.entries[i].1)
        } else {
            None
        }
    }

    fn push(&mut self, partition_id: PartitionId, metrics: M)
        requires
            !old(self)@.contains_key(partition_id),
        ensures
            final(self)@ == old(self)@.insert(partition_id, metrics@),
            final(self).entries@ == old(self).entries@.push((partition_id, metrics)),
    {
        let ghost before = self.entries@;
        self.entries.push((partition_id, metrics));
        proof {
            let after = self.entries@;
            assert(after.drop_last() =~= before);
            assert forall|p: PartitionId|
                place(before, p) <= before.len() && #[trigger] place(after, p) == (if place(
                    before,
                    p,
                ) < before.len() {
                    place(before, p)
                } else if p == partition_id {
                    before.len()
                } else {
                    after.len()
                }) by {
                lemma_place(before, p);
            }
            assert(place(before, partition_id) == before.len());
            assert(self@ =~= old(self)@.insert(partition_id, metrics@));
        }
    }
}

/// Partition-specific metrics
#[derive(Debug, PartialEq, Eq)]
pub struct PartitionMetrics {
    /// Highest offset that has been received by the source and timestamped
    pub offset_ingested: Metric<u64>,
    /// Highest offset that has been received by the source
    pub offset_received: Metric<u64>,
    /// Value of the highest timestamp that is closed (for which all messages have been ingested)
    pub closed_ts: Metric<u64>,
    /// Total number of messages that have been received by the source and timestamped
    pub messages_ingested: Metric<i64>,
    pub last_offset: u64,
    pub last_timestamp: i64,
}

/// The contents of [`PartitionMetrics`].
#[verifier::ext_equal]
pub struct PartitionMetricsView {
    pub offset_ingested: MetricView<u64>,
    pub offset_received: MetricView<u64>,
    pub closed_ts: MetricView<u64>,
    pub messages_ingested: MetricView<i64>,
    pub last_offset: u64,
    pub last_timestamp: i64,
}

impl View for PartitionMetrics {
    type V = PartitionMetricsView;

    open spec fn view(&self) -> PartitionMetricsView {
        PartitionMetricsView {
            offset_ingested: self.offset_ingested@,
            offset_received: self.offset_received@,
            closed_ts: self.closed_ts@,
            messages_ingested: self.messages_ingested@,
            last_offset: self.last_offset,
            last_timestamp: self.last_timestamp,
        }
    }
}

/// The labels of what is measured of a partition of a source.
pub open spec fn partition_labels(
    source_name: Seq<char>,
    source_id: GlobalId,
    partition_id: PartitionId,
) -> Seq<Seq<char>> {
    seq![source_name, global_id_text(source_id), partition_id_text(partition_id)]
}

/// The metrics of a partition of which nothing has been measured.
pub open spec fn new_partition_metrics(
    source_name: Seq<char>,
    source_id: GlobalId,
    partition_id: PartitionId,
) -> PartitionMetricsView {
    let labels = partition_labels(source_name, source_id, partition_id);
    PartitionMetricsView {
        offset_ingested: labelled(labels, 0),
        offset_received: labelled(labels, 0),
        closed_ts: labelled(labels, 0),
        messages_ingested: labelled(labels, 0),
        last_offset: 0,
        last_timestamp: 0,
    }
}

/// The larger of two offsets.
pub open spec fn high_water(a: u64, b: u64) -> u64 {
    if a < b {
        b
    } else {
        a
    }
}

/// The metrics of a partition that has been read up to an offset. What is measured is how far the
/// partition has ever been read; the last offset and timestamp are kept as they are.
pub open spec fn with_offset(
    metrics: PartitionMetricsView,
    offset: u64,
    timestamp: i64,
) -> PartitionMetricsView {
    PartitionMetricsView {
        offset_ingested: labelled(
            metrics.offset_ingested.labels,
            high_water(metrics.offset_ingested.value, offset),
        ),
        offset_received: labelled(
            metrics.offset_received.labels,
            high_water(metrics.offset_received.value, offset),
        ),
        last_offset: offset,
        last_timestamp: timestamp,
        ..metrics
    }
}

/// The metrics of a partition that has been read up to offsets, one after the other.
pub open spec fn with_offsets(
    metrics: PartitionMetricsView,
    offsets: Seq<(u64, i64)>,
) -> PartitionMetricsView
    decreases offsets.len(),
{
    if offsets.len() == 0 {
        metrics
    } else {
        with_offset(
            with_offsets(metrics, offsets.drop_last()),
            offsets.last().0,
            offsets.last().1,
        )
    }
}

/// Whether a number is the highest of some offsets, or 0 if there are none.
pub open spec fn is_highest(mark: u64, offsets: Seq<(u64, i64)>) -> bool {
    &&& forall|i: int| 0 <= i < offsets.len() ==> (#[trigger] offsets[i]).0 <= mark
    &&& if offsets.len() == 0 {
        mark == 0
    } else {
        exists|i: int| 0 <= i < offsets.len() && (#[trigger] offsets[i]).0 == mark
    }
}

/// Whatever offsets a partition has been read up to, in whatever order, what is measured is the
/// highest of them so far. The last offset and timestamp are those of the last one, and nothing
/// else changes.
pub proof fn lemma_highest_offset_is_measured(
    source_name: Seq<char>,
    source_id: GlobalId,
    partition_id: PartitionId,
    offsets: Seq<(u64, i64)>,
)
    ensures
        ({
            let before = new_partition_metrics(source_name, source_id, partition_id);
            let after = with_offsets(before, offsets);
            &&& is_highest(after.offset_ingested.value, offsets)
            &&& is_highest(after.offset_received.value, offsets)
            &&& after.offset_ingested.labels == before.offset_ingested.labels
            &&& after.offset_received.labels == before.offset_received.labels
            &&& after.closed_ts == before.closed_ts
            &&& after.messages_ingested == before.messages_ingested
            &&& offsets.len() > 0 ==> after.last_offset == offsets.last().0 && after.last_timestamp
                == offsets.last().1
        }),
    decreases offsets.len(),
{
    if offsets.len() > 0 {
        let front = offsets.drop_last();
        lemma_highest_offset_is_measured(source_name, source_id, partition_id, front);
        let before = new_partition_metrics(source_name, source_id, partition_id);
        let mid = with_offsets(before, front);
        let after = with_offsets(before, offsets);
        lemma_highest_of_more(mid.offset_ingested.value, after.offset_ingested.value, offsets);
        lemma_highest_of_more(mid.offset_received.value, after.offset_received.value, offsets);
    }
}

proof fn lemma_highest_of_more(mark: u64, after: u64, offsets: Seq<(u64, i64)>)
    requires
        offsets.len() > 0,
        is_highest(mark, offsets.drop_last()),
        after == high_water(mark, offsets.last().0),
    ensures
        is_highest(after, offsets),
{
    let front = offsets.drop_last();
    assert forall|i: int| 0 <= i < offsets.len() implies (#[trigger] offsets[i]).0 <= after by {
        if i < front.len() {
            assert(front[i] == offsets[i]);
        }
    }
    if after == offsets.last().0 {
        assert(offsets[offsets.len() - 1].0 == after);
    } else {
        let i = choose|i: int| 0 <= i < front.len() && (#[trigger] front[i]).0 == mark;
        assert(offsets[i].0 == after);
    }
}

/// The metrics of a partition of which more messages have been read. The total wraps around.
pub open spec fn with_messages(metrics: PartitionMetricsView, count: i64) -> PartitionMetricsView {
    PartitionMetricsView {
        messages_ingested: labelled(
            metrics.messages_ingested.labels,
            metrics.messages_ingested.value.wrapping_add(count),
        ),
        ..metrics
    }
}

impl PartitionMetrics {
    /// Record the latest offset ingested high-water mark
    fn record_offset(&mut self, offset: u64, timestamp: i64)
        ensures
            final(self)@ == with_offset(old(self)@, offset, timestamp),
    {
        if self.offset_received.value < offset {
            self.offset_received.value = offset;
        }
        if self.offset_ingested.value < offset {
            self.offset_ingested.value = offset;
        }
        self.last_offset = offset;
        self.last_timestamp = timestamp;
    }

    /// Initialises partition metrics for a given (source_id, partition_id)
    pub fn new(source_name: &str, source_id: GlobalId, partition_id: &PartitionId) -> (metrics:
        PartitionMetrics)
        ensures
            metrics@ == new_partition_metrics(source_name@, source_id, *partition_id),
    {
        let mut labels: Vec<String> = Vec::new();
        labels.push(source_name.to_owned());
        labels.push(source_id.to_string());
        labels.push(partition_id.to_string());
        assert(views(labels@) =~= partition_labels(source_name@, source_id, *partition_id));
        PartitionMetrics {
            offset_ingested: Metric::new(&labels, 0),
            offset_received: Metric::new(&labels, 0),
            closed_ts: Metric::new(&labels, 0),
            messages_ingested: Metric::new(&labels, 0),
            last_offset: 0,
            last_timestamp: 0,
        }
    }
}

/// How far a partition has been read: its offset, the timestamp, and the number of messages.
pub type Progress = (PartitionId, (MzOffset, Timestamp, i64));

/// Source-specific metrics
#[derive(Debug, PartialEq, Eq)]
pub struct SourceMetrics {
    /// Value of the capability associated with this source
    pub capability: Metric<u64>,
    /// The resume_upper for a source.
    pub resume_upper: Metric<i64>,
    /// Per-partition metrics.
    pub partition_metrics: PartitionMap<PartitionMetrics>,
    source_name: String,
    source_id: GlobalId,
}

/// The contents of [`SourceMetrics`].
#[verifier::ext_equal]
pub struct SourceMetricsView {
    pub capability: MetricView<u64>,
    pub resume_upper: MetricView<i64>,
    pub partition_metrics: Map<PartitionId, PartitionMetricsView>,
    pub source_name: Seq<char>,
    pub source_id: GlobalId,
}

impl View for SourceMetrics {
    type V = SourceMetricsView;

    closed spec fn view(&self) -> SourceMetricsView {
        SourceMetricsView {
            capability: self.capability@,
            resume_upper: self.resume_upper@,
            partition_metrics: self.partition_metrics@,
            source_name: self.source_name@,
            source_id: self.source_id,
        }
    }
}

/// The metrics of partitions, of which one has been read further. A partition that was not
/// measured before starts anew.
pub open spec fn with_progress(
    metrics: SourceMetricsView,
    progress: Progress,
) -> SourceMetricsView {
    let (partition_id, (offset, timestamp, count)) = progress;
    let before = if metrics.partition_metrics.contains_key(partition_id) {
        metrics.partition_metrics[partition_id]
    } else {
        new_partition_metrics(metrics.source_name, metrics.source_id, partition_id)
    };
    SourceMetricsView {
        partition_metrics: metrics.partition_metrics.insert(
            partition_id,
            with_offset(with_messages(before, count), offset.offset, timestamp as i64),
        ),
        ..metrics
    }
}

/// The metrics of partitions, of which some have been read further, one after the other.
pub open spec fn with_all_progress(metrics: SourceMetricsView, offsets: Seq<Progress>) ->
    SourceMetricsView
    decreases offsets.len(),
{
    if offsets.len() == 0 {
        metrics
    } else {
        with_progress(with_all_progress(metrics, offsets.drop_last()), offsets.last())
    }
}

/// It does not matter which of two partitions is recorded first.
pub proof fn lemma_progress_commutes(metrics: SourceMetricsView, a: Progress, b: Progress)
    requires
        a.0 != b.0,
    ensures
        with_progress(with_progress(metrics, a), b) == with_progress(with_progress(metrics, b), a),
{
    assert(with_progress(with_progress(metrics, a), b).partition_metrics =~= with_progress(
        with_progress(metrics, b),
        a,
    ).partition_metrics);
}

/// What is measured of a partition is left alone while other partitions are recorded.
pub proof fn lemma_progress_is_local(
    metrics: SourceMetricsView,
    offsets: Seq<Progress>,
    partition_id: PartitionId,
)
    requires
        forall|i: int| 0 <= i < offsets.len() ==> (#[trigger] offsets[i]).0 != partition_id,
    ensures
        ({
            let before = metrics.partition_metrics;
            let after = with_all_progress(metrics, offsets).partition_metrics;
            &&& after.contains_key(partition_id) <==> before.contains_key(partition_id)
            &&& before.contains_key(partition_id) ==> after[partition_id] == before[partition_id]
        }),
    decreases offsets.len(),
{
    if offsets.len() > 0 {
        let front = offsets.drop_last();
        assert forall|i: int| 0 <= i < front.len() implies (#[trigger] front[i]).0
            != partition_id by {
            assert(front[i] == offsets[i]);
        }
        lemma_progress_is_local(metrics, front, partition_id);
        assert(offsets.last() == offsets[offsets.len() - 1]);
    }
}

/// The metrics of a source of which nothing has been measured.
pub open spec fn new_source_metrics(
    source_name: Seq<char>,
    source_id: GlobalId,
    worker_id: Seq<char>,
) -> SourceMetricsView {
    SourceMetricsView {
        capability: labelled(seq![source_name, global_id_text(source_id), worker_id], 0),
        resume_upper: labelled(seq![global_id_text(source_id)], 0),
        partition_metrics: Map::empty(),
        source_name,
        source_id,
    }
}

impl SourceMetrics {
    /// Initialises source metrics for a given (source_id, worker_id)
    pub fn new(source_name: &str, source_id: GlobalId, worker_id: &str) -> (metrics: SourceMetrics)
        ensures
            metrics@ == new_source_metrics(source_name@, source_id, worker_id@),
    {
        let mut labels: Vec<String> = Vec::new();
        labels.push(source_name.to_owned());
        labels.push(source_id.to_string());
        labels.push(worker_id.to_owned());
        assert(views(labels@) =~= seq![source_name@, global_id_text(source_id), worker_id@]);
        let mut source_label: Vec<String> = Vec::new();
        source_label.push(source_id.to_string());
        assert(views(source_label@) =~= seq![global_id_text(source_id)]);
        SourceMetrics {
            capability: Metric::new(&labels, 0),
            resume_upper: Metric::new(&source_label, 0),
            partition_metrics: PartitionMap::new(),
            source_name: source_name.to_owned(),
            source_id,
        }
    }

    /// Log updates to which offsets / timestamps read up to.
    pub fn record_partition_offsets(&mut self, offsets: &Vec<Progress>)
        ensures
            final(self)@ == with_all_progress(old(self)@, offsets@),
    {
        let mut i: usize = 0;
        assert(offsets@.take(0) =~= Seq::empty());
        while i < offsets.len()
            invariant
                i <= offsets.len(),
                self@ == with_all_progress(old(self)@, offsets@.take(i as int)),
            decreases offsets.len() - i,
        {
            let (partition, (offset, timestamp, count)) = offsets[i];
            self.record_partition_offset(partition, offset, timestamp, count);
            assert(offsets@.take(i + 1).drop_last() =~= offsets@.take(i as int));
            i = i + 1;
        }
        assert(offsets@.take(i as int) =~= offsets@);
    }

    fn record_partition_offset(
        &mut self,
        partition: PartitionId,
        offset: MzOffset,
        timestamp: Timestamp,
        count: i64,
    )
        ensures
            final(self)@ == with_progress(old(self)@, (partition, (offset, timestamp, count))),
    {
        let i: usize = self.partition_metrics.find(partition);
        if i == self.partition_metrics.entries.len() {
            let metrics = PartitionMetrics::new(
                self.source_name.as_str(),
                self.source_id,
                &partition,
            );
            self.partition_metrics.push(partition, metrics);
        }
        let ghost before = self.partition_metrics;
        proof {
            let first = old(self).partition_metrics.entries@;
            lemma_place(first, partition);
            lemma_place(before.entries@, partition);
            let j = place(before.entries@, partition) as int;
            if j < i {
                assert(before.entries@[j] == first[j]);
            }
            assert(before.entries@[i as int].0 == partition);
            assert(j == i);
        }
        let metrics: &mut PartitionMetrics = &mut self.partition_metrics.entries[i].1;
        metrics.messages_ingested.value = metrics.messages_ingested.value.wrapping_add(count);
        metrics.record_offset(offset.offset, #[verifier::truncate] (timestamp as i64));
        proof {
            let after = self.partition_metrics;
            let value = after.entries@[i as int].1;
            assert(after.entries@ =~= before.entries@.update(i as int, (partition, value)));
            assert forall|p: PartitionId| #[trigger]
                place(after.entries@, p) == place(before.entries@, p) by {
                lemma_place_update(before.entries@, i as int, value, p);
            }
            assert forall|p: PartitionId|
                place(before.entries@, p) == i && i < before.entries@.len() implies p
                == partition by {
                lemma_place(before.entries@, p);
            }
            assert forall|p: PartitionId| after@.contains_key(p) && p != partition implies after@[p]
                == before@[p] by {
                lemma_place(before.entries@, p);
            }
            assert(after@ =~= before@.insert(partition, value@));
        }
    }
}

/// Partition-specific metrics of a reader
#[derive(Debug, PartialEq, Eq)]
pub struct SourceReaderPartitionMetrics {
    /// The offset-domain resume_upper for a source.
    pub source_resume_upper: Metric<u64>,
}

impl View for SourceReaderPartitionMetrics {
    type V = MetricView<u64>;

    open spec fn view(&self) -> MetricView<u64> {
        self.source_resume_upper@
    }
}

/// The metrics of a partition that a reader has not resumed.
pub open spec fn new_reader_partition_metrics(
    source_id: GlobalId,
    partition_id: PartitionId,
) -> MetricView<u64> {
    labelled(seq![global_id_text(source_id), partition_id_text(partition_id)], 0)
}

impl SourceReaderPartitionMetrics {
    /// Initialises partition metrics for a given (source_id, partition_id)
    pub fn new(source_id: GlobalId, partition_id: &PartitionId) -> (metrics:
        SourceReaderPartitionMetrics)
        ensures
            metrics@ == new_reader_partition_metrics(source_id, *partition_id),
    {
        let mut labels: Vec<String> = Vec::new();
        labels.push(source_id.to_string());
        labels.push(partition_id.to_string());
        assert(views(labels@) =~= seq![
            global_id_text(source_id),
            partition_id_text(*partition_id),
        ]);
        SourceReaderPartitionMetrics { source_resume_upper: Metric::new(&labels, 0) }
    }
}

/// Source reader operator specific metrics
#[derive(Debug, PartialEq, Eq)]
pub struct SourceReaderMetrics {
    /// Per-partition metrics.
    pub partition_metrics: PartitionMap<SourceReaderPartitionMetrics>,
    source_id: GlobalId,
}

/// The contents of [`SourceReaderMetrics`].
#[verifier::ext_equal]
pub struct SourceReaderMetricsView {
    pub partition_metrics: Map<PartitionId, MetricView<u64>>,
    pub source_id: GlobalId,
}

impl View for SourceReaderMetrics {
    type V = SourceReaderMetricsView;

    closed spec fn view(&self) -> SourceReaderMetricsView {
        SourceReaderMetricsView {
            partition_metrics: self.partition_metrics@,
            source_id: self.source_id,
        }
    }
}

/// The metrics of a reader, where a partition is measured. One that was not measured before starts
/// anew.
pub open spec fn with_partition(metrics: SourceReaderMetricsView, pid: PartitionId) ->
    SourceReaderMetricsView {
    if metrics.partition_metrics.contains_key(pid) {
        metrics
    } else {
        SourceReaderMetricsView {
            partition_metrics: metrics.partition_metrics.insert(
                pid,
                new_reader_partition_metrics(metrics.source_id, pid),
            ),
            ..metrics
        }
    }
}

impl SourceReaderMetrics {
    /// Initialises source metrics for a given source
    pub fn new(source_id: GlobalId) -> (metrics: SourceReaderMetrics)
        ensures
            metrics@ == (SourceReaderMetricsView { partition_metrics: Map::empty(), source_id }),
    {
        SourceReaderMetrics { partition_metrics: PartitionMap::new(), source_id }
    }

    /// What is measured of a partition.
    pub fn metrics_for_partition(&mut self, pid: &PartitionId) -> (metrics:
        &SourceReaderPartitionMetrics)
        ensures
            final(self)@ == with_partition(old(self)@, *pid),
            metrics@ == with_partition(old(self)@, *pid).partition_metrics[*pid],
    {
        let i: usize = self.partition_metrics.find(*pid);
        if i == self.partition_metrics.entries.len() {
            let metrics = SourceReaderPartitionMetrics::new(self.source_id, pid);
            self.partition_metrics.push(*pid, metrics);
        }
        &self.partition_metrics.entries[i].1
    }
}

} // verus!
