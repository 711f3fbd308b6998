//! Turning Debezium records into updates.

use vstd::prelude::*;

use crate::debezium::coordinates::EnvelopeError;
use crate::debezium::datum::{
    datums_view, duplicate_all, lemma_list_view, nth, Datum, DatumView, Row,
};
use crate::debezium::dedup::{
    extract, fresh_dedup, judge, lemma_layout_is_stateless, DebeziumDedupProjection,
    DebeziumDeduplicationState, DebeziumEnvelope, DedupView,
};
use crate::source::types::{
    DataflowError, DataflowErrorView, DecodeResult, Diff, PartitionId, RecordView, Timestamp,
};

verus! {

/// An update: a row, or an error in its place, to be added or taken away at a time.
#[derive(Debug, PartialEq, Eq)]
pub struct Update {
    /// The time of the capability with which the update is sent.
    pub cap: Timestamp,
    pub data: Result<Vec<Datum>, DataflowError>,
    pub time: Timestamp,
    pub diff: Diff,
}

/// The contents of an [`Update`].
pub struct UpdateView {
    pub cap: Timestamp,
    pub data: Result<Seq<DatumView>, DataflowErrorView>,
    pub time: Timestamp,
    pub diff: Diff,
}

impl View for Update {
    type V = UpdateView;

    open spec fn view(&self) -> UpdateView {
        UpdateView {
            cap: self.cap,
            data: match self.data {
                Ok(datums) => Ok(datums_view(datums@)),
                Err(err) => Err(err@),
            },
            time: self.time,
            diff: self.diff,
        }
    }
}

/// The contents of a run of updates.
pub open spec fn updates_view(updates: Seq<Update>) -> Seq<UpdateView> {
    updates.map_values(|update: Update| update@)
}

/// An error, as an update.
pub open spec fn error_update(
    cap: Timestamp,
    err: DataflowErrorView,
    time: Timestamp,
) -> UpdateView {
    UpdateView { cap, data: Err(err), time, diff: 1 }
}

/// The row that a field holds: a list is a row, and null is no row. `None` for any other value.
pub open spec fn row_of(field: Option<DatumView>) -> Option<Option<Seq<DatumView>>> {
    match field {
        Some(DatumView::List(row)) => Some(Some(row)),
        Some(DatumView::Null) => Some(None),
        _ => None,
    }
}

/// A row, where there is one, as an update.
pub open spec fn row_update(
    cap: Timestamp,
    row: Option<Seq<DatumView>>,
    time: Timestamp,
    diff: Diff,
) -> Seq<UpdateView> {
    match row {
        Some(row) => seq![UpdateView { cap, data: Ok(row), time, diff }],
        None => Seq::empty(),
    }
}

/// The updates that a record stands for: its `before` row is taken away, and its `after` row
/// added. `None` if one of them is missing or of the wrong type.
pub open spec fn changes(
    envelope: DebeziumEnvelope,
    cap: Timestamp,
    time: Timestamp,
    value: Seq<DatumView>,
) -> Option<Seq<UpdateView>> {
    match (
        row_of(nth(value, envelope.before_idx as nat)),
        row_of(nth(value, envelope.after_idx as nat)),
    ) {
        (Some(before), Some(after)) => Some(
            row_update(cap, before, time, -1i64) + row_update(cap, after, time, 1),
        ),
        _ => None,
    }
}

/// The deduplication state of a partition, which is fresh before its first record.
pub open spec fn dedup_of(
    dedups: Map<PartitionId, DedupView>,
    partition: PartitionId,
) -> DedupView {
    if dedups.contains_key(partition) {
        dedups[partition]
    } else {
        fresh_dedup()
    }
}

/// What a record does to the deduplication states, and the updates it gives. `None` if the
/// record is not laid out as the envelope says, or has a diff other than 1.
pub open spec fn render_record(
    envelope: DebeziumEnvelope,
    dedups: Map<PartitionId, DedupView>,
    time: Timestamp,
    record: RecordView,
) -> Option<(Map<PartitionId, DedupView>, Seq<UpdateView>)> {
    match record.value {
        None => Some((dedups, Seq::empty())),
        Some(Err(err)) => Some(
            (dedups, seq![error_update(time, DataflowErrorView::DecodeError(err), time)]),
        ),
        Some(Ok((value, diff))) => if diff != 1 {
            None
        } else {
            match judge(envelope.dedup, dedup_of(dedups, record.partition), value) {
                None => None,
                Some((dedup, verdict)) => {
                    let dedups = dedups.insert(record.partition, dedup);
                    match verdict {
                        Err(message) => Some(
                            (
                                dedups,
                                seq![
                                    error_update(
                                        time,
                                        DataflowErrorView::EnvelopeError(message),
                                        time,
                                    ),
                                ],
                            ),
                        ),
                        Ok(false) => Some((dedups, Seq::empty())),
                        Ok(true) => match changes(envelope, time, time, value) {
                            None => None,
                            Some(updates) => Some((dedups, updates)),
                        },
                    }
                },
            }
        },
    }
}

/// What a batch of records does, one record after the other.
pub open spec fn render_records(
    envelope: DebeziumEnvelope,
    dedups: Map<PartitionId, DedupView>,
    time: Timestamp,
    records: Seq<RecordView>,
) -> Option<(Map<PartitionId, DedupView>, Seq<UpdateView>)>
    decreases records.len(),
{
    if records.len() == 0 {
        Some((dedups, Seq::empty()))
    } else {
        match render_records(envelope, dedups, time, records.drop_last()) {
            None => None,
            Some((dedups, updates)) => match render_record(
                envelope,
                dedups,
                time,
                records.last(),
            ) {
                None => None,
                Some((dedups, more)) => Some((dedups, updates + more)),
            },
        }
    }
}

/// A batch that can be rendered has prefixes that can be rendered.
proof fn lemma_prefix_rendered(
    envelope: DebeziumEnvelope,
    dedups: Map<PartitionId, DedupView>,
    time: Timestamp,
    records: Seq<RecordView>,
    n: int,
)
    requires
        0 <= n <= records.len(),
        render_records(envelope, dedups, time, records) is Some,
    ensures
        render_records(envelope, dedups, time, records.take(n)) is Some,
    decreases records.len(),
{
    if n == records.len() {
        assert(records.take(n) =~= records);
    } else {
        assert(records.drop_last().take(n) =~= records.take(n));
        lemma_prefix_rendered(envelope, dedups, time, records.drop_last(), n);
    }
}

/// The deduplication states of the partitions seen so far.
pub struct PartitionDedups {
    /// Each partition occurs at most once.
    pub entries: Vec<(PartitionId, DebeziumDeduplicationState)>,
}

impl View for PartitionDedups {
    type V = Map<PartitionId, DedupView>;

    open spec fn view(&self) -> Map<PartitionId, DedupView> {
        Map::new(
            |partition: PartitionId|
                exists|i: int|
                    0 <= i < self.entries@.len() && #[trigger] self.entries@[i].0 == partition,
            |partition: PartitionId|
                {
                    let i = choose|i: int|
                        0 <= i < self.entries@.len() && #[trigger] self.entries@[i].0 == partition;
                    self.entries@[i].1@
                },
        )
    }
}

impl PartitionDedups {
    /// Each partition occurs at most once, and the states read records by one projection.
    pub open spec fn wf(&self, projection: DebeziumDedupProjection) -> bool {
        &&& forall|i: int, j: int|
            0 <= i < j < self.entries@.len() ==> #[trigger] self.entries@[i].0
                != #[trigger] self.entries@[j].0
        &&& forall|i: int|
            0 <= i < self.entries@.len() ==> (#[trigger] self.entries@[i]).1.projection
                == projection
    }

    /// The state of a partition is the one beside it.
    proof fn lemma_get(&self, i: int)
        requires
            0 <= i < self.entries@.len(),
            forall|i: int, j: int|
                0 <= i < j < self.entries@.len() ==> #[trigger] self.entries@[i].0
                    != #[trigger] self.entries@[j].0,
        ensures
            self@.contains_key(self.entries@[i].0),
            self@[self.entries@[i].0] == self.entries@[i].1@,
    {
    }

    /// Where one entry has been set, and the others are as before, one partition has been set.
    proof fn lemma_set(
        &self,
        before: PartitionDedups,
        place: int,
        partition: PartitionId,
        dedup: DedupView,
    )
        requires
            0 <= place < self.entries@.len(),
            before.entries@.len() <= self.entries@.len() <= before.entries@.len() + 1,
            place < before.entries@.len() ==> self.entries@.len() == before.entries@.len()
                && before.entries@[place].0 == partition,
            self.entries@[place].0 == partition,
            self.entries@[place].1@ == dedup,
            forall|i: int|
                0 <= i < self.entries@.len() && i != place ==> #[trigger] self.entries@[i]
                    == before.entries@[i] && i < before.entries@.len(),
            forall|i: int, j: int|
                0 <= i < j < self.entries@.len() ==> #[trigger] self.entries@[i].0
                    != #[trigger] self.entries@[j].0,
            forall|i: int, j: int|
                0 <= i < j < before.entries@.len() ==> #[trigger] before.entries@[i].0
                    != #[trigger] before.entries@[j].0,
        ensures
            self@ == before@.insert(partition, dedup),
    {
        let expected = before@.insert(partition, dedup);
        self.lemma_get(place);
        assert forall|p: PartitionId| #[trigger] self@.dom().contains(p) implies (
        expected.dom().contains(p) && self@[p] == expected[p]) by {
            let i = choose|i: int|
                0 <= i < self.entries@.len() && #[trigger] self.entries@[i].0 == p;
            self.lemma_get(i);
            if i != place {
                before.lemma_get(i);
            }
        }
        assert forall|p: PartitionId|
            #[trigger] expected.dom().contains(p) implies self@.dom().contains(
            p,
        ) by {
            if p != partition {
                let i = choose|i: int|
                    0 <= i < before.entries@.len() && #[trigger] before.entries@[i].0 == p;
                assert(self.entries@[i] == before.entries@[i]);
                self.lemma_get(i);
            }
        }
        assert(self@ =~= expected);
    }

    /// No partition has been seen yet.
    pub fn new() -> (dedups: PartitionDedups)
        ensures
            dedups@ == Map::<PartitionId, DedupView>::empty(),
            forall|projection: DebeziumDedupProjection| dedups.wf(projection),
    {
        let dedups = PartitionDedups { entries: Vec::new() };
        assert(dedups@ =~= Map::<PartitionId, DedupView>::empty());
        dedups
    }

    /// The place of a partition, which it gets if it has none yet.
    fn place(&mut self, envelope: &DebeziumEnvelope, partition: PartitionId) -> (place: usize)
        requires
            old(self).wf(envelope.dedup),
        ensures
            final(self).wf(envelope.dedup),
            place < final(self).entries@.len(),
            final(self).entries@[place as int].0 == partition,
            final(self).entries@[place as int].1@ == dedup_of(old(self)@, partition),
            final(self)@ == old(self)@.insert(partition, dedup_of(old(self)@, partition)),
    {
        let mut i: usize = 0;
        while i < self.entries.len()
            invariant
                i <= self.entries@.len(),
                forall|j: int| 0 <= j < i ==> (#[trigger] self.entries@[j]).0 != partition,
                *self == *old(self),
                self.wf(envelope.dedup),
            decreases self.entries@.len() - i,
        {
            if self.entries[i].0 == partition {
                assert(self@ =~= self@.insert(partition, dedup_of(self@, partition)));
                return i;
            }
            i = i + 1;
        }
        let state = DebeziumDeduplicationState::new(envelope.clone()).unwrap();
        let ghost before = *self;
        proof {
            assert(!self@.contains_key(partition));
        }
        self.entries.push((partition, state));
        proof {
            self.lemma_set(before, i as int, partition, fresh_dedup());
        }
        i
    }

    /// Whether a record of a partition is to be used. `None` if the record is not laid out as the
    /// envelope says, or if the count of the partition's messages would overflow.
    pub fn should_use_record(
        &mut self,
        envelope: &DebeziumEnvelope,
        partition: PartitionId,
        value: &Row,
    ) -> (should_use: Option<Result<bool, EnvelopeError>>)
        requires
            old(self).wf(envelope.dedup),
        ensures
            final(self).wf(envelope.dedup),
            match judge(envelope.dedup, dedup_of(old(self)@, partition), value@.datums) {
                Some((dedup, verdict)) => {
                    &&& final(self)@ == old(self)@.insert(partition, dedup)
                    &&& match should_use {
                        Some(Ok(should_use)) => verdict == Ok::<_, Seq<char>>(should_use),
                        Some(Err(err)) => verdict == Err::<bool, _>(err@),
                        None => false,
                    }
                },
                None => should_use is None,
            },
    {
        let place = self.place(envelope, partition);
        let ghost before = *self;
        let entry = &mut self.entries[place];
        let should_use = entry.1.try_should_use_record(value);
        proof {
            if should_use is Some {
                let dedup = judge(
                    envelope.dedup,
                    dedup_of(old(self)@, partition),
                    value@.datums,
                ).unwrap().0;
                self.lemma_set(before, place as int, partition, dedup);
                assert(self@ =~= old(self)@.insert(partition, dedup));
            }
        }
        should_use
    }
}

/// Sends the row that a field holds, if it holds one.
fn send_row(
    updates: &mut Vec<Update>,
    cap: Timestamp,
    field: Option<&Datum>,
    time: Timestamp,
    diff: Diff,
)
    requires
        row_of(match field { Some(datum) => Some(datum@), None => None }) is Some,
    ensures
        updates_view(final(updates)@) == updates_view(old(updates)@) + row_update(
            cap,
            row_of(match field { Some(datum) => Some(datum@), None => None }).unwrap(),
            time,
            diff,
        ),
{
    match field {
        Some(Datum::List(row)) => {
            proof {
                lemma_list_view(*row);
            }
            let update = Update { cap, data: Ok(duplicate_all(row)), time, diff };
            updates.push(update);
            assert(updates_view(updates@) =~= updates_view(old(updates)@).push(update@));
        },
        _ => {},
    }
    assert(updates_view(updates@) =~= updates_view(old(updates)@) + row_update(
        cap,
        row_of(match field { Some(datum) => Some(datum@), None => None }).unwrap(),
        time,
        diff,
    ));
}

/// Sends the updates that a record stands for.
pub fn send_changes(
    updates: &mut Vec<Update>,
    envelope: &DebeziumEnvelope,
    cap: Timestamp,
    time: Timestamp,
    value: &Row,
)
    requires
        changes(*envelope, cap, time, value@.datums) is Some,
    ensures
        updates_view(final(updates)@) == updates_view(old(updates)@) + changes(
            *envelope,
            cap,
            time,
            value@.datums,
        ).unwrap(),
{
    send_row(updates, cap, value.nth(envelope.before_idx), time, -1);
    send_row(updates, cap, value.nth(envelope.after_idx), time, 1);
    assert(updates_view(updates@) =~= updates_view(old(updates)@) + changes(
        *envelope,
        cap,
        time,
        value@.datums,
    ).unwrap());
}

/// Whether a field holds a row, or null.
fn holds_row(field: Option<&Datum>) -> (holds: bool)
    ensures
        holds == (row_of(match field { Some(datum) => Some(datum@), None => None }) is Some),
{
    match field {
        Some(Datum::List(row)) => {
            proof {
                lemma_list_view(*row);
            }
            true
        },
        Some(Datum::Null) => true,
        _ => false,
    }
}

/// Whether a record has a `before` and an `after` row, or null in their place.
pub fn has_changes(envelope: &DebeziumEnvelope, value: &Row) -> (has: bool)
    ensures
        has == (row_of(nth(value@.datums, envelope.before_idx as nat)) is Some && row_of(
            nth(value@.datums, envelope.after_idx as nat),
        ) is Some),
        forall|cap: Timestamp, time: Timestamp|
            has == (#[trigger] changes(*envelope, cap, time, value@.datums) is Some),
{
    holds_row(value.nth(envelope.before_idx)) && holds_row(value.nth(envelope.after_idx))
}

/// Sends an error.
pub fn send_error(
    updates: &mut Vec<Update>,
    cap: Timestamp,
    err: DataflowError,
    time: Timestamp,
)
    ensures
        updates_view(final(updates)@) == updates_view(old(updates)@) + seq![
            error_update(cap, err@, time),
        ],
{
    let update = Update { cap, data: Err(err), time, diff: 1 };
    updates.push(update);
    assert(updates_view(updates@) =~= updates_view(old(updates)@) + seq![
        error_update(cap, err@, time),
    ]);
}

/// The state of the rendering of a Debezium source without transaction metadata.
pub struct RenderState {
    pub envelope: DebeziumEnvelope,
    pub dedups: PartitionDedups,
}

impl RenderState {
    /// The deduplication states read records as the envelope says.
    pub open spec fn wf(&self) -> bool {
        self.dedups.wf(self.envelope.dedup)
    }

    /// The state before any record.
    pub fn new(envelope: DebeziumEnvelope) -> (state: RenderState)
        ensures
            state.wf(),
            state.envelope == envelope,
            state.dedups@ == Map::<PartitionId, DedupView>::empty(),
    {
        RenderState { envelope, dedups: PartitionDedups::new() }
    }
}

/// Renders one record. Returns whether it could be rendered.
fn render_one(
    state: &mut RenderState,
    time: Timestamp,
    result: DecodeResult,
    updates: &mut Vec<Update>,
) -> (rendered: bool)
    requires
        old(state).wf(),
    ensures
        final(state).wf(),
        final(state).envelope == old(state).envelope,
        match render_record(old(state).envelope, old(state).dedups@, time, result@) {
            Some((dedups, more)) => {
                &&& rendered
                &&& final(state).dedups@ == dedups
                &&& updates_view(final(updates)@) == updates_view(old(updates)@) + more
            },
            None => !rendered,
        },
{
    let ghost sent = updates_view(updates@);
    assert(sent + Seq::empty() =~= sent);
    match result.value {
        Some(Ok((value, diff))) => {
            if diff != 1 {
                return false;
            }
            match state.dedups.should_use_record(&state.envelope, result.partition, &value) {
                Some(Ok(true)) => {
                    if !has_changes(&state.envelope, &value) {
                        return false;
                    }
                    send_changes(updates, &state.envelope, time, time, &value);
                },
                Some(Ok(false)) => {},
                Some(Err(err)) => {
                    send_error(updates, time, DataflowError::EnvelopeError(err), time);
                },
                None => {
                    return false;
                },
            }
        },
        Some(Err(err)) => send_error(updates, time, DataflowError::DecodeError(err), time),
        None => {},
    }
    true
}

/// Renders a batch of records, all of which arrived with a capability of the given time.
///
/// The updates come out in the order of the records: those that a record stands for where it is
/// no duplicate, and an error where it could not be decoded or its envelope could not be read.
///
/// `None` if a record is not laid out as the envelope says, or has a diff other than 1: Debezium
/// should only be used with sources with no explicit diff. The source is then not what it was
/// validated to be, and its rendering cannot go on.
pub fn render(state: &mut RenderState, time: Timestamp, data: Vec<DecodeResult>) -> (updates:
    Option<Vec<Update>>)
    requires
        old(state).wf(),
    ensures
        final(state).wf(),
        final(state).envelope == old(state).envelope,
        match render_records(
            old(state).envelope,
            old(state).dedups@,
            time,
            data@.map_values(|r: DecodeResult| r@),
        ) {
            Some((dedups, sent)) => {
                &&& updates is Some
                &&& updates_view(updates.unwrap()@) == sent
                &&& final(state).dedups@ == dedups
            },
            None => updates is None,
        },
{
    let mut updates: Vec<Update> = Vec::new();
    let ghost records = data@.map_values(|r: DecodeResult| r@);
    proof {
        assert(records.take(0) =~= Seq::<RecordView>::empty());
        assert(updates_view(updates@) =~= Seq::<UpdateView>::empty());
    }
    for result in iter: data
        invariant
            iter.seq() == data@,
            records == data@.map_values(|r: DecodeResult| r@),
            state.wf(),
            state.envelope == old(state).envelope,
            render_records(
                old(state).envelope,
                old(state).dedups@,
                time,
                records.take(iter.index() as int),
            ) == Some((state.dedups@, updates_view(updates@))),
    {
        proof {
            let n = iter.index() as int;
            if render_records(old(state).envelope, old(state).dedups@, time, records) is Some {
                lemma_prefix_rendered(
                    old(state).envelope,
                    old(state).dedups@,
                    time,
                    records,
                    n + 1,
                );
            }
            assert(records.take(n + 1).drop_last() =~= records.take(n));
            assert(records.take(n + 1).last() == result@);
        }
        if !render_one(state, time, result, &mut updates) {
            return None;
        }
    }
    assert(records.take(records.len() as int) =~= records);
    Some(updates)
}

/// The updates that a record stands for all go out with the capability and at the time given,
/// deletions first: at most one row is taken away, and at most one added.
pub proof fn lemma_changes_at_time(
    envelope: DebeziumEnvelope,
    cap: Timestamp,
    time: Timestamp,
    value: Seq<DatumView>,
)
    requires
        changes(envelope, cap, time, value) is Some,
    ensures
        ({
            let updates = changes(envelope, cap, time, value).unwrap();
            &&& updates.len() <= 2
            &&& forall|i: int|
                0 <= i < updates.len() ==> (#[trigger] updates[i]).cap == cap && updates[i].time
                    == time && updates[i].data is Ok && (updates[i].diff == 1 || updates[i].diff
                    == -1)
            &&& updates.len() == 2 ==> updates[0].diff == -1 && updates[1].diff == 1
        }),
{
}

/// Two batches that arrive at the same time are rendered as one that holds the records of both.
pub proof fn lemma_batches_join(
    envelope: DebeziumEnvelope,
    dedups: Map<PartitionId, DedupView>,
    time: Timestamp,
    a: Seq<RecordView>,
    b: Seq<RecordView>,
)
    ensures
        render_records(envelope, dedups, time, a + b) == match render_records(
            envelope,
            dedups,
            time,
            a,
        ) {
            None => None,
            Some((between, first)) => match render_records(envelope, between, time, b) {
                None => None,
                Some((after, second)) => Some((after, first + second)),
            },
        },
    decreases b.len(),
{
    if b.len() == 0 {
        assert(a + b =~= a);
        if let Some((between, first)) = render_records(envelope, dedups, time, a) {
            assert(first + Seq::<UpdateView>::empty() =~= first);
        }
    } else {
        lemma_batches_join(envelope, dedups, time, a, b.drop_last());
        assert((a + b).drop_last() =~= a + b.drop_last());
        assert((a + b).last() == b.last());
        if let Some((between, first)) = render_records(envelope, dedups, time, a) {
            if let Some((mid, second)) = render_records(envelope, between, time, b.drop_last()) {
                if let Some((after, third)) = render_record(envelope, mid, time, b.last()) {
                    assert((first + second) + third =~= first + (second + third));
                }
            }
        }
    }
}

/// Whether a record is laid out as the envelope says, in all the fields that may be read.
pub open spec fn laid_out(envelope: DebeziumEnvelope, record: RecordView) -> bool {
    match record.value {
        Some(Ok((value, diff))) => {
            &&& diff == 1
            &&& extract(envelope.dedup, Map::empty(), value) is Some
            &&& changes(envelope, 0, 0, value) is Some
        },
        _ => true,
    }
}

/// A record that is laid out as the envelope says can be rendered, whatever came before it, as
/// long as its partition's messages can be counted. A record of one partition leaves the
/// deduplication of all others as it is.
pub proof fn lemma_laid_out_renders(
    envelope: DebeziumEnvelope,
    dedups: Map<PartitionId, DedupView>,
    time: Timestamp,
    record: RecordView,
)
    requires
        laid_out(envelope, record),
        dedup_of(dedups, record.partition).messages_processed < u64::MAX,
    ensures
        render_record(envelope, dedups, time, record) is Some,
        forall|other: PartitionId|
            other != record.partition ==> #[trigger] dedup_of(
                render_record(envelope, dedups, time, record).unwrap().0,
                other,
            ) == dedup_of(dedups, other),
{
    if let Some(Ok((value, _))) = record.value {
        lemma_layout_is_stateless(
            envelope.dedup,
            Map::empty(),
            dedup_of(dedups, record.partition).filenames,
            value,
        );
    }
}

} // verus!
