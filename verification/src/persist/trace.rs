//! The batches of a shard.

use timely::progress::Antichain;
use vstd::prelude::*;

use crate::persist::antichain::{
    antichain_elements, antichain_from_elem, antichain_if_some, antichain_of, antichain_proto,
    antichain_text, duplicate, frontier_less_than, lemma_antichain_round_trip, less_than,
    write_antichain,
};
use crate::persist::batch::{
    hollow_batch_of, hollow_batch_proto, hollow_batch_valid, lemma_hollow_batch_round_trip,
    HollowBatch, HollowBatchView,
};
use crate::persist::error::{
    result_view, RustType, TryFromProtoError, TryFromProtoErrorView,
};
use crate::persist::proto::batch::{
    ProtoHollowBatch, ProtoHollowBatchView, ProtoTrace, ProtoTraceView,
};
use crate::proto::message::views;

verus! {

/// The batches of a shard, in the order in which they were pushed, and the frontier that its times
/// may be advanced to.
#[derive(Debug, PartialEq, Eq)]
#[verifier::reject_recursive_types(T)]
pub struct Trace<T> {
    since: Antichain<T>,
    batches: Vec<HollowBatch<T>>,
}

/// The contents of a [`Trace`].
#[verifier::ext_equal]
pub struct TraceView {
    pub since: Seq<u64>,
    pub batches: Seq<HollowBatchView>,
}

impl View for Trace<u64> {
    type V = TraceView;

    closed spec fn view(&self) -> TraceView {
        TraceView { since: antichain_elements(self.since), batches: views(self.batches@) }
    }
}

impl Trace<u64> {
    /// The trace without any batch, and with all times told apart.
    pub fn new() -> (trace: Trace<u64>)
        ensures
            trace@ == (TraceView { since: seq![0u64], batches: Seq::empty() }),
    {
        let trace = Trace { since: antichain_from_elem(0), batches: Vec::new() };
        assert(views(trace.batches@) =~= Seq::empty());
        trace
    }

    /// The frontier that the times may be advanced to.
    pub fn since(&self) -> (since: &Antichain<u64>)
        ensures
            antichain_elements(*since) == self@.since,
    {
        &self.since
    }

    /// Advances the frontier that the times may be advanced to.
    pub fn downgrade_since(&mut self, since: &Antichain<u64>)
        ensures
            final(self)@ == (TraceView { since: antichain_elements(*since), ..old(self)@ }),
    {
        self.since = duplicate(since);
    }

    /// Adds a batch.
    pub fn push_batch(&mut self, batch: HollowBatch<u64>)
        ensures
            final(self)@ == (TraceView {
                batches: old(self)@.batches.push(batch@),
                ..old(self)@
            }),
    {
        let ghost before = views(self.batches@);
        self.batches.push(batch);
        assert(views(self.batches@) =~= before.push(batch@));
    }

    /// The batches.
    pub fn batches(&self) -> (batches: &Vec<HollowBatch<u64>>)
        ensures
            views(batches@) == self@.batches,
    {
        &self.batches
    }
}

/// The message that a trace is written as.
pub open spec fn trace_proto(trace: TraceView) -> ProtoTraceView {
    ProtoTraceView {
        since: Some(antichain_proto(trace.since)),
        spine: Seq::new(trace.batches.len(), |i: int| hollow_batch_proto(trace.batches[i])),
    }
}

/// What is said of a batch whose times are further advanced than those of its shard.
pub open spec fn since_behind(since: Seq<u64>, batch_since: Seq<u64>) -> Seq<char> {
    "invalid ProtoTrace: the spine's since "@ + antichain_text(since)
        + " was less than a batch's since "@ + antichain_text(batch_since)
}

/// The batch of a trace that a message stands for.
pub open spec fn spine_batch_of(since: Seq<u64>, proto: ProtoHollowBatchView) -> Result<
    HollowBatchView,
    TryFromProtoErrorView,
> {
    match hollow_batch_of(proto) {
        Ok(batch) => if frontier_less_than(since, batch.desc.since) {
            Err(
                TryFromProtoErrorView::InvalidPersistState(
                    since_behind(since, batch.desc.since),
                ),
            )
        } else {
            Ok(batch)
        },
        Err(err) => Err(err),
    }
}

/// The batches of a trace that messages stand for. The first one that is wrong is an error.
pub open spec fn spine_of(since: Seq<u64>, protos: Seq<ProtoHollowBatchView>) -> Result<
    Seq<HollowBatchView>,
    TryFromProtoErrorView,
>
    decreases protos.len(),
{
    if protos.len() == 0 {
        Ok(Seq::empty())
    } else {
        match spine_of(since, protos.drop_last()) {
            Ok(batches) => match spine_batch_of(since, protos.last()) {
                Ok(batch) => Ok(batches.push(batch)),
                Err(err) => Err(err),
            },
            Err(err) => Err(err),
        }
    }
}

/// The trace that a message stands for.
pub open spec fn trace_of(proto: ProtoTraceView) -> Result<TraceView, TryFromProtoErrorView> {
    match proto.since {
        Some(since) => match spine_of(antichain_of(since), proto.spine) {
            Ok(batches) => Ok(TraceView { since: antichain_of(since), batches }),
            Err(err) => Err(err),
        },
        None => Err(TryFromProtoErrorView::MissingField("since"@)),
    }
}

/// Whether a trace can be read again: its frontiers are ones of a total order, and the times of no
/// batch are further advanced than those of the trace.
pub open spec fn trace_valid(trace: TraceView) -> bool {
    &&& trace.since.len() <= 1
    &&& forall|i: int|
        0 <= i < trace.batches.len() ==> hollow_batch_valid(#[trigger] trace.batches[i])
            && !frontier_less_than(trace.since, trace.batches[i].desc.since)
}

proof fn lemma_spine_prefix(since: Seq<u64>, protos: Seq<ProtoHollowBatchView>, i: int)
    requires
        0 <= i <= protos.len(),
    ensures
        spine_of(since, protos.take(i)) matches Err(err) ==> spine_of(since, protos) == Err::<
            Seq<HollowBatchView>,
            TryFromProtoErrorView,
        >(err),
    decreases protos.len(),
{
    if i < protos.len() {
        lemma_spine_prefix(since, protos.drop_last(), i);
        assert(protos.drop_last().take(i) =~= protos.take(i));
    } else {
        assert(protos.take(i) =~= protos);
    }
}

proof fn lemma_spine_round_trip(since: Seq<u64>, batches: Seq<HollowBatchView>)
    requires
        forall|i: int|
            0 <= i < batches.len() ==> hollow_batch_valid(#[trigger] batches[i])
                && !frontier_less_than(since, batches[i].desc.since),
    ensures
        spine_of(since, Seq::new(batches.len(), |i: int| hollow_batch_proto(batches[i]))) == Ok::<
            Seq<HollowBatchView>,
            TryFromProtoErrorView,
        >(batches),
    decreases batches.len(),
{
    let protos = Seq::new(batches.len(), |i: int| hollow_batch_proto(batches[i]));
    if batches.len() > 0 {
        let front = batches.drop_last();
        lemma_spine_round_trip(since, front);
        lemma_hollow_batch_round_trip(batches.last());
        assert(protos.drop_last() =~= Seq::new(front.len(), |i: int| hollow_batch_proto(front[i])));
        assert(front.push(batches.last()) =~= batches);
    } else {
        assert(batches =~= Seq::empty());
    }
}

/// A trace is read as it was written.
pub proof fn lemma_trace_round_trip(trace: TraceView)
    requires
        trace_valid(trace),
    ensures
        trace_of(trace_proto(trace)) == Ok::<TraceView, TryFromProtoErrorView>(trace),
{
    lemma_antichain_round_trip(trace.since);
    lemma_spine_round_trip(trace.since, trace.batches);
}

/// What is read can be written and read again.
pub proof fn lemma_trace_read_is_valid(proto: ProtoTraceView)
    ensures
        trace_of(proto) matches Ok(trace) ==> trace_valid(trace),
{
    if let Some(since) = proto.since {
        lemma_spine_read_is_valid(antichain_of(since), proto.spine);
    }
}

proof fn lemma_spine_read_is_valid(since: Seq<u64>, protos: Seq<ProtoHollowBatchView>)
    ensures
        spine_of(since, protos) matches Ok(batches) ==> forall|i: int|
            0 <= i < batches.len() ==> hollow_batch_valid(#[trigger] batches[i])
                && !frontier_less_than(since, batches[i].desc.since),
    decreases protos.len(),
{
    if protos.len() > 0 {
        lemma_spine_read_is_valid(since, protos.drop_last());
    }
}

impl RustType<ProtoTrace> for Trace<u64> {
    fn into_proto(&self) -> (proto: ProtoTrace)
        ensures
            proto@ == trace_proto(self@),
    {
        let mut spine: Vec<ProtoHollowBatch> = Vec::new();
        let ghost all = trace_proto(self@).spine;
        let mut i: usize = 0;
        assert(views(spine@) =~= all.take(0));
        while i < self.batches.len()
            invariant
                i <= self.batches.len(),
                all == trace_proto(self@).spine,
                views(spine@) == all.take(i as int),
            decreases self.batches.len() - i,
        {
            let ghost before = views(spine@);
            let batch = self.batches[i].into_proto();
            spine.push(batch);
            assert(views(spine@) =~= before.push(batch@));
            assert(views(spine@) =~= all.take(i + 1));
            i = i + 1;
        }
        assert(all.take(i as int) =~= all);
        ProtoTrace { since: Some(self.since.into_proto()), spine }
    }

    fn from_proto(proto: ProtoTrace) -> (r: Result<Trace<u64>, TryFromProtoError>)
        ensures
            result_view(r) == trace_of(proto@),
    {
        let mut trace: Trace<u64> = Trace::new();
        let since: Antichain<u64> = match antichain_if_some(proto.since, "since") {
            Ok(since) => since,
            Err(err) => {
                return Err(err);
            },
        };
        trace.downgrade_since(&since);
        let ghost all = views(proto.spine@);
        let ghost times = antichain_elements(since);
        for batch in iter: proto.spine
            invariant
                all == views(iter.seq()),
                trace@.since == times,
                proto@.since matches Some(since) && times == antichain_of(since),
                all == proto@.spine,
                spine_of(times, all.take(iter.index() as int)) == Ok::<
                    Seq<HollowBatchView>,
                    TryFromProtoErrorView,
                >(trace@.batches),
        {
            let ghost i = iter.index() as int;
            proof {
                assert(all.take(i + 1).drop_last() =~= all.take(i));
                assert(all.take(i + 1).last() == batch@);
                lemma_spine_prefix(times, all, i + 1);
            }
            let batch: HollowBatch<u64> = match <HollowBatch<u64>>::from_proto(batch) {
                Ok(batch) => batch,
                Err(err) => {
                    return Err(err);
                },
            };
            if less_than(trace.since(), batch.desc.since()) {
                let mut message: String = "invalid ProtoTrace: the spine's since ".to_owned();
                message.append(write_antichain(trace.since()).as_str());
                message.append(" was less than a batch's since ");
                message.append(write_antichain(batch.desc.since()).as_str());
                return Err(TryFromProtoError::InvalidPersistState(message));
            }
            trace.push_batch(batch);
        }
        assert(all.take(all.len() as int) =~= all);
        Ok(trace)
    }
}

} // verus!
