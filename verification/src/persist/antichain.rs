//! Frontiers, and the frontiers of a batch.

use timely::progress::Antichain;
use timely::PartialOrder;
use vstd::prelude::*;

use crate::persist::error::{
    result_view, RustType, TryFromProtoError, TryFromProtoErrorView,
};
use crate::persist::proto::batch::{
    ProtoU64Antichain, ProtoU64AntichainView, ProtoU64Description, ProtoU64DescriptionView,
};
use crate::text::{decimal, u64_text};

verus! {

/// A frontier: times of which none comes before another.
#[verifier::external_type_specification]
#[verifier::external_body]
#[verifier::reject_recursive_types(T)]
pub struct ExAntichain<T>(timely::progress::Antichain<T>);

/// The times in a frontier, in the order in which `timely` keeps them.
pub uninterp spec fn antichain_elements(antichain: Antichain<u64>) -> Seq<u64>;

/// The least of some numbers, of which there is at least one.
pub open spec fn least(numbers: Seq<u64>) -> u64
    decreases numbers.len(),
{
    if numbers.len() <= 1 {
        numbers[0]
    } else if least(numbers.drop_last()) <= numbers.last() {
        least(numbers.drop_last())
    } else {
        numbers.last()
    }
}

/// The times of which none comes before another, out of some.
pub open spec fn minimal(times: Seq<u64>) -> Seq<u64> {
    if times.len() == 0 {
        Seq::empty()
    } else {
        seq![least(times)]
    }
}

/// Whether each time of the second frontier is at or after some time of the first.
pub open spec fn frontier_less_equal(a: Seq<u64>, b: Seq<u64>) -> bool {
    forall|j: int|
        0 <= j < b.len() ==> exists|i: int| 0 <= i < a.len() && a[i] <= #[trigger] b[j]
}

/// Whether two frontiers have the same times, not necessarily in the same order.
pub open spec fn frontier_equal(a: Seq<u64>, b: Seq<u64>) -> bool {
    &&& a.len() == b.len()
    &&& forall|i: int| 0 <= i < a.len() ==> #[trigger] b.contains(a[i])
}

/// Whether the first frontier is before the second.
pub open spec fn frontier_less_than(a: Seq<u64>, b: Seq<u64>) -> bool {
    frontier_less_equal(a, b) && !frontier_equal(a, b)
}

/// Calls `timely::progress::Antichain::from` on times. It inserts them one by one, and keeps those
/// that no other comes before.
#[verifier::external_body]
fn antichain_from(times: Vec<u64>) -> (antichain: Antichain<u64>)
    ensures
        antichain_elements(antichain) == minimal(times@),
{
    Antichain::from(times)
}

/// Calls `timely::progress::Antichain::elements`, and copies the times.
#[verifier::external_body]
pub(crate) fn elements(antichain: &Antichain<u64>) -> (times: Vec<u64>)
    ensures
        times@ == antichain_elements(*antichain),
{
    antichain.elements().to_vec()
}

/// Calls `timely::PartialOrder::less_than` on frontiers.
#[verifier::external_body]
pub(crate) fn less_than(a: &Antichain<u64>, b: &Antichain<u64>) -> (less: bool)
    ensures
        less == frontier_less_than(antichain_elements(*a), antichain_elements(*b)),
{
    PartialOrder::less_than(a, b)
}

/// Calls `timely::PartialOrder::less_equal` on frontiers.
#[verifier::external_body]
pub(crate) fn less_equal(a: &Antichain<u64>, b: &Antichain<u64>) -> (less_equal: bool)
    ensures
        less_equal == frontier_less_equal(antichain_elements(*a), antichain_elements(*b)),
{
    PartialOrder::less_equal(a, b)
}

/// Calls `timely::progress::Antichain::clone`.
#[verifier::external_body]
pub(crate) fn duplicate(antichain: &Antichain<u64>) -> (copy: Antichain<u64>)
    ensures
        antichain_elements(copy) == antichain_elements(*antichain),
{
    antichain.clone()
}

/// The frontier with one time.
pub fn antichain_from_elem(time: u64) -> (antichain: Antichain<u64>)
    ensures
        antichain_elements(antichain) == seq![time],
{
    let mut times: Vec<u64> = Vec::new();
    times.push(time);
    antichain_from(times)
}

/// Numbers as text, with commas between them.
pub open spec fn listed(numbers: Seq<u64>) -> Seq<char>
    decreases numbers.len(),
{
    if numbers.len() == 0 {
        Seq::empty()
    } else if numbers.len() == 1 {
        decimal(numbers[0] as nat)
    } else {
        listed(numbers.drop_last()) + ", "@ + decimal(numbers.last() as nat)
    }
}

/// A frontier in words.
pub open spec fn antichain_text(times: Seq<u64>) -> Seq<char> {
    "Antichain { elements: ["@ + listed(times) + "] }"@
}

/// The frontier in words.
pub fn write_antichain(antichain: &Antichain<u64>) -> (text: String)
    ensures
        text@ == antichain_text(antichain_elements(*antichain)),
{
    let times: Vec<u64> = elements(antichain);
    let mut list: String = String::new();
    let mut i: usize = 0;
    assert(list@ =~= listed(times@.take(0)));
    while i < times.len()
        invariant
            i <= times.len(),
            list@ == listed(times@.take(i as int)),
        decreases times.len() - i,
    {
        if i > 0 {
            list.append(", ");
        }
        list.append(u64_text(times[i]).as_str());
        proof {
            let next = times@.take(i + 1);
            assert(next.drop_last() =~= times@.take(i as int));
            if i == 0 {
                assert(list@ =~= listed(next));
            }
        }
        i = i + 1;
    }
    assert(times@.take(i as int) =~= times@);
    let mut text: String = "Antichain { elements: [".to_owned();
    text.append(list.as_str());
    text.append("] }");
    text
}

/// The message that a frontier is written as: its times, each as the signed number with the same
/// bits.
pub open spec fn antichain_proto(times: Seq<u64>) -> ProtoU64AntichainView {
    ProtoU64AntichainView { elements: Seq::new(times.len(), |i: int| times[i] as i64) }
}

/// The frontier that a message stands for.
pub open spec fn antichain_of(proto: ProtoU64AntichainView) -> Seq<u64> {
    minimal(Seq::new(proto.elements.len(), |i: int| proto.elements[i] as u64))
}

/// A frontier is read as it was written.
pub proof fn lemma_antichain_round_trip(times: Seq<u64>)
    requires
        times.len() <= 1,
    ensures
        antichain_of(antichain_proto(times)) == times,
{
    let proto = antichain_proto(times);
    let read = Seq::new(proto.elements.len(), |i: int| proto.elements[i] as u64);
    assert forall|i: int| 0 <= i < times.len() implies read[i] == times[i] by {
        let time = times[i];
        assert((time as i64) as u64 == time) by (bit_vector);
    }
    assert(read =~= times);
    assert(minimal(times) =~= times);
}

impl RustType<ProtoU64Antichain> for Antichain<u64> {
    fn into_proto(&self) -> (proto: ProtoU64Antichain)
        ensures
            proto@ == antichain_proto(antichain_elements(*self)),
    {
        let times: Vec<u64> = elements(self);
        let mut numbers: Vec<i64> = Vec::new();
        let ghost all = antichain_proto(times@).elements;
        let mut i: usize = 0;
        while i < times.len()
            invariant
                i <= times.len(),
                all == antichain_proto(times@).elements,
                numbers@ == all.take(i as int),
            decreases times.len() - i,
        {
            numbers.push(#[verifier::truncate] (times[i] as i64));
            assert(numbers@ =~= all.take(i + 1));
            i = i + 1;
        }
        assert(numbers@ =~= all);
        ProtoU64Antichain { elements: numbers }
    }

    fn from_proto(proto: ProtoU64Antichain) -> (r: Result<Antichain<u64>, TryFromProtoError>)
        ensures
            r matches Ok(antichain) && antichain_elements(antichain) == antichain_of(proto@),
    {
        let mut times: Vec<u64> = Vec::new();
        let ghost all = Seq::new(
            proto@.elements.len(),
            |i: int| proto@.elements[i] as u64,
        );
        let mut i: usize = 0;
        while i < proto.elements.len()
            invariant
                i <= proto.elements.len(),
                all == Seq::new(proto@.elements.len(), |i: int| proto@.elements[i] as u64),
                times@ == all.take(i as int),
            decreases proto.elements.len() - i,
        {
            times.push(#[verifier::truncate] (proto.elements[i] as u64));
            assert(times@ =~= all.take(i + 1));
            i = i + 1;
        }
        assert(times@ =~= all);
        Ok(antichain_from(times))
    }
}

/// The frontiers of a batch: it holds the updates at or after `lower` that are not at or after
/// `upper`, with times advanced to `since`.
#[derive(Debug, PartialEq, Eq)]
#[verifier::reject_recursive_types(T)]
pub struct Description<T> {
    lower: Antichain<T>,
    upper: Antichain<T>,
    since: Antichain<T>,
}

/// The times in the frontiers of a [`Description`].
#[verifier::ext_equal]
pub struct DescriptionView {
    pub lower: Seq<u64>,
    pub upper: Seq<u64>,
    pub since: Seq<u64>,
}

impl View for Description<u64> {
    type V = DescriptionView;

    closed spec fn view(&self) -> DescriptionView {
        DescriptionView {
            lower: antichain_elements(self.lower),
            upper: antichain_elements(self.upper),
            since: antichain_elements(self.since),
        }
    }
}

/// The message that the frontiers of a batch are written as.
pub open spec fn description_proto(desc: DescriptionView) -> ProtoU64DescriptionView {
    ProtoU64DescriptionView {
        lower: Some(antichain_proto(desc.lower)),
        upper: Some(antichain_proto(desc.upper)),
        since: Some(antichain_proto(desc.since)),
    }
}

/// The frontiers of a batch that a message stands for.
pub open spec fn description_of(proto: ProtoU64DescriptionView) -> Result<
    DescriptionView,
    TryFromProtoErrorView,
> {
    match (proto.lower, proto.upper, proto.since) {
        (Some(lower), Some(upper), Some(since)) => if antichain_of(lower).len() == 0 {
            Err(TryFromProtoErrorView::EmptyLower)
        } else {
            Ok(
                DescriptionView {
                    lower: antichain_of(lower),
                    upper: antichain_of(upper),
                    since: antichain_of(since),
                },
            )
        },
        (None, _, _) => Err(TryFromProtoErrorView::MissingField("lower"@)),
        (_, None, _) => Err(TryFromProtoErrorView::MissingField("upper"@)),
        _ => Err(TryFromProtoErrorView::MissingField("since"@)),
    }
}

/// Whether the frontiers of a batch are ones of a total order, and the lower one is not empty.
pub open spec fn description_valid(desc: DescriptionView) -> bool {
    desc.lower.len() == 1 && desc.upper.len() <= 1 && desc.since.len() <= 1
}

/// The frontiers of a batch are read as they were written.
pub proof fn lemma_description_round_trip(desc: DescriptionView)
    requires
        description_valid(desc),
    ensures
        description_of(description_proto(desc)) == Ok::<DescriptionView, TryFromProtoErrorView>(
            desc,
        ),
{
    lemma_antichain_round_trip(desc.lower);
    lemma_antichain_round_trip(desc.upper);
    lemma_antichain_round_trip(desc.since);
}

impl Description<u64> {
    /// The frontiers of a batch.
    pub fn new(lower: Antichain<u64>, upper: Antichain<u64>, since: Antichain<u64>) -> (desc:
        Description<u64>)
        requires
            antichain_elements(lower).len() > 0,
        ensures
            desc@ == (DescriptionView {
                lower: antichain_elements(lower),
                upper: antichain_elements(upper),
                since: antichain_elements(since),
            }),
    {
        Description { lower, upper, since }
    }

    pub fn lower(&self) -> (lower: &Antichain<u64>)
        ensures
            antichain_elements(*lower) == self@.lower,
    {
        &self.lower
    }

    pub fn upper(&self) -> (upper: &Antichain<u64>)
        ensures
            antichain_elements(*upper) == self@.upper,
    {
        &self.upper
    }

    pub fn since(&self) -> (since: &Antichain<u64>)
        ensures
            antichain_elements(*since) == self@.since,
    {
        &self.since
    }
}

/// A frontier that has to be there.
pub fn antichain_if_some(proto: Option<ProtoU64Antichain>, field: &str) -> (r: Result<
    Antichain<u64>,
    TryFromProtoError,
>)
    ensures
        match r {
            Ok(antichain) => proto matches Some(proto) && antichain_elements(antichain)
                == antichain_of(proto@),
            Err(err) => proto is None && err@ == TryFromProtoErrorView::MissingField(field@),
        },
{
    match proto {
        Some(proto) => <Antichain<u64>>::from_proto(proto),
        None => Err(TryFromProtoError::MissingField(field.to_owned())),
    }
}

impl RustType<ProtoU64Description> for Description<u64> {
    fn into_proto(&self) -> (proto: ProtoU64Description)
        ensures
            proto@ == description_proto(self@),
    {
        ProtoU64Description {
            lower: Some(self.lower.into_proto()),
            upper: Some(self.upper.into_proto()),
            since: Some(self.since.into_proto()),
        }
    }

    fn from_proto(proto: ProtoU64Description) -> (r: Result<Description<u64>, TryFromProtoError>)
        ensures
            result_view(r) == description_of(proto@),
    {
        let lower: Antichain<u64> = match antichain_if_some(proto.lower, "lower") {
            Ok(lower) => lower,
            Err(err) => {
                return Err(err);
            },
        };
        let upper: Antichain<u64> = match antichain_if_some(proto.upper, "upper") {
            Ok(upper) => upper,
            Err(err) => {
                return Err(err);
            },
        };
        let since: Antichain<u64> = match antichain_if_some(proto.since, "since") {
            Ok(since) => since,
            Err(err) => {
                return Err(err);
            },
        };
        let times: Vec<u64> = elements(&lower);
        if times.len() == 0 {
            return Err(TryFromProtoError::EmptyLower);
        }
        Ok(Description::new(lower, upper, since))
    }
}

} // verus!
