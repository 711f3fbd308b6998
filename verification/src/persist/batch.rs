//! Batches of updates, by reference to the data that they hold.

use vstd::prelude::*;

use crate::persist::antichain::{
    description_of, description_proto, description_valid, lemma_description_round_trip,
    Description, DescriptionView,
};
use crate::persist::error::{
    result_view, RustType, TryFromProtoError, TryFromProtoErrorView,
};
use crate::persist::proto::batch::{
    ProtoHollowBatch, ProtoHollowBatchPart, ProtoHollowBatchPartView, ProtoHollowBatchView,
};
use crate::proto::message::views;

verus! {

/// The number of a state of a shard.
#[derive(Debug, Clone, Copy, PartialEq, Eq, PartialOrd, Ord, Hash, Structural)]
pub struct SeqNo(pub u64);

impl RustType<u64> for SeqNo {
    fn into_proto(&self) -> (proto: u64)
        ensures
            proto == self.0,
    {
        self.0
    }

    fn from_proto(proto: u64) -> (r: Result<SeqNo, TryFromProtoError>)
        ensures
            r == Ok::<SeqNo, TryFromProtoError>(SeqNo(proto)),
    {
        Ok(SeqNo(proto))
    }
}

/// The key of a part of a batch, within its shard.
#[derive(Debug, PartialEq, Eq)]
pub struct PartialBatchKey(pub String);

impl View for PartialBatchKey {
    type V = Seq<char>;

    open spec fn view(&self) -> Seq<char> {
        self.0@
    }
}

impl RustType<String> for PartialBatchKey {
    fn into_proto(&self) -> (proto: String)
        ensures
            proto@ == self@,
    {
        self.0.clone()
    }

    fn from_proto(proto: String) -> (r: Result<PartialBatchKey, TryFromProtoError>)
        ensures
            r matches Ok(key) && key@ == proto@,
    {
        Ok(PartialBatchKey(proto))
    }
}

/// The key of a rollup, within its shard.
#[derive(Debug, PartialEq, Eq)]
pub struct PartialRollupKey(pub String);

impl View for PartialRollupKey {
    type V = Seq<char>;

    open spec fn view(&self) -> Seq<char> {
        self.0@
    }
}

impl RustType<String> for PartialRollupKey {
    fn into_proto(&self) -> (proto: String)
        ensures
            proto@ == self@,
    {
        self.0.clone()
    }

    fn from_proto(proto: String) -> (r: Result<PartialRollupKey, TryFromProtoError>)
        ensures
            r matches Ok(key) && key@ == proto@,
    {
        Ok(PartialRollupKey(proto))
    }
}

/// The number that a message gives for a `usize`.
pub open spec fn usize_of(proto: u64) -> Result<usize, TryFromProtoErrorView> {
    if proto <= usize::MAX {
        Ok(proto as usize)
    } else {
        Err(TryFromProtoErrorView::TryFromIntError)
    }
}

fn read_usize(proto: u64) -> (r: Result<usize, TryFromProtoError>)
    ensures
        match r {
            Ok(number) => usize_of(proto) == Ok::<usize, TryFromProtoErrorView>(number),
            Err(err) => usize_of(proto) == Err::<usize, TryFromProtoErrorView>(err@),
        },
{
    if proto <= usize::MAX as u64 {
        Ok(proto as usize)
    } else {
        Err(TryFromProtoError::TryFromIntError)
    }
}

/// The numbers that a message gives for `usize`s. The first one out of range is an error.
pub open spec fn usizes_of(protos: Seq<u64>) -> Result<Seq<usize>, TryFromProtoErrorView>
    decreases protos.len(),
{
    if protos.len() == 0 {
        Ok(Seq::empty())
    } else {
        match usizes_of(protos.drop_last()) {
            Ok(numbers) => match usize_of(protos.last()) {
                Ok(number) => Ok(numbers.push(number)),
                Err(err) => Err(err),
            },
            Err(err) => Err(err),
        }
    }
}

proof fn lemma_usizes_prefix(protos: Seq<u64>, i: int)
    requires
        0 <= i <= protos.len(),
    ensures
        usizes_of(protos.take(i)) matches Err(err) ==> usizes_of(protos) == Err::<
            Seq<usize>,
            TryFromProtoErrorView,
        >(err),
    decreases protos.len(),
{
    if i < protos.len() {
        lemma_usizes_prefix(protos.drop_last(), i);
        assert(protos.drop_last().take(i) =~= protos.take(i));
    } else {
        assert(protos.take(i) =~= protos);
    }
}

fn read_usizes(protos: &Vec<u64>) -> (r: Result<Vec<usize>, TryFromProtoError>)
    ensures
        match r {
            Ok(numbers) => usizes_of(protos@) == Ok::<Seq<usize>, TryFromProtoErrorView>(numbers@),
            Err(err) => usizes_of(protos@) == Err::<Seq<usize>, TryFromProtoErrorView>(err@),
        },
{
    let mut numbers: Vec<usize> = Vec::new();
    let mut i: usize = 0;
    while i < protos.len()
        invariant
            i <= protos.len(),
            usizes_of(protos@.take(i as int)) == Ok::<Seq<usize>, TryFromProtoErrorView>(numbers@),
        decreases protos.len() - i,
    {
        proof {
            assert(protos@.take(i + 1).drop_last() =~= protos@.take(i as int));
            lemma_usizes_prefix(protos@, i + 1);
        }
        match read_usize(protos[i]) {
            Ok(number) => {
                numbers.push(number);
            },
            Err(err) => {
                return Err(err);
            },
        }
        i = i + 1;
    }
    assert(protos@.take(i as int) =~= protos@);
    Ok(numbers)
}

/// A part of a batch.
#[derive(Debug, PartialEq, Eq)]
pub struct HollowBatchPart {
    /// The key of the data, within the shard.
    pub key: PartialBatchKey,
    /// The size of the data.
    pub encoded_size_bytes: usize,
}

/// The contents of a [`HollowBatchPart`].
#[verifier::ext_equal]
pub struct HollowBatchPartView {
    pub key: Seq<char>,
    pub encoded_size_bytes: usize,
}

impl View for HollowBatchPart {
    type V = HollowBatchPartView;

    open spec fn view(&self) -> HollowBatchPartView {
        HollowBatchPartView { key: self.key@, encoded_size_bytes: self.encoded_size_bytes }
    }
}

/// The message that a part is written as.
pub open spec fn part_proto(part: HollowBatchPartView) -> ProtoHollowBatchPartView {
    ProtoHollowBatchPartView {
        key: part.key,
        encoded_size_bytes: part.encoded_size_bytes as u64,
    }
}

/// The part that a message stands for.
pub open spec fn part_of(proto: ProtoHollowBatchPartView) -> Result<
    HollowBatchPartView,
    TryFromProtoErrorView,
> {
    match usize_of(proto.encoded_size_bytes) {
        Ok(encoded_size_bytes) => Ok(HollowBatchPartView { key: proto.key, encoded_size_bytes }),
        Err(err) => Err(err),
    }
}

impl RustType<ProtoHollowBatchPart> for HollowBatchPart {
    fn into_proto(&self) -> (proto: ProtoHollowBatchPart)
        ensures
            proto@ == part_proto(self@),
    {
        ProtoHollowBatchPart {
            key: self.key.into_proto(),
            encoded_size_bytes: self.encoded_size_bytes as u64,
        }
    }

    fn from_proto(proto: ProtoHollowBatchPart) -> (r: Result<HollowBatchPart, TryFromProtoError>)
        ensures
            result_view(r) == part_of(proto@),
    {
        match read_usize(proto.encoded_size_bytes) {
            Ok(encoded_size_bytes) => Ok(
                HollowBatchPart { key: PartialBatchKey(proto.key), encoded_size_bytes },
            ),
            Err(err) => Err(err),
        }
    }
}

/// The parts that messages stand for. The first one that is no part is an error.
pub open spec fn parts_of(protos: Seq<ProtoHollowBatchPartView>) -> Result<
    Seq<HollowBatchPartView>,
    TryFromProtoErrorView,
>
    decreases protos.len(),
{
    if protos.len() == 0 {
        Ok(Seq::empty())
    } else {
        match parts_of(protos.drop_last()) {
            Ok(parts) => match part_of(protos.last()) {
                Ok(part) => Ok(parts.push(part)),
                Err(err) => Err(err),
            },
            Err(err) => Err(err),
        }
    }
}

proof fn lemma_parts_prefix(protos: Seq<ProtoHollowBatchPartView>, i: int)
    requires
        0 <= i <= protos.len(),
    ensures
        parts_of(protos.take(i)) matches Err(err) ==> parts_of(protos) == Err::<
            Seq<HollowBatchPartView>,
            TryFromProtoErrorView,
        >(err),
    decreases protos.len(),
{
    if i < protos.len() {
        lemma_parts_prefix(protos.drop_last(), i);
        assert(protos.drop_last().take(i) =~= protos.take(i));
    } else {
        assert(protos.take(i) =~= protos);
    }
}

fn read_parts(protos: Vec<ProtoHollowBatchPart>) -> (r: Result<
    Vec<HollowBatchPart>,
    TryFromProtoError,
>)
    ensures
        match r {
            Ok(parts) => parts_of(views(protos@)) == Ok::<
                Seq<HollowBatchPartView>,
                TryFromProtoErrorView,
            >(views(parts@)),
            Err(err) => parts_of(views(protos@)) == Err::<
                Seq<HollowBatchPartView>,
                TryFromProtoErrorView,
            >(err@),
        },
{
    let ghost all = views(protos@);
    let mut parts: Vec<HollowBatchPart> = Vec::new();
    assert(views(parts@) =~= Seq::empty());
    for proto in iter: protos
        invariant
            all == views(iter.seq()),
            parts_of(all.take(iter.index() as int)) == Ok::<
                Seq<HollowBatchPartView>,
                TryFromProtoErrorView,
            >(views(parts@)),
    {
        let ghost i = iter.index() as int;
        proof {
            assert(all.take(i + 1).drop_last() =~= all.take(i));
            assert(all.take(i + 1).last() == proto@);
            lemma_parts_prefix(all, i + 1);
        }
        match HollowBatchPart::from_proto(proto) {
            Ok(part) => {
                let ghost before = views(parts@);
                parts.push(part);
                assert(views(parts@) =~= before.push(part@));
            },
            Err(err) => {
                return Err(err);
            },
        }
    }
    assert(all.take(all.len() as int) =~= all);
    Ok(parts)
}

/// A batch, by reference to the data that it holds.
#[derive(Debug, PartialEq, Eq)]
#[verifier::reject_recursive_types(T)]
pub struct HollowBatch<T> {
    /// The frontiers of the batch.
    pub desc: Description<T>,
    /// The parts that hold the updates.
    pub parts: Vec<HollowBatchPart>,
    /// The number of updates.
    pub len: usize,
    /// Where in the parts a new sorted run starts.
    pub runs: Vec<usize>,
}

/// The contents of a [`HollowBatch`].
#[verifier::ext_equal]
pub struct HollowBatchView {
    pub desc: DescriptionView,
    pub parts: Seq<HollowBatchPartView>,
    pub len: usize,
    pub runs: Seq<usize>,
}

impl View for HollowBatch<u64> {
    type V = HollowBatchView;

    open spec fn view(&self) -> HollowBatchView {
        HollowBatchView {
            desc: self.desc@,
            parts: views(self.parts@),
            len: self.len,
            runs: self.runs@,
        }
    }
}

/// The message that a batch is written as.
pub open spec fn hollow_batch_proto(batch: HollowBatchView) -> ProtoHollowBatchView {
    ProtoHollowBatchView {
        desc: Some(description_proto(batch.desc)),
        parts: Seq::new(batch.parts.len(), |i: int| part_proto(batch.parts[i])),
        len: batch.len as u64,
        runs: Seq::new(batch.runs.len(), |i: int| batch.runs[i] as u64),
        deprecated_keys: Seq::empty(),
    }
}

/// Parts of which only the keys are known.
pub open spec fn keys_as_parts(keys: Seq<Seq<char>>) -> Seq<HollowBatchPartView> {
    Seq::new(keys.len(), |i: int| HollowBatchPartView { key: keys[i], encoded_size_bytes: 0 })
}

/// The batch that a message stands for. A message that was written before parts had more than a
/// key has the keys instead.
pub open spec fn hollow_batch_of(proto: ProtoHollowBatchView) -> Result<
    HollowBatchView,
    TryFromProtoErrorView,
> {
    match parts_of(proto.parts) {
        Ok(parts) => match proto.desc {
            Some(desc) => match description_of(desc) {
                Ok(desc) => match usize_of(proto.len) {
                    Ok(len) => match usizes_of(proto.runs) {
                        Ok(runs) => Ok(
                            HollowBatchView {
                                desc,
                                parts: parts + keys_as_parts(proto.deprecated_keys),
                                len,
                                runs,
                            },
                        ),
                        Err(err) => Err(err),
                    },
                    Err(err) => Err(err),
                },
                Err(err) => Err(err),
            },
            None => Err(TryFromProtoErrorView::MissingField("desc"@)),
        },
        Err(err) => Err(err),
    }
}

/// Whether the frontiers of a batch are ones that can be read again.
pub open spec fn hollow_batch_valid(batch: HollowBatchView) -> bool {
    description_valid(batch.desc)
}

proof fn lemma_parts_round_trip(parts: Seq<HollowBatchPartView>)
    ensures
        parts_of(Seq::new(parts.len(), |i: int| part_proto(parts[i]))) == Ok::<
            Seq<HollowBatchPartView>,
            TryFromProtoErrorView,
        >(parts),
    decreases parts.len(),
{
    let protos = Seq::new(parts.len(), |i: int| part_proto(parts[i]));
    if parts.len() > 0 {
        let front = parts.drop_last();
        lemma_parts_round_trip(front);
        assert(protos.drop_last() =~= Seq::new(front.len(), |i: int| part_proto(front[i])));
        assert(front.push(parts.last()) =~= parts);
    } else {
        assert(parts =~= Seq::empty());
    }
}

proof fn lemma_usizes_round_trip(numbers: Seq<usize>)
    ensures
        usizes_of(Seq::new(numbers.len(), |i: int| numbers[i] as u64)) == Ok::<
            Seq<usize>,
            TryFromProtoErrorView,
        >(numbers),
    decreases numbers.len(),
{
    let protos = Seq::new(numbers.len(), |i: int| numbers[i] as u64);
    if numbers.len() > 0 {
        let front = numbers.drop_last();
        lemma_usizes_round_trip(front);
        assert(protos.drop_last() =~= Seq::new(front.len(), |i: int| front[i] as u64));
        assert(front.push(numbers.last()) =~= numbers);
    } else {
        assert(numbers =~= Seq::empty());
    }
}

/// A batch is read as it was written.
pub proof fn lemma_hollow_batch_round_trip(batch: HollowBatchView)
    requires
        hollow_batch_valid(batch),
    ensures
        hollow_batch_of(hollow_batch_proto(batch)) == Ok::<HollowBatchView, TryFromProtoErrorView>(
            batch,
        ),
{
    lemma_parts_round_trip(batch.parts);
    lemma_usizes_round_trip(batch.runs);
    lemma_description_round_trip(batch.desc);
    assert(batch.parts + keys_as_parts(Seq::empty()) =~= batch.parts);
}

impl RustType<ProtoHollowBatch> for HollowBatch<u64> {
    fn into_proto(&self) -> (proto: ProtoHollowBatch)
        ensures
            proto@ == hollow_batch_proto(self@),
    {
        let mut parts: Vec<ProtoHollowBatchPart> = Vec::new();
        let ghost all_parts = hollow_batch_proto(self@).parts;
        let mut i: usize = 0;
        assert(views(parts@) =~= all_parts.take(0));
        while i < self.parts.len()
            invariant
                i <= self.parts.len(),
                all_parts == hollow_batch_proto(self@).parts,
                views(parts@) == all_parts.take(i as int),
            decreases self.parts.len() - i,
        {
            let ghost before = views(parts@);
            let part = self.parts[i].into_proto();
            parts.push(part);
            assert(views(parts@) =~= before.push(part@));
            assert(views(parts@) =~= all_parts.take(i + 1));
            i = i + 1;
        }
        assert(all_parts.take(i as int) =~= all_parts);
        let mut runs: Vec<u64> = Vec::new();
        let ghost all_runs = hollow_batch_proto(self@).runs;
        let mut j: usize = 0;
        while j < self.runs.len()
            invariant
                j <= self.runs.len(),
                all_runs == hollow_batch_proto(self@).runs,
                runs@ == all_runs.take(j as int),
            decreases self.runs.len() - j,
        {
            runs.push(self.runs[j] as u64);
            assert(runs@ =~= all_runs.take(j + 1));
            j = j + 1;
        }
        assert(all_runs.take(j as int) =~= all_runs);
        let deprecated_keys: Vec<String> = Vec::new();
        assert(views(deprecated_keys@) =~= Seq::empty());
        ProtoHollowBatch {
            desc: Some(self.desc.into_proto()),
            parts,
            len: self.len as u64,
            runs,
            deprecated_keys,
        }
    }

    fn from_proto(proto: ProtoHollowBatch) -> (r: Result<HollowBatch<u64>, TryFromProtoError>)
        ensures
            result_view(r) == hollow_batch_of(proto@),
    {
        let mut parts: Vec<HollowBatchPart> = match read_parts(proto.parts) {
            Ok(parts) => parts,
            Err(err) => {
                return Err(err);
            },
        };
        // A batch that was written before parts had more than a key has the keys instead.
        let ghost structured = views(parts@);
        let ghost keys = views(proto.deprecated_keys@);
        assert(structured + keys_as_parts(keys).take(0) =~= structured);
        for key in iter: proto.deprecated_keys
            invariant
                keys == views(iter.seq()),
                views(parts@) == structured + keys_as_parts(keys).take(iter.index() as int),
        {
            let ghost i = iter.index() as int;
            let ghost before = views(parts@);
            let part = HollowBatchPart { key: PartialBatchKey(key), encoded_size_bytes: 0 };
            parts.push(part);
            assert(views(parts@) =~= before.push(part@));
            assert(views(parts@) =~= structured + keys_as_parts(keys).take(i + 1));
        }
        assert(keys_as_parts(keys).take(keys.len() as int) =~= keys_as_parts(keys));
        let desc: Description<u64> = match proto.desc {
            Some(desc) => match <Description<u64>>::from_proto(desc) {
                Ok(desc) => desc,
                Err(err) => {
                    return Err(err);
                },
            },
            None => {
                return Err(TryFromProtoError::MissingField("desc".to_owned()));
            },
        };
        let len: usize = match read_usize(proto.len) {
            Ok(len) => len,
            Err(err) => {
                return Err(err);
            },
        };
        let runs: Vec<usize> = match read_usizes(&proto.runs) {
            Ok(runs) => runs,
            Err(err) => {
                return Err(err);
            },
        };
        Ok(HollowBatch { desc, parts, len, runs })
    }
}

} // verus!
