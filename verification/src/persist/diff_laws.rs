//! What the difference between two states is for: what is read of it, and what keeps it from being
//! read.

use vstd::prelude::*;

use crate::persist::antichain::{antichain_of, frontier_less_than};
use crate::persist::batch::{hollow_batch_of, HollowBatchView, SeqNo};
use crate::persist::diff_fields::{
    all_read, diff_read, diff_reads, raw_of, StateFieldDiff, StateFieldValDiff,
};
use crate::persist::error::{error_text, TryFromProtoErrorView};
use crate::persist::field_diffs::{
    diff_type_number, diff_type_of, diffs_fit, field_number, field_of, misfit, raw_diffs,
    total_len, total_pieces, with_raw, ProtoStateField, ProtoStateFieldDiffType, RawDiff,
};
use crate::persist::handle::{
    critical_reader_of, leased_reader_of, leased_reader_valid, writer_of, CriticalReaderStateView,
    LeasedReaderStateView, WriterStateView,
};
use crate::persist::ids::{id_of, CriticalReaderId, LeasedReaderId, WriterId};
use crate::persist::ordered::sorted;
use crate::persist::proto::batch::{ProtoHollowBatch, ProtoU64Antichain};
use crate::persist::proto::diff::{
    ProtoStateDiff, ProtoStateDiffView, ProtoStateFieldDiffsView,
};
use crate::persist::proto::handle::{
    ProtoCriticalReaderState, ProtoLeasedReaderState, ProtoWriterState,
};
use crate::persist::state::{state_valid, StateErrorView, StateView};
use crate::persist::state_diff::{
    fresh_diff, state_diff_decoded, state_diff_of, state_diff_proto, state_diff_valid,
    with_all_unpacked, with_unpacked, StateDiffView,
};
use crate::persist::version::{applier_version_of, semver_less, version_text, VersionView};
use crate::persist::write::sent_batch;
use crate::proto::message::{decoded, Schema};
use crate::text::signed_decimal;

verus! {

/// The kinds of differences are told apart by the numbers 0, 1 and 2, and no other number is one.
pub proof fn lemma_kinds_are_numbered(number: i32)
    ensures
        diff_type_of(number) is Some <==> 0 <= number <= 2,
        diff_type_of(number) matches Some(kind) ==> diff_type_number(kind) == number,
        number == 0 ==> diff_type_of(number) == Some(ProtoStateFieldDiffType::Insert),
        number == 1 ==> diff_type_of(number) == Some(ProtoStateFieldDiffType::Update),
        number == 2 ==> diff_type_of(number) == Some(ProtoStateFieldDiffType::Delete),
{
}

/// The fields of a state are told apart by their numbers.
pub proof fn lemma_fields_are_numbered(field: ProtoStateField, number: i32)
    ensures
        field_of(field_number(field)) == Some(field),
        field_of(number) matches Some(found) ==> field_number(found) == number,
{
}

/// What has happened to an entry is read from the right values: an insertion from the one after, a
/// deletion from the one before, and an update from both, in this order; each with its key.
pub proof fn lemma_difference_is_read<KP: Schema, VP: Schema, A, B>(
    raw: RawDiff,
    key: spec_fn(KP::V) -> Result<A, TryFromProtoErrorView>,
    value: spec_fn(VP::V) -> Result<B, TryFromProtoErrorView>,
)
    ensures
        ({
            let read = diff_read::<KP, VP, A, B>(raw, key, value);
            let needs_from = !(raw.diff_type is Insert);
            let needs_to = !(raw.diff_type is Delete);
            let key_fine = decoded::<KP>(raw.key) matches Some(proto) && key(proto) is Ok;
            let from_fine = decoded::<VP>(raw.from) matches Some(proto) && value(proto) is Ok;
            let to_fine = decoded::<VP>(raw.to) matches Some(proto) && value(proto) is Ok;
            &&& read is Ok <==> key_fine && (needs_from ==> from_fine) && (needs_to ==> to_fine)
            &&& read is Ok ==> {
                let from = value(decoded::<VP>(raw.from)->Some_0);
                let to = value(decoded::<VP>(raw.to)->Some_0);
                &&& key(decoded::<KP>(raw.key)->Some_0) == Ok::<A, TryFromProtoErrorView>(
                    read->Ok_0.key,
                )
                &&& match raw.diff_type {
                    ProtoStateFieldDiffType::Insert => read->Ok_0.val matches
                        StateFieldValDiff::Insert(after) && to == Ok::<B, TryFromProtoErrorView>(
                        after,
                    ),
                    ProtoStateFieldDiffType::Update => read->Ok_0.val matches
                        StateFieldValDiff::Update(before, after) && from == Ok::<
                        B,
                        TryFromProtoErrorView,
                    >(before) && to == Ok::<B, TryFromProtoErrorView>(after),
                    ProtoStateFieldDiffType::Delete => read->Ok_0.val matches
                        StateFieldValDiff::Delete(before) && from == Ok::<
                        B,
                        TryFromProtoErrorView,
                    >(before),
                }
            }
        }),
{
}

/// What has happened to an entry is written with its key: an insertion with the value after, a
/// deletion with the value before, and an update with both.
pub proof fn lemma_difference_is_written<A, B>(
    field: ProtoStateField,
    diff: StateFieldDiff<A, B>,
    key: spec_fn(A) -> Seq<u8>,
    value: spec_fn(B) -> Seq<u8>,
)
    ensures
        ({
            let raw = raw_of(field, diff, key, value);
            &&& raw.field == field_number(field)
            &&& raw.key == key(diff.key)
            &&& match diff.val {
                StateFieldValDiff::Insert(to) => raw.diff_type is Insert && raw.from.len() == 0
                    && raw.to == value(to),
                StateFieldValDiff::Update(from, to) => raw.diff_type is Update && raw.from == value(
                    from,
                ) && raw.to == value(to),
                StateFieldValDiff::Delete(from) => raw.diff_type is Delete && raw.from == value(
                    from,
                ) && raw.to.len() == 0,
            }
        }),
{
}

/// Whether two differences between states agree in all but what has happened to fields.
pub open spec fn same_ends(a: StateDiffView, b: StateDiffView) -> bool {
    &&& a.applier_version == b.applier_version
    &&& a.seqno_from == b.seqno_from
    &&& a.seqno_to == b.seqno_to
    &&& a.latest_rollup_key == b.latest_rollup_key
}

/// Whether a sequence is another with one more behind it.
pub open spec fn grown<X>(before: Seq<X>, after: Seq<X>) -> bool {
    after.len() == before.len() + 1 && forall|i: int|
        0 <= i < before.len() ==> #[trigger] after[i] == before[i]
}

/// Whether a sequence has grown if it should, and is the same otherwise.
pub open spec fn grown_if<X>(should: bool, before: Seq<X>, after: Seq<X>) -> bool {
    if should {
        grown(before, after)
    } else {
        after == before
    }
}

/// What has happened to a field goes behind what has happened to that field before, and to no other
/// field. A number that is not that of a field is refused by its number.
pub proof fn lemma_difference_goes_to_its_field(diffs: StateDiffView, raw: RawDiff)
    ensures
        with_unpacked(diffs, raw) matches Ok(after) ==> {
            &&& same_ends(diffs, after)
            &&& grown_if(raw.field == 0, diffs.hostname, after.hostname)
            &&& grown_if(raw.field == 1, diffs.last_gc_req, after.last_gc_req)
            &&& grown_if(raw.field == 2, diffs.rollups, after.rollups)
            &&& grown_if(raw.field == 3, diffs.leased_readers, after.leased_readers)
            &&& grown_if(raw.field == 4, diffs.critical_readers, after.critical_readers)
            &&& grown_if(raw.field == 5, diffs.writers, after.writers)
            &&& grown_if(raw.field == 6, diffs.since, after.since)
            &&& grown_if(raw.field == 7, diffs.spine, after.spine)
            &&& 0 <= raw.field <= 7
        },
        raw.field < 0 || raw.field > 7 ==> with_unpacked(diffs, raw) == Err::<StateDiffView, _>(
            TryFromProtoErrorView::InvalidPersistState(
                "unknown ProtoStateField "@ + signed_decimal(raw.field as int),
            ),
        ),
{
}

/// What has happened to a field is read as the kind of entries that the field has.
pub proof fn lemma_difference_is_read_as_its_field(diffs: StateDiffView, raw: RawDiff)
    ensures
        with_unpacked(diffs, raw) matches Ok(after) ==> {
            &&& raw.field == 0 ==> diff_read::<(), String, _, _>(
                raw,
                |a: ()| Ok(()),
                |a: Seq<char>| Ok(a),
            ) == Ok::<StateFieldDiff<(), Seq<char>>, TryFromProtoErrorView>(after.hostname.last())
            &&& raw.field == 1 ==> diff_read::<(), u64, _, _>(
                raw,
                |a: ()| Ok(()),
                |a: u64| Ok(a),
            ) == Ok::<StateFieldDiff<(), u64>, TryFromProtoErrorView>(after.last_gc_req.last())
            &&& raw.field == 2 ==> diff_read::<u64, String, _, _>(
                raw,
                |a: u64| Ok(a),
                |a: Seq<char>| Ok(a),
            ) == Ok::<StateFieldDiff<u64, Seq<char>>, TryFromProtoErrorView>(after.rollups.last())
            &&& raw.field == 3 ==> diff_read::<String, ProtoLeasedReaderState, _, _>(
                raw,
                |a: Seq<char>| id_of('r', a),
                |a: crate::persist::proto::handle::ProtoLeasedReaderStateView| leased_reader_of(a),
            ) == Ok::<StateFieldDiff<Seq<u8>, LeasedReaderStateView>, TryFromProtoErrorView>(
                after.leased_readers.last(),
            )
            &&& raw.field == 4 ==> diff_read::<String, ProtoCriticalReaderState, _, _>(
                raw,
                |a: Seq<char>| id_of('c', a),
                |a: crate::persist::proto::handle::ProtoCriticalReaderStateView|
                    critical_reader_of(a),
            ) == Ok::<StateFieldDiff<Seq<u8>, CriticalReaderStateView>, TryFromProtoErrorView>(
                after.critical_readers.last(),
            )
            &&& raw.field == 5 ==> diff_read::<String, ProtoWriterState, _, _>(
                raw,
                |a: Seq<char>| id_of('w', a),
                |a: crate::persist::proto::handle::ProtoWriterStateView| writer_of(a),
            ) == Ok::<StateFieldDiff<Seq<u8>, WriterStateView>, TryFromProtoErrorView>(
                after.writers.last(),
            )
            &&& raw.field == 6 ==> diff_read::<(), ProtoU64Antichain, _, _>(
                raw,
                |a: ()| Ok(()),
                |a: crate::persist::proto::batch::ProtoU64AntichainView| Ok(antichain_of(a)),
            ) == Ok::<StateFieldDiff<(), Seq<u64>>, TryFromProtoErrorView>(after.since.last())
            &&& raw.field == 7 ==> diff_read::<ProtoHollowBatch, (), _, _>(
                raw,
                |a: crate::persist::proto::batch::ProtoHollowBatchView| hollow_batch_of(a),
                |a: ()| Ok(()),
            ) == Ok::<StateFieldDiff<HollowBatchView, ()>, TryFromProtoErrorView>(
                after.spine.last(),
            )
        },
{
}

/// Differences are unpacked one behind the other, and the first that is wrong is the answer.
pub proof fn lemma_differences_are_unpacked(
    diffs: StateDiffView,
    raws: Seq<RawDiff>,
    raw: RawDiff,
)
    ensures
        with_all_unpacked(diffs, Seq::empty()) == Ok::<StateDiffView, TryFromProtoErrorView>(diffs),
        with_all_unpacked(diffs, raws.push(raw)) == match with_all_unpacked(diffs, raws) {
            Ok(between) => with_unpacked(between, raw),
            Err(err) => Err(err),
        },
{
    assert(raws.push(raw).drop_last() =~= raws);
}

/// A difference has its numbers, its rollup and its version from its message, and what has happened
/// to fields from the packed differences, if there are any that fit together. Without any, nothing
/// has happened.
pub proof fn lemma_state_diff_is_read(proto: ProtoStateDiffView)
    ensures
        ({
            let read = state_diff_of(proto);
            &&& applier_version_of(proto.applier_version) matches Err(err) ==> read == Err::<
                StateDiffView,
                TryFromProtoErrorView,
            >(err)
            &&& applier_version_of(proto.applier_version) matches Ok(version) ==> {
                &&& proto.field_diffs is None ==> {
                    &&& read matches Ok(diff)
                    &&& diff.applier_version == version
                    &&& diff.seqno_from == proto.seqno_from
                    &&& diff.seqno_to == proto.seqno_to
                    &&& diff.latest_rollup_key == proto.latest_rollup_key
                    &&& diff.hostname.len() == 0 && diff.last_gc_req.len() == 0
                    &&& diff.rollups.len() == 0 && diff.leased_readers.len() == 0
                    &&& diff.critical_readers.len() == 0 && diff.writers.len() == 0
                    &&& diff.since.len() == 0 && diff.spine.len() == 0
                }
                &&& proto.field_diffs matches Some(packed) ==> if diffs_fit(packed) {
                    exists|start: StateDiffView| #[trigger]
                        with_all_unpacked(start, raw_diffs(packed)) == read
                            && start.applier_version == version && start.seqno_from
                            == proto.seqno_from && start.seqno_to == proto.seqno_to
                            && start.latest_rollup_key == proto.latest_rollup_key
                            && start.hostname.len() == 0 && start.last_gc_req.len() == 0
                            && start.rollups.len() == 0 && start.leased_readers.len() == 0
                            && start.critical_readers.len() == 0 && start.writers.len() == 0
                            && start.since.len() == 0 && start.spine.len() == 0
                } else {
                    read matches Err(TryFromProtoErrorView::InvalidPersistState(_))
                }
            }
        }),
{
    if let Ok(version) = applier_version_of(proto.applier_version) {
        let start = fresh_diff(
            version,
            proto.seqno_from,
            proto.seqno_to,
            proto.latest_rollup_key,
        );
        if let Some(packed) = proto.field_diffs {
            if diffs_fit(packed) {
                assert(with_all_unpacked(start, raw_diffs(packed)) == state_diff_of(proto));
            }
        }
    }
}

/// A difference is written with its numbers, its rollup and its version.
pub proof fn lemma_state_diff_is_written(diff: StateDiffView)
    ensures
        ({
            let proto = state_diff_proto(diff);
            &&& proto.applier_version == version_text(diff.applier_version)
            &&& proto.seqno_from == diff.seqno_from
            &&& proto.seqno_to == diff.seqno_to
            &&& proto.latest_rollup_key == diff.latest_rollup_key
            &&& proto.field_diffs is Some
        }),
{
}

/// Differences that are decoded were not written by later code, which is told by its version. What
/// is no difference is not decoded.
pub proof fn lemma_diff_decoding_is_guarded(build_version: VersionView, buf: Seq<u8>)
    ensures
        ({
            let r = state_diff_decoded(build_version, buf);
            match decoded::<ProtoStateDiff>(buf) {
                None => r matches Err(StateErrorView::Invalid(_)),
                Some(proto) => match state_diff_of(proto) {
                    Err(err) => r == Err::<StateDiffView, _>(
                        StateErrorView::Invalid(error_text(err)),
                    ),
                    Ok(diff) => if semver_less(build_version, diff.applier_version) {
                        r == Err::<StateDiffView, _>(
                            StateErrorView::FromFuture(
                                version_text(build_version)
                                    + " received persist state from the future "@ + version_text(
                                    diff.applier_version,
                                ),
                            ),
                        )
                    } else {
                        r == Ok::<StateDiffView, StateErrorView>(diff)
                    },
                },
            }
        }),
{
}

/// Packed differences fit together exactly if there are as many kinds as fields, each kind is one,
/// there are two pieces of data for each difference and one more for each update, and the pieces
/// take all the bytes.
pub proof fn lemma_packed_differences_fit(packed: ProtoStateFieldDiffsView)
    ensures
        diffs_fit(packed) <==> {
            &&& packed.fields.len() == packed.diff_types.len()
            &&& forall|i: int|
                0 <= i < packed.diff_types.len() ==> 0 <= #[trigger] packed.diff_types[i] <= 2
            &&& total_pieces(packed.diff_types) == packed.data_lens.len()
            &&& total_len(packed.data_lens) == packed.data_bytes.len()
        },
{
    if diffs_fit(packed) {
        assert forall|i: int| 0 <= i < packed.diff_types.len() implies 0
            <= #[trigger] packed.diff_types[i] <= 2 by {
            assert(diff_type_of(packed.diff_types[i]) is Some);
        }
    }
}

/// Of packed differences that do not fit together, the first thing that is wrong is told: the
/// number of kinds, a kind that is none, the number of pieces, or their length.
pub proof fn lemma_misfits_are_told(packed: ProtoStateFieldDiffsView)
    ensures
        ({
            let told = misfit(packed);
            let known = forall|i: int|
                0 <= i < packed.diff_types.len() ==> 0 <= #[trigger] packed.diff_types[i] <= 2;
            let counted = total_pieces(packed.diff_types) == packed.data_lens.len();
            &&& packed.fields.len() != packed.diff_types.len() ==> told
                == "fields and diff_types differ in length"@
            &&& packed.fields.len() == packed.diff_types.len() && !known ==> told
                == "unknown diff_type"@
            &&& packed.fields.len() == packed.diff_types.len() && known && !counted ==> told
                == "data slices and diff_types do not match"@
            &&& packed.fields.len() == packed.diff_types.len() && known && counted && !diffs_fit(
                packed,
            ) ==> told == "data slices and data bytes do not match"@
        }),
{
    if forall|i: int|
        0 <= i < packed.diff_types.len() ==> diff_type_of(#[trigger] packed.diff_types[i]) is Some {
        assert forall|i: int| 0 <= i < packed.diff_types.len() implies 0
            <= #[trigger] packed.diff_types[i] <= 2 by {
            assert(diff_type_of(packed.diff_types[i]) is Some);
        }
    }
}

/// An update has three pieces of data, and any other difference two; the lengths of pieces add up.
pub proof fn lemma_pieces_add_up(diff_types: Seq<i32>, diff_type: i32, lens: Seq<u64>, len: u64)
    ensures
        total_pieces(Seq::empty()) == 0,
        total_pieces(diff_types.push(diff_type)) == total_pieces(diff_types) + if diff_type == 1 {
            3int
        } else {
            2
        },
        total_len(Seq::empty()) == 0,
        total_len(lens.push(len)) == total_len(lens) + len,
{
    assert(diff_types.push(diff_type).drop_last() =~= diff_types);
    assert(lens.push(len).drop_last() =~= lens);
}

/// A difference is packed behind the others: its field and its kind, and behind all other bytes
/// those of its key, of the value before it if there was one, and of the value after it if there is
/// one.
pub proof fn lemma_difference_is_packed(packed: ProtoStateFieldDiffsView, raw: RawDiff)
    ensures
        ({
            let after = with_raw(packed, raw);
            &&& after.fields == packed.fields.push(raw.field)
            &&& after.diff_types.len() == packed.diff_types.len() + 1
            &&& after.diff_types.last() == match raw.diff_type {
                ProtoStateFieldDiffType::Insert => 0i32,
                ProtoStateFieldDiffType::Update => 1,
                ProtoStateFieldDiffType::Delete => 2,
            }
            &&& match raw.diff_type {
                ProtoStateFieldDiffType::Insert => {
                    &&& after.data_lens == packed.data_lens + seq![
                        raw.key.len() as u64,
                        raw.to.len() as u64,
                    ]
                    &&& after.data_bytes == packed.data_bytes + raw.key + raw.to
                },
                ProtoStateFieldDiffType::Update => {
                    &&& after.data_lens == packed.data_lens + seq![
                        raw.key.len() as u64,
                        raw.from.len() as u64,
                        raw.to.len() as u64,
                    ]
                    &&& after.data_bytes == packed.data_bytes + raw.key + raw.from + raw.to
                },
                ProtoStateFieldDiffType::Delete => {
                    &&& after.data_lens == packed.data_lens + seq![
                        raw.key.len() as u64,
                        raw.from.len() as u64,
                    ]
                    &&& after.data_bytes == packed.data_bytes + raw.key + raw.from
                },
            }
        }),
{
    let after = with_raw(packed, raw);
    match raw.diff_type {
        ProtoStateFieldDiffType::Insert => {
            assert(after.data_lens =~= packed.data_lens + seq![
                raw.key.len() as u64,
                raw.to.len() as u64,
            ]);
        },
        ProtoStateFieldDiffType::Update => {
            assert(after.data_lens =~= packed.data_lens + seq![
                raw.key.len() as u64,
                raw.from.len() as u64,
                raw.to.len() as u64,
            ]);
        },
        ProtoStateFieldDiffType::Delete => {
            assert(after.data_lens =~= packed.data_lens + seq![
                raw.key.len() as u64,
                raw.from.len() as u64,
            ]);
        },
    }
}

/// Whether a reader that has to renew its lease can be read again.
pub open spec fn leased_reader_lasts(reader: LeasedReaderStateView) -> bool {
    reader.since.len() <= 1 && reader.lease_duration_ms != 0
}

/// Whether a reader that holds back compaction can be read again.
pub open spec fn critical_reader_lasts(reader: CriticalReaderStateView) -> bool {
    reader.since.len() <= 1 && reader.opaque.len() == 8
}

/// Whether a batch can be read again.
pub open spec fn batch_lasts(batch: HollowBatchView) -> bool {
    batch.desc.lower.len() == 1 && batch.desc.upper.len() <= 1 && batch.desc.since.len() <= 1
}

/// All that a state needs to be read again is that its maps are in order, that its frontiers have
/// at most one time, that leases last, and that its frontier is behind that of no batch.
pub proof fn lemma_state_can_be_read_again(state: StateView)
    requires
        forall|i: int, j: int|
            0 <= i < j < state.rollups.len() ==> (#[trigger] state.rollups[i]).0 < (
            #[trigger] state.rollups[j]).0,
        sorted::<LeasedReaderId, LeasedReaderStateView>(state.leased_readers),
        sorted::<CriticalReaderId, CriticalReaderStateView>(state.critical_readers),
        sorted::<WriterId, WriterStateView>(state.writers),
        forall|i: int|
            0 <= i < state.leased_readers.len() ==> leased_reader_lasts(
                (#[trigger] state.leased_readers[i]).1,
            ),
        forall|i: int|
            0 <= i < state.critical_readers.len() ==> critical_reader_lasts(
                (#[trigger] state.critical_readers[i]).1,
            ),
        forall|i: int|
            0 <= i < state.writers.len() ==> (
            #[trigger] state.writers[i]).1.most_recent_write_upper.len() <= 1,
        state.trace.since.len() <= 1,
        forall|i: int|
            0 <= i < state.trace.batches.len() ==> batch_lasts(#[trigger] state.trace.batches[i])
                && !frontier_less_than(state.trace.since, state.trace.batches[i].desc.since),
    ensures
        state_valid(state),
{
    assert(sorted::<SeqNo, Seq<char>>(state.rollups));
}

/// Whether the values of what has happened to an entry can be read again.
pub open spec fn values_last<A, B>(diff: StateFieldDiff<A, B>, lasts: spec_fn(B) -> bool) -> bool {
    match diff.val {
        StateFieldValDiff::Insert(to) => lasts(to),
        StateFieldValDiff::Update(from, to) => lasts(from) && lasts(to),
        StateFieldValDiff::Delete(from) => lasts(from),
    }
}

/// All that a difference needs to be read again is that its frontiers have at most one time, and
/// that leases last.
pub proof fn lemma_state_diff_can_be_read_again(diff: StateDiffView)
    requires
        forall|i: int|
            0 <= i < diff.leased_readers.len() ==> values_last(
                #[trigger] diff.leased_readers[i],
                |a: LeasedReaderStateView| leased_reader_lasts(a),
            ),
        forall|i: int|
            0 <= i < diff.critical_readers.len() ==> values_last(
                #[trigger] diff.critical_readers[i],
                |a: CriticalReaderStateView| critical_reader_lasts(a),
            ),
        forall|i: int|
            0 <= i < diff.writers.len() ==> values_last(
                #[trigger] diff.writers[i],
                |a: WriterStateView| a.most_recent_write_upper.len() <= 1,
            ),
        forall|i: int|
            0 <= i < diff.since.len() ==> values_last(
                #[trigger] diff.since[i],
                |a: Seq<u64>| a.len() <= 1,
            ),
        forall|i: int|
            0 <= i < diff.spine.len() ==> batch_lasts((#[trigger] diff.spine[i]).key),
    ensures
        state_diff_valid(diff),
{
    let leased = |a: LeasedReaderStateView| leased_reader_valid(a);
    assert forall|i: int| 0 <= i < diff.leased_readers.len() implies diff_reads(
        #[trigger] diff.leased_readers[i],
        |a: Seq<u8>| true,
        leased,
    ) by {
        assert(values_last(
            diff.leased_readers[i],
            |a: LeasedReaderStateView| leased_reader_lasts(a),
        ));
    }
    assert(all_read(diff.leased_readers, |a: Seq<u8>| true, leased));
}

/// A batch that was sent is read as any batch is, and bytes that are none say what is wrong.
pub proof fn lemma_sent_batch_is_read(bytes: Seq<u8>)
    ensures
        match decoded::<ProtoHollowBatch>(bytes) {
            Some(proto) => match hollow_batch_of(proto) {
                Ok(batch) => sent_batch(bytes) == Ok::<HollowBatchView, Seq<char>>(batch),
                Err(err) => sent_batch(bytes) == Err::<HollowBatchView, Seq<char>>(error_text(err)),
            },
            None => sent_batch(bytes) is Err,
        },
{
}

} // verus!
