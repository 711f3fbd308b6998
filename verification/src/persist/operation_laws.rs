//! What a caller gets from the state of a shard: laws on what goes into each operation, and what
//! comes out.

use timely::progress::Antichain;
use vstd::prelude::*;

use crate::persist::antichain::{antichain_elements, DescriptionView};
use crate::persist::batch::HollowBatch;
use crate::persist::codec::{Codec, Codec64};
use crate::persist::error::{CodecMismatch, RustType, TryFromProtoError};
use crate::persist::ids::{
    CriticalReaderId, IdempotencyToken, LeasedReaderId, ShardId, WriterId,
};
use crate::persist::message_laws::{
    is_frontier, lemma_batch_is_read, lemma_description_is_read,
};
use crate::persist::proto::batch::ProtoHollowBatch;
use crate::persist::proto::diff::ProtoStateDiff;
use crate::persist::proto::rollup::{ProtoStateRollup, ProtoStateRollupView};
use crate::persist::state::{state_valid, State, StateError};
use crate::persist::state_diff::{state_diff_valid, StateDiff};
use crate::persist::state_laws::{
    has_entry, last_rollup, lemma_codecs_must_agree, lemma_decoding_is_guarded, lemma_state_is_read,
};
use crate::persist::trace::Trace;
use crate::persist::version::{check_applier_version, semver_less, Version};
use crate::persist::write::{SerdeWriterEnrichedHollowBatch, WriterEnrichedHollowBatch};
use crate::proto::message::decoded;

verus! {

/// Whether a message was written with the codecs of a shard: each of the four by its name.
pub open spec fn has_codecs<K: Codec, V: Codec, D: Codec64>(proto: ProtoStateRollupView) -> bool {
    &&& K::name() == proto.key_codec
    &&& V::name() == proto.val_codec
    &&& <u64 as Codec64>::name() == proto.ts_codec
    &&& D::name() == proto.diff_codec
}

/// A state is read from a message only if the names of all four codecs are those of the message.
/// If any of them is not, the answer is a mismatch, with all the names.
pub proof fn lemma_state_needs_its_codecs<K: Codec, V: Codec, D: Codec64>(
    proto: ProtoStateRollup,
    read: Result<Result<State<K, V, u64, D>, CodecMismatch>, TryFromProtoError>,
)
    requires
        call_ensures(State::<K, V, u64, D>::try_from, (proto,), read),
    ensures
        read matches Ok(Ok(_)) ==> has_codecs::<K, V, D>(proto@),
        (read matches Ok(Err(_))) <==> !has_codecs::<K, V, D>(proto@),
        read matches Ok(Err(mismatch)) ==> {
            &&& mismatch.requested.0@ == K::name()
            &&& mismatch.requested.1@ == V::name()
            &&& mismatch.requested.2@ == <u64 as Codec64>::name()
            &&& mismatch.requested.3@ == D::name()
            &&& mismatch.actual.0@ == proto.key_codec@
            &&& mismatch.actual.1@ == proto.val_codec@
            &&& mismatch.actual.2@ == proto.ts_codec@
            &&& mismatch.actual.3@ == proto.diff_codec@
        },
{
    lemma_codecs_must_agree(
        (K::name(), V::name(), <u64 as Codec64>::name(), D::name()),
        proto@,
    );
}

/// A state that is read from a message has the numbers, the host and the rollups of the message.
pub proof fn lemma_state_comes_from_its_message<K: Codec, V: Codec, D: Codec64>(
    proto: ProtoStateRollup,
    read: Result<Result<State<K, V, u64, D>, CodecMismatch>, TryFromProtoError>,
)
    requires
        call_ensures(State::<K, V, u64, D>::try_from, (proto,), read),
    ensures
        read matches Ok(Ok(state)) ==> {
            &&& state.seqno.0 == proto.seqno
            &&& state.hostname@ == proto.hostname@
            &&& state.collections.last_gc_req.0 == proto.last_gc_req
            &&& forall|seqno: u64, key: Seq<char>| #[trigger]
                has_entry(state.collections.rollups@, seqno, key) <==> last_rollup(
                    proto@.rollups,
                    seqno,
                    key,
                )
        },
{
    lemma_state_is_read(proto@);
    if let Ok(Ok(state)) = read {
        let held = state@;
        assert(held.seqno == proto@.seqno);
        assert(held.rollups == state.collections.rollups@);
        assert forall|seqno: u64, key: Seq<char>| #[trigger]
            has_entry(state.collections.rollups@, seqno, key) <==> last_rollup(
                proto@.rollups,
                seqno,
                key,
            ) by {
            let last = last_rollup(proto@.rollups, seqno, key);
            assert(has_entry(held.rollups, seqno, key) <==> last);
        }
    }
}

/// An encoded state is decoded only if it was written with the codecs of the shard, and not by
/// later code.
pub proof fn lemma_decoding_needs_codecs<K: Codec, V: Codec, D: Codec64>(
    build_version: Version,
    buf: &[u8],
    read: Result<State<K, V, u64, D>, StateError>,
)
    requires
        call_ensures(State::<K, V, u64, D>::decode, (&build_version, buf), read),
    ensures
        decoded::<ProtoStateRollup>(buf@) is None ==> (read matches Err(StateError::Invalid(_))),
        decoded::<ProtoStateRollup>(buf@) matches Some(proto) ==> {
            &&& !has_codecs::<K, V, D>(proto) ==> (read matches Err(StateError::CodecMismatch(_)))
            &&& read matches Ok(state) ==> has_codecs::<K, V, D>(proto) && !semver_less(
                build_version@,
                state.applier_version@,
            )
        },
{
    lemma_decoding_is_guarded(
        (K::name(), V::name(), <u64 as Codec64>::name(), D::name()),
        build_version@,
        buf@,
    );
}

/// A state that was encoded into an empty buffer is decoded as the same state, by code that is not
/// older.
pub proof fn lemma_state_is_decoded_as_encoded<K: Codec, V: Codec, D: Codec64>(
    state: State<K, V, u64, D>,
    buf: &mut Vec<u8>,
    build_version: Version,
    bytes: &[u8],
    read: Result<State<K, V, u64, D>, StateError>,
)
    requires
        state_valid(state@),
        old(buf)@.len() == 0,
        call_ensures(State::<K, V, u64, D>::encode, (&state, buf), ()),
        bytes@ == final(buf)@,
        call_ensures(State::<K, V, u64, D>::decode, (&build_version, bytes), read),
    ensures
        !semver_less(build_version@, state.applier_version@) ==> (read matches Ok(again) && again@
            == state@),
        semver_less(build_version@, state.applier_version@) ==> (read matches Err(
            StateError::FromFuture(_),
        )),
{
    let empty = old(buf)@;
    assert(empty =~= Seq::empty());
    assert(forall|s: Seq<u8>| #[trigger] (empty + s) =~= s);
}

/// A difference between two states is read from its message as it was written.
pub proof fn lemma_difference_is_read_as_written(
    diff: StateDiff<u64>,
    proto: ProtoStateDiff,
    read: Result<StateDiff<u64>, TryFromProtoError>,
)
    requires
        state_diff_valid(diff@),
        call_ensures(<StateDiff<u64> as RustType<ProtoStateDiff>>::into_proto, (&diff,), proto),
        call_ensures(<StateDiff<u64> as RustType<ProtoStateDiff>>::from_proto, (proto,), read),
    ensures
        read matches Ok(again) && again@ == diff@,
{
}

/// Later code is refused, and no other.
pub proof fn lemma_later_code_is_refused(
    build_version: Version,
    applier_version: Version,
    checked: Result<(), String>,
)
    requires
        call_ensures(check_applier_version, (&build_version, &applier_version), checked),
    ensures
        checked is Err <==> semver_less(build_version@, applier_version@),
{
}

/// A batch that is sent is got back, with its shard.
pub proof fn lemma_batch_is_sent(
    batch: WriterEnrichedHollowBatch<u64>,
    sent: SerdeWriterEnrichedHollowBatch,
    got: Result<WriterEnrichedHollowBatch<u64>, String>,
)
    requires
        batch.batch@.desc.lower.len() == 1,
        batch.batch@.desc.upper.len() <= 1,
        batch.batch@.desc.since.len() <= 1,
        call_ensures(SerdeWriterEnrichedHollowBatch::from, (batch,), sent),
        call_ensures(WriterEnrichedHollowBatch::<u64>::from, (sent,), got),
    ensures
        got matches Ok(again) && again.shard_id == batch.shard_id && again.batch@ == batch.batch@,
{
}

/// The id of a shard that is written as text is read from it.
pub proof fn lemma_shard_id_is_read_back(
    id: ShardId,
    text: String,
    encoded: &str,
    read: Result<ShardId, String>,
)
    requires
        call_ensures(ShardId::to_string, (&id,), text),
        encoded@ == text@,
        call_ensures(ShardId::from_str, (encoded,), read),
    ensures
        text@.len() > 0 && text@[0] == 's',
        read matches Ok(again) && again@ == id@,
{
}

/// The id of a reader with a lease that is written as text is read from it.
pub proof fn lemma_leased_reader_id_is_read_back(
    id: LeasedReaderId,
    text: String,
    encoded: &str,
    read: Result<LeasedReaderId, String>,
)
    requires
        call_ensures(LeasedReaderId::to_string, (&id,), text),
        encoded@ == text@,
        call_ensures(LeasedReaderId::from_str, (encoded,), read),
    ensures
        text@.len() > 0 && text@[0] == 'r',
        read matches Ok(again) && again@ == id@,
{
}

/// The id of a critical reader that is written as text is read from it.
pub proof fn lemma_critical_reader_id_is_read_back(
    id: CriticalReaderId,
    text: String,
    encoded: &str,
    read: Result<CriticalReaderId, String>,
)
    requires
        call_ensures(CriticalReaderId::to_string, (&id,), text),
        encoded@ == text@,
        call_ensures(CriticalReaderId::from_str, (encoded,), read),
    ensures
        text@.len() > 0 && text@[0] == 'c',
        read matches Ok(again) && again@ == id@,
{
}

/// The id of a writer that is written as text is read from it.
pub proof fn lemma_writer_id_is_read_back(
    id: WriterId,
    text: String,
    encoded: &str,
    read: Result<WriterId, String>,
)
    requires
        call_ensures(WriterId::to_string, (&id,), text),
        encoded@ == text@,
        call_ensures(WriterId::from_str, (encoded,), read),
    ensures
        text@.len() > 0 && text@[0] == 'w',
        read matches Ok(again) && again@ == id@,
{
}

/// A token that is written as text is read from it.
pub proof fn lemma_token_is_read_back(
    token: IdempotencyToken,
    text: String,
    encoded: &str,
    read: Result<IdempotencyToken, String>,
)
    requires
        call_ensures(IdempotencyToken::to_string, (&token,), text),
        encoded@ == text@,
        call_ensures(IdempotencyToken::from_str, (encoded,), read),
    ensures
        text@.len() > 0 && text@[0] == 'i',
        read matches Ok(again) && again@ == token@,
{
}

/// A batch is read from a message with its length, its keys and their sizes, and only if it has all
/// its frontiers and the lower one is not empty.
pub proof fn lemma_batch_comes_from_its_message(
    proto: ProtoHollowBatch,
    read: Result<HollowBatch<u64>, TryFromProtoError>,
)
    requires
        call_ensures(<HollowBatch<u64> as RustType<ProtoHollowBatch>>::from_proto, (proto,), read),
    ensures
        read matches Ok(batch) ==> {
            let parts = proto@.parts;
            let keys = proto@.deprecated_keys;
            &&& proto@.desc matches Some(desc)
            &&& desc.lower is Some && desc.upper is Some && desc.since is Some
            &&& desc.lower->Some_0.elements.len() > 0
            &&& is_frontier(desc.lower->Some_0, batch.desc@.lower)
            &&& is_frontier(desc.upper->Some_0, batch.desc@.upper)
            &&& is_frontier(desc.since->Some_0, batch.desc@.since)
            &&& batch.len == proto.len
            &&& batch.parts@.len() == parts.len() + keys.len()
            &&& forall|i: int|
                0 <= i < parts.len() ==> (#[trigger] batch.parts@[i]).key@ == parts[i].key
                    && batch.parts@[i].encoded_size_bytes == parts[i].encoded_size_bytes
        },
{
    lemma_batch_is_read(proto@);
    if let Some(desc) = proto@.desc {
        lemma_description_is_read(
            desc,
            DescriptionView {
                lower: Seq::empty(),
                upper: Seq::empty(),
                since: Seq::empty(),
            },
        );
    }
    if let Ok(batch) = read {
        let held = batch@;
        assert(held.parts.len() == batch.parts@.len());
        assert forall|i: int| 0 <= i < proto@.parts.len() implies (
        #[trigger] batch.parts@[i]).key@ == proto@.parts[i].key
            && batch.parts@[i].encoded_size_bytes == proto@.parts[i].encoded_size_bytes by {
            assert(held.parts[i] == batch.parts@[i]@);
        }
    }
}

/// Batches are kept in the order in which they were added, and a trace starts without any. The
/// frontier of a trace is the one it was given last.
pub proof fn lemma_trace_keeps_batches(
    fresh: Trace<u64>,
    trace: &mut Trace<u64>,
    other: &mut Trace<u64>,
    batch: HollowBatch<u64>,
    since: Antichain<u64>,
)
    requires
        call_ensures(Trace::<u64>::new, (), fresh),
        call_ensures(Trace::<u64>::push_batch, (trace, batch), ()),
        call_ensures(Trace::<u64>::downgrade_since, (other, &since), ()),
    ensures
        fresh@.batches.len() == 0,
        fresh@.since == seq![0u64],
        final(trace)@.batches == old(trace)@.batches.push(batch@),
        final(trace)@.since == old(trace)@.since,
        final(other)@.batches == old(other)@.batches,
        final(other)@.since == antichain_elements(since),
{
}

} // verus!
