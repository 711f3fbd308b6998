//! What the state of a shard is for: what is read of it, by whom, and what keeps it from being
//! read.

use vstd::prelude::*;

use crate::persist::batch::SeqNo;
use crate::persist::codec::{Codec, Codec64};
use crate::persist::error::{error_text, CodecsView, TryFromProtoErrorView};
use crate::persist::handle::{
    critical_reader_of, critical_reader_proto, leased_reader_of, leased_reader_proto, writer_of,
    writer_proto,
};
use crate::persist::ids::{id_of, id_text, CriticalReaderId, LeasedReaderId, WriterId};
use crate::persist::ordered::{
    entries_before, lemma_be_value_order, lemma_entries_before, lemma_with_key_sorted, sorted,
    with_key, Ranked,
};
use crate::persist::proto::rollup::{
    ProtoKeyedView, ProtoRollupView, ProtoStateRollup, ProtoStateRollupView,
};
use crate::persist::state::{
    codec_names, contents_of, fresh_state, keyed_of, read_critical_reader, read_leased_reader,
    read_writer, rollups_of, state_decoded, state_of, state_proto, StateErrorView, StateView,
};
use crate::persist::trace::{trace_of, trace_proto, TraceView};
use crate::persist::version::{applier_version_of, semver_less, version_text, VersionView};
use crate::proto::message::decoded;

verus! {

/// Whether the four codecs of a message are the ones asked for.
pub open spec fn codecs_agree(codecs: CodecsView, proto: ProtoStateRollupView) -> bool {
    &&& codecs.0 == proto.key_codec
    &&& codecs.1 == proto.val_codec
    &&& codecs.2 == proto.ts_codec
    &&& codecs.3 == proto.diff_codec
}

/// A state is read only if its keys, values, times and diffs were each written with the codec asked
/// for. If any one of the four differs, that is the answer, with all four codecs asked for and all
/// four that it was written with, whatever else is in the message.
pub proof fn lemma_codecs_must_agree(codecs: CodecsView, proto: ProtoStateRollupView)
    ensures
        codecs_agree(codecs, proto) ==> !(state_of(codecs, proto) matches Ok(Err(_))),
        !codecs_agree(codecs, proto) ==> {
            &&& state_of(codecs, proto) matches Ok(Err(mismatch))
            &&& mismatch.requested == codecs
            &&& mismatch.actual.0 == proto.key_codec
            &&& mismatch.actual.1 == proto.val_codec
            &&& mismatch.actual.2 == proto.ts_codec
            &&& mismatch.actual.3 == proto.diff_codec
        },
        state_of(codecs, proto) matches Ok(Ok(_)) ==> codecs_agree(codecs, proto),
{
}

/// What was written with other codecs is not decoded, by code of any version, and what is decoded
/// was written with the codecs asked for, and not by later code. Later code is told by its version.
pub proof fn lemma_decoding_is_guarded(
    codecs: CodecsView,
    build_version: VersionView,
    buf: Seq<u8>,
)
    ensures
        match decoded::<ProtoStateRollup>(buf) {
            None => state_decoded(codecs, build_version, buf) matches Err(
                StateErrorView::Invalid(_),
            ),
            Some(proto) => {
                let r = state_decoded(codecs, build_version, buf);
                &&& !codecs_agree(codecs, proto) ==> {
                    &&& r matches Err(StateErrorView::CodecMismatch(mismatch))
                    &&& mismatch.requested == codecs
                    &&& mismatch.actual.0 == proto.key_codec
                    &&& mismatch.actual.1 == proto.val_codec
                    &&& mismatch.actual.2 == proto.ts_codec
                    &&& mismatch.actual.3 == proto.diff_codec
                }
                &&& r matches Ok(state) ==> {
                    &&& codecs_agree(codecs, proto)
                    &&& !semver_less(build_version, state.applier_version)
                    &&& contents_of(proto) == Ok::<StateView, TryFromProtoErrorView>(state)
                }
                &&& codecs_agree(codecs, proto) ==> match contents_of(proto) {
                    Ok(state) => if semver_less(build_version, state.applier_version) {
                        r == Err::<StateView, _>(
                            StateErrorView::FromFuture(
                                version_text(build_version)
                                    + " received persist state from the future "@ + version_text(
                                    state.applier_version,
                                ),
                            ),
                        )
                    } else {
                        r == Ok::<StateView, StateErrorView>(state)
                    },
                    Err(_) => r matches Err(StateErrorView::Invalid(_)),
                }
            },
        },
{
    lemma_codecs_must_agree(codecs, proto_or_blank(buf));
}

spec fn proto_or_blank(buf: Seq<u8>) -> ProtoStateRollupView {
    decoded::<ProtoStateRollup>(buf)->Some_0
}

/// A shard is asked for with the codecs of its keys, its values, its times and its diffs, each in
/// its own place.
pub proof fn lemma_codecs_are_asked_for<K: Codec, V: Codec, T: Codec64, D: Codec64>()
    ensures
        ({
            let codecs = codec_names::<K, V, T, D>();
            &&& codecs.0 == K::name()
            &&& codecs.1 == V::name()
            &&& codecs.2 == T::name()
            &&& codecs.3 == D::name()
        }),
        <u64 as Codec64>::name() == "u64"@,
        <i64 as Codec64>::name() == "i64"@,
        <() as Codec>::name() == "()"@,
{
}

/// Nothing is stored as no bytes, and only no bytes are read as nothing.
pub proof fn lemma_nothing_is_stored(buf: Seq<u8>)
    ensures
        <() as Codec>::bytes(()).len() == 0,
        <() as Codec>::value_of(buf) is Ok <==> buf.len() == 0,
{
}

/// Of all that can be wrong with a message, the first is reported: the version, then the readers
/// with a lease, the critical readers, the writers, the batches, and the shard.
pub proof fn lemma_first_error_is_reported(proto: ProtoStateRollupView)
    ensures
        ({
            let read = contents_of(proto);
            let leased = keyed_of::<LeasedReaderId, _, _>(
                'r',
                proto.leased_readers,
                read_leased_reader(),
            );
            let critical = keyed_of::<CriticalReaderId, _, _>(
                'c',
                proto.critical_readers,
                read_critical_reader(),
            );
            let writers = keyed_of::<WriterId, _, _>('w', proto.writers, read_writer());
            let version = applier_version_of(proto.applier_version);
            let good = version is Ok && leased is Ok && critical is Ok && writers is Ok;
            &&& version matches Err(err) ==> read == Err::<StateView, _>(err)
            &&& leased matches Err(err) ==> version is Ok ==> read == Err::<StateView, _>(err)
            &&& critical matches Err(err) ==> version is Ok && leased is Ok ==> read == Err::<
                StateView,
                _,
            >(err)
            &&& writers matches Err(err) ==> version is Ok && leased is Ok && critical is Ok
                ==> read == Err::<StateView, _>(err)
            &&& good && proto.trace is None ==> read == Err::<StateView, _>(
                TryFromProtoErrorView::MissingField("trace"@),
            )
            &&& proto.trace matches Some(trace) ==> trace_of(trace) matches Err(err) ==> good
                ==> read == Err::<StateView, _>(err)
            &&& proto.trace matches Some(trace) ==> id_of('s', proto.shard_id) matches Err(err)
                ==> good && trace_of(trace) is Ok ==> read == Err::<StateView, _>(err)
        }),
{
}

/// What cannot be decoded is told by the first thing that is wrong with it, in words.
pub proof fn lemma_errors_are_told(codecs: CodecsView, build_version: VersionView, buf: Seq<u8>)
    ensures
        match decoded::<ProtoStateRollup>(buf) {
            None => state_decoded(codecs, build_version, buf) == Err::<StateView, _>(
                StateErrorView::Invalid("failed to decode Protobuf message"@),
            ),
            Some(proto) => contents_of(proto) matches Err(err) ==> codecs_agree(codecs, proto)
                ==> state_decoded(codecs, build_version, buf) == Err::<StateView, _>(
                StateErrorView::Invalid(error_text(err)),
            ),
        },
{
}

/// A shard that nothing has been written to is in its first state, with the given version, host and
/// id. It has no rollups, readers, writers or batches, and all times are told apart.
pub proof fn lemma_fresh_state(version: VersionView, hostname: Seq<char>, shard_id: Seq<u8>)
    ensures
        ({
            let state = fresh_state(version, hostname, shard_id);
            &&& state.applier_version == version
            &&& state.hostname == hostname
            &&& state.shard_id == shard_id
            &&& state.seqno == 0
            &&& state.last_gc_req == 0
            &&& state.rollups.len() == 0
            &&& state.leased_readers.len() == 0
            &&& state.critical_readers.len() == 0
            &&& state.writers.len() == 0
            &&& state.trace.batches.len() == 0
            &&& state.trace.since == seq![0u64]
        }),
{
}

/// States are ordered by number, and readers and writers by their ids: the first byte in which two
/// ids differ decides.
pub proof fn lemma_keys_are_ordered(x: u64, y: u64, a: Seq<u8>, b: Seq<u8>, first: int)
    requires
        a.len() == b.len(),
        0 <= first < a.len(),
        a.take(first) == b.take(first),
        a[first] < b[first],
    ensures
        SeqNo::rank(x) < SeqNo::rank(y) <==> x < y,
        LeasedReaderId::rank(a) < LeasedReaderId::rank(b),
        CriticalReaderId::rank(a) < CriticalReaderId::rank(b),
        WriterId::rank(a) < WriterId::rank(b),
{
    lemma_be_value_order(a, b, first);
}

/// The value that entries have for a key, if they have one.
pub open spec fn has_entry<A, W>(entries: Seq<(A, W)>, key: A, value: W) -> bool {
    exists|i: int| 0 <= i < entries.len() && #[trigger] entries[i] == (key, value)
}

/// Whether entries have a key.
pub open spec fn has_key<A, W>(entries: Seq<(A, W)>, key: A) -> bool {
    exists|i: int| 0 <= i < entries.len() && (#[trigger] entries[i]).0 == key
}

/// An entry that is inserted is there with its value, and replaces the one with its key; all other
/// entries stay, and no other entry comes.
pub proof fn lemma_insertion<K: Ranked, W>(entries: Seq<(K::V, W)>, key: K::V, value: W)
    requires
        sorted::<K, W>(entries),
        forall|a: K::V, b: K::V|
            #![trigger K::rank(a), K::rank(b)]
            (has_key(entries, a) || a == key) && (has_key(entries, b) || b == key) && K::rank(a)
                == K::rank(b) ==> a == b,
    ensures
        ({
            let after = with_key::<K, W>(entries, key, value);
            &&& sorted::<K, W>(after)
            &&& forall|k: K::V, v: W|
                #![trigger has_entry(after, k, v)]
                #![trigger has_entry(entries, k, v)]
                has_entry(after, k, v) <==> if k == key {
                    v == value
                } else {
                    has_entry(entries, k, v)
                }
        }),
{
    lemma_with_key_sorted::<K, W>(entries, key, value);
    lemma_entries_before::<K, W>(entries, key);
    let after = with_key::<K, W>(entries, key, value);
    let place = entries_before::<K, W>(entries, key) as int;
    let replaced = place < entries.len() && K::rank(entries[place].0) == K::rank(key);
    assert(after[place] == (key, value));
    if replaced {
        assert(has_key(entries, entries[place].0));
        assert(entries[place].0 == key);
    }
    assert forall|k: K::V, v: W|
        #![trigger has_entry(after, k, v)]
        #![trigger has_entry(entries, k, v)]
        has_entry(after, k, v) <==> if k == key {
            v == value
        } else {
            has_entry(entries, k, v)
        } by {
        if has_entry(after, k, v) {
            let i = choose|i: int| 0 <= i < after.len() && #[trigger] after[i] == (k, v);
            if i != place {
                if replaced {
                    assert(entries[i] == (k, v));
                } else if i < place {
                    assert(entries[i] == (k, v));
                } else {
                    assert(entries[i - 1] == (k, v));
                }
                if k == key {
                    assert(K::rank(after[i].0) == K::rank(after[place].0));
                    if i < place {
                        assert(K::rank(after[i].0) < K::rank(after[place].0));
                    } else {
                        assert(K::rank(after[place].0) < K::rank(after[i].0));
                    }
                }
            }
        }
        if k != key && has_entry(entries, k, v) {
            let i = choose|i: int| 0 <= i < entries.len() && #[trigger] entries[i] == (k, v);
            if replaced {
                assert(i != place);
                assert(after[i] == (k, v));
            } else if i < place {
                assert(after[i] == (k, v));
            } else {
                assert(after[i + 1] == (k, v));
            }
        }
        if k == key && v == value {
            assert(after[place] == (k, v));
        }
    }
}

/// Whether the last of some rollups of a message with a number has a key.
pub open spec fn last_rollup(protos: Seq<ProtoRollupView>, seqno: u64, key: Seq<char>) -> bool {
    exists|i: int|
        0 <= i < protos.len() && (#[trigger] protos[i]).seqno == seqno && protos[i].key == key
            && forall|j: int| i < j < protos.len() ==> (#[trigger] protos[j]).seqno != seqno
}

/// The rollups of a state are those of its message, in the order of their numbers: where a number
/// occurs more than once, the last one counts.
pub proof fn lemma_rollups_are_read(protos: Seq<ProtoRollupView>)
    ensures
        sorted::<SeqNo, Seq<char>>(rollups_of(protos)),
        forall|seqno: u64, key: Seq<char>| #[trigger]
            has_entry(rollups_of(protos), seqno, key) <==> last_rollup(protos, seqno, key),
    decreases protos.len(),
{
    if protos.len() > 0 {
        let front = protos.drop_last();
        let last = protos.last();
        lemma_rollups_are_read(front);
        lemma_insertion::<SeqNo, Seq<char>>(rollups_of(front), last.seqno, last.key);
        assert forall|seqno: u64, key: Seq<char>| #[trigger]
            has_entry(rollups_of(protos), seqno, key) <==> last_rollup(protos, seqno, key) by {
            assert(has_entry(rollups_of(front), seqno, key) <==> last_rollup(front, seqno, key));
            let n = protos.len() - 1;
            assert(protos[n] == last);
            if seqno == last.seqno {
                if key == last.key {
                    assert(last_rollup(protos, seqno, key));
                }
                if last_rollup(protos, seqno, key) {
                    let i = choose|i: int|
                        0 <= i < protos.len() && (#[trigger] protos[i]).seqno == seqno
                            && protos[i].key == key && forall|j: int|
                            i < j < protos.len() ==> (#[trigger] protos[j]).seqno != seqno;
                    if i < n {
                        assert(protos[n].seqno != seqno);
                    }
                }
            } else {
                if last_rollup(front, seqno, key) {
                    let i = choose|i: int|
                        0 <= i < front.len() && (#[trigger] front[i]).seqno == seqno
                            && front[i].key == key && forall|j: int|
                            i < j < front.len() ==> (#[trigger] front[j]).seqno != seqno;
                    assert(protos[i].seqno == seqno);
                    assert forall|j: int| i < j < protos.len() implies (
                    #[trigger] protos[j]).seqno != seqno by {
                        if j < n {
                            assert(front[j] == protos[j]);
                        }
                    }
                }
                if last_rollup(protos, seqno, key) {
                    let i = choose|i: int|
                        0 <= i < protos.len() && (#[trigger] protos[i]).seqno == seqno
                            && protos[i].key == key && forall|j: int|
                            i < j < protos.len() ==> (#[trigger] protos[j]).seqno != seqno;
                    assert(front[i] == protos[i]);
                    assert forall|j: int| i < j < front.len() implies (
                    #[trigger] front[j]).seqno != seqno by {
                        assert(protos[j] == front[j]);
                    }
                }
            }
        }
    }
}

/// A state holds what its message says, each part from its own place: the numbers and the host as
/// they are, the shard by its id, and the version, the readers, the writers and the batches as they
/// are read. It is read exactly if all of these can be.
pub proof fn lemma_state_is_read(proto: ProtoStateRollupView)
    ensures
        contents_of(proto) is Ok <==> {
            &&& applier_version_of(proto.applier_version) is Ok
            &&& keyed_of::<LeasedReaderId, _, _>(
                'r',
                proto.leased_readers,
                read_leased_reader(),
            ) is Ok
            &&& keyed_of::<CriticalReaderId, _, _>(
                'c',
                proto.critical_readers,
                read_critical_reader(),
            ) is Ok
            &&& keyed_of::<WriterId, _, _>('w', proto.writers, read_writer()) is Ok
            &&& proto.trace is Some
            &&& trace_of(proto.trace->Some_0) is Ok
            &&& id_of('s', proto.shard_id) is Ok
        },
        contents_of(proto) matches Ok(state) ==> {
            &&& state.seqno == proto.seqno
            &&& state.hostname == proto.hostname
            &&& state.last_gc_req == proto.last_gc_req
            &&& id_of('s', proto.shard_id) == Ok::<Seq<u8>, TryFromProtoErrorView>(state.shard_id)
            &&& applier_version_of(proto.applier_version) == Ok::<
                VersionView,
                TryFromProtoErrorView,
            >(state.applier_version)
            &&& trace_of(proto.trace->Some_0) == Ok::<TraceView, TryFromProtoErrorView>(state.trace)
            &&& forall|seqno: u64, key: Seq<char>| #[trigger]
                has_entry(state.rollups, seqno, key) <==> last_rollup(proto.rollups, seqno, key)
            &&& keyed_of::<LeasedReaderId, _, _>(
                'r',
                proto.leased_readers,
                read_leased_reader(),
            ) matches Ok(leased_readers) && leased_readers == state.leased_readers
            &&& keyed_of::<CriticalReaderId, _, _>(
                'c',
                proto.critical_readers,
                read_critical_reader(),
            ) matches Ok(critical_readers) && critical_readers == state.critical_readers
            &&& keyed_of::<WriterId, _, _>(
                'w',
                proto.writers,
                read_writer(),
            ) matches Ok(writers) && writers == state.writers
        },
{
    lemma_rollups_are_read(proto.rollups);
}

/// Of the entries whose id or state cannot be read, the first is told, by its id if that is wrong.
pub proof fn lemma_first_bad_entry_is_told<K: Ranked<V = Seq<u8>>, P, W>(
    prefix: char,
    protos: Seq<ProtoKeyedView<P>>,
    read: spec_fn(P) -> Result<W, TryFromProtoErrorView>,
    k: int,
)
    requires
        0 <= k < protos.len(),
        forall|i: int|
            0 <= i < k ==> id_of(prefix, (#[trigger] protos[i]).id) is Ok && read(
                protos[i].state,
            ) is Ok,
        id_of(prefix, protos[k].id) is Err || read(protos[k].state) is Err,
    ensures
        keyed_of::<K, P, W>(prefix, protos, read) == Err::<Seq<(Seq<u8>, W)>, _>(
            match id_of(prefix, protos[k].id) {
                Err(err) => err,
                Ok(_) => read(protos[k].state)->Err_0,
            },
        ),
    decreases protos.len(),
{
    let front = protos.drop_last();
    assert forall|i: int| 0 <= i < k && i < front.len() implies id_of(
        prefix,
        (#[trigger] front[i]).id,
    ) is Ok && read(front[i].state) is Ok by {
        assert(id_of(prefix, protos[i].id) is Ok);
    }
    if k == protos.len() - 1 {
        lemma_good_entries::<K, P, W>(prefix, front, read);
    } else {
        lemma_first_bad_entry_is_told::<K, P, W>(prefix, front, read, k);
    }
}

proof fn lemma_good_entries<K: Ranked<V = Seq<u8>>, P, W>(
    prefix: char,
    protos: Seq<ProtoKeyedView<P>>,
    read: spec_fn(P) -> Result<W, TryFromProtoErrorView>,
)
    requires
        forall|i: int|
            0 <= i < protos.len() ==> id_of(prefix, (#[trigger] protos[i]).id) is Ok && read(
                protos[i].state,
            ) is Ok,
    ensures
        keyed_of::<K, P, W>(prefix, protos, read) is Ok,
    decreases protos.len(),
{
    if protos.len() > 0 {
        let front = protos.drop_last();
        assert forall|i: int| 0 <= i < front.len() implies id_of(
            prefix,
            (#[trigger] front[i]).id,
        ) is Ok && read(front[i].state) is Ok by {
            assert(id_of(prefix, protos[i].id) is Ok);
        }
        lemma_good_entries::<K, P, W>(prefix, front, read);
        assert(id_of(prefix, protos[protos.len() - 1].id) is Ok);
    }
}

/// A state is written with the codecs asked for and field by field: the numbers and the host as
/// they are, the shard, its readers and its writers under their ids, and its batches.
pub proof fn lemma_state_is_written(codecs: CodecsView, state: StateView)
    ensures
        ({
            let proto = state_proto(codecs, state);
            &&& codecs_agree(codecs, proto)
            &&& proto.applier_version == version_text(state.applier_version)
            &&& proto.shard_id == id_text('s', state.shard_id)
            &&& proto.seqno == state.seqno
            &&& proto.hostname == state.hostname
            &&& proto.last_gc_req == state.last_gc_req
            &&& proto.rollups.len() == state.rollups.len()
            &&& forall|i: int|
                0 <= i < state.rollups.len() ==> (#[trigger] proto.rollups[i]).seqno
                    == state.rollups[i].0 && proto.rollups[i].key == state.rollups[i].1
            &&& proto.leased_readers.len() == state.leased_readers.len()
            &&& forall|i: int|
                0 <= i < state.leased_readers.len() ==> (#[trigger] proto.leased_readers[i]).id
                    == id_text('r', state.leased_readers[i].0) && proto.leased_readers[i].state
                    == leased_reader_proto(state.leased_readers[i].1)
            &&& proto.critical_readers.len() == state.critical_readers.len()
            &&& forall|i: int|
                0 <= i < state.critical_readers.len() ==> (#[trigger] proto.critical_readers[i]).id
                    == id_text('c', state.critical_readers[i].0) && proto.critical_readers[i].state
                    == critical_reader_proto(state.critical_readers[i].1)
            &&& proto.writers.len() == state.writers.len()
            &&& forall|i: int|
                0 <= i < state.writers.len() ==> (#[trigger] proto.writers[i]).id == id_text(
                    'w',
                    state.writers[i].0,
                ) && proto.writers[i].state == writer_proto(state.writers[i].1)
            &&& proto.trace == Some(trace_proto(state.trace))
        }),
{
}

/// Whether the last of some entries of a message with an id has a state, as both are read.
pub open spec fn last_keyed<P, W>(
    prefix: char,
    protos: Seq<ProtoKeyedView<P>>,
    state_of: spec_fn(P) -> Result<W, TryFromProtoErrorView>,
    id: Seq<u8>,
    state: W,
) -> bool {
    exists|i: int|
        0 <= i < protos.len() && id_of(prefix, (#[trigger] protos[i]).id) == Ok::<
            Seq<u8>,
            TryFromProtoErrorView,
        >(id) && state_of(protos[i].state) == Ok::<W, TryFromProtoErrorView>(state) && forall|
            j: int,
        |
            i < j < protos.len() ==> id_of(prefix, (#[trigger] protos[j]).id) != Ok::<
                Seq<u8>,
                TryFromProtoErrorView,
            >(id)
}

/// Entries with ids are read exactly if each id and each state is; each is then there under its id,
/// where the last one counts if an id occurs more than once, and there is no other entry.
pub proof fn lemma_keyed_are_read<K: Ranked<V = Seq<u8>>, P, W>(
    prefix: char,
    protos: Seq<ProtoKeyedView<P>>,
    state_of: spec_fn(P) -> Result<W, TryFromProtoErrorView>,
)
    requires
        forall|i: int, j: int, a: Seq<u8>, b: Seq<u8>|
            0 <= i < protos.len() && 0 <= j < protos.len() && id_of(
                prefix,
                (#[trigger] protos[i]).id,
            ) == Ok::<Seq<u8>, TryFromProtoErrorView>(a) && id_of(
                prefix,
                (#[trigger] protos[j]).id,
            ) == Ok::<Seq<u8>, TryFromProtoErrorView>(b) && #[trigger] K::rank(
                a,
            ) == #[trigger] K::rank(b) ==> a == b,
    ensures
        keyed_of::<K, P, W>(prefix, protos, state_of) is Ok <==> forall|i: int|
            0 <= i < protos.len() ==> id_of(prefix, (#[trigger] protos[i]).id) is Ok && state_of(
                protos[i].state,
            ) is Ok,
        keyed_of::<K, P, W>(prefix, protos, state_of) matches Ok(entries) ==> {
            &&& sorted::<K, W>(entries)
            &&& forall|id: Seq<u8>, state: W| #[trigger]
                has_entry(entries, id, state) <==> last_keyed(prefix, protos, state_of, id, state)
        },
    decreases protos.len(),
{
    if protos.len() > 0 {
        let front = protos.drop_last();
        let last = protos.last();
        let n = protos.len() - 1;
        assert(protos[n] == last);
        assert(forall|i: int| 0 <= i < front.len() ==> front[i] == #[trigger] protos[i]);
        lemma_keyed_are_read::<K, P, W>(prefix, front, state_of);
        let fine = forall|i: int|
            0 <= i < protos.len() ==> id_of(prefix, (#[trigger] protos[i]).id) is Ok && state_of(
                protos[i].state,
            ) is Ok;
        if fine {
            assert forall|i: int| 0 <= i < front.len() implies id_of(
                prefix,
                (#[trigger] front[i]).id,
            ) is Ok && state_of(front[i].state) is Ok by {
                assert(id_of(prefix, protos[i].id) is Ok);
            }
            assert(id_of(prefix, protos[n].id) is Ok && state_of(protos[n].state) is Ok);
        }
        if let Ok(entries) = keyed_of::<K, P, W>(prefix, protos, state_of) {
            let before = keyed_of::<K, P, W>(prefix, front, state_of)->Ok_0;
            let id = id_of(prefix, last.id)->Ok_0;
            let state = state_of(last.state)->Ok_0;
            assert forall|i: int| 0 <= i < protos.len() implies id_of(
                prefix,
                (#[trigger] protos[i]).id,
            ) is Ok && state_of(protos[i].state) is Ok by {
                if i < n {
                    assert(id_of(prefix, front[i].id) is Ok);
                }
            }
            assert forall|a: Seq<u8>, b: Seq<u8>|
                #![trigger K::rank(a), K::rank(b)]
                (has_key(before, a) || a == id) && (has_key(before, b) || b == id) && K::rank(a)
                    == K::rank(b) implies a == b by {
                let i = lemma_key_is_read::<P, W>(prefix, protos, state_of, before, a, id);
                let j = lemma_key_is_read::<P, W>(prefix, protos, state_of, before, b, id);
                assert(id_of(prefix, protos[i].id) == Ok::<Seq<u8>, TryFromProtoErrorView>(a));
                assert(id_of(prefix, protos[j].id) == Ok::<Seq<u8>, TryFromProtoErrorView>(b));
            }
            lemma_insertion::<K, W>(before, id, state);
            assert forall|k: Seq<u8>, v: W| #[trigger]
                has_entry(entries, k, v) <==> last_keyed(prefix, protos, state_of, k, v) by {
                assert(has_entry(before, k, v) <==> last_keyed(prefix, front, state_of, k, v));
                lemma_last_keyed(prefix, protos, state_of, k, v);
            }
        }
    }
}

proof fn lemma_key_is_read<P, W>(
    prefix: char,
    protos: Seq<ProtoKeyedView<P>>,
    state_of: spec_fn(P) -> Result<W, TryFromProtoErrorView>,
    before: Seq<(Seq<u8>, W)>,
    key: Seq<u8>,
    id: Seq<u8>,
) -> (i: int)
    requires
        protos.len() > 0,
        has_key(before, key) || key == id,
        id_of(prefix, protos.last().id) == Ok::<Seq<u8>, TryFromProtoErrorView>(id),
        forall|k: Seq<u8>, v: W| #[trigger]
            has_entry(before, k, v) ==> last_keyed(prefix, protos.drop_last(), state_of, k, v),
    ensures
        0 <= i < protos.len(),
        id_of(prefix, protos[i].id) == Ok::<Seq<u8>, TryFromProtoErrorView>(key),
{
    if key == id {
        protos.len() - 1
    } else {
        let i = choose|i: int| 0 <= i < before.len() && (#[trigger] before[i]).0 == key;
        assert(has_entry(before, key, before[i].1));
        let front = protos.drop_last();
        let j = choose|j: int|
            0 <= j < front.len() && id_of(prefix, (#[trigger] front[j]).id) == Ok::<
                Seq<u8>,
                TryFromProtoErrorView,
            >(key) && state_of(front[j].state) == Ok::<W, TryFromProtoErrorView>(before[i].1)
                && forall|l: int|
                j < l < front.len() ==> id_of(prefix, (#[trigger] front[l]).id) != Ok::<
                    Seq<u8>,
                    TryFromProtoErrorView,
                >(key);
        assert(front[j] == protos[j]);
        j
    }
}

proof fn lemma_last_keyed<P, W>(
    prefix: char,
    protos: Seq<ProtoKeyedView<P>>,
    state_of: spec_fn(P) -> Result<W, TryFromProtoErrorView>,
    k: Seq<u8>,
    v: W,
)
    requires
        protos.len() > 0,
        id_of(prefix, protos.last().id) is Ok,
        state_of(protos.last().state) is Ok,
    ensures
        last_keyed(prefix, protos, state_of, k, v) <==> if id_of(prefix, protos.last().id) == Ok::<
            Seq<u8>,
            TryFromProtoErrorView,
        >(k) {
            state_of(protos.last().state) == Ok::<W, TryFromProtoErrorView>(v)
        } else {
            last_keyed(prefix, protos.drop_last(), state_of, k, v)
        },
{
    let front = protos.drop_last();
    let n = protos.len() - 1;
    let last = protos[n];
    assert(last == protos.last());
    if last_keyed(prefix, protos, state_of, k, v) {
        let i = choose|i: int|
            0 <= i < protos.len() && id_of(prefix, (#[trigger] protos[i]).id) == Ok::<
                Seq<u8>,
                TryFromProtoErrorView,
            >(k) && state_of(protos[i].state) == Ok::<W, TryFromProtoErrorView>(v) && forall|j: int|
                i < j < protos.len() ==> id_of(prefix, (#[trigger] protos[j]).id) != Ok::<
                    Seq<u8>,
                    TryFromProtoErrorView,
                >(k);
        if i < n {
            assert(id_of(prefix, protos[n].id) != Ok::<Seq<u8>, TryFromProtoErrorView>(k));
            assert(front[i] == protos[i]);
            assert forall|j: int| i < j < front.len() implies id_of(
                prefix,
                (#[trigger] front[j]).id,
            ) != Ok::<Seq<u8>, TryFromProtoErrorView>(k) by {
                assert(front[j] == protos[j]);
            }
        }
    }
    if id_of(prefix, last.id) != Ok::<Seq<u8>, TryFromProtoErrorView>(k) && last_keyed(
        prefix,
        front,
        state_of,
        k,
        v,
    ) {
        let i = choose|i: int|
            0 <= i < front.len() && id_of(prefix, (#[trigger] front[i]).id) == Ok::<
                Seq<u8>,
                TryFromProtoErrorView,
            >(k) && state_of(front[i].state) == Ok::<W, TryFromProtoErrorView>(v) && forall|j: int|
                i < j < front.len() ==> id_of(prefix, (#[trigger] front[j]).id) != Ok::<
                    Seq<u8>,
                    TryFromProtoErrorView,
                >(k);
        assert(protos[i] == front[i]);
        assert forall|j: int| i < j < protos.len() implies id_of(
            prefix,
            (#[trigger] protos[j]).id,
        ) != Ok::<Seq<u8>, TryFromProtoErrorView>(k) by {
            if j < n {
                assert(front[j] == protos[j]);
            }
        }
    }
}

/// How readers and writers are read from a message: each as its own kind.
pub proof fn lemma_kinds_are_read()
    ensures
        forall|proto| #[trigger] read_leased_reader()(proto) == leased_reader_of(proto),
        forall|proto| #[trigger] read_critical_reader()(proto) == critical_reader_of(proto),
        forall|proto| #[trigger] read_writer()(proto) == writer_of(proto),
{
}

} // verus!
