//! The state of a shard.

use std::marker::PhantomData;

use vstd::prelude::*;

use crate::persist::batch::{PartialRollupKey, SeqNo};
use crate::persist::codec::{Codec, Codec64};
use crate::persist::error::{
    codecs_view, error_text, mismatch_text, result_view, CodecMismatch, CodecMismatchView, Codecs,
    CodecsView, RustType, TryFromProtoError, TryFromProtoErrorView,
};
use crate::persist::handle::{
    critical_reader_of, critical_reader_proto, critical_reader_valid, leased_reader_of,
    leased_reader_proto, leased_reader_valid, lemma_critical_reader_round_trip,
    lemma_leased_reader_round_trip, writer_of, writer_proto, writer_valid, CriticalReaderState,
    CriticalReaderStateView, LeasedReaderState, LeasedReaderStateView, WriterState,
    WriterStateView,
};
use crate::persist::ids::{
    id_of, id_text, CriticalReaderId, LeasedReaderId, ShardId, WriterId,
};
use crate::persist::ordered::{lemma_with_last_key, sorted, with_key, OrderedMap, Ranked};
use crate::persist::proto::handle::{
    ProtoCriticalReaderState, ProtoCriticalReaderStateView, ProtoLeasedReaderState,
    ProtoLeasedReaderStateView, ProtoWriterState, ProtoWriterStateView,
};
use crate::persist::proto::rollup::{
    distinct, id_key, rollup_key, ProtoKeyed, ProtoKeyedView, ProtoRollup, ProtoRollupView,
    ProtoStateRollup, ProtoStateRollupView,
};
use crate::persist::trace::{
    lemma_trace_round_trip, trace_of, trace_proto, trace_valid, Trace, TraceView,
};
use crate::persist::version::{
    applier_version_of, check_applier_version, from_future, is_version, read_applier_version,
    semver_less, semver_parsed, version_text, Version, VersionView,
};
use crate::proto::message::{
    decode, decoded, encode_to_vec, encoded, lemma_round_trip, views, Schema,
};
use crate::proto::wire::{decode_error_text, write_all};

verus! {

/// What a shard holds.
#[derive(Debug, PartialEq, Eq)]
#[verifier::reject_recursive_types(T)]
pub struct StateCollections<T> {
    /// The state up to which garbage has been collected.
    pub last_gc_req: SeqNo,
    /// The rollups of the shard, by the state that they hold.
    pub rollups: OrderedMap<SeqNo, PartialRollupKey>,
    /// The readers that have to renew their lease.
    pub leased_readers: OrderedMap<LeasedReaderId, LeasedReaderState<T>>,
    /// The readers that hold back compaction until they say otherwise.
    pub critical_readers: OrderedMap<CriticalReaderId, CriticalReaderState<T>>,
    /// The writers.
    pub writers: OrderedMap<WriterId, WriterState<T>>,
    /// The batches.
    pub trace: Trace<T>,
}

/// The state of a shard.
#[derive(Debug, PartialEq, Eq)]
#[verifier::reject_recursive_types(K)]
#[verifier::reject_recursive_types(V)]
#[verifier::reject_recursive_types(T)]
#[verifier::reject_recursive_types(D)]
pub struct State<K, V, T, D> {
    /// The version of the code that wrote the state.
    pub applier_version: Version,
    /// The shard.
    pub shard_id: ShardId,
    /// The number of the state.
    pub seqno: SeqNo,
    /// Where the state was written.
    pub hostname: String,
    /// What the shard holds.
    pub collections: StateCollections<T>,
    pub _phantom: PhantomData<(K, V, D)>,
}

/// The contents of a [`State`].
#[verifier::ext_equal]
pub struct StateView {
    pub applier_version: VersionView,
    pub shard_id: Seq<u8>,
    pub seqno: u64,
    pub hostname: Seq<char>,
    pub last_gc_req: u64,
    pub rollups: Seq<(u64, Seq<char>)>,
    pub leased_readers: Seq<(Seq<u8>, LeasedReaderStateView)>,
    pub critical_readers: Seq<(Seq<u8>, CriticalReaderStateView)>,
    pub writers: Seq<(Seq<u8>, WriterStateView)>,
    pub trace: TraceView,
}

impl<K, V, D> View for State<K, V, u64, D> {
    type V = StateView;

    open spec fn view(&self) -> StateView {
        StateView {
            applier_version: self.applier_version@,
            shard_id: self.shard_id@,
            seqno: self.seqno.0,
            hostname: self.hostname@,
            last_gc_req: self.collections.last_gc_req.0,
            rollups: self.collections.rollups@,
            leased_readers: self.collections.leased_readers@,
            critical_readers: self.collections.critical_readers@,
            writers: self.collections.writers@,
            trace: self.collections.trace@,
        }
    }
}

/// The names of the codecs of a shard.
pub open spec fn codec_names<K: Codec, V: Codec, T: Codec64, D: Codec64>() -> CodecsView {
    (K::name(), V::name(), T::name(), D::name())
}

/// The messages that rollups are written as.
pub open spec fn rollups_proto(rollups: Seq<(u64, Seq<char>)>) -> Seq<ProtoRollupView> {
    Seq::new(
        rollups.len(),
        |i: int| ProtoRollupView { seqno: rollups[i].0, key: rollups[i].1 },
    )
}

/// The messages that states with an id are written as.
pub open spec fn keyed_proto<W, P>(
    prefix: char,
    entries: Seq<(Seq<u8>, W)>,
    proto: spec_fn(W) -> P,
) -> Seq<ProtoKeyedView<P>> {
    Seq::new(
        entries.len(),
        |i: int|
            ProtoKeyedView { id: id_text(prefix, entries[i].0), state: proto(entries[i].1) },
    )
}

/// The message that the state of a shard is written as.
pub open spec fn state_proto(codecs: CodecsView, state: StateView) -> ProtoStateRollupView {
    ProtoStateRollupView {
        applier_version: version_text(state.applier_version),
        shard_id: id_text('s', state.shard_id),
        seqno: state.seqno,
        hostname: state.hostname,
        key_codec: codecs.0,
        val_codec: codecs.1,
        ts_codec: codecs.2,
        diff_codec: codecs.3,
        last_gc_req: state.last_gc_req,
        rollups: rollups_proto(state.rollups),
        leased_readers: keyed_proto(
            'r',
            state.leased_readers,
            |reader: LeasedReaderStateView| leased_reader_proto(reader),
        ),
        critical_readers: keyed_proto(
            'c',
            state.critical_readers,
            |reader: CriticalReaderStateView| critical_reader_proto(reader),
        ),
        writers: keyed_proto(
            'w',
            state.writers,
            |writer: WriterStateView| writer_proto(writer),
        ),
        trace: Some(trace_proto(state.trace)),
    }
}

/// The rollups that messages stand for.
pub open spec fn rollups_of(protos: Seq<ProtoRollupView>) -> Seq<(u64, Seq<char>)>
    decreases protos.len(),
{
    if protos.len() == 0 {
        Seq::empty()
    } else {
        with_key::<SeqNo, Seq<char>>(
            rollups_of(protos.drop_last()),
            protos.last().seqno,
            protos.last().key,
        )
    }
}

/// The states with an id that messages stand for. The first one that is wrong is an error.
pub open spec fn keyed_of<K: Ranked<V = Seq<u8>>, P, W>(
    prefix: char,
    protos: Seq<ProtoKeyedView<P>>,
    state_of: spec_fn(P) -> Result<W, TryFromProtoErrorView>,
) -> Result<Seq<(Seq<u8>, W)>, TryFromProtoErrorView>
    decreases protos.len(),
{
    if protos.len() == 0 {
        Ok(Seq::empty())
    } else {
        match keyed_of::<K, P, W>(prefix, protos.drop_last(), state_of) {
            Ok(entries) => match id_of(prefix, protos.last().id) {
                Ok(id) => match state_of(protos.last().state) {
                    Ok(state) => Ok(with_key::<K, W>(entries, id, state)),
                    Err(err) => Err(err),
                },
                Err(err) => Err(err),
            },
            Err(err) => Err(err),
        }
    }
}

/// How a reader that has to renew its lease is read.
pub open spec fn read_leased_reader() -> spec_fn(ProtoLeasedReaderStateView) -> Result<
    LeasedReaderStateView,
    TryFromProtoErrorView,
> {
    |proto: ProtoLeasedReaderStateView| leased_reader_of(proto)
}

/// How a reader that holds back compaction is read.
pub open spec fn read_critical_reader() -> spec_fn(ProtoCriticalReaderStateView) -> Result<
    CriticalReaderStateView,
    TryFromProtoErrorView,
> {
    |proto: ProtoCriticalReaderStateView| critical_reader_of(proto)
}

/// How a writer is read.
pub open spec fn read_writer() -> spec_fn(ProtoWriterStateView) -> Result<
    WriterStateView,
    TryFromProtoErrorView,
> {
    |proto: ProtoWriterStateView| writer_of(proto)
}

/// The names of the codecs that a message was written with.
pub open spec fn proto_codecs(proto: ProtoStateRollupView) -> CodecsView {
    (proto.key_codec, proto.val_codec, proto.ts_codec, proto.diff_codec)
}

/// The state that a message stands for, if it was written with the given codecs. The first thing
/// that is wrong is an error.
pub open spec fn contents_of(proto: ProtoStateRollupView) -> Result<
    StateView,
    TryFromProtoErrorView,
> {
    match applier_version_of(proto.applier_version) {
        Ok(applier_version) => match keyed_of::<LeasedReaderId, _, _>(
            'r',
            proto.leased_readers,
            read_leased_reader(),
        ) {
            Ok(leased_readers) => match keyed_of::<CriticalReaderId, _, _>(
                'c',
                proto.critical_readers,
                read_critical_reader(),
            ) {
                Ok(critical_readers) => match keyed_of::<WriterId, _, _>(
                    'w',
                    proto.writers,
                    read_writer(),
                ) {
                    Ok(writers) => match proto.trace {
                        Some(trace) => match trace_of(trace) {
                            Ok(trace) => match id_of('s', proto.shard_id) {
                                Ok(shard_id) => Ok(
                                    StateView {
                                        applier_version,
                                        shard_id,
                                        seqno: proto.seqno,
                                        hostname: proto.hostname,
                                        last_gc_req: proto.last_gc_req,
                                        rollups: rollups_of(proto.rollups),
                                        leased_readers,
                                        critical_readers,
                                        writers,
                                        trace,
                                    },
                                ),
                                Err(err) => Err(err),
                            },
                            Err(err) => Err(err),
                        },
                        None => Err(TryFromProtoErrorView::MissingField("trace"@)),
                    },
                    Err(err) => Err(err),
                },
                Err(err) => Err(err),
            },
            Err(err) => Err(err),
        },
        Err(err) => Err(err),
    }
}

/// The state that a message stands for, or the codecs that it was written with, if they are not
/// the given ones.
pub open spec fn state_of(codecs: CodecsView, proto: ProtoStateRollupView) -> Result<
    Result<StateView, CodecMismatchView>,
    TryFromProtoErrorView,
> {
    if codecs != proto_codecs(proto) {
        Ok(Err(CodecMismatchView { requested: codecs, actual: proto_codecs(proto) }))
    } else {
        match contents_of(proto) {
            Ok(state) => Ok(Ok(state)),
            Err(err) => Err(err),
        }
    }
}

/// Whether a state can be read again: its maps are in order, its frontiers are ones of a total
/// order, the leases of its readers last, and the times of no batch are further advanced than
/// those of the shard.
pub open spec fn state_valid(state: StateView) -> bool {
    &&& sorted::<SeqNo, Seq<char>>(state.rollups)
    &&& sorted::<LeasedReaderId, LeasedReaderStateView>(state.leased_readers)
    &&& sorted::<CriticalReaderId, CriticalReaderStateView>(state.critical_readers)
    &&& sorted::<WriterId, WriterStateView>(state.writers)
    &&& forall|i: int|
        0 <= i < state.leased_readers.len() ==> leased_reader_valid(
            (#[trigger] state.leased_readers[i]).1,
        )
    &&& forall|i: int|
        0 <= i < state.critical_readers.len() ==> critical_reader_valid(
            (#[trigger] state.critical_readers[i]).1,
        )
    &&& forall|i: int|
        0 <= i < state.writers.len() ==> writer_valid((#[trigger] state.writers[i]).1)
    &&& trace_valid(state.trace)
}

proof fn lemma_rollups_round_trip(rollups: Seq<(u64, Seq<char>)>, i: int)
    requires
        sorted::<SeqNo, Seq<char>>(rollups),
        0 <= i <= rollups.len(),
    ensures
        rollups_of(rollups_proto(rollups).take(i)) == rollups.take(i),
    decreases i,
{
    let protos = rollups_proto(rollups);
    if i > 0 {
        lemma_rollups_round_trip(rollups, i - 1);
        assert(protos.take(i).drop_last() =~= protos.take(i - 1));
        lemma_with_last_key::<SeqNo, Seq<char>>(rollups, i - 1);
    } else {
        assert(rollups.take(0) =~= Seq::empty());
    }
}

proof fn lemma_keyed_prefix<K: Ranked<V = Seq<u8>>, P, W>(
    prefix: char,
    protos: Seq<ProtoKeyedView<P>>,
    state_of: spec_fn(P) -> Result<W, TryFromProtoErrorView>,
    i: int,
)
    requires
        0 <= i <= protos.len(),
    ensures
        keyed_of::<K, P, W>(prefix, protos.take(i), state_of) matches Err(err) ==> keyed_of::<
            K,
            P,
            W,
        >(prefix, protos, state_of) == Err::<Seq<(Seq<u8>, W)>, TryFromProtoErrorView>(err),
    decreases protos.len(),
{
    if i < protos.len() {
        lemma_keyed_prefix::<K, P, W>(prefix, protos.drop_last(), state_of, i);
        assert(protos.drop_last().take(i) =~= protos.take(i));
    } else {
        assert(protos.take(i) =~= protos);
    }
}

/// Whether the ids and states of entries are read as they were written.
pub open spec fn reads_back<P, W>(
    prefix: char,
    entries: Seq<(Seq<u8>, W)>,
    proto: spec_fn(W) -> P,
    state_of: spec_fn(P) -> Result<W, TryFromProtoErrorView>,
) -> bool {
    forall|i: int|
        0 <= i < entries.len() ==> id_of(
            prefix,
            id_text(prefix, (#[trigger] entries[i]).0),
        ) == Ok::<
            Seq<u8>,
            TryFromProtoErrorView,
        >(entries[i].0) && state_of(proto(entries[i].1)) == Ok::<W, TryFromProtoErrorView>(
            entries[i].1,
        )
}

proof fn lemma_keyed_round_trip<K: Ranked<V = Seq<u8>>, P, W>(
    prefix: char,
    entries: Seq<(Seq<u8>, W)>,
    proto: spec_fn(W) -> P,
    state_of: spec_fn(P) -> Result<W, TryFromProtoErrorView>,
    i: int,
)
    requires
        sorted::<K, W>(entries),
        reads_back(prefix, entries, proto, state_of),
        0 <= i <= entries.len(),
    ensures
        keyed_of::<K, P, W>(prefix, keyed_proto(prefix, entries, proto).take(i), state_of) == Ok::<
            Seq<(Seq<u8>, W)>,
            TryFromProtoErrorView,
        >(entries.take(i)),
    decreases i,
{
    let protos = keyed_proto(prefix, entries, proto);
    if i > 0 {
        lemma_keyed_round_trip::<K, P, W>(prefix, entries, proto, state_of, i - 1);
        assert(protos.take(i).drop_last() =~= protos.take(i - 1));
        assert(protos.take(i).last() == protos[i - 1]);
        assert(entries[i - 1] == entries[i - 1]);
        lemma_with_last_key::<K, W>(entries, i - 1);
    } else {
        assert(entries.take(0) =~= Seq::empty());
    }
}

proof fn lemma_keyed_distinct<K: Ranked<V = Seq<u8>>, P, W>(
    prefix: char,
    entries: Seq<(Seq<u8>, W)>,
    proto: spec_fn(W) -> P,
    state_of: spec_fn(P) -> Result<W, TryFromProtoErrorView>,
)
    requires
        sorted::<K, W>(entries),
        reads_back(prefix, entries, proto, state_of),
    ensures
        distinct(keyed_proto(prefix, entries, proto), id_key()),
{
    let protos = keyed_proto(prefix, entries, proto);
    assert forall|i: int, j: int| 0 <= i < j < protos.len() implies id_key()(
        #[trigger] protos[i],
    ) != id_key()(#[trigger] protos[j]) by {
        assert(K::rank(entries[i].0) < K::rank(entries[j].0));
    }
}

/// What a state was written as can be told apart, and is read as the state.
proof fn lemma_state_round_trip(codecs: CodecsView, state: StateView)
    requires
        state_valid(state),
        is_version(semver_parsed(version_text(state.applier_version)), state.applier_version),
        version_text(state.applier_version).len() > 0,
        id_of('s', id_text('s', state.shard_id)) == Ok::<Seq<u8>, TryFromProtoErrorView>(
            state.shard_id,
        ),
        reads_back(
            'r',
            state.leased_readers,
            |reader: LeasedReaderStateView| leased_reader_proto(reader),
            read_leased_reader(),
        ),
        reads_back(
            'c',
            state.critical_readers,
            |reader: CriticalReaderStateView| critical_reader_proto(reader),
            read_critical_reader(),
        ),
        reads_back(
            'w',
            state.writers,
            |writer: WriterStateView| writer_proto(writer),
            read_writer(),
        ),
    ensures
        ProtoStateRollup::well_formed(state_proto(codecs, state)),
        state_of(codecs, state_proto(codecs, state)) == Ok::<
            Result<StateView, CodecMismatchView>,
            TryFromProtoErrorView,
        >(Ok(state)),
{
    let proto = state_proto(codecs, state);
    lemma_rollups_round_trip(state.rollups, state.rollups.len() as int);
    assert(proto.rollups.take(state.rollups.len() as int) =~= proto.rollups);
    assert(state.rollups.take(state.rollups.len() as int) =~= state.rollups);
    assert forall|i: int, j: int| 0 <= i < j < proto.rollups.len() implies rollup_key()(
        #[trigger] proto.rollups[i],
    ) != rollup_key()(#[trigger] proto.rollups[j]) by {
        assert(SeqNo::rank(state.rollups[i].0) < SeqNo::rank(state.rollups[j].0));
    }
    let leased = |reader: LeasedReaderStateView| leased_reader_proto(reader);
    let n = state.leased_readers.len() as int;
    lemma_keyed_round_trip::<LeasedReaderId, _, _>(
        'r',
        state.leased_readers,
        leased,
        read_leased_reader(),
        n,
    );
    lemma_keyed_distinct::<LeasedReaderId, _, _>(
        'r',
        state.leased_readers,
        leased,
        read_leased_reader(),
    );
    assert(proto.leased_readers.take(n) =~= proto.leased_readers);
    assert(state.leased_readers.take(n) =~= state.leased_readers);
    let critical = |reader: CriticalReaderStateView| critical_reader_proto(reader);
    let n = state.critical_readers.len() as int;
    lemma_keyed_round_trip::<CriticalReaderId, _, _>(
        'c',
        state.critical_readers,
        critical,
        read_critical_reader(),
        n,
    );
    lemma_keyed_distinct::<CriticalReaderId, _, _>(
        'c',
        state.critical_readers,
        critical,
        read_critical_reader(),
    );
    assert(proto.critical_readers.take(n) =~= proto.critical_readers);
    assert(state.critical_readers.take(n) =~= state.critical_readers);
    let writer = |writer: WriterStateView| writer_proto(writer);
    let n = state.writers.len() as int;
    lemma_keyed_round_trip::<WriterId, _, _>('w', state.writers, writer, read_writer(), n);
    lemma_keyed_distinct::<WriterId, _, _>('w', state.writers, writer, read_writer());
    assert(proto.writers.take(n) =~= proto.writers);
    assert(state.writers.take(n) =~= state.writers);
    lemma_trace_round_trip(state.trace);
}

/// Writes readers that have to renew their lease.
fn write_leased_readers(
    leased_readers: &OrderedMap<LeasedReaderId, LeasedReaderState<u64>>,
) -> (protos: Vec<
    ProtoKeyed<ProtoLeasedReaderState>,
>)
    ensures
        views(protos@) == keyed_proto(
            'r',
            leased_readers@,
            |reader: LeasedReaderStateView| leased_reader_proto(reader),
        ),
        (forall|i: int|
            0 <= i < leased_readers@.len()
                ==> leased_reader_valid((#[trigger] leased_readers@[i]).1))
            ==> reads_back(
            'r',
            leased_readers@,
            |reader: LeasedReaderStateView| leased_reader_proto(reader),
            read_leased_reader(),
        ),
{
    let ghost entries = leased_readers@;
    let ghost proto = |reader: LeasedReaderStateView| leased_reader_proto(reader);
    let ghost all = keyed_proto('r', entries, proto);
    let mut protos: Vec<ProtoKeyed<ProtoLeasedReaderState>> = Vec::new();
    let mut i: usize = 0;
    assert(views(protos@) =~= all.take(0));
    while i < leased_readers.len()
        invariant
            i <= entries.len(),
            entries == leased_readers@,
            proto == (|reader: LeasedReaderStateView| leased_reader_proto(reader)),
            all == keyed_proto('r', entries, proto),
            views(protos@) == all.take(i as int),
            forall|j: int|
                0 <= j < i ==> id_of('r', id_text('r', (#[trigger] entries[j]).0)) == Ok::<
                    Seq<u8>,
                    TryFromProtoErrorView,
                >(entries[j].0) && (leased_reader_valid(entries[j].1) ==> leased_reader_of(
                    leased_reader_proto(entries[j].1),
                ) == Ok::<LeasedReaderStateView, TryFromProtoErrorView>(entries[j].1)),
        decreases entries.len() - i,
    {
        let (id, state) = leased_readers.entry(i);
        let ghost before = views(protos@);
        proof {
            if leased_reader_valid(state@) {
                lemma_leased_reader_round_trip(state@);
            }
            }
        let keyed = ProtoKeyed { id: id.into_proto(), state: state.into_proto() };
        protos.push(keyed);
        assert(views(protos@) =~= before.push(keyed@));
        assert(views(protos@) =~= all.take(i + 1));
        i = i + 1;
    }
    assert(all.take(i as int) =~= all);
    protos
}

/// Reads readers that have to renew their lease.
fn read_leased_readers(protos: Vec<ProtoKeyed<ProtoLeasedReaderState>>) -> (r: Result<
    OrderedMap<LeasedReaderId, LeasedReaderState<u64>>,
    TryFromProtoError,
>)
    ensures
        match r {
            Ok(map) => map.wf() && keyed_of::<LeasedReaderId, _, _>(
                'r',
                views(protos@),
                read_leased_reader(),
            ) == Ok::<Seq<(Seq<u8>, LeasedReaderStateView)>, TryFromProtoErrorView>(map@),
            Err(err) => keyed_of::<LeasedReaderId, _, _>(
                'r',
                views(protos@),
                read_leased_reader(),
            ) == Err::<Seq<(Seq<u8>, LeasedReaderStateView)>, TryFromProtoErrorView>(err@),
        },
{
    let ghost all = views(protos@);
    let mut map: OrderedMap<LeasedReaderId, LeasedReaderState<u64>> = OrderedMap::new();
    for proto in iter: protos
        invariant
            all == views(iter.seq()),
            map.wf(),
            keyed_of::<LeasedReaderId, _, _>(
                'r',
                all.take(iter.index() as int),
                read_leased_reader(),
            ) == Ok::<Seq<(Seq<u8>, LeasedReaderStateView)>, TryFromProtoErrorView>(map@),
    {
        let ghost i = iter.index() as int;
        proof {
            assert(all.take(i + 1).drop_last() =~= all.take(i));
            assert(all.take(i + 1).last() == proto@);
            lemma_keyed_prefix::<LeasedReaderId, _, _>('r', all, read_leased_reader(), i + 1);
        }
        let id: LeasedReaderId = match LeasedReaderId::from_proto(proto.id) {
            Ok(id) => id,
            Err(err) => {
                return Err(err);
            },
        };
        let state: LeasedReaderState<u64> = match <LeasedReaderState<u64>>::from_proto(
            proto.state,
        ) {
            Ok(state) => state,
            Err(err) => {
                return Err(err);
            },
        };
        map.insert(id, state);
    }
    assert(all.take(all.len() as int) =~= all);
    Ok(map)
}

/// Writes readers that hold back compaction.
fn write_critical_readers(
    critical_readers: &OrderedMap<CriticalReaderId, CriticalReaderState<u64>>,
) -> (protos: Vec<
    ProtoKeyed<ProtoCriticalReaderState>,
>)
    ensures
        views(protos@) == keyed_proto(
            'c',
            critical_readers@,
            |reader: CriticalReaderStateView| critical_reader_proto(reader),
        ),
        (forall|i: int|
            0 <= i < critical_readers@.len()
                ==> critical_reader_valid((#[trigger] critical_readers@[i]).1))
            ==> reads_back(
            'c',
            critical_readers@,
            |reader: CriticalReaderStateView| critical_reader_proto(reader),
            read_critical_reader(),
        ),
{
    let ghost entries = critical_readers@;
    let ghost proto = |reader: CriticalReaderStateView| critical_reader_proto(reader);
    let ghost all = keyed_proto('c', entries, proto);
    let mut protos: Vec<ProtoKeyed<ProtoCriticalReaderState>> = Vec::new();
    let mut i: usize = 0;
    assert(views(protos@) =~= all.take(0));
    while i < critical_readers.len()
        invariant
            i <= entries.len(),
            entries == critical_readers@,
            proto == (|reader: CriticalReaderStateView| critical_reader_proto(reader)),
            all == keyed_proto('c', entries, proto),
            views(protos@) == all.take(i as int),
            forall|j: int|
                0 <= j < i ==> id_of('c', id_text('c', (#[trigger] entries[j]).0)) == Ok::<
                    Seq<u8>,
                    TryFromProtoErrorView,
                >(entries[j].0) && (critical_reader_valid(entries[j].1) ==> critical_reader_of(
                    critical_reader_proto(entries[j].1),
                ) == Ok::<CriticalReaderStateView, TryFromProtoErrorView>(entries[j].1)),
        decreases entries.len() - i,
    {
        let (id, state) = critical_readers.entry(i);
        let ghost before = views(protos@);
        proof {
            if critical_reader_valid(state@) {
                lemma_critical_reader_round_trip(state@);
            }
            }
        let keyed = ProtoKeyed { id: id.into_proto(), state: state.into_proto() };
        protos.push(keyed);
        assert(views(protos@) =~= before.push(keyed@));
        assert(views(protos@) =~= all.take(i + 1));
        i = i + 1;
    }
    assert(all.take(i as int) =~= all);
    protos
}

/// Reads readers that hold back compaction.
fn read_critical_readers(protos: Vec<ProtoKeyed<ProtoCriticalReaderState>>) -> (r: Result<
    OrderedMap<CriticalReaderId, CriticalReaderState<u64>>,
    TryFromProtoError,
>)
    ensures
        match r {
            Ok(map) => map.wf() && keyed_of::<CriticalReaderId, _, _>(
                'c',
                views(protos@),
                read_critical_reader(),
            ) == Ok::<Seq<(Seq<u8>, CriticalReaderStateView)>, TryFromProtoErrorView>(map@),
            Err(err) => keyed_of::<CriticalReaderId, _, _>(
                'c',
                views(protos@),
                read_critical_reader(),
            ) == Err::<Seq<(Seq<u8>, CriticalReaderStateView)>, TryFromProtoErrorView>(err@),
        },
{
    let ghost all = views(protos@);
    let mut map: OrderedMap<CriticalReaderId, CriticalReaderState<u64>> = OrderedMap::new();
    for proto in iter: protos
        invariant
            all == views(iter.seq()),
            map.wf(),
            keyed_of::<CriticalReaderId, _, _>(
                'c',
                all.take(iter.index() as int),
                read_critical_reader(),
            ) == Ok::<Seq<(Seq<u8>, CriticalReaderStateView)>, TryFromProtoErrorView>(map@),
    {
        let ghost i = iter.index() as int;
        proof {
            assert(all.take(i + 1).drop_last() =~= all.take(i));
            assert(all.take(i + 1).last() == proto@);
            lemma_keyed_prefix::<CriticalReaderId, _, _>('c', all, read_critical_reader(), i + 1);
        }
        let id: CriticalReaderId = match CriticalReaderId::from_proto(proto.id) {
            Ok(id) => id,
            Err(err) => {
                return Err(err);
            },
        };
        let state: CriticalReaderState<u64> = match <CriticalReaderState<u64>>::from_proto(
            proto.state,
        ) {
            Ok(state) => state,
            Err(err) => {
                return Err(err);
            },
        };
        map.insert(id, state);
    }
    assert(all.take(all.len() as int) =~= all);
    Ok(map)
}

/// Writes writers.
fn write_writers(writers: &OrderedMap<WriterId, WriterState<u64>>) -> (protos: Vec<
    ProtoKeyed<ProtoWriterState>,
>)
    ensures
        views(protos@) == keyed_proto(
            'w',
            writers@,
            |writer: WriterStateView| writer_proto(writer),
        ),
        (forall|i: int|
            0 <= i < writers@.len() ==> writer_valid((#[trigger] writers@[i]).1))
            ==> reads_back(
            'w',
            writers@,
            |writer: WriterStateView| writer_proto(writer),
            read_writer(),
        ),
{
    let ghost entries = writers@;
    let ghost proto = |writer: WriterStateView| writer_proto(writer);
    let ghost all = keyed_proto('w', entries, proto);
    let mut protos: Vec<ProtoKeyed<ProtoWriterState>> = Vec::new();
    let mut i: usize = 0;
    assert(views(protos@) =~= all.take(0));
    while i < writers.len()
        invariant
            i <= entries.len(),
            entries == writers@,
            proto == (|writer: WriterStateView| writer_proto(writer)),
            all == keyed_proto('w', entries, proto),
            views(protos@) == all.take(i as int),
            forall|j: int|
                0 <= j < i ==> id_of('w', id_text('w', (#[trigger] entries[j]).0)) == Ok::<
                    Seq<u8>,
                    TryFromProtoErrorView,
                >(entries[j].0) && (writer_valid(entries[j].1) ==> writer_of(
                    writer_proto(entries[j].1),
                ) == Ok::<WriterStateView, TryFromProtoErrorView>(entries[j].1)),
        decreases entries.len() - i,
    {
        let (id, state) = writers.entry(i);
        let ghost before = views(protos@);
        let keyed = ProtoKeyed { id: id.into_proto(), state: state.into_proto() };
        protos.push(keyed);
        assert(views(protos@) =~= before.push(keyed@));
        assert(views(protos@) =~= all.take(i + 1));
        i = i + 1;
    }
    assert(all.take(i as int) =~= all);
    protos
}

/// Reads writers.
fn read_writers(protos: Vec<ProtoKeyed<ProtoWriterState>>) -> (r: Result<
    OrderedMap<WriterId, WriterState<u64>>,
    TryFromProtoError,
>)
    ensures
        match r {
            Ok(map) => map.wf() && keyed_of::<WriterId, _, _>(
                'w',
                views(protos@),
                read_writer(),
            ) == Ok::<Seq<(Seq<u8>, WriterStateView)>, TryFromProtoErrorView>(map@),
            Err(err) => keyed_of::<WriterId, _, _>(
                'w',
                views(protos@),
                read_writer(),
            ) == Err::<Seq<(Seq<u8>, WriterStateView)>, TryFromProtoErrorView>(err@),
        },
{
    let ghost all = views(protos@);
    let mut map: OrderedMap<WriterId, WriterState<u64>> = OrderedMap::new();
    for proto in iter: protos
        invariant
            all == views(iter.seq()),
            map.wf(),
            keyed_of::<WriterId, _, _>(
                'w',
                all.take(iter.index() as int),
                read_writer(),
            ) == Ok::<Seq<(Seq<u8>, WriterStateView)>, TryFromProtoErrorView>(map@),
    {
        let ghost i = iter.index() as int;
        proof {
            assert(all.take(i + 1).drop_last() =~= all.take(i));
            assert(all.take(i + 1).last() == proto@);
            lemma_keyed_prefix::<WriterId, _, _>('w', all, read_writer(), i + 1);
        }
        let id: WriterId = match WriterId::from_proto(proto.id) {
            Ok(id) => id,
            Err(err) => {
                return Err(err);
            },
        };
        let state: WriterState<u64> = match <WriterState<u64>>::from_proto(proto.state) {
            Ok(state) => state,
            Err(err) => {
                return Err(err);
            },
        };
        map.insert(id, state);
    }
    assert(all.take(all.len() as int) =~= all);
    Ok(map)
}

/// Writes rollups.
fn write_rollups(rollups: &OrderedMap<SeqNo, PartialRollupKey>) -> (protos: Vec<ProtoRollup>)
    ensures
        views(protos@) == rollups_proto(rollups@),
{
    let ghost all = rollups_proto(rollups@);
    let mut protos: Vec<ProtoRollup> = Vec::new();
    let mut i: usize = 0;
    assert(views(protos@) =~= all.take(0));
    while i < rollups.len()
        invariant
            i <= rollups@.len(),
            all == rollups_proto(rollups@),
            views(protos@) == all.take(i as int),
        decreases rollups@.len() - i,
    {
        let (seqno, key) = rollups.entry(i);
        let ghost before = views(protos@);
        let rollup = ProtoRollup { seqno: seqno.into_proto(), key: key.into_proto() };
        protos.push(rollup);
        assert(views(protos@) =~= before.push(rollup@));
        assert(views(protos@) =~= all.take(i + 1));
        i = i + 1;
    }
    assert(all.take(i as int) =~= all);
    protos
}

/// Reads rollups.
fn read_rollups(protos: Vec<ProtoRollup>) -> (map: OrderedMap<SeqNo, PartialRollupKey>)
    ensures
        map.wf(),
        map@ == rollups_of(views(protos@)),
{
    let ghost all = views(protos@);
    let mut map: OrderedMap<SeqNo, PartialRollupKey> = OrderedMap::new();
    for proto in iter: protos
        invariant
            all == views(iter.seq()),
            map.wf(),
            map@ == rollups_of(all.take(iter.index() as int)),
    {
        let ghost i = iter.index() as int;
        proof {
            assert(all.take(i + 1).drop_last() =~= all.take(i));
            assert(all.take(i + 1).last() == proto@);
        }
        map.insert(SeqNo(proto.seqno), PartialRollupKey(proto.key));
    }
    assert(all.take(all.len() as int) =~= all);
    map
}

/// Why a state could not be read.
#[derive(Debug, PartialEq, Eq)]
pub enum StateError {
    /// What was read is not an encoded state.
    Invalid(String),
    /// The state was written with other codecs.
    CodecMismatch(CodecMismatch),
    /// The state was written by later code.
    FromFuture(String),
}

/// The contents of a [`StateError`].
pub enum StateErrorView {
    Invalid(Seq<char>),
    CodecMismatch(CodecMismatchView),
    FromFuture(Seq<char>),
}

impl View for StateError {
    type V = StateErrorView;

    open spec fn view(&self) -> StateErrorView {
        match self {
            StateError::Invalid(message) => StateErrorView::Invalid(message@),
            StateError::CodecMismatch(mismatch) => StateErrorView::CodecMismatch(mismatch@),
            StateError::FromFuture(message) => StateErrorView::FromFuture(message@),
        }
    }
}

/// The state that was written as the given bytes, as code of the given version reads it.
pub open spec fn state_decoded(
    codecs: CodecsView,
    build_version: VersionView,
    buf: Seq<u8>,
) -> Result<
    StateView,
    StateErrorView,
> {
    match decoded::<ProtoStateRollup>(buf) {
        Some(proto) => match state_of(codecs, proto) {
            Ok(Ok(state)) => if semver_less(build_version, state.applier_version) {
                Err(
                    StateErrorView::FromFuture(from_future(build_version, state.applier_version)),
                )
            } else {
                Ok(state)
            },
            Ok(Err(mismatch)) => Err(StateErrorView::CodecMismatch(mismatch)),
            Err(err) => Err(StateErrorView::Invalid(error_text(err))),
        },
        None => Err(StateErrorView::Invalid(decode_error_text())),
    }
}

/// Whether the maps of a state are in order.
pub open spec fn state_wf<K, V, D>(state: State<K, V, u64, D>) -> bool {
    &&& state.collections.rollups.wf()
    &&& state.collections.leased_readers.wf()
    &&& state.collections.critical_readers.wf()
    &&& state.collections.writers.wf()
}

/// The state of a shard that nothing has been written to.
pub open spec fn fresh_state(
    applier_version: VersionView,
    hostname: Seq<char>,
    shard_id: Seq<u8>,
) -> StateView {
    StateView {
        applier_version,
        shard_id,
        seqno: 0,
        hostname,
        last_gc_req: 0,
        rollups: Seq::empty(),
        leased_readers: Seq::empty(),
        critical_readers: Seq::empty(),
        writers: Seq::empty(),
        trace: TraceView { since: seq![0u64], batches: Seq::empty() },
    }
}

impl<K: Codec, V: Codec, D: Codec64> State<K, V, u64, D> {
    /// The state of a shard that nothing has been written to.
    pub fn new(applier_version: Version, hostname: String, shard_id: ShardId) -> (state: State<
        K,
        V,
        u64,
        D,
    >)
        ensures
            state@ == fresh_state(applier_version@, hostname@, shard_id@),
            state_wf(state),
            state_valid(state@),
    {
        State {
            applier_version,
            shard_id,
            seqno: SeqNo(0),
            hostname,
            collections: StateCollections {
                last_gc_req: SeqNo(0),
                rollups: OrderedMap::new(),
                leased_readers: OrderedMap::new(),
                critical_readers: OrderedMap::new(),
                writers: OrderedMap::new(),
                trace: Trace::new(),
            },
            _phantom: PhantomData,
        }
    }

    /// The names of the codecs of the shard.
    fn codec_names() -> (codecs: Codecs)
        ensures
            codecs_view(codecs) == codec_names::<K, V, u64, D>(),
    {
        (K::codec_name(), V::codec_name(), <u64 as Codec64>::codec_name(), D::codec_name())
    }

    /// Reads a state from a message. A state that was written with other codecs is not read.
    pub fn try_from(proto: ProtoStateRollup) -> (r: Result<
        Result<State<K, V, u64, D>, CodecMismatch>,
        TryFromProtoError,
    >)
        ensures
            match r {
                Ok(Ok(state)) => state_wf(state) && state_of(
                    codec_names::<K, V, u64, D>(),
                    proto@,
                ) == Ok::<_, TryFromProtoErrorView>(Ok::<StateView, CodecMismatchView>(state@)),
                Ok(Err(mismatch)) => state_of(codec_names::<K, V, u64, D>(), proto@) == Ok::<
                    _,
                    TryFromProtoErrorView,
                >(Err::<StateView, CodecMismatchView>(mismatch@)),
                Err(err) => state_of(codec_names::<K, V, u64, D>(), proto@) == Err::<
                    Result<StateView, CodecMismatchView>,
                    TryFromProtoErrorView,
                >(err@),
            },
    {
        let requested: Codecs = Self::codec_names();
        if requested.0 != proto.key_codec || requested.1 != proto.val_codec || requested.2
            != proto.ts_codec || requested.3 != proto.diff_codec {
            let actual: Codecs = (
                proto.key_codec,
                proto.val_codec,
                proto.ts_codec,
                proto.diff_codec,
            );
            return Ok(Err(CodecMismatch { requested, actual }));
        }
        let applier_version: Version = match read_applier_version(&proto.applier_version) {
            Ok(version) => version,
            Err(err) => {
                return Err(err);
            },
        };
        let rollups = read_rollups(proto.rollups);
        let leased_readers = match read_leased_readers(proto.leased_readers) {
            Ok(readers) => readers,
            Err(err) => {
                return Err(err);
            },
        };
        let critical_readers = match read_critical_readers(proto.critical_readers) {
            Ok(readers) => readers,
            Err(err) => {
                return Err(err);
            },
        };
        let writers = match read_writers(proto.writers) {
            Ok(writers) => writers,
            Err(err) => {
                return Err(err);
            },
        };
        let trace: Trace<u64> = match proto.trace {
            Some(trace) => match <Trace<u64>>::from_proto(trace) {
                Ok(trace) => trace,
                Err(err) => {
                    return Err(err);
                },
            },
            None => {
                return Err(TryFromProtoError::MissingField("trace".to_owned()));
            },
        };
        let collections = StateCollections {
            last_gc_req: SeqNo(proto.last_gc_req),
            rollups,
            leased_readers,
            critical_readers,
            writers,
            trace,
        };
        let shard_id: ShardId = match ShardId::from_proto(proto.shard_id) {
            Ok(id) => id,
            Err(err) => {
                return Err(err);
            },
        };
        Ok(
            Ok(
                State {
                    applier_version,
                    shard_id,
                    seqno: SeqNo(proto.seqno),
                    hostname: proto.hostname,
                    collections,
                    _phantom: PhantomData,
                },
            ),
        )
    }

    /// Appends the encoded state. Code of the same or a later version reads it as the same state;
    /// earlier code does not read it.
    pub fn encode(&self, buf: &mut Vec<u8>)
        ensures
            final(buf)@ == old(buf)@ + encoded::<ProtoStateRollup>(
                state_proto(codec_names::<K, V, u64, D>(), self@),
            ),
            state_valid(self@) ==> forall|build_version: VersionView| #[trigger]
                state_decoded(
                    codec_names::<K, V, u64, D>(),
                    build_version,
                    encoded::<ProtoStateRollup>(
                        state_proto(codec_names::<K, V, u64, D>(), self@),
                    ),
                ) == if semver_less(build_version, self@.applier_version) {
                    Err::<StateView, _>(
                        StateErrorView::FromFuture(
                            from_future(build_version, self@.applier_version),
                        ),
                    )
                } else {
                    Ok(self@)
                },
    {
        let proto: ProtoStateRollup = self.into_proto();
        let bytes: Vec<u8> = encode_to_vec(&proto);
        proof {
            if state_valid(self@) {
                assert(bytes@.len() == bytes.len());
                lemma_round_trip::<ProtoStateRollup>(proto@);
            }
        }
        write_all(buf, bytes.as_slice());
    }

    /// Reads an encoded state.
    pub fn decode(build_version: &Version, buf: &[u8]) -> (r: Result<
        State<K, V, u64, D>,
        StateError,
    >)
        ensures
            match r {
                Ok(state) => state_wf(state) && state_decoded(
                    codec_names::<K, V, u64, D>(),
                    build_version@,
                    buf@,
                ) == Ok::<StateView, StateErrorView>(state@),
                Err(err) => state_decoded(
                    codec_names::<K, V, u64, D>(),
                    build_version@,
                    buf@,
                ) == Err::<StateView, StateErrorView>(err@),
            },
    {
        let proto: ProtoStateRollup = match decode(buf) {
            Ok(proto) => proto,
            Err(err) => {
                return Err(StateError::Invalid(err.text()));
            },
        };
        let state: State<K, V, u64, D> = match Self::try_from(proto) {
            Ok(Ok(state)) => state,
            Ok(Err(mismatch)) => {
                return Err(StateError::CodecMismatch(mismatch));
            },
            Err(err) => {
                return Err(StateError::Invalid(err.text()));
            },
        };
        match check_applier_version(build_version, &state.applier_version) {
            Ok(()) => Ok(state),
            Err(message) => Err(StateError::FromFuture(message)),
        }
    }
}

impl<K: Codec, V: Codec, D: Codec64> RustType<ProtoStateRollup> for State<K, V, u64, D> {
    /// A state is read as it was written.
    fn into_proto(&self) -> (proto: ProtoStateRollup)
        ensures
            proto@ == state_proto(codec_names::<K, V, u64, D>(), self@),
            state_valid(self@) ==> ProtoStateRollup::well_formed(proto@) && state_of(
                codec_names::<K, V, u64, D>(),
                proto@,
            ) == Ok::<_, TryFromProtoErrorView>(Ok::<StateView, CodecMismatchView>(self@)),
    {
        let codecs: Codecs = Self::codec_names();
        let proto = ProtoStateRollup {
            applier_version: self.applier_version.to_string(),
            shard_id: self.shard_id.into_proto(),
            seqno: self.seqno.into_proto(),
            hostname: self.hostname.clone(),
            key_codec: codecs.0,
            val_codec: codecs.1,
            ts_codec: codecs.2,
            diff_codec: codecs.3,
            last_gc_req: self.collections.last_gc_req.into_proto(),
            rollups: write_rollups(&self.collections.rollups),
            leased_readers: write_leased_readers(&self.collections.leased_readers),
            critical_readers: write_critical_readers(&self.collections.critical_readers),
            writers: write_writers(&self.collections.writers),
            trace: Some(self.collections.trace.into_proto()),
        };
        proof {
            if state_valid(self@) {
                lemma_state_round_trip(codec_names::<K, V, u64, D>(), self@);
            }
        }
        proto
    }

    fn from_proto(proto: ProtoStateRollup) -> (r: Result<State<K, V, u64, D>, TryFromProtoError>)
        ensures
            result_view(r) == match state_of(codec_names::<K, V, u64, D>(), proto@) {
                Ok(Ok(state)) => Ok(state),
                Ok(Err(mismatch)) => Err(
                    TryFromProtoErrorView::CodecMismatch(mismatch_text(mismatch)),
                ),
                Err(err) => Err(err),
            },
    {
        match Self::try_from(proto) {
            Ok(Ok(state)) => Ok(state),
            Ok(Err(mismatch)) => Err(TryFromProtoError::CodecMismatch(mismatch.text())),
            Err(err) => Err(err),
        }
    }
}

} // verus!
