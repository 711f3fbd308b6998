//! The difference between two states of a shard.

use timely::progress::Antichain;
use vstd::prelude::*;

use crate::persist::batch::{
    hollow_batch_valid, HollowBatch, HollowBatchView, PartialRollupKey, SeqNo,
};
use crate::persist::codec::Codec;
use crate::persist::diff_fields::{
    all_read, all_written_as, diff_read, diff_reads, diffs_view, field_diff_into_rust,
    field_diffs_into_proto, lemma_diff_round_trip, lemma_unpacked, lemma_written, raw_of, raws_of,
    stopped, StateFieldDiff,
};
use crate::persist::diff_values::{
    antichain_bytes, antichain_from, antichain_reads, antichain_view, critical_reader_bytes,
    critical_reader_from, critical_reader_id_bytes, critical_reader_id_from,
    critical_reader_id_reads, critical_reader_id_view, critical_reader_reads, critical_reader_view,
    hollow_batch_bytes, hollow_batch_from, hollow_batch_reads, hollow_batch_view,
    leased_reader_bytes, leased_reader_from, leased_reader_id_bytes, leased_reader_id_from,
    leased_reader_id_reads, leased_reader_id_view, leased_reader_reads, leased_reader_view,
    nothing_bytes, nothing_from, nothing_reads, nothing_view, read_antichain, read_critical_reader,
    read_critical_reader_id, read_hollow_batch, read_leased_reader, read_leased_reader_id,
    read_nothing, read_rollup_key, read_seqno, read_text, read_writer, read_writer_id,
    rollup_key_bytes, rollup_key_from, rollup_key_reads, rollup_key_view, seqno_bytes, seqno_from,
    seqno_reads, seqno_view, text_bytes, text_from, text_reads, text_view, write_antichain,
    write_critical_reader, write_critical_reader_id, write_hollow_batch, write_leased_reader,
    write_leased_reader_id, write_nothing, write_rollup_key, write_seqno, write_text, write_writer,
    write_writer_id, writer_bytes, writer_from, writer_id_bytes, writer_id_from, writer_id_reads,
    writer_id_view, writer_reads, writer_view,
};
use crate::persist::error::{
    error_text, result_view, RustType, TryFromProtoError, TryFromProtoErrorView,
};
use crate::persist::field_diffs::{
    diffs_fit, field_of, lemma_raw_diffs, lemma_with_raws_join, misfit, no_diffs, raw_diffs,
    raw_fits, with_raws, Cursor, ProtoStateField, ProtoStateFieldDiff, RawDiff,
};
use crate::persist::handle::{
    critical_reader_valid, leased_reader_valid, writer_valid, CriticalReaderState,
    CriticalReaderStateView, LeasedReaderState, LeasedReaderStateView, WriterState,
    WriterStateView,
};
use crate::persist::ids::{CriticalReaderId, LeasedReaderId, WriterId};
use crate::persist::proto::batch::{ProtoHollowBatch, ProtoU64Antichain};
use crate::persist::proto::diff::{ProtoStateDiff, ProtoStateDiffView, ProtoStateFieldDiffs};
use crate::persist::proto::handle::{
    ProtoCriticalReaderState, ProtoLeasedReaderState, ProtoWriterState,
};
use crate::persist::state::{StateError, StateErrorView};
use crate::persist::version::{
    applier_version_of, check_applier_version, from_future, read_applier_version, semver_less,
    version_text, Version, VersionView,
};
use crate::proto::message::{decode, decoded, encode_to_vec, encoded, lemma_round_trip};
use crate::proto::wire::{decode_error_text, write_all};
use crate::text::{i64_text, signed_decimal};

verus! {

/// The difference between two states of a shard.
#[derive(Debug, PartialEq, Eq)]
#[verifier::reject_recursive_types(T)]
pub struct StateDiff<T> {
    /// The version of the code that wrote the difference.
    pub applier_version: Version,
    /// The number of the state before.
    pub seqno_from: SeqNo,
    /// The number of the state after.
    pub seqno_to: SeqNo,
    /// The latest rollup of the state after.
    pub latest_rollup_key: PartialRollupKey,
    pub hostname: Vec<StateFieldDiff<(), String>>,
    pub last_gc_req: Vec<StateFieldDiff<(), SeqNo>>,
    pub rollups: Vec<StateFieldDiff<SeqNo, PartialRollupKey>>,
    pub leased_readers: Vec<StateFieldDiff<LeasedReaderId, LeasedReaderState<T>>>,
    pub critical_readers: Vec<StateFieldDiff<CriticalReaderId, CriticalReaderState<T>>>,
    pub writers: Vec<StateFieldDiff<WriterId, WriterState<T>>>,
    pub since: Vec<StateFieldDiff<(), Antichain<T>>>,
    pub spine: Vec<StateFieldDiff<HollowBatch<T>, ()>>,
}

/// The contents of a [`StateDiff`].
#[verifier::ext_equal]
pub struct StateDiffView {
    pub applier_version: VersionView,
    pub seqno_from: u64,
    pub seqno_to: u64,
    pub latest_rollup_key: Seq<char>,
    pub hostname: Seq<StateFieldDiff<(), Seq<char>>>,
    pub last_gc_req: Seq<StateFieldDiff<(), u64>>,
    pub rollups: Seq<StateFieldDiff<u64, Seq<char>>>,
    pub leased_readers: Seq<StateFieldDiff<Seq<u8>, LeasedReaderStateView>>,
    pub critical_readers: Seq<StateFieldDiff<Seq<u8>, CriticalReaderStateView>>,
    pub writers: Seq<StateFieldDiff<Seq<u8>, WriterStateView>>,
    pub since: Seq<StateFieldDiff<(), Seq<u64>>>,
    pub spine: Seq<StateFieldDiff<HollowBatchView, ()>>,
}

impl View for StateDiff<u64> {
    type V = StateDiffView;

    open spec fn view(&self) -> StateDiffView {
        StateDiffView {
            applier_version: self.applier_version@,
            seqno_from: self.seqno_from.0,
            seqno_to: self.seqno_to.0,
            latest_rollup_key: self.latest_rollup_key@,
            hostname: diffs_view(self.hostname@, nothing_view(), text_view()),
            last_gc_req: diffs_view(self.last_gc_req@, nothing_view(), seqno_view()),
            rollups: diffs_view(self.rollups@, seqno_view(), rollup_key_view()),
            leased_readers: diffs_view(
                self.leased_readers@,
                leased_reader_id_view(),
                leased_reader_view(),
            ),
            critical_readers: diffs_view(
                self.critical_readers@,
                critical_reader_id_view(),
                critical_reader_view(),
            ),
            writers: diffs_view(self.writers@, writer_id_view(), writer_view()),
            since: diffs_view(self.since@, nothing_view(), antichain_view()),
            spine: diffs_view(self.spine@, hollow_batch_view(), nothing_view()),
        }
    }
}

/// The difference between two states that differ in their numbers only.
pub open spec fn fresh_diff(
    applier_version: VersionView,
    seqno_from: u64,
    seqno_to: u64,
    latest_rollup_key: Seq<char>,
) -> StateDiffView {
    StateDiffView {
        applier_version,
        seqno_from,
        seqno_to,
        latest_rollup_key,
        hostname: Seq::empty(),
        last_gc_req: Seq::empty(),
        rollups: Seq::empty(),
        leased_readers: Seq::empty(),
        critical_readers: Seq::empty(),
        writers: Seq::empty(),
        since: Seq::empty(),
        spine: Seq::empty(),
    }
}

/// What is said of a difference in a field that there is none of.
pub open spec fn unknown_field(number: i32) -> Seq<char> {
    "unknown ProtoStateField "@ + signed_decimal(number as int)
}

/// The differences between two states, with one more.
pub open spec fn with_unpacked(diffs: StateDiffView, raw: RawDiff) -> Result<
    StateDiffView,
    TryFromProtoErrorView,
> {
    match field_of(raw.field) {
        Some(ProtoStateField::Hostname) => match diff_read::<(), String, _, _>(
            raw,
            nothing_from(),
            text_from(),
        ) {
            Ok(diff) => Ok(StateDiffView { hostname: diffs.hostname.push(diff), ..diffs }),
            Err(err) => Err(err),
        },
        Some(ProtoStateField::LastGcReq) => match diff_read::<(), u64, _, _>(
            raw,
            nothing_from(),
            seqno_from(),
        ) {
            Ok(diff) => Ok(StateDiffView { last_gc_req: diffs.last_gc_req.push(diff), ..diffs }),
            Err(err) => Err(err),
        },
        Some(ProtoStateField::Rollups) => match diff_read::<u64, String, _, _>(
            raw,
            seqno_from(),
            rollup_key_from(),
        ) {
            Ok(diff) => Ok(StateDiffView { rollups: diffs.rollups.push(diff), ..diffs }),
            Err(err) => Err(err),
        },
        Some(
            ProtoStateField::LeasedReaders,
        ) => match diff_read::<String, ProtoLeasedReaderState, _, _>(
            raw,
            leased_reader_id_from(),
            leased_reader_from(),
        ) {
            Ok(diff) => Ok(
                StateDiffView { leased_readers: diffs.leased_readers.push(diff), ..diffs },
            ),
            Err(err) => Err(err),
        },
        Some(
            ProtoStateField::CriticalReaders,
        ) => match diff_read::<String, ProtoCriticalReaderState, _, _>(
            raw,
            critical_reader_id_from(),
            critical_reader_from(),
        ) {
            Ok(diff) => Ok(
                StateDiffView { critical_readers: diffs.critical_readers.push(diff), ..diffs },
            ),
            Err(err) => Err(err),
        },
        Some(ProtoStateField::Writers) => match diff_read::<String, ProtoWriterState, _, _>(
            raw,
            writer_id_from(),
            writer_from(),
        ) {
            Ok(diff) => Ok(StateDiffView { writers: diffs.writers.push(diff), ..diffs }),
            Err(err) => Err(err),
        },
        Some(ProtoStateField::Since) => match diff_read::<(), ProtoU64Antichain, _, _>(
            raw,
            nothing_from(),
            antichain_from(),
        ) {
            Ok(diff) => Ok(StateDiffView { since: diffs.since.push(diff), ..diffs }),
            Err(err) => Err(err),
        },
        Some(ProtoStateField::Spine) => match diff_read::<ProtoHollowBatch, (), _, _>(
            raw,
            hollow_batch_from(),
            nothing_from(),
        ) {
            Ok(diff) => Ok(StateDiffView { spine: diffs.spine.push(diff), ..diffs }),
            Err(err) => Err(err),
        },
        None => Err(TryFromProtoErrorView::InvalidPersistState(unknown_field(raw.field))),
    }
}

/// The differences between two states, with some more. The first one that is wrong is an error.
pub open spec fn with_all_unpacked(diffs: StateDiffView, raws: Seq<RawDiff>) -> Result<
    StateDiffView,
    TryFromProtoErrorView,
>
    decreases raws.len(),
{
    if raws.len() == 0 {
        Ok(diffs)
    } else {
        match with_all_unpacked(diffs, raws.drop_last()) {
            Ok(between) => with_unpacked(between, raws.last()),
            Err(err) => Err(err),
        }
    }
}

/// The differences between two states as bytes, field by field.
pub open spec fn all_raws(diff: StateDiffView) -> Seq<RawDiff> {
    raws_of(ProtoStateField::Hostname, diff.hostname, nothing_bytes(), text_bytes())
        + raws_of(ProtoStateField::LastGcReq, diff.last_gc_req, nothing_bytes(), seqno_bytes())
        + raws_of(ProtoStateField::Rollups, diff.rollups, seqno_bytes(), rollup_key_bytes())
        + raws_of(
            ProtoStateField::LeasedReaders,
            diff.leased_readers,
            leased_reader_id_bytes(),
            leased_reader_bytes(),
        )
        + raws_of(
            ProtoStateField::CriticalReaders,
            diff.critical_readers,
            critical_reader_id_bytes(),
            critical_reader_bytes(),
        )
        + raws_of(ProtoStateField::Writers, diff.writers, writer_id_bytes(), writer_bytes())
        + raws_of(ProtoStateField::Since, diff.since, nothing_bytes(), antichain_bytes())
        + raws_of(ProtoStateField::Spine, diff.spine, hollow_batch_bytes(), nothing_bytes())
}

/// The message that the difference between two states is written as.
pub open spec fn state_diff_proto(diff: StateDiffView) -> ProtoStateDiffView {
    ProtoStateDiffView {
        applier_version: version_text(diff.applier_version),
        seqno_from: diff.seqno_from,
        seqno_to: diff.seqno_to,
        latest_rollup_key: diff.latest_rollup_key,
        field_diffs: Some(with_raws(no_diffs(), all_raws(diff))),
    }
}

/// The difference between two states that a message stands for. The first thing that is wrong is
/// an error.
pub open spec fn state_diff_of(proto: ProtoStateDiffView) -> Result<
    StateDiffView,
    TryFromProtoErrorView,
> {
    match applier_version_of(proto.applier_version) {
        Ok(applier_version) => {
            let diff = fresh_diff(
                applier_version,
                proto.seqno_from,
                proto.seqno_to,
                proto.latest_rollup_key,
            );
            match proto.field_diffs {
                Some(field_diffs) => if diffs_fit(field_diffs) {
                    with_all_unpacked(diff, raw_diffs(field_diffs))
                } else {
                    Err(TryFromProtoErrorView::InvalidPersistState(misfit(field_diffs)))
                },
                None => Ok(diff),
            }
        },
        Err(err) => Err(err),
    }
}

/// Whether the difference between two states can be read again: its frontiers are ones of a total
/// order, and the leases of its readers last.
pub open spec fn state_diff_valid(diff: StateDiffView) -> bool {
    &&& all_read(
        diff.leased_readers,
        |a: Seq<u8>| true,
        |a: LeasedReaderStateView| leased_reader_valid(a),
    )
    &&& all_read(
        diff.critical_readers,
        |a: Seq<u8>| true,
        |a: CriticalReaderStateView| critical_reader_valid(a),
    )
    &&& all_read(diff.writers, |a: Seq<u8>| true, |a: WriterStateView| writer_valid(a))
    &&& all_read(diff.since, |a: ()| true, |a: Seq<u64>| a.len() <= 1)
    &&& all_read(diff.spine, |a: HollowBatchView| hollow_batch_valid(a), |a: ()| true)
}

proof fn lemma_unpacked_prefix(diffs: StateDiffView, raws: Seq<RawDiff>, i: int)
    requires
        0 <= i <= raws.len(),
    ensures
        with_all_unpacked(diffs, raws.take(i)) matches Err(err) ==> with_all_unpacked(diffs, raws)
            == Err::<StateDiffView, TryFromProtoErrorView>(err),
    decreases raws.len(),
{
    if i < raws.len() {
        lemma_unpacked_prefix(diffs, raws.drop_last(), i);
        assert(raws.drop_last().take(i) =~= raws.take(i));
    } else {
        assert(raws.take(i) =~= raws);
    }
}

proof fn lemma_unpacked_join(diffs: StateDiffView, a: Seq<RawDiff>, b: Seq<RawDiff>)
    ensures
        with_all_unpacked(diffs, a + b) == match with_all_unpacked(diffs, a) {
            Ok(between) => with_all_unpacked(between, b),
            Err(err) => Err(err),
        },
    decreases b.len(),
{
    if b.len() == 0 {
        assert(a + b =~= a);
    } else {
        assert((a + b).drop_last() =~= a + b.drop_last());
        lemma_unpacked_join(diffs, a, b.drop_last());
    }
}

/// If each difference takes the differences of a field from one state to the next, all of them
/// together take them from the first to the last.
proof fn lemma_unpacked_run<A, B>(
    field: ProtoStateField,
    values: Seq<StateFieldDiff<A, B>>,
    key: spec_fn(A) -> Seq<u8>,
    value: spec_fn(B) -> Seq<u8>,
    state: spec_fn(Seq<StateFieldDiff<A, B>>) -> StateDiffView,
    i: int,
)
    requires
        0 <= i <= values.len(),
        forall|i: int|
            0 <= i < values.len() ==> #[trigger] with_unpacked(
                state(values.take(i)),
                raw_of(field, values[i], key, value),
            ) == Ok::<StateDiffView, TryFromProtoErrorView>(state(values.take(i + 1))),
    ensures
        with_all_unpacked(state(Seq::empty()), raws_of(field, values, key, value).take(i)) == Ok::<
            StateDiffView,
            TryFromProtoErrorView,
        >(state(values.take(i))),
    decreases i,
{
    let raws = raws_of(field, values, key, value);
    if i > 0 {
        lemma_unpacked_run(field, values, key, value, state, i - 1);
        assert(raws.take(i).drop_last() =~= raws.take(i - 1));
        assert(raws.take(i).last() == raw_of(field, values[i - 1], key, value));
        assert(with_unpacked(
            state(values.take(i - 1)),
            raw_of(field, values[i - 1], key, value),
        ) == Ok::<StateDiffView, TryFromProtoErrorView>(state(values.take(i - 1 + 1))));
    } else {
        assert(values.take(0) =~= Seq::empty());
    }
}

/// Whether the keys and values of the differences between two states are read as they were
/// written.
pub open spec fn all_reads(diff: StateDiffView) -> bool {
    &&& all_read(diff.hostname, nothing_reads(), text_reads())
    &&& all_read(diff.last_gc_req, nothing_reads(), seqno_reads())
    &&& all_read(diff.rollups, seqno_reads(), rollup_key_reads())
    &&& all_read(diff.leased_readers, leased_reader_id_reads(), leased_reader_reads())
    &&& all_read(diff.critical_readers, critical_reader_id_reads(), critical_reader_reads())
    &&& all_read(diff.writers, writer_id_reads(), writer_reads())
    &&& all_read(diff.since, nothing_reads(), antichain_reads())
    &&& all_read(diff.spine, hollow_batch_reads(), nothing_reads())
}

#[verifier::spinoff_prover]
#[verifier::rlimit(40)]
proof fn lemma_hostname_unpacked(before: StateDiffView, diffs: Seq<StateFieldDiff<(), Seq<char>>>)
    requires
        before.hostname.len() == 0,
        all_read(diffs, nothing_reads(), text_reads()),
    ensures
        with_all_unpacked(
            before,
            raws_of(ProtoStateField::Hostname, diffs, nothing_bytes(), text_bytes()),
        ) == Ok::<StateDiffView, TryFromProtoErrorView>(
            StateDiffView { hostname: diffs, ..before },
        ),
{
    let field = ProtoStateField::Hostname;
    let state = |done: Seq<StateFieldDiff<(), Seq<char>>>| StateDiffView {
        hostname: done,
        ..before
    };
    assert forall|i: int| 0 <= i < diffs.len() implies #[trigger] with_unpacked(
        state(diffs.take(i)),
        raw_of(field, diffs[i], nothing_bytes(), text_bytes()),
    ) == Ok::<StateDiffView, TryFromProtoErrorView>(state(diffs.take(i + 1))) by {
        assert(diff_reads(diffs[i], nothing_reads(), text_reads()));
        lemma_diff_round_trip::<(), String, (), Seq<char>>(
            field,
            diffs[i],
            nothing_bytes(),
            text_bytes(),
            nothing_from(),
            text_from(),
        );
        assert(diffs.take(i).push(diffs[i]) =~= diffs.take(i + 1));
    }
    let n = diffs.len() as int;
    lemma_unpacked_run(field, diffs, nothing_bytes(), text_bytes(), state, n);
    let raws = raws_of(field, diffs, nothing_bytes(), text_bytes());
    assert(raws.take(n) =~= raws);
    assert(diffs.take(n) =~= diffs);
    assert(state(Seq::empty()) =~= before);
}

#[verifier::spinoff_prover]
#[verifier::rlimit(40)]
proof fn lemma_last_gc_req_unpacked(before: StateDiffView, diffs: Seq<StateFieldDiff<(), u64>>)
    requires
        before.last_gc_req.len() == 0,
        all_read(diffs, nothing_reads(), seqno_reads()),
    ensures
        with_all_unpacked(
            before,
            raws_of(ProtoStateField::LastGcReq, diffs, nothing_bytes(), seqno_bytes()),
        ) == Ok::<StateDiffView, TryFromProtoErrorView>(
            StateDiffView { last_gc_req: diffs, ..before },
        ),
{
    let field = ProtoStateField::LastGcReq;
    let state = |done: Seq<StateFieldDiff<(), u64>>| StateDiffView { last_gc_req: done, ..before };
    assert forall|i: int| 0 <= i < diffs.len() implies #[trigger] with_unpacked(
        state(diffs.take(i)),
        raw_of(field, diffs[i], nothing_bytes(), seqno_bytes()),
    ) == Ok::<StateDiffView, TryFromProtoErrorView>(state(diffs.take(i + 1))) by {
        assert(diff_reads(diffs[i], nothing_reads(), seqno_reads()));
        lemma_diff_round_trip::<(), u64, (), u64>(
            field,
            diffs[i],
            nothing_bytes(),
            seqno_bytes(),
            nothing_from(),
            seqno_from(),
        );
        assert(diffs.take(i).push(diffs[i]) =~= diffs.take(i + 1));
    }
    let n = diffs.len() as int;
    lemma_unpacked_run(field, diffs, nothing_bytes(), seqno_bytes(), state, n);
    let raws = raws_of(field, diffs, nothing_bytes(), seqno_bytes());
    assert(raws.take(n) =~= raws);
    assert(diffs.take(n) =~= diffs);
    assert(state(Seq::empty()) =~= before);
}

#[verifier::spinoff_prover]
#[verifier::rlimit(40)]
proof fn lemma_rollups_unpacked(before: StateDiffView, diffs: Seq<StateFieldDiff<u64, Seq<char>>>)
    requires
        before.rollups.len() == 0,
        all_read(diffs, seqno_reads(), rollup_key_reads()),
    ensures
        with_all_unpacked(
            before,
            raws_of(ProtoStateField::Rollups, diffs, seqno_bytes(), rollup_key_bytes()),
        ) == Ok::<StateDiffView, TryFromProtoErrorView>(StateDiffView { rollups: diffs, ..before }),
{
    let field = ProtoStateField::Rollups;
    let state = |done: Seq<StateFieldDiff<u64, Seq<char>>>| StateDiffView {
        rollups: done,
        ..before
    };
    assert forall|i: int| 0 <= i < diffs.len() implies #[trigger] with_unpacked(
        state(diffs.take(i)),
        raw_of(field, diffs[i], seqno_bytes(), rollup_key_bytes()),
    ) == Ok::<StateDiffView, TryFromProtoErrorView>(state(diffs.take(i + 1))) by {
        assert(diff_reads(diffs[i], seqno_reads(), rollup_key_reads()));
        lemma_diff_round_trip::<u64, String, u64, Seq<char>>(
            field,
            diffs[i],
            seqno_bytes(),
            rollup_key_bytes(),
            seqno_from(),
            rollup_key_from(),
        );
        assert(diffs.take(i).push(diffs[i]) =~= diffs.take(i + 1));
    }
    let n = diffs.len() as int;
    lemma_unpacked_run(field, diffs, seqno_bytes(), rollup_key_bytes(), state, n);
    let raws = raws_of(field, diffs, seqno_bytes(), rollup_key_bytes());
    assert(raws.take(n) =~= raws);
    assert(diffs.take(n) =~= diffs);
    assert(state(Seq::empty()) =~= before);
}

#[verifier::spinoff_prover]
#[verifier::rlimit(40)]
proof fn lemma_leased_readers_unpacked(
    before: StateDiffView,
    diffs: Seq<StateFieldDiff<Seq<u8>, LeasedReaderStateView>>,
)
    requires
        before.leased_readers.len() == 0,
        all_read(diffs, leased_reader_id_reads(), leased_reader_reads()),
        all_read(diffs, |a: Seq<u8>| true, |a: LeasedReaderStateView| leased_reader_valid(a)),
    ensures
        with_all_unpacked(
            before,
            raws_of(
                ProtoStateField::LeasedReaders,
                diffs,
                leased_reader_id_bytes(),
                leased_reader_bytes(),
            ),
        ) == Ok::<StateDiffView, TryFromProtoErrorView>(
            StateDiffView { leased_readers: diffs, ..before },
        ),
{
    let field = ProtoStateField::LeasedReaders;
    let state = |done: Seq<StateFieldDiff<Seq<u8>, LeasedReaderStateView>>| StateDiffView {
        leased_readers: done,
        ..before
    };
    assert forall|i: int| 0 <= i < diffs.len() implies #[trigger] with_unpacked(
        state(diffs.take(i)),
        raw_of(field, diffs[i], leased_reader_id_bytes(), leased_reader_bytes()),
    ) == Ok::<StateDiffView, TryFromProtoErrorView>(state(diffs.take(i + 1))) by {
        assert(diff_reads(diffs[i], leased_reader_id_reads(), leased_reader_reads()));
        lemma_diff_round_trip::<String, ProtoLeasedReaderState, Seq<u8>, LeasedReaderStateView>(
            field,
            diffs[i],
            leased_reader_id_bytes(),
            leased_reader_bytes(),
            leased_reader_id_from(),
            leased_reader_from(),
        );
        assert(diffs.take(i).push(diffs[i]) =~= diffs.take(i + 1));
    }
    let n = diffs.len() as int;
    lemma_unpacked_run(field, diffs, leased_reader_id_bytes(), leased_reader_bytes(), state, n);
    let raws = raws_of(field, diffs, leased_reader_id_bytes(), leased_reader_bytes());
    assert(raws.take(n) =~= raws);
    assert(diffs.take(n) =~= diffs);
    assert(state(Seq::empty()) =~= before);
}

#[verifier::spinoff_prover]
#[verifier::rlimit(40)]
proof fn lemma_critical_readers_unpacked(
    before: StateDiffView,
    diffs: Seq<StateFieldDiff<Seq<u8>, CriticalReaderStateView>>,
)
    requires
        before.critical_readers.len() == 0,
        all_read(diffs, critical_reader_id_reads(), critical_reader_reads()),
        all_read(diffs, |a: Seq<u8>| true, |a: CriticalReaderStateView| critical_reader_valid(a)),
    ensures
        with_all_unpacked(
            before,
            raws_of(
                ProtoStateField::CriticalReaders,
                diffs,
                critical_reader_id_bytes(),
                critical_reader_bytes(),
            ),
        ) == Ok::<StateDiffView, TryFromProtoErrorView>(
            StateDiffView { critical_readers: diffs, ..before },
        ),
{
    let field = ProtoStateField::CriticalReaders;
    let state = |done: Seq<StateFieldDiff<Seq<u8>, CriticalReaderStateView>>| StateDiffView {
        critical_readers: done,
        ..before
    };
    assert forall|i: int| 0 <= i < diffs.len() implies #[trigger] with_unpacked(
        state(diffs.take(i)),
        raw_of(field, diffs[i], critical_reader_id_bytes(), critical_reader_bytes()),
    ) == Ok::<StateDiffView, TryFromProtoErrorView>(state(diffs.take(i + 1))) by {
        assert(diff_reads(diffs[i], critical_reader_id_reads(), critical_reader_reads()));
        lemma_diff_round_trip::<String, ProtoCriticalReaderState, Seq<u8>, CriticalReaderStateView>(
            field,
            diffs[i],
            critical_reader_id_bytes(),
            critical_reader_bytes(),
            critical_reader_id_from(),
            critical_reader_from(),
        );
        assert(diffs.take(i).push(diffs[i]) =~= diffs.take(i + 1));
    }
    let n = diffs.len() as int;
    lemma_unpacked_run(field, diffs, critical_reader_id_bytes(), critical_reader_bytes(), state, n);
    let raws = raws_of(field, diffs, critical_reader_id_bytes(), critical_reader_bytes());
    assert(raws.take(n) =~= raws);
    assert(diffs.take(n) =~= diffs);
    assert(state(Seq::empty()) =~= before);
}

#[verifier::spinoff_prover]
#[verifier::rlimit(40)]
proof fn lemma_writers_unpacked(
    before: StateDiffView,
    diffs: Seq<StateFieldDiff<Seq<u8>, WriterStateView>>,
)
    requires
        before.writers.len() == 0,
        all_read(diffs, writer_id_reads(), writer_reads()),
        all_read(diffs, |a: Seq<u8>| true, |a: WriterStateView| writer_valid(a)),
    ensures
        with_all_unpacked(
            before,
            raws_of(ProtoStateField::Writers, diffs, writer_id_bytes(), writer_bytes()),
        ) == Ok::<StateDiffView, TryFromProtoErrorView>(StateDiffView { writers: diffs, ..before }),
{
    let field = ProtoStateField::Writers;
    let state = |done: Seq<StateFieldDiff<Seq<u8>, WriterStateView>>| StateDiffView {
        writers: done,
        ..before
    };
    assert forall|i: int| 0 <= i < diffs.len() implies #[trigger] with_unpacked(
        state(diffs.take(i)),
        raw_of(field, diffs[i], writer_id_bytes(), writer_bytes()),
    ) == Ok::<StateDiffView, TryFromProtoErrorView>(state(diffs.take(i + 1))) by {
        assert(diff_reads(diffs[i], writer_id_reads(), writer_reads()));
        lemma_diff_round_trip::<String, ProtoWriterState, Seq<u8>, WriterStateView>(
            field,
            diffs[i],
            writer_id_bytes(),
            writer_bytes(),
            writer_id_from(),
            writer_from(),
        );
        assert(diffs.take(i).push(diffs[i]) =~= diffs.take(i + 1));
    }
    let n = diffs.len() as int;
    lemma_unpacked_run(field, diffs, writer_id_bytes(), writer_bytes(), state, n);
    let raws = raws_of(field, diffs, writer_id_bytes(), writer_bytes());
    assert(raws.take(n) =~= raws);
    assert(diffs.take(n) =~= diffs);
    assert(state(Seq::empty()) =~= before);
}

#[verifier::spinoff_prover]
#[verifier::rlimit(40)]
proof fn lemma_since_unpacked(before: StateDiffView, diffs: Seq<StateFieldDiff<(), Seq<u64>>>)
    requires
        before.since.len() == 0,
        all_read(diffs, nothing_reads(), antichain_reads()),
        all_read(diffs, |a: ()| true, |a: Seq<u64>| a.len() <= 1),
    ensures
        with_all_unpacked(
            before,
            raws_of(ProtoStateField::Since, diffs, nothing_bytes(), antichain_bytes()),
        ) == Ok::<StateDiffView, TryFromProtoErrorView>(StateDiffView { since: diffs, ..before }),
{
    let field = ProtoStateField::Since;
    let state = |done: Seq<StateFieldDiff<(), Seq<u64>>>| StateDiffView { since: done, ..before };
    assert forall|i: int| 0 <= i < diffs.len() implies #[trigger] with_unpacked(
        state(diffs.take(i)),
        raw_of(field, diffs[i], nothing_bytes(), antichain_bytes()),
    ) == Ok::<StateDiffView, TryFromProtoErrorView>(state(diffs.take(i + 1))) by {
        assert(diff_reads(diffs[i], nothing_reads(), antichain_reads()));
        lemma_diff_round_trip::<(), ProtoU64Antichain, (), Seq<u64>>(
            field,
            diffs[i],
            nothing_bytes(),
            antichain_bytes(),
            nothing_from(),
            antichain_from(),
        );
        assert(diffs.take(i).push(diffs[i]) =~= diffs.take(i + 1));
    }
    let n = diffs.len() as int;
    lemma_unpacked_run(field, diffs, nothing_bytes(), antichain_bytes(), state, n);
    let raws = raws_of(field, diffs, nothing_bytes(), antichain_bytes());
    assert(raws.take(n) =~= raws);
    assert(diffs.take(n) =~= diffs);
    assert(state(Seq::empty()) =~= before);
}

#[verifier::spinoff_prover]
#[verifier::rlimit(40)]
proof fn lemma_spine_unpacked(
    before: StateDiffView,
    diffs: Seq<StateFieldDiff<HollowBatchView, ()>>,
)
    requires
        before.spine.len() == 0,
        all_read(diffs, hollow_batch_reads(), nothing_reads()),
        all_read(diffs, |a: HollowBatchView| hollow_batch_valid(a), |a: ()| true),
    ensures
        with_all_unpacked(
            before,
            raws_of(ProtoStateField::Spine, diffs, hollow_batch_bytes(), nothing_bytes()),
        ) == Ok::<StateDiffView, TryFromProtoErrorView>(StateDiffView { spine: diffs, ..before }),
{
    let field = ProtoStateField::Spine;
    let state = |done: Seq<StateFieldDiff<HollowBatchView, ()>>| StateDiffView {
        spine: done,
        ..before
    };
    assert forall|i: int| 0 <= i < diffs.len() implies #[trigger] with_unpacked(
        state(diffs.take(i)),
        raw_of(field, diffs[i], hollow_batch_bytes(), nothing_bytes()),
    ) == Ok::<StateDiffView, TryFromProtoErrorView>(state(diffs.take(i + 1))) by {
        assert(diff_reads(diffs[i], hollow_batch_reads(), nothing_reads()));
        lemma_diff_round_trip::<ProtoHollowBatch, (), HollowBatchView, ()>(
            field,
            diffs[i],
            hollow_batch_bytes(),
            nothing_bytes(),
            hollow_batch_from(),
            nothing_from(),
        );
        assert(diffs.take(i).push(diffs[i]) =~= diffs.take(i + 1));
    }
    let n = diffs.len() as int;
    lemma_unpacked_run(field, diffs, hollow_batch_bytes(), nothing_bytes(), state, n);
    let raws = raws_of(field, diffs, hollow_batch_bytes(), nothing_bytes());
    assert(raws.take(n) =~= raws);
    assert(diffs.take(n) =~= diffs);
    assert(state(Seq::empty()) =~= before);
}

/// The differences between two states are unpacked as they were packed.
#[verifier::spinoff_prover]
#[verifier::rlimit(40)]
proof fn lemma_all_unpacked(diff: StateDiffView)
    requires
        state_diff_valid(diff),
        all_reads(diff),
    ensures
        with_all_unpacked(
            fresh_diff(
                diff.applier_version,
                diff.seqno_from,
                diff.seqno_to,
                diff.latest_rollup_key,
            ),
            all_raws(diff),
        ) == Ok::<StateDiffView, TryFromProtoErrorView>(diff),
{
    let s0 = fresh_diff(
        diff.applier_version,
        diff.seqno_from,
        diff.seqno_to,
        diff.latest_rollup_key,
    );
    let r1 = raws_of(ProtoStateField::Hostname, diff.hostname, nothing_bytes(), text_bytes());
    let r2 = raws_of(ProtoStateField::LastGcReq, diff.last_gc_req, nothing_bytes(), seqno_bytes());
    let r3 = raws_of(ProtoStateField::Rollups, diff.rollups, seqno_bytes(), rollup_key_bytes());
    let r4 = raws_of(
        ProtoStateField::LeasedReaders,
        diff.leased_readers,
        leased_reader_id_bytes(),
        leased_reader_bytes(),
    );
    let r5 = raws_of(
        ProtoStateField::CriticalReaders,
        diff.critical_readers,
        critical_reader_id_bytes(),
        critical_reader_bytes(),
    );
    let r6 = raws_of(ProtoStateField::Writers, diff.writers, writer_id_bytes(), writer_bytes());
    let r7 = raws_of(ProtoStateField::Since, diff.since, nothing_bytes(), antichain_bytes());
    let r8 = raws_of(ProtoStateField::Spine, diff.spine, hollow_batch_bytes(), nothing_bytes());
    let s1 = StateDiffView { hostname: diff.hostname, ..s0 };
    let s2 = StateDiffView { last_gc_req: diff.last_gc_req, ..s1 };
    let s3 = StateDiffView { rollups: diff.rollups, ..s2 };
    let s4 = StateDiffView { leased_readers: diff.leased_readers, ..s3 };
    let s5 = StateDiffView { critical_readers: diff.critical_readers, ..s4 };
    let s6 = StateDiffView { writers: diff.writers, ..s5 };
    let s7 = StateDiffView { since: diff.since, ..s6 };
    let s8 = StateDiffView { spine: diff.spine, ..s7 };
    let none = Seq::<RawDiff>::empty();
    assert(with_all_unpacked(s0, none) == Ok::<StateDiffView, TryFromProtoErrorView>(s0));
    lemma_hostname_unpacked(s0, diff.hostname);
    let a1 = r1;
    lemma_last_gc_req_unpacked(s1, diff.last_gc_req);
    lemma_unpacked_join(s0, a1, r2);
    let a2 = a1 + r2;
    lemma_rollups_unpacked(s2, diff.rollups);
    lemma_unpacked_join(s0, a2, r3);
    let a3 = a2 + r3;
    lemma_leased_readers_unpacked(s3, diff.leased_readers);
    lemma_unpacked_join(s0, a3, r4);
    let a4 = a3 + r4;
    lemma_critical_readers_unpacked(s4, diff.critical_readers);
    lemma_unpacked_join(s0, a4, r5);
    let a5 = a4 + r5;
    lemma_writers_unpacked(s5, diff.writers);
    lemma_unpacked_join(s0, a5, r6);
    let a6 = a5 + r6;
    lemma_since_unpacked(s6, diff.since);
    lemma_unpacked_join(s0, a6, r7);
    let a7 = a6 + r7;
    lemma_spine_unpacked(s7, diff.spine);
    lemma_unpacked_join(s0, a7, r8);
    let a8 = a7 + r8;
    assert(s8 =~= diff);
}

fn pack_hostname(
    diffs: &Vec<StateFieldDiff<(), String>>,
    proto: &mut ProtoStateFieldDiffs,
)
    ensures
        final(proto)@ == with_raws(
            old(proto)@,
            raws_of(
                ProtoStateField::Hostname,
                diffs_view(diffs@, nothing_view(), text_view()),
                nothing_bytes(),
                text_bytes(),
            ),
        ),
        all_read(
            diffs_view(diffs@, nothing_view(), text_view()),
            nothing_reads(),
            text_reads(),
        ),
        all_fit(
            raws_of(
                ProtoStateField::Hostname,
                diffs_view(diffs@, nothing_view(), text_view()),
                nothing_bytes(),
                text_bytes(),
            ),
        ),
{
    let field = ProtoStateField::Hostname;
    field_diffs_into_proto(field, diffs, proto, &write_nothing, &write_text);
    proof {
        let raws = choose|raws: Seq<RawDiff>| #[trigger]
            all_written_as(field, diffs@, write_nothing, write_text, raws) && proto@ == with_raws(
                old(proto)@,
                raws,
            );
        lemma_written(
            field,
            diffs@,
            write_nothing,
            write_text,
            raws,
            nothing_view(),
            text_view(),
            nothing_bytes(),
            text_bytes(),
            nothing_reads(),
            text_reads(),
        );
    }
}

fn unpack_hostname(
    proto: ProtoStateFieldDiff<'_>,
    diffs: &mut Vec<StateFieldDiff<(), String>>,
) -> (r: Result<(), TryFromProtoError>)
    ensures
        match diff_read::<(), String, (), Seq<char>>(
            proto@,
            nothing_from(),
            text_from(),
        ) {
            Ok(diff) => r is Ok && diffs_view(final(diffs)@, nothing_view(), text_view())
                == diffs_view(old(diffs)@, nothing_view(), text_view()).push(diff),
            Err(err) => stopped(old(diffs)@, final(diffs)@, r, err),
        },
{
    let r = field_diff_into_rust::<(), String, (), String, _, _>(
        proto,
        diffs,
        &read_nothing,
        &read_text,
    );
    proof {
        lemma_unpacked::<(), String, (), String, _, _, (), Seq<char>>(
            proto@,
            old(diffs)@,
            diffs@,
            r,
            read_nothing,
            read_text,
            nothing_view(),
            text_view(),
            nothing_from(),
            text_from(),
        );
    }
    r
}

fn pack_last_gc_req(
    diffs: &Vec<StateFieldDiff<(), SeqNo>>,
    proto: &mut ProtoStateFieldDiffs,
)
    ensures
        final(proto)@ == with_raws(
            old(proto)@,
            raws_of(
                ProtoStateField::LastGcReq,
                diffs_view(diffs@, nothing_view(), seqno_view()),
                nothing_bytes(),
                seqno_bytes(),
            ),
        ),
        all_read(
            diffs_view(diffs@, nothing_view(), seqno_view()),
            nothing_reads(),
            seqno_reads(),
        ),
        all_fit(
            raws_of(
                ProtoStateField::LastGcReq,
                diffs_view(diffs@, nothing_view(), seqno_view()),
                nothing_bytes(),
                seqno_bytes(),
            ),
        ),
{
    let field = ProtoStateField::LastGcReq;
    field_diffs_into_proto(field, diffs, proto, &write_nothing, &write_seqno);
    proof {
        let raws = choose|raws: Seq<RawDiff>| #[trigger]
            all_written_as(field, diffs@, write_nothing, write_seqno, raws) && proto@ == with_raws(
                old(proto)@,
                raws,
            );
        lemma_written(
            field,
            diffs@,
            write_nothing,
            write_seqno,
            raws,
            nothing_view(),
            seqno_view(),
            nothing_bytes(),
            seqno_bytes(),
            nothing_reads(),
            seqno_reads(),
        );
    }
}

fn unpack_last_gc_req(
    proto: ProtoStateFieldDiff<'_>,
    diffs: &mut Vec<StateFieldDiff<(), SeqNo>>,
) -> (r: Result<(), TryFromProtoError>)
    ensures
        match diff_read::<(), u64, (), u64>(
            proto@,
            nothing_from(),
            seqno_from(),
        ) {
            Ok(diff) => r is Ok && diffs_view(final(diffs)@, nothing_view(), seqno_view())
                == diffs_view(old(diffs)@, nothing_view(), seqno_view()).push(diff),
            Err(err) => stopped(old(diffs)@, final(diffs)@, r, err),
        },
{
    let r = field_diff_into_rust::<(), u64, (), SeqNo, _, _>(
        proto,
        diffs,
        &read_nothing,
        &read_seqno,
    );
    proof {
        lemma_unpacked::<(), u64, (), SeqNo, _, _, (), u64>(
            proto@,
            old(diffs)@,
            diffs@,
            r,
            read_nothing,
            read_seqno,
            nothing_view(),
            seqno_view(),
            nothing_from(),
            seqno_from(),
        );
    }
    r
}

fn pack_rollups(
    diffs: &Vec<StateFieldDiff<SeqNo, PartialRollupKey>>,
    proto: &mut ProtoStateFieldDiffs,
)
    ensures
        final(proto)@ == with_raws(
            old(proto)@,
            raws_of(
                ProtoStateField::Rollups,
                diffs_view(diffs@, seqno_view(), rollup_key_view()),
                seqno_bytes(),
                rollup_key_bytes(),
            ),
        ),
        all_read(
            diffs_view(diffs@, seqno_view(), rollup_key_view()),
            seqno_reads(),
            rollup_key_reads(),
        ),
        all_fit(
            raws_of(
                ProtoStateField::Rollups,
                diffs_view(diffs@, seqno_view(), rollup_key_view()),
                seqno_bytes(),
                rollup_key_bytes(),
            ),
        ),
{
    let field = ProtoStateField::Rollups;
    field_diffs_into_proto(field, diffs, proto, &write_seqno, &write_rollup_key);
    proof {
        let raws = choose|raws: Seq<RawDiff>| #[trigger]
            all_written_as(
                field,
                diffs@,
                write_seqno,
                write_rollup_key,
                raws,
            ) && proto@ == with_raws(
                old(proto)@,
                raws,
            );
        lemma_written(
            field,
            diffs@,
            write_seqno,
            write_rollup_key,
            raws,
            seqno_view(),
            rollup_key_view(),
            seqno_bytes(),
            rollup_key_bytes(),
            seqno_reads(),
            rollup_key_reads(),
        );
    }
}

fn unpack_rollups(
    proto: ProtoStateFieldDiff<'_>,
    diffs: &mut Vec<StateFieldDiff<SeqNo, PartialRollupKey>>,
) -> (r: Result<(), TryFromProtoError>)
    ensures
        match diff_read::<u64, String, u64, Seq<char>>(
            proto@,
            seqno_from(),
            rollup_key_from(),
        ) {
            Ok(diff) => r is Ok && diffs_view(final(diffs)@, seqno_view(), rollup_key_view())
                == diffs_view(old(diffs)@, seqno_view(), rollup_key_view()).push(diff),
            Err(err) => stopped(old(diffs)@, final(diffs)@, r, err),
        },
{
    let r = field_diff_into_rust::<u64, String, SeqNo, PartialRollupKey, _, _>(
        proto,
        diffs,
        &read_seqno,
        &read_rollup_key,
    );
    proof {
        lemma_unpacked::<u64, String, SeqNo, PartialRollupKey, _, _, u64, Seq<char>>(
            proto@,
            old(diffs)@,
            diffs@,
            r,
            read_seqno,
            read_rollup_key,
            seqno_view(),
            rollup_key_view(),
            seqno_from(),
            rollup_key_from(),
        );
    }
    r
}

fn pack_leased_readers(
    diffs: &Vec<StateFieldDiff<LeasedReaderId, LeasedReaderState<u64>>>,
    proto: &mut ProtoStateFieldDiffs,
)
    ensures
        final(proto)@ == with_raws(
            old(proto)@,
            raws_of(
                ProtoStateField::LeasedReaders,
                diffs_view(diffs@, leased_reader_id_view(), leased_reader_view()),
                leased_reader_id_bytes(),
                leased_reader_bytes(),
            ),
        ),
        all_read(
            diffs_view(diffs@, leased_reader_id_view(), leased_reader_view()),
            leased_reader_id_reads(),
            leased_reader_reads(),
        ),
        all_fit(
            raws_of(
                ProtoStateField::LeasedReaders,
                diffs_view(diffs@, leased_reader_id_view(), leased_reader_view()),
                leased_reader_id_bytes(),
                leased_reader_bytes(),
            ),
        ),
{
    let field = ProtoStateField::LeasedReaders;
    field_diffs_into_proto(field, diffs, proto, &write_leased_reader_id, &write_leased_reader);
    proof {
        let raws = choose|raws: Seq<RawDiff>| #[trigger]
            all_written_as(
                field,
                diffs@,
                write_leased_reader_id,
                write_leased_reader,
                raws,
            ) && proto@ == with_raws(
                old(proto)@,
                raws,
            );
        lemma_written(
            field,
            diffs@,
            write_leased_reader_id,
            write_leased_reader,
            raws,
            leased_reader_id_view(),
            leased_reader_view(),
            leased_reader_id_bytes(),
            leased_reader_bytes(),
            leased_reader_id_reads(),
            leased_reader_reads(),
        );
    }
}

fn unpack_leased_readers(
    proto: ProtoStateFieldDiff<'_>,
    diffs: &mut Vec<StateFieldDiff<LeasedReaderId, LeasedReaderState<u64>>>,
) -> (r: Result<(), TryFromProtoError>)
    ensures
        match diff_read::<String, ProtoLeasedReaderState, Seq<u8>, LeasedReaderStateView>(
            proto@,
            leased_reader_id_from(),
            leased_reader_from(),
        ) {
            Ok(diff) => r is Ok && diffs_view(
                final(diffs)@,
                leased_reader_id_view(),
                leased_reader_view(),
            )
                == diffs_view(
                    old(diffs)@,
                    leased_reader_id_view(),
                    leased_reader_view(),
                ).push(diff),
            Err(err) => stopped(old(diffs)@, final(diffs)@, r, err),
        },
{
    let r = field_diff_into_rust::<
        String,
        ProtoLeasedReaderState,
        LeasedReaderId,
        LeasedReaderState<u64>,
        _,
        _,
    >(
        proto,
        diffs,
        &read_leased_reader_id,
        &read_leased_reader,
    );
    proof {
        lemma_unpacked::<
            String,
            ProtoLeasedReaderState,
            LeasedReaderId,
            LeasedReaderState<u64>,
            _,
            _,
            Seq<u8>,
            LeasedReaderStateView,
        >(
            proto@,
            old(diffs)@,
            diffs@,
            r,
            read_leased_reader_id,
            read_leased_reader,
            leased_reader_id_view(),
            leased_reader_view(),
            leased_reader_id_from(),
            leased_reader_from(),
        );
    }
    r
}

fn pack_critical_readers(
    diffs: &Vec<StateFieldDiff<CriticalReaderId, CriticalReaderState<u64>>>,
    proto: &mut ProtoStateFieldDiffs,
)
    ensures
        final(proto)@ == with_raws(
            old(proto)@,
            raws_of(
                ProtoStateField::CriticalReaders,
                diffs_view(diffs@, critical_reader_id_view(), critical_reader_view()),
                critical_reader_id_bytes(),
                critical_reader_bytes(),
            ),
        ),
        all_read(
            diffs_view(diffs@, critical_reader_id_view(), critical_reader_view()),
            critical_reader_id_reads(),
            critical_reader_reads(),
        ),
        all_fit(
            raws_of(
                ProtoStateField::CriticalReaders,
                diffs_view(diffs@, critical_reader_id_view(), critical_reader_view()),
                critical_reader_id_bytes(),
                critical_reader_bytes(),
            ),
        ),
{
    let field = ProtoStateField::CriticalReaders;
    field_diffs_into_proto(field, diffs, proto, &write_critical_reader_id, &write_critical_reader);
    proof {
        let raws = choose|raws: Seq<RawDiff>| #[trigger]
            all_written_as(
                field,
                diffs@,
                write_critical_reader_id,
                write_critical_reader,
                raws,
            ) && proto@ == with_raws(
                old(proto)@,
                raws,
            );
        lemma_written(
            field,
            diffs@,
            write_critical_reader_id,
            write_critical_reader,
            raws,
            critical_reader_id_view(),
            critical_reader_view(),
            critical_reader_id_bytes(),
            critical_reader_bytes(),
            critical_reader_id_reads(),
            critical_reader_reads(),
        );
    }
}

fn unpack_critical_readers(
    proto: ProtoStateFieldDiff<'_>,
    diffs: &mut Vec<StateFieldDiff<CriticalReaderId, CriticalReaderState<u64>>>,
) -> (r: Result<(), TryFromProtoError>)
    ensures
        match diff_read::<String, ProtoCriticalReaderState, Seq<u8>, CriticalReaderStateView>(
            proto@,
            critical_reader_id_from(),
            critical_reader_from(),
        ) {
            Ok(diff) => r is Ok && diffs_view(
                final(diffs)@,
                critical_reader_id_view(),
                critical_reader_view(),
            )
                == diffs_view(
                    old(diffs)@,
                    critical_reader_id_view(),
                    critical_reader_view(),
                ).push(diff),
            Err(err) => stopped(old(diffs)@, final(diffs)@, r, err),
        },
{
    let r = field_diff_into_rust::<
        String,
        ProtoCriticalReaderState,
        CriticalReaderId,
        CriticalReaderState<u64>,
        _,
        _,
    >(
        proto,
        diffs,
        &read_critical_reader_id,
        &read_critical_reader,
    );
    proof {
        lemma_unpacked::<
            String,
            ProtoCriticalReaderState,
            CriticalReaderId,
            CriticalReaderState<u64>,
            _,
            _,
            Seq<u8>,
            CriticalReaderStateView,
        >(
            proto@,
            old(diffs)@,
            diffs@,
            r,
            read_critical_reader_id,
            read_critical_reader,
            critical_reader_id_view(),
            critical_reader_view(),
            critical_reader_id_from(),
            critical_reader_from(),
        );
    }
    r
}

fn pack_writers(
    diffs: &Vec<StateFieldDiff<WriterId, WriterState<u64>>>,
    proto: &mut ProtoStateFieldDiffs,
)
    ensures
        final(proto)@ == with_raws(
            old(proto)@,
            raws_of(
                ProtoStateField::Writers,
                diffs_view(diffs@, writer_id_view(), writer_view()),
                writer_id_bytes(),
                writer_bytes(),
            ),
        ),
        all_read(
            diffs_view(diffs@, writer_id_view(), writer_view()),
            writer_id_reads(),
            writer_reads(),
        ),
        all_fit(
            raws_of(
                ProtoStateField::Writers,
                diffs_view(diffs@, writer_id_view(), writer_view()),
                writer_id_bytes(),
                writer_bytes(),
            ),
        ),
{
    let field = ProtoStateField::Writers;
    field_diffs_into_proto(field, diffs, proto, &write_writer_id, &write_writer);
    proof {
        let raws = choose|raws: Seq<RawDiff>| #[trigger]
            all_written_as(
                field,
                diffs@,
                write_writer_id,
                write_writer,
                raws,
            ) && proto@ == with_raws(
                old(proto)@,
                raws,
            );
        lemma_written(
            field,
            diffs@,
            write_writer_id,
            write_writer,
            raws,
            writer_id_view(),
            writer_view(),
            writer_id_bytes(),
            writer_bytes(),
            writer_id_reads(),
            writer_reads(),
        );
    }
}

fn unpack_writers(
    proto: ProtoStateFieldDiff<'_>,
    diffs: &mut Vec<StateFieldDiff<WriterId, WriterState<u64>>>,
) -> (r: Result<(), TryFromProtoError>)
    ensures
        match diff_read::<String, ProtoWriterState, Seq<u8>, WriterStateView>(
            proto@,
            writer_id_from(),
            writer_from(),
        ) {
            Ok(diff) => r is Ok && diffs_view(final(diffs)@, writer_id_view(), writer_view())
                == diffs_view(old(diffs)@, writer_id_view(), writer_view()).push(diff),
            Err(err) => stopped(old(diffs)@, final(diffs)@, r, err),
        },
{
    let r = field_diff_into_rust::<String, ProtoWriterState, WriterId, WriterState<u64>, _, _>(
        proto,
        diffs,
        &read_writer_id,
        &read_writer,
    );
    proof {
        lemma_unpacked::<
            String,
            ProtoWriterState,
            WriterId,
            WriterState<u64>,
            _,
            _,
            Seq<u8>,
            WriterStateView,
        >(
            proto@,
            old(diffs)@,
            diffs@,
            r,
            read_writer_id,
            read_writer,
            writer_id_view(),
            writer_view(),
            writer_id_from(),
            writer_from(),
        );
    }
    r
}

fn pack_since(
    diffs: &Vec<StateFieldDiff<(), Antichain<u64>>>,
    proto: &mut ProtoStateFieldDiffs,
)
    ensures
        final(proto)@ == with_raws(
            old(proto)@,
            raws_of(
                ProtoStateField::Since,
                diffs_view(diffs@, nothing_view(), antichain_view()),
                nothing_bytes(),
                antichain_bytes(),
            ),
        ),
        all_read(
            diffs_view(diffs@, nothing_view(), antichain_view()),
            nothing_reads(),
            antichain_reads(),
        ),
        all_fit(
            raws_of(
                ProtoStateField::Since,
                diffs_view(diffs@, nothing_view(), antichain_view()),
                nothing_bytes(),
                antichain_bytes(),
            ),
        ),
{
    let field = ProtoStateField::Since;
    field_diffs_into_proto(field, diffs, proto, &write_nothing, &write_antichain);
    proof {
        let raws = choose|raws: Seq<RawDiff>| #[trigger]
            all_written_as(
                field,
                diffs@,
                write_nothing,
                write_antichain,
                raws,
            ) && proto@ == with_raws(
                old(proto)@,
                raws,
            );
        lemma_written(
            field,
            diffs@,
            write_nothing,
            write_antichain,
            raws,
            nothing_view(),
            antichain_view(),
            nothing_bytes(),
            antichain_bytes(),
            nothing_reads(),
            antichain_reads(),
        );
    }
}

fn unpack_since(
    proto: ProtoStateFieldDiff<'_>,
    diffs: &mut Vec<StateFieldDiff<(), Antichain<u64>>>,
) -> (r: Result<(), TryFromProtoError>)
    ensures
        match diff_read::<(), ProtoU64Antichain, (), Seq<u64>>(
            proto@,
            nothing_from(),
            antichain_from(),
        ) {
            Ok(diff) => r is Ok && diffs_view(final(diffs)@, nothing_view(), antichain_view())
                == diffs_view(old(diffs)@, nothing_view(), antichain_view()).push(diff),
            Err(err) => stopped(old(diffs)@, final(diffs)@, r, err),
        },
{
    let r = field_diff_into_rust::<(), ProtoU64Antichain, (), Antichain<u64>, _, _>(
        proto,
        diffs,
        &read_nothing,
        &read_antichain,
    );
    proof {
        lemma_unpacked::<(), ProtoU64Antichain, (), Antichain<u64>, _, _, (), Seq<u64>>(
            proto@,
            old(diffs)@,
            diffs@,
            r,
            read_nothing,
            read_antichain,
            nothing_view(),
            antichain_view(),
            nothing_from(),
            antichain_from(),
        );
    }
    r
}

fn pack_spine(
    diffs: &Vec<StateFieldDiff<HollowBatch<u64>, ()>>,
    proto: &mut ProtoStateFieldDiffs,
)
    ensures
        final(proto)@ == with_raws(
            old(proto)@,
            raws_of(
                ProtoStateField::Spine,
                diffs_view(diffs@, hollow_batch_view(), nothing_view()),
                hollow_batch_bytes(),
                nothing_bytes(),
            ),
        ),
        all_read(
            diffs_view(diffs@, hollow_batch_view(), nothing_view()),
            hollow_batch_reads(),
            nothing_reads(),
        ),
        all_fit(
            raws_of(
                ProtoStateField::Spine,
                diffs_view(diffs@, hollow_batch_view(), nothing_view()),
                hollow_batch_bytes(),
                nothing_bytes(),
            ),
        ),
{
    let field = ProtoStateField::Spine;
    field_diffs_into_proto(field, diffs, proto, &write_hollow_batch, &write_nothing);
    proof {
        let raws = choose|raws: Seq<RawDiff>| #[trigger]
            all_written_as(
                field,
                diffs@,
                write_hollow_batch,
                write_nothing,
                raws,
            ) && proto@ == with_raws(
                old(proto)@,
                raws,
            );
        lemma_written(
            field,
            diffs@,
            write_hollow_batch,
            write_nothing,
            raws,
            hollow_batch_view(),
            nothing_view(),
            hollow_batch_bytes(),
            nothing_bytes(),
            hollow_batch_reads(),
            nothing_reads(),
        );
    }
}

fn unpack_spine(
    proto: ProtoStateFieldDiff<'_>,
    diffs: &mut Vec<StateFieldDiff<HollowBatch<u64>, ()>>,
) -> (r: Result<(), TryFromProtoError>)
    ensures
        match diff_read::<ProtoHollowBatch, (), HollowBatchView, ()>(
            proto@,
            hollow_batch_from(),
            nothing_from(),
        ) {
            Ok(diff) => r is Ok && diffs_view(final(diffs)@, hollow_batch_view(), nothing_view())
                == diffs_view(old(diffs)@, hollow_batch_view(), nothing_view()).push(diff),
            Err(err) => stopped(old(diffs)@, final(diffs)@, r, err),
        },
{
    let r = field_diff_into_rust::<ProtoHollowBatch, (), HollowBatch<u64>, (), _, _>(
        proto,
        diffs,
        &read_hollow_batch,
        &read_nothing,
    );
    proof {
        lemma_unpacked::<ProtoHollowBatch, (), HollowBatch<u64>, (), _, _, HollowBatchView, ()>(
            proto@,
            old(diffs)@,
            diffs@,
            r,
            read_hollow_batch,
            read_nothing,
            hollow_batch_view(),
            nothing_view(),
            hollow_batch_from(),
            nothing_from(),
        );
    }
    r
}

/// Whether each difference can be packed.
spec fn all_fit(raws: Seq<RawDiff>) -> bool {
    forall|i: int| 0 <= i < raws.len() ==> raw_fits(#[trigger] raws[i])
}

proof fn lemma_fit_join(a: Seq<RawDiff>, b: Seq<RawDiff>)
    requires
        all_fit(a),
        all_fit(b),
    ensures
        all_fit(a + b),
{
    assert forall|i: int| 0 <= i < (a + b).len() implies raw_fits(#[trigger] (a + b)[i]) by {
        if i < a.len() {
            assert((a + b)[i] == a[i]);
        } else {
            assert((a + b)[i] == b[i - a.len()]);
        }
    }
}

impl StateDiff<u64> {
    /// Packs the differences of all fields.
    fn pack(&self) -> (field_diffs: ProtoStateFieldDiffs)
        ensures
            field_diffs@ == with_raws(no_diffs(), all_raws(self@)),
            all_fit(all_raws(self@)),
            all_reads(self@),
    {
        let mut field_diffs: ProtoStateFieldDiffs = ProtoStateFieldDiffs::new();
        pack_hostname(&self.hostname, &mut field_diffs);
        let ghost r1 = raws_of(
            ProtoStateField::Hostname,
            self@.hostname,
            nothing_bytes(),
            text_bytes(),
        );
        let ghost a1 = r1;
        pack_last_gc_req(&self.last_gc_req, &mut field_diffs);
        let ghost r2 = raws_of(
            ProtoStateField::LastGcReq,
            self@.last_gc_req,
            nothing_bytes(),
            seqno_bytes(),
        );
        let ghost a2 = a1 + r2;
        proof {
            lemma_with_raws_join(no_diffs(), a1, r2);
            lemma_fit_join(a1, r2);
        }
        pack_rollups(&self.rollups, &mut field_diffs);
        let ghost r3 = raws_of(
            ProtoStateField::Rollups,
            self@.rollups,
            seqno_bytes(),
            rollup_key_bytes(),
        );
        let ghost a3 = a2 + r3;
        proof {
            lemma_with_raws_join(no_diffs(), a2, r3);
            lemma_fit_join(a2, r3);
        }
        pack_leased_readers(&self.leased_readers, &mut field_diffs);
        let ghost r4 = raws_of(
            ProtoStateField::LeasedReaders,
            self@.leased_readers,
            leased_reader_id_bytes(),
            leased_reader_bytes(),
        );
        let ghost a4 = a3 + r4;
        proof {
            lemma_with_raws_join(no_diffs(), a3, r4);
            lemma_fit_join(a3, r4);
        }
        pack_critical_readers(&self.critical_readers, &mut field_diffs);
        let ghost r5 = raws_of(
            ProtoStateField::CriticalReaders,
            self@.critical_readers,
            critical_reader_id_bytes(),
            critical_reader_bytes(),
        );
        let ghost a5 = a4 + r5;
        proof {
            lemma_with_raws_join(no_diffs(), a4, r5);
            lemma_fit_join(a4, r5);
        }
        pack_writers(&self.writers, &mut field_diffs);
        let ghost r6 = raws_of(
            ProtoStateField::Writers,
            self@.writers,
            writer_id_bytes(),
            writer_bytes(),
        );
        let ghost a6 = a5 + r6;
        proof {
            lemma_with_raws_join(no_diffs(), a5, r6);
            lemma_fit_join(a5, r6);
        }
        pack_since(&self.since, &mut field_diffs);
        let ghost r7 = raws_of(
            ProtoStateField::Since,
            self@.since,
            nothing_bytes(),
            antichain_bytes(),
        );
        let ghost a7 = a6 + r7;
        proof {
            lemma_with_raws_join(no_diffs(), a6, r7);
            lemma_fit_join(a6, r7);
        }
        pack_spine(&self.spine, &mut field_diffs);
        let ghost r8 = raws_of(
            ProtoStateField::Spine,
            self@.spine,
            hollow_batch_bytes(),
            nothing_bytes(),
        );
        let ghost a8 = a7 + r8;
        proof {
            lemma_with_raws_join(no_diffs(), a7, r8);
            lemma_fit_join(a7, r8);
        }
        field_diffs
    }

    /// The difference between two states that differ in their numbers only.
    pub fn new(
        applier_version: Version,
        seqno_from: SeqNo,
        seqno_to: SeqNo,
        latest_rollup_key: PartialRollupKey,
    ) -> (diff: StateDiff<u64>)
        ensures
            diff@ == fresh_diff(
                applier_version@,
                seqno_from.0,
                seqno_to.0,
                latest_rollup_key@,
            ),
            state_diff_valid(diff@),
    {
        let diff = StateDiff {
            applier_version,
            seqno_from,
            seqno_to,
            latest_rollup_key,
            hostname: Vec::new(),
            last_gc_req: Vec::new(),
            rollups: Vec::new(),
            leased_readers: Vec::new(),
            critical_readers: Vec::new(),
            writers: Vec::new(),
            since: Vec::new(),
            spine: Vec::new(),
        };
        assert(diff@ =~= fresh_diff(
            applier_version@,
            seqno_from.0,
            seqno_to.0,
            latest_rollup_key@,
        ));
        diff
    }

    /// Reads an encoded difference.
    pub fn decode(build_version: &Version, buf: &[u8]) -> (r: Result<StateDiff<u64>, StateError>)
        ensures
            match r {
                Ok(diff) => state_diff_decoded(build_version@, buf@) == Ok::<
                    StateDiffView,
                    StateErrorView,
                >(diff@),
                Err(err) => state_diff_decoded(build_version@, buf@) == Err::<
                    StateDiffView,
                    StateErrorView,
                >(err@),
            },
    {
        let proto: ProtoStateDiff = match decode(buf) {
            Ok(proto) => proto,
            Err(err) => {
                return Err(StateError::Invalid(err.text()));
            },
        };
        let diff: StateDiff<u64> = match <StateDiff<u64>>::from_proto(proto) {
            Ok(diff) => diff,
            Err(err) => {
                return Err(StateError::Invalid(err.text()));
            },
        };
        match check_applier_version(build_version, &diff.applier_version) {
            Ok(()) => Ok(diff),
            Err(message) => Err(StateError::FromFuture(message)),
        }
    }
}

/// The difference that was written as the given bytes, as code of the given version reads it.
pub open spec fn state_diff_decoded(build_version: VersionView, buf: Seq<u8>) -> Result<
    StateDiffView,
    StateErrorView,
> {
    match decoded::<ProtoStateDiff>(buf) {
        Some(proto) => match state_diff_of(proto) {
            Ok(diff) => if semver_less(build_version, diff.applier_version) {
                Err(StateErrorView::FromFuture(from_future(build_version, diff.applier_version)))
            } else {
                Ok(diff)
            },
            Err(err) => Err(StateErrorView::Invalid(error_text(err))),
        },
        None => Err(StateErrorView::Invalid(decode_error_text())),
    }
}

impl RustType<ProtoStateDiff> for StateDiff<u64> {
    /// A difference is read as it was written.
    fn into_proto(&self) -> (proto: ProtoStateDiff)
        ensures
            proto@ == state_diff_proto(self@),
            state_diff_valid(self@) ==> state_diff_of(proto@) == Ok::<
                StateDiffView,
                TryFromProtoErrorView,
            >(self@),
    {
        let field_diffs: ProtoStateFieldDiffs = self.pack();
        proof {
            let raws = all_raws(self@);
            lemma_raw_diffs(no_diffs(), raws);
            assert(raw_diffs(no_diffs()) + raws =~= raws);
            if state_diff_valid(self@) {
                lemma_all_unpacked(self@);
            }
        }
        ProtoStateDiff {
            applier_version: self.applier_version.to_string(),
            seqno_from: self.seqno_from.into_proto(),
            seqno_to: self.seqno_to.into_proto(),
            latest_rollup_key: self.latest_rollup_key.into_proto(),
            field_diffs: Some(field_diffs),
        }
    }

    fn from_proto(proto: ProtoStateDiff) -> (r: Result<StateDiff<u64>, TryFromProtoError>)
        ensures
            result_view(r) == state_diff_of(proto@),
    {
        let applier_version: Version = match read_applier_version(&proto.applier_version) {
            Ok(version) => version,
            Err(err) => {
                return Err(err);
            },
        };
        let mut state_diff: StateDiff<u64> = StateDiff::new(
            applier_version,
            SeqNo(proto.seqno_from),
            SeqNo(proto.seqno_to),
            PartialRollupKey(proto.latest_rollup_key),
        );
        if let Some(field_diffs) = proto.field_diffs {
            match field_diffs.validate() {
                Ok(()) => {},
                Err(message) => {
                    return Err(TryFromProtoError::InvalidPersistState(message));
                },
            }
            let ghost start = state_diff@;
            let ghost raws = raw_diffs(field_diffs@);
            let mut cursor: Cursor = Cursor { diff: 0, piece: 0, offset: 0 };
            assert(with_all_unpacked(start, raws.take(0)) == Ok::<
                StateDiffView,
                TryFromProtoErrorView,
            >(start));
            assert(field_diffs@.diff_types.take(0) =~= Seq::empty());
            assert(field_diffs@.data_lens.take(0) =~= Seq::empty());
            while cursor.diff < field_diffs.fields.len()
                invariant
                    diffs_fit(field_diffs@),
                    cursor.at(field_diffs@),
                    raws == raw_diffs(field_diffs@),
                    state_diff_of(proto@) == with_all_unpacked(start, raws),
                    with_all_unpacked(start, raws.take(cursor.diff as int)) == Ok::<
                        StateDiffView,
                        TryFromProtoErrorView,
                    >(state_diff@),
                decreases field_diffs.fields.len() - cursor.diff,
            {
                let ghost i = cursor.diff as int;
                let ghost before = state_diff@;
                let diff: ProtoStateFieldDiff<'_> = field_diffs.next_diff(&mut cursor);
                let ghost raw = diff@;
                proof {
                    assert(raws.take(i + 1).drop_last() =~= raws.take(i));
                    assert(raws.take(i + 1).last() == raw);
                    lemma_unpacked_prefix(start, raws, i + 1);
                }
                let field: ProtoStateField = match ProtoStateField::from_i32(diff.field) {
                    Some(field) => field,
                    None => {
                        let mut message: String = "unknown ProtoStateField ".to_owned();
                        message.append(i64_text(diff.field as i64).as_str());
                        return Err(TryFromProtoError::InvalidPersistState(message));
                    },
                };
                let r = match field {
                    ProtoStateField::Hostname => unpack_hostname(diff, &mut state_diff.hostname),
                    ProtoStateField::LastGcReq => unpack_last_gc_req(
                        diff,
                        &mut state_diff.last_gc_req,
                    ),
                    ProtoStateField::Rollups => unpack_rollups(diff, &mut state_diff.rollups),
                    ProtoStateField::LeasedReaders => unpack_leased_readers(
                        diff,
                        &mut state_diff.leased_readers,
                    ),
                    ProtoStateField::CriticalReaders => unpack_critical_readers(
                        diff,
                        &mut state_diff.critical_readers,
                    ),
                    ProtoStateField::Writers => unpack_writers(diff, &mut state_diff.writers),
                    ProtoStateField::Since => unpack_since(diff, &mut state_diff.since),
                    ProtoStateField::Spine => unpack_spine(diff, &mut state_diff.spine),
                };
                match r {
                    Ok(()) => {},
                    Err(err) => {
                        return Err(err);
                    },
                }
            }
            assert(raws.take(cursor.diff as int) =~= raws);
        }
        Ok(state_diff)
    }
}

impl Codec for StateDiff<u64> {
    open spec fn name() -> Seq<char> {
        "proto[StateDiff]"@
    }

    open spec fn bytes(value: StateDiffView) -> Seq<u8> {
        encoded::<ProtoStateDiff>(state_diff_proto(value))
    }

    open spec fn value_of(buf: Seq<u8>) -> Result<StateDiffView, Seq<char>> {
        match decoded::<ProtoStateDiff>(buf) {
            Some(proto) => match state_diff_of(proto) {
                Ok(diff) => Ok(diff),
                Err(err) => Err(error_text(err)),
            },
            None => Err(decode_error_text()),
        }
    }

    fn codec_name() -> String {
        "proto[StateDiff]".to_owned()
    }

    /// Appends the encoded difference. Code of the same or a later version reads it as the same
    /// difference; earlier code does not read it.
    fn encode(&self, buf: &mut Vec<u8>)
        ensures
            state_diff_valid(self@) ==> forall|build_version: VersionView| #[trigger]
                state_diff_decoded(
                    build_version,
                    encoded::<ProtoStateDiff>(state_diff_proto(self@)),
                ) == if semver_less(build_version, self@.applier_version) {
                    Err::<StateDiffView, _>(
                        StateErrorView::FromFuture(
                            from_future(build_version, self@.applier_version),
                        ),
                    )
                } else {
                    Ok(self@)
                },
    {
        let proto: ProtoStateDiff = self.into_proto();
        let bytes: Vec<u8> = encode_to_vec(&proto);
        proof {
            assert(bytes@.len() == bytes.len());
            lemma_round_trip::<ProtoStateDiff>(proto@);
        }
        write_all(buf, bytes.as_slice());
    }

    fn decode(buf: &[u8]) -> Result<StateDiff<u64>, String> {
        let proto: ProtoStateDiff = match decode(buf) {
            Ok(proto) => proto,
            Err(err) => {
                return Err(err.text());
            },
        };
        match <StateDiff<u64>>::from_proto(proto) {
            Ok(diff) => Ok(diff),
            Err(err) => Err(err.text()),
        }
    }
}

} // verus!
