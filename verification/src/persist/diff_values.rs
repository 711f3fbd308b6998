//! How the keys and values of the fields of a state are written and read.

use timely::progress::Antichain;
use vstd::prelude::*;

use crate::persist::antichain::{
    antichain_elements, antichain_of, antichain_proto, lemma_antichain_round_trip,
};
use crate::persist::batch::{
    hollow_batch_of, hollow_batch_proto, hollow_batch_valid, lemma_hollow_batch_round_trip,
    HollowBatch, HollowBatchView, PartialRollupKey, SeqNo,
};
use crate::persist::diff_fields::{reads, result_by};
use crate::persist::error::{RustType, TryFromProtoError, TryFromProtoErrorView};
use crate::persist::handle::{
    critical_reader_of, critical_reader_proto, critical_reader_valid, leased_reader_of,
    leased_reader_proto, leased_reader_valid, lemma_critical_reader_round_trip,
    lemma_leased_reader_round_trip, writer_of, writer_proto, writer_valid, CriticalReaderState,
    CriticalReaderStateView, LeasedReaderState, LeasedReaderStateView, WriterState,
    WriterStateView,
};
use crate::persist::ids::{id_of, id_text, CriticalReaderId, LeasedReaderId, WriterId};
use crate::persist::proto::batch::{
    ProtoHollowBatch, ProtoHollowBatchView, ProtoU64Antichain, ProtoU64AntichainView,
};
use crate::persist::proto::handle::{
    ProtoCriticalReaderState, ProtoCriticalReaderStateView, ProtoLeasedReaderState,
    ProtoLeasedReaderStateView, ProtoWriterState, ProtoWriterStateView,
};
use crate::proto::message::{encode_to_vec, encoded, lemma_round_trip};

verus! {

/// The contents of nothing.
pub open spec fn nothing_view() -> spec_fn(()) -> () {
    |x: ()| ()
}

/// How nothing is written.
pub open spec fn nothing_bytes() -> spec_fn(()) -> Seq<u8> {
    |a: ()| Seq::<u8>::empty()
}

/// How nothing is read.
pub open spec fn nothing_from() -> spec_fn(()) -> Result<(), TryFromProtoErrorView> {
    |proto: ()| Ok(())
}

/// Whether nothing is read as it was written.
pub open spec fn nothing_reads() -> spec_fn(()) -> bool {
    |a: ()| reads::<(), ()>(nothing_bytes()(a), nothing_from(), a)
}

pub(crate) fn write_nothing(_x: &()) -> (bytes: Vec<u8>)
    ensures
        bytes@ == nothing_bytes()(nothing_view()(*_x)),
        nothing_reads()(nothing_view()(*_x)),
{
    let bytes: Vec<u8> = Vec::new();
    proof {
        lemma_round_trip::<()>(());
        assert(bytes@ =~= encoded::<()>(()));
    }
    bytes
}

pub(crate) fn read_nothing(proto: ()) -> (r: Result<(), TryFromProtoError>)
    ensures
        result_by(r, nothing_view()) == nothing_from()(proto@),
{
    Ok(proto)
}

/// The contents of a text.
pub open spec fn text_view() -> spec_fn(String) -> Seq<char> {
    |x: String| x@
}

/// How a text is written.
pub open spec fn text_bytes() -> spec_fn(Seq<char>) -> Seq<u8> {
    |a: Seq<char>| encoded::<String>(a)
}

/// How a text is read.
pub open spec fn text_from() -> spec_fn(Seq<char>) -> Result<Seq<char>, TryFromProtoErrorView> {
    |proto: Seq<char>| Ok(proto)
}

/// Whether a text is read as it was written.
pub open spec fn text_reads() -> spec_fn(Seq<char>) -> bool {
    |a: Seq<char>| reads::<String, Seq<char>>(text_bytes()(a), text_from(), a)
}

pub(crate) fn write_text(x: &String) -> (bytes: Vec<u8>)
    ensures
        bytes@ == text_bytes()(text_view()(*x)),
        text_reads()(text_view()(*x)),
{
    let proto: String = x.clone();
    let bytes: Vec<u8> = encode_to_vec(&proto);
    proof {
        assert(bytes@.len() == bytes.len());
        lemma_round_trip::<String>(proto@);
    }
    bytes
}

pub(crate) fn read_text(proto: String) -> (r: Result<String, TryFromProtoError>)
    ensures
        result_by(r, text_view()) == text_from()(proto@),
{
    Ok(proto)
}

/// The contents of the number of a state.
pub open spec fn seqno_view() -> spec_fn(SeqNo) -> u64 {
    |x: SeqNo| x.0
}

/// How the number of a state is written.
pub open spec fn seqno_bytes() -> spec_fn(u64) -> Seq<u8> {
    |a: u64| encoded::<u64>(a)
}

/// How the number of a state is read.
pub open spec fn seqno_from() -> spec_fn(u64) -> Result<u64, TryFromProtoErrorView> {
    |proto: u64| Ok(proto)
}

/// Whether the number of a state is read as it was written.
pub open spec fn seqno_reads() -> spec_fn(u64) -> bool {
    |a: u64| reads::<u64, u64>(seqno_bytes()(a), seqno_from(), a)
}

pub(crate) fn write_seqno(x: &SeqNo) -> (bytes: Vec<u8>)
    ensures
        bytes@ == seqno_bytes()(seqno_view()(*x)),
        seqno_reads()(seqno_view()(*x)),
{
    let proto: u64 = x.into_proto();
    let bytes: Vec<u8> = encode_to_vec(&proto);
    proof {
        assert(bytes@.len() == bytes.len());
        lemma_round_trip::<u64>(proto@);
    }
    bytes
}

pub(crate) fn read_seqno(proto: u64) -> (r: Result<SeqNo, TryFromProtoError>)
    ensures
        result_by(r, seqno_view()) == seqno_from()(proto@),
{
    SeqNo::from_proto(proto)
}

/// The contents of the key of a rollup.
pub open spec fn rollup_key_view() -> spec_fn(PartialRollupKey) -> Seq<char> {
    |x: PartialRollupKey| x@
}

/// How the key of a rollup is written.
pub open spec fn rollup_key_bytes() -> spec_fn(Seq<char>) -> Seq<u8> {
    |a: Seq<char>| encoded::<String>(a)
}

/// How the key of a rollup is read.
pub open spec fn rollup_key_from() -> spec_fn(Seq<char>) -> Result<
    Seq<char>,
    TryFromProtoErrorView,
> {
    |proto: Seq<char>| Ok(proto)
}

/// Whether the key of a rollup is read as it was written.
pub open spec fn rollup_key_reads() -> spec_fn(Seq<char>) -> bool {
    |a: Seq<char>| reads::<String, Seq<char>>(rollup_key_bytes()(a), rollup_key_from(), a)
}

pub(crate) fn write_rollup_key(x: &PartialRollupKey) -> (bytes: Vec<u8>)
    ensures
        bytes@ == rollup_key_bytes()(rollup_key_view()(*x)),
        rollup_key_reads()(rollup_key_view()(*x)),
{
    let proto: String = x.into_proto();
    let bytes: Vec<u8> = encode_to_vec(&proto);
    proof {
        assert(bytes@.len() == bytes.len());
        lemma_round_trip::<String>(proto@);
    }
    bytes
}

pub(crate) fn read_rollup_key(proto: String) -> (r: Result<PartialRollupKey, TryFromProtoError>)
    ensures
        result_by(r, rollup_key_view()) == rollup_key_from()(proto@),
{
    PartialRollupKey::from_proto(proto)
}

/// The contents of the id of a leased reader.
pub open spec fn leased_reader_id_view() -> spec_fn(LeasedReaderId) -> Seq<u8> {
    |x: LeasedReaderId| x@
}

/// How the id of a leased reader is written.
pub open spec fn leased_reader_id_bytes() -> spec_fn(Seq<u8>) -> Seq<u8> {
    |a: Seq<u8>| encoded::<String>(id_text('r', a))
}

/// How the id of a leased reader is read.
pub open spec fn leased_reader_id_from() -> spec_fn(Seq<char>) -> Result<
    Seq<u8>,
    TryFromProtoErrorView,
> {
    |proto: Seq<char>| id_of('r', proto)
}

/// Whether the id of a leased reader is read as it was written.
pub open spec fn leased_reader_id_reads() -> spec_fn(Seq<u8>) -> bool {
    |a: Seq<u8>| reads::<String, Seq<u8>>(leased_reader_id_bytes()(a), leased_reader_id_from(), a)
}

pub(crate) fn write_leased_reader_id(x: &LeasedReaderId) -> (bytes: Vec<u8>)
    ensures
        bytes@ == leased_reader_id_bytes()(leased_reader_id_view()(*x)),
        leased_reader_id_reads()(leased_reader_id_view()(*x)),
{
    let proto: String = x.into_proto();
    let bytes: Vec<u8> = encode_to_vec(&proto);
    proof {
        assert(bytes@.len() == bytes.len());
        lemma_round_trip::<String>(proto@);
    }
    bytes
}

pub(crate) fn read_leased_reader_id(proto: String) -> (r: Result<LeasedReaderId, TryFromProtoError>)
    ensures
        result_by(r, leased_reader_id_view()) == leased_reader_id_from()(proto@),
{
    LeasedReaderId::from_proto(proto)
}

/// The contents of the id of a critical reader.
pub open spec fn critical_reader_id_view() -> spec_fn(CriticalReaderId) -> Seq<u8> {
    |x: CriticalReaderId| x@
}

/// How the id of a critical reader is written.
pub open spec fn critical_reader_id_bytes() -> spec_fn(Seq<u8>) -> Seq<u8> {
    |a: Seq<u8>| encoded::<String>(id_text('c', a))
}

/// How the id of a critical reader is read.
pub open spec fn critical_reader_id_from() -> spec_fn(Seq<char>) -> Result<
    Seq<u8>,
    TryFromProtoErrorView,
> {
    |proto: Seq<char>| id_of('c', proto)
}

/// Whether the id of a critical reader is read as it was written.
pub open spec fn critical_reader_id_reads() -> spec_fn(Seq<u8>) -> bool {
    |a: Seq<u8>| reads::<String, Seq<u8>>(
        critical_reader_id_bytes()(a),
        critical_reader_id_from(),
        a,
    )
}

pub(crate) fn write_critical_reader_id(x: &CriticalReaderId) -> (bytes: Vec<u8>)
    ensures
        bytes@ == critical_reader_id_bytes()(critical_reader_id_view()(*x)),
        critical_reader_id_reads()(critical_reader_id_view()(*x)),
{
    let proto: String = x.into_proto();
    let bytes: Vec<u8> = encode_to_vec(&proto);
    proof {
        assert(bytes@.len() == bytes.len());
        lemma_round_trip::<String>(proto@);
    }
    bytes
}

pub(crate) fn read_critical_reader_id(proto: String) -> (
    r: Result<CriticalReaderId, TryFromProtoError>
)
    ensures
        result_by(r, critical_reader_id_view()) == critical_reader_id_from()(proto@),
{
    CriticalReaderId::from_proto(proto)
}

/// The contents of the id of a writer.
pub open spec fn writer_id_view() -> spec_fn(WriterId) -> Seq<u8> {
    |x: WriterId| x@
}

/// How the id of a writer is written.
pub open spec fn writer_id_bytes() -> spec_fn(Seq<u8>) -> Seq<u8> {
    |a: Seq<u8>| encoded::<String>(id_text('w', a))
}

/// How the id of a writer is read.
pub open spec fn writer_id_from() -> spec_fn(Seq<char>) -> Result<Seq<u8>, TryFromProtoErrorView> {
    |proto: Seq<char>| id_of('w', proto)
}

/// Whether the id of a writer is read as it was written.
pub open spec fn writer_id_reads() -> spec_fn(Seq<u8>) -> bool {
    |a: Seq<u8>| reads::<String, Seq<u8>>(writer_id_bytes()(a), writer_id_from(), a)
}

pub(crate) fn write_writer_id(x: &WriterId) -> (bytes: Vec<u8>)
    ensures
        bytes@ == writer_id_bytes()(writer_id_view()(*x)),
        writer_id_reads()(writer_id_view()(*x)),
{
    let proto: String = x.into_proto();
    let bytes: Vec<u8> = encode_to_vec(&proto);
    proof {
        assert(bytes@.len() == bytes.len());
        lemma_round_trip::<String>(proto@);
    }
    bytes
}

pub(crate) fn read_writer_id(proto: String) -> (r: Result<WriterId, TryFromProtoError>)
    ensures
        result_by(r, writer_id_view()) == writer_id_from()(proto@),
{
    WriterId::from_proto(proto)
}

/// The contents of a leased reader.
pub open spec fn leased_reader_view() -> spec_fn(LeasedReaderState<u64>) -> LeasedReaderStateView {
    |x: LeasedReaderState<u64>| x@
}

/// How a leased reader is written.
pub open spec fn leased_reader_bytes() -> spec_fn(LeasedReaderStateView) -> Seq<u8> {
    |a: LeasedReaderStateView| encoded::<ProtoLeasedReaderState>(leased_reader_proto(a))
}

/// How a leased reader is read.
pub open spec fn leased_reader_from() -> spec_fn(ProtoLeasedReaderStateView) -> Result<
    LeasedReaderStateView,
    TryFromProtoErrorView,
> {
    |proto: ProtoLeasedReaderStateView| leased_reader_of(proto)
}

/// Whether a leased reader is read as it was written.
pub open spec fn leased_reader_reads() -> spec_fn(LeasedReaderStateView) -> bool {
    |a: LeasedReaderStateView| leased_reader_valid(a) ==> reads::<
        ProtoLeasedReaderState,
        LeasedReaderStateView,
    >(
        leased_reader_bytes()(a),
        leased_reader_from(),
        a,
    )
}

pub(crate) fn write_leased_reader(x: &LeasedReaderState<u64>) -> (bytes: Vec<u8>)
    ensures
        bytes@ == leased_reader_bytes()(leased_reader_view()(*x)),
        leased_reader_reads()(leased_reader_view()(*x)),
{
    let proto: ProtoLeasedReaderState = x.into_proto();
    let bytes: Vec<u8> = encode_to_vec(&proto);
    proof {
        assert(bytes@.len() == bytes.len());
        lemma_round_trip::<ProtoLeasedReaderState>(proto@);
        if leased_reader_valid(x@) {
            lemma_leased_reader_round_trip(x@);
        }
    }
    bytes
}

pub(crate) fn read_leased_reader(proto: ProtoLeasedReaderState) -> (
    r: Result<LeasedReaderState<u64>, TryFromProtoError>
)
    ensures
        result_by(r, leased_reader_view()) == leased_reader_from()(proto@),
{
    <LeasedReaderState<u64>>::from_proto(proto)
}

/// The contents of a critical reader.
pub open spec fn critical_reader_view() -> spec_fn(
    CriticalReaderState<u64>,
) -> CriticalReaderStateView {
    |x: CriticalReaderState<u64>| x@
}

/// How a critical reader is written.
pub open spec fn critical_reader_bytes() -> spec_fn(CriticalReaderStateView) -> Seq<u8> {
    |a: CriticalReaderStateView| encoded::<ProtoCriticalReaderState>(critical_reader_proto(a))
}

/// How a critical reader is read.
pub open spec fn critical_reader_from() -> spec_fn(ProtoCriticalReaderStateView) -> Result<
    CriticalReaderStateView,
    TryFromProtoErrorView,
> {
    |proto: ProtoCriticalReaderStateView| critical_reader_of(proto)
}

/// Whether a critical reader is read as it was written.
pub open spec fn critical_reader_reads() -> spec_fn(CriticalReaderStateView) -> bool {
    |a: CriticalReaderStateView| critical_reader_valid(a) ==> reads::<
        ProtoCriticalReaderState,
        CriticalReaderStateView,
    >(
        critical_reader_bytes()(a),
        critical_reader_from(),
        a,
    )
}

pub(crate) fn write_critical_reader(x: &CriticalReaderState<u64>) -> (bytes: Vec<u8>)
    ensures
        bytes@ == critical_reader_bytes()(critical_reader_view()(*x)),
        critical_reader_reads()(critical_reader_view()(*x)),
{
    let proto: ProtoCriticalReaderState = x.into_proto();
    let bytes: Vec<u8> = encode_to_vec(&proto);
    proof {
        assert(bytes@.len() == bytes.len());
        lemma_round_trip::<ProtoCriticalReaderState>(proto@);
        if critical_reader_valid(x@) {
            lemma_critical_reader_round_trip(x@);
        }
    }
    bytes
}

pub(crate) fn read_critical_reader(proto: ProtoCriticalReaderState) -> (
    r: Result<CriticalReaderState<u64>, TryFromProtoError>
)
    ensures
        result_by(r, critical_reader_view()) == critical_reader_from()(proto@),
{
    <CriticalReaderState<u64>>::from_proto(proto)
}

/// The contents of a writer.
pub open spec fn writer_view() -> spec_fn(WriterState<u64>) -> WriterStateView {
    |x: WriterState<u64>| x@
}

/// How a writer is written.
pub open spec fn writer_bytes() -> spec_fn(WriterStateView) -> Seq<u8> {
    |a: WriterStateView| encoded::<ProtoWriterState>(writer_proto(a))
}

/// How a writer is read.
pub open spec fn writer_from() -> spec_fn(ProtoWriterStateView) -> Result<
    WriterStateView,
    TryFromProtoErrorView,
> {
    |proto: ProtoWriterStateView| writer_of(proto)
}

/// Whether a writer is read as it was written.
pub open spec fn writer_reads() -> spec_fn(WriterStateView) -> bool {
    |a: WriterStateView| writer_valid(a) ==> reads::<ProtoWriterState, WriterStateView>(
        writer_bytes()(a),
        writer_from(),
        a,
    )
}

pub(crate) fn write_writer(x: &WriterState<u64>) -> (bytes: Vec<u8>)
    ensures
        bytes@ == writer_bytes()(writer_view()(*x)),
        writer_reads()(writer_view()(*x)),
{
    let proto: ProtoWriterState = x.into_proto();
    let bytes: Vec<u8> = encode_to_vec(&proto);
    proof {
        assert(bytes@.len() == bytes.len());
        lemma_round_trip::<ProtoWriterState>(proto@);
    }
    bytes
}

pub(crate) fn read_writer(proto: ProtoWriterState) -> (
    r: Result<WriterState<u64>, TryFromProtoError>
)
    ensures
        result_by(r, writer_view()) == writer_from()(proto@),
{
    <WriterState<u64>>::from_proto(proto)
}

/// The contents of a frontier.
pub open spec fn antichain_view() -> spec_fn(Antichain<u64>) -> Seq<u64> {
    |x: Antichain<u64>| antichain_elements(x)
}

/// How a frontier is written.
pub open spec fn antichain_bytes() -> spec_fn(Seq<u64>) -> Seq<u8> {
    |a: Seq<u64>| encoded::<ProtoU64Antichain>(antichain_proto(a))
}

/// How a frontier is read.
pub open spec fn antichain_from() -> spec_fn(ProtoU64AntichainView) -> Result<
    Seq<u64>,
    TryFromProtoErrorView,
> {
    |proto: ProtoU64AntichainView| Ok(antichain_of(proto))
}

/// Whether a frontier is read as it was written.
pub open spec fn antichain_reads() -> spec_fn(Seq<u64>) -> bool {
    |a: Seq<u64>| a.len() <= 1 ==> reads::<ProtoU64Antichain, Seq<u64>>(
        antichain_bytes()(a),
        antichain_from(),
        a,
    )
}

pub(crate) fn write_antichain(x: &Antichain<u64>) -> (bytes: Vec<u8>)
    ensures
        bytes@ == antichain_bytes()(antichain_view()(*x)),
        antichain_reads()(antichain_view()(*x)),
{
    let proto: ProtoU64Antichain = x.into_proto();
    let bytes: Vec<u8> = encode_to_vec(&proto);
    proof {
        assert(bytes@.len() == bytes.len());
        lemma_round_trip::<ProtoU64Antichain>(proto@);
        if antichain_elements(*x).len() <= 1 {
            lemma_antichain_round_trip(antichain_elements(*x));
        }
    }
    bytes
}

pub(crate) fn read_antichain(proto: ProtoU64Antichain) -> (
    r: Result<Antichain<u64>, TryFromProtoError>
)
    ensures
        result_by(r, antichain_view()) == antichain_from()(proto@),
{
    <Antichain<u64>>::from_proto(proto)
}

/// The contents of a batch.
pub open spec fn hollow_batch_view() -> spec_fn(HollowBatch<u64>) -> HollowBatchView {
    |x: HollowBatch<u64>| x@
}

/// How a batch is written.
pub open spec fn hollow_batch_bytes() -> spec_fn(HollowBatchView) -> Seq<u8> {
    |a: HollowBatchView| encoded::<ProtoHollowBatch>(hollow_batch_proto(a))
}

/// How a batch is read.
pub open spec fn hollow_batch_from() -> spec_fn(ProtoHollowBatchView) -> Result<
    HollowBatchView,
    TryFromProtoErrorView,
> {
    |proto: ProtoHollowBatchView| hollow_batch_of(proto)
}

/// Whether a batch is read as it was written.
pub open spec fn hollow_batch_reads() -> spec_fn(HollowBatchView) -> bool {
    |a: HollowBatchView| hollow_batch_valid(a) ==> reads::<ProtoHollowBatch, HollowBatchView>(
        hollow_batch_bytes()(a),
        hollow_batch_from(),
        a,
    )
}

pub(crate) fn write_hollow_batch(x: &HollowBatch<u64>) -> (bytes: Vec<u8>)
    ensures
        bytes@ == hollow_batch_bytes()(hollow_batch_view()(*x)),
        hollow_batch_reads()(hollow_batch_view()(*x)),
{
    let proto: ProtoHollowBatch = x.into_proto();
    let bytes: Vec<u8> = encode_to_vec(&proto);
    proof {
        assert(bytes@.len() == bytes.len());
        lemma_round_trip::<ProtoHollowBatch>(proto@);
        if hollow_batch_valid(x@) {
            lemma_hollow_batch_round_trip(x@);
        }
    }
    bytes
}

pub(crate) fn read_hollow_batch(proto: ProtoHollowBatch) -> (
    r: Result<HollowBatch<u64>, TryFromProtoError>
)
    ensures
        result_by(r, hollow_batch_view()) == hollow_batch_from()(proto@),
{
    <HollowBatch<u64>>::from_proto(proto)
}

} // verus!
