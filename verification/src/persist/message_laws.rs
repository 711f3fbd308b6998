//! What the messages of a shard are for: what each part of them is read as.

use vstd::prelude::*;

use crate::persist::antichain::{
    antichain_of, antichain_proto, antichain_text, description_of, description_proto,
    frontier_equal, frontier_less_equal, frontier_less_than, least, lemma_antichain_round_trip,
    listed, DescriptionView,
};
use crate::persist::batch::{
    hollow_batch_of, hollow_batch_proto, lemma_hollow_batch_round_trip, parts_of, usizes_of,
    HollowBatchView,
};
use crate::persist::error::{
    error_text, mismatch_text, CodecMismatchView, CodecsView, TryFromProtoErrorView,
};
use crate::persist::handle::{
    critical_reader_of, critical_reader_proto, leased_reader_of, leased_reader_proto,
    lemma_critical_reader_round_trip, lemma_leased_reader_round_trip, writer_of, writer_proto,
    CriticalReaderStateView, HandleDebugStateView, LeasedReaderStateView, WriterStateView,
};
use crate::persist::ids::{id_of, id_text, parsed_id, uuid_parsed};
use crate::persist::proto::batch::{
    ProtoHollowBatchPartView, ProtoHollowBatchView, ProtoTraceView, ProtoU64AntichainView,
    ProtoU64DescriptionView,
};
use crate::persist::proto::handle::{
    ProtoCriticalReaderStateView, ProtoHandleDebugStateView, ProtoLeasedReaderStateView,
    ProtoWriterStateView,
};
use crate::persist::trace::{
    lemma_trace_round_trip, spine_of, trace_of, trace_proto, TraceView,
};
use crate::persist::version::{applier_version_of, semver_parsed, VersionView};
use crate::text::{debug_text, decimal};

verus! {

/// Whether a time is the first of those that the numbers of a message stand for.
pub open spec fn is_first_time(numbers: Seq<i64>, time: u64) -> bool {
    &&& exists|i: int| 0 <= i < numbers.len() && #[trigger] numbers[i] as u64 == time
    &&& forall|i: int| 0 <= i < numbers.len() ==> time <= #[trigger] numbers[i] as u64
}

/// Whether times are what a frontier of a message is read as: none if the message has none, and the
/// first one otherwise.
pub open spec fn is_frontier(proto: ProtoU64AntichainView, times: Seq<u64>) -> bool {
    if proto.elements.len() == 0 {
        times.len() == 0
    } else {
        times.len() == 1 && is_first_time(proto.elements, times[0])
    }
}

/// A frontier is read as the first of its times, and as the empty one if it has none. It is written
/// as all of its times, in order.
pub proof fn lemma_frontier_is_read(proto: ProtoU64AntichainView, times: Seq<u64>)
    ensures
        is_frontier(proto, antichain_of(proto)),
        antichain_proto(times).elements.len() == times.len(),
        forall|i: int|
            0 <= i < times.len() ==> #[trigger] antichain_proto(times).elements[i] == times[i]
                as i64,
{
    let read = Seq::new(proto.elements.len(), |i: int| proto.elements[i] as u64);
    if read.len() > 0 {
        lemma_least(read);
        let time = antichain_of(proto)[0];
        let i = choose|i: int| 0 <= i < read.len() && #[trigger] read[i] == time;
        assert(proto.elements[i] as u64 == time);
        assert forall|j: int| 0 <= j < proto.elements.len() implies time
            <= #[trigger] proto.elements[j] as u64 by {
            assert(read[j] == proto.elements[j] as u64);
        }
    }
}

proof fn lemma_least(numbers: Seq<u64>)
    requires
        numbers.len() > 0,
    ensures
        exists|i: int| 0 <= i < numbers.len() && #[trigger] numbers[i] == least(numbers),
        forall|i: int| 0 <= i < numbers.len() ==> least(numbers) <= #[trigger] numbers[i],
    decreases numbers.len(),
{
    if numbers.len() > 1 {
        let front = numbers.drop_last();
        lemma_least(front);
        let i = choose|i: int| 0 <= i < front.len() && #[trigger] front[i] == least(front);
        assert(numbers[i] == front[i]);
        assert(numbers[numbers.len() - 1] == numbers.last());
        assert forall|j: int| 0 <= j < numbers.len() implies least(numbers)
            <= #[trigger] numbers[j] by {
            if j < front.len() {
                assert(numbers[j] == front[j]);
            }
        }
    } else {
        assert(numbers[0] == least(numbers));
    }
}

/// Frontiers with one time are compared by it, and the empty frontier comes after all others.
pub proof fn lemma_frontier_order(a: u64, b: u64)
    ensures
        frontier_less_than(seq![a], seq![b]) <==> a < b,
        frontier_less_than(seq![a], Seq::empty()),
        !frontier_less_than(Seq::empty(), seq![b]),
        !frontier_less_than(Seq::empty(), Seq::empty()),
{
    let (x, y) = (seq![a], seq![b]);
    assert(x[0] == a && y[0] == b);
    assert(y.contains(x[0]) <==> a == b);
    if a <= b {
        assert(frontier_less_equal(x, y));
    }
    let none = Seq::<u64>::empty();
    assert(frontier_equal(none, none));
}

/// The frontiers of a batch are all there and read each from its own place, and the lower one is
/// not empty; otherwise they are not read. Each is written in its own place.
pub proof fn lemma_description_is_read(proto: ProtoU64DescriptionView, desc: DescriptionView)
    ensures
        description_of(proto) is Ok <==> proto.lower is Some && proto.upper is Some && proto.since
            is Some && proto.lower->Some_0.elements.len() > 0,
        description_of(proto) matches Ok(read) ==> {
            &&& is_frontier(proto.lower->Some_0, read.lower)
            &&& is_frontier(proto.upper->Some_0, read.upper)
            &&& is_frontier(proto.since->Some_0, read.since)
        },
        description_proto(desc).lower == Some(antichain_proto(desc.lower)),
        description_proto(desc).upper == Some(antichain_proto(desc.upper)),
        description_proto(desc).since == Some(antichain_proto(desc.since)),
        proto.lower is None ==> description_of(proto) == Err::<DescriptionView, _>(
            TryFromProtoErrorView::MissingField("lower"@),
        ),
        proto.lower is Some && proto.upper is None ==> description_of(proto) == Err::<
            DescriptionView,
            _,
        >(TryFromProtoErrorView::MissingField("upper"@)),
        proto.lower is Some && proto.upper is Some && proto.since is None ==> description_of(proto)
            == Err::<DescriptionView, _>(TryFromProtoErrorView::MissingField("since"@)),
        proto.upper is Some && proto.since is Some ==> (proto.lower matches Some(lower)
            && lower.elements.len() == 0 ==> description_of(proto) == Err::<DescriptionView, _>(
            TryFromProtoErrorView::EmptyLower,
        )),
{
    if let Some(lower) = proto.lower {
        lemma_frontier_is_read(lower, Seq::empty());
    }
    if let Some(upper) = proto.upper {
        lemma_frontier_is_read(upper, Seq::empty());
    }
    if let Some(since) = proto.since {
        lemma_frontier_is_read(since, Seq::empty());
    }
}

proof fn lemma_parts_are_read(protos: Seq<ProtoHollowBatchPartView>)
    ensures
        parts_of(protos) is Ok <==> forall|i: int|
            0 <= i < protos.len() ==> (#[trigger] protos[i]).encoded_size_bytes <= usize::MAX,
        parts_of(protos) matches Ok(parts) ==> parts.len() == protos.len() && forall|i: int|
            0 <= i < protos.len() ==> (#[trigger] parts[i]).key == protos[i].key
                && parts[i].encoded_size_bytes == protos[i].encoded_size_bytes,
    decreases protos.len(),
{
    if protos.len() > 0 {
        let front = protos.drop_last();
        lemma_parts_are_read(front);
        assert(forall|i: int| 0 <= i < front.len() ==> front[i] == #[trigger] protos[i]);
        let fits = forall|i: int|
            0 <= i < protos.len() ==> (#[trigger] protos[i]).encoded_size_bytes <= usize::MAX;
        if fits {
            assert forall|i: int| 0 <= i < front.len() implies (
            #[trigger] front[i]).encoded_size_bytes <= usize::MAX by {
                assert(protos[i].encoded_size_bytes <= usize::MAX);
            }
            assert(protos[protos.len() - 1].encoded_size_bytes <= usize::MAX);
        }
        if parts_of(protos) is Ok {
            assert forall|i: int| 0 <= i < protos.len() implies (
            #[trigger] protos[i]).encoded_size_bytes <= usize::MAX by {
                if i < front.len() {
                    assert(front[i].encoded_size_bytes <= usize::MAX);
                }
            }
        }
    }
}

proof fn lemma_numbers_are_read(protos: Seq<u64>)
    ensures
        usizes_of(protos) is Ok <==> forall|i: int|
            0 <= i < protos.len() ==> #[trigger] protos[i] <= usize::MAX,
        usizes_of(protos) matches Ok(numbers) ==> numbers.len() == protos.len() && forall|i: int|
            0 <= i < protos.len() ==> #[trigger] numbers[i] == protos[i],
    decreases protos.len(),
{
    if protos.len() > 0 {
        let front = protos.drop_last();
        lemma_numbers_are_read(front);
        assert(forall|i: int| 0 <= i < front.len() ==> front[i] == #[trigger] protos[i]);
        let fits = forall|i: int| 0 <= i < protos.len() ==> #[trigger] protos[i] <= usize::MAX;
        if fits {
            assert forall|i: int| 0 <= i < front.len() implies #[trigger] front[i]
                <= usize::MAX by {
                assert(protos[i] <= usize::MAX);
            }
            assert(protos[protos.len() - 1] <= usize::MAX);
        }
        if usizes_of(protos) is Ok {
            assert forall|i: int| 0 <= i < protos.len() implies #[trigger] protos[i]
                <= usize::MAX by {
                if i < front.len() {
                    assert(front[i] <= usize::MAX);
                }
            }
        }
    }
}

/// A batch is read part by part: its parts in order with their sizes, behind them a part of size 0
/// for each key that was written before parts had a size, its length, and its runs. It is read
/// exactly if its frontiers are and if its numbers are in range.
pub proof fn lemma_batch_is_read(proto: ProtoHollowBatchView)
    ensures
        hollow_batch_of(proto) is Ok <==> {
            &&& proto.desc is Some
            &&& description_of(proto.desc->Some_0) is Ok
            &&& proto.len <= usize::MAX
            &&& forall|i: int|
                0 <= i < proto.parts.len() ==> (#[trigger] proto.parts[i]).encoded_size_bytes
                    <= usize::MAX
            &&& forall|i: int| 0 <= i < proto.runs.len() ==> #[trigger] proto.runs[i] <= usize::MAX
        },
        hollow_batch_of(proto) matches Ok(batch) ==> {
            let old = proto.parts.len() as int;
            &&& description_of(proto.desc->Some_0) == Ok::<DescriptionView, TryFromProtoErrorView>(
                batch.desc,
            )
            &&& batch.len == proto.len
            &&& batch.runs.len() == proto.runs.len()
            &&& forall|i: int|
                0 <= i < proto.runs.len() ==> #[trigger] batch.runs[i] == proto.runs[i]
            &&& batch.parts.len() == proto.parts.len() + proto.deprecated_keys.len()
            &&& forall|i: int|
                0 <= i < proto.parts.len() ==> (#[trigger] batch.parts[i]).key == proto.parts[i].key
                    && batch.parts[i].encoded_size_bytes == proto.parts[i].encoded_size_bytes
            &&& forall|i: int|
                0 <= i < proto.deprecated_keys.len() ==> (
                #[trigger] batch.parts[old + i]).key == proto.deprecated_keys[i]
                    && batch.parts[old + i].encoded_size_bytes == 0
        },
{
    lemma_parts_are_read(proto.parts);
    lemma_numbers_are_read(proto.runs);
    if let Ok(batch) = hollow_batch_of(proto) {
        let parts = parts_of(proto.parts)->Ok_0;
        assert forall|i: int| 0 <= i < proto.parts.len() implies (#[trigger] batch.parts[i]).key
            == proto.parts[i].key && batch.parts[i].encoded_size_bytes
            == proto.parts[i].encoded_size_bytes by {
            assert(batch.parts[i] == parts[i]);
        }
    }
}

/// Whether the sizes of parts are in range.
pub open spec fn sizes_fit(parts: Seq<ProtoHollowBatchPartView>) -> bool {
    forall|i: int|
        0 <= i < parts.len() ==> (#[trigger] parts[i]).encoded_size_bytes <= usize::MAX
}

proof fn lemma_number_errors(parts: Seq<ProtoHollowBatchPartView>, numbers: Seq<u64>)
    ensures
        parts_of(parts) matches Err(err) ==> err == TryFromProtoErrorView::TryFromIntError,
        usizes_of(numbers) matches Err(err) ==> err == TryFromProtoErrorView::TryFromIntError,
    decreases parts.len() + numbers.len(),
{
    if parts.len() > 0 {
        lemma_number_errors(parts.drop_last(), Seq::empty());
    }
    if numbers.len() > 0 {
        lemma_number_errors(Seq::empty(), numbers.drop_last());
    }
}

/// What is wrong with a batch is told by the first thing that is: a size out of range, frontiers
/// that are missing or cannot be read, or another number out of range.
pub proof fn lemma_batch_errors(proto: ProtoHollowBatchView)
    ensures
        !sizes_fit(proto.parts) ==> hollow_batch_of(proto) == Err::<HollowBatchView, _>(
            TryFromProtoErrorView::TryFromIntError,
        ),
        sizes_fit(proto.parts) && proto.desc is None ==> hollow_batch_of(proto) == Err::<
            HollowBatchView,
            _,
        >(TryFromProtoErrorView::MissingField("desc"@)),
        sizes_fit(proto.parts) ==> (proto.desc matches Some(desc) ==> match description_of(desc) {
            Err(err) => hollow_batch_of(proto) == Err::<HollowBatchView, _>(err),
            Ok(_) => hollow_batch_of(proto) matches Err(err) ==> err
                == TryFromProtoErrorView::TryFromIntError,
        }),
{
    lemma_parts_are_read(proto.parts);
    lemma_number_errors(proto.parts, Seq::empty());
    lemma_number_errors(Seq::empty(), proto.runs);
}

/// An error in words names what is missing or wrong, between quotes where it is a name.
pub proof fn lemma_errors_in_words(text: Seq<char>)
    ensures
        error_text(TryFromProtoErrorView::MissingField(text)) == "Missing value for `"@ + text
            + "`"@,
        error_text(TryFromProtoErrorView::InvalidShardId(text))
            == "Invalid value of ShardId found: `"@ + text + "`"@,
        error_text(TryFromProtoErrorView::CodecMismatch(text)) == text,
        error_text(TryFromProtoErrorView::InvalidPersistState(text)) == text,
        error_text(TryFromProtoErrorView::InvalidSemverVersion(text)) == text,
        error_text(TryFromProtoErrorView::TryFromIntError)
            == "out of range integral type conversion attempted"@,
{
}

/// A mismatch in words gives the codecs asked for and then the ones found, each as a tuple.
pub proof fn lemma_mismatch_in_words(a: CodecsView, b: CodecsView)
    ensures
        ({
            let tuple = |codecs: CodecsView|
                "("@ + debug_text(codecs.0) + ", "@ + debug_text(codecs.1) + ", "@ + debug_text(
                    codecs.2,
                ) + ", "@ + debug_text(codecs.3) + ")"@;
            mismatch_text(CodecMismatchView { requested: a, actual: b }) == "requested codecs "@
                + tuple(a) + " did not match ones in durable storage "@ + tuple(b)
        }),
{
}

/// A batch is written part by part, and nothing is written where keys once were. What was written
/// is read as the same batch.
pub proof fn lemma_batch_is_written(batch: HollowBatchView)
    ensures
        ({
            let proto = hollow_batch_proto(batch);
            &&& proto.desc == Some(description_proto(batch.desc))
            &&& proto.len == batch.len
            &&& proto.deprecated_keys.len() == 0
            &&& proto.runs.len() == batch.runs.len()
            &&& forall|i: int|
                0 <= i < batch.runs.len() ==> #[trigger] proto.runs[i] == batch.runs[i]
            &&& proto.parts.len() == batch.parts.len()
            &&& forall|i: int|
                0 <= i < batch.parts.len() ==> (#[trigger] proto.parts[i]).key == batch.parts[i].key
                    && proto.parts[i].encoded_size_bytes == batch.parts[i].encoded_size_bytes
        }),
        batch.desc.lower.len() == 1 && batch.desc.upper.len() <= 1 && batch.desc.since.len() <= 1
            ==> hollow_batch_of(hollow_batch_proto(batch)) == Ok::<
            HollowBatchView,
            TryFromProtoErrorView,
        >(batch),
{
    if batch.desc.lower.len() == 1 && batch.desc.upper.len() <= 1 && batch.desc.since.len() <= 1 {
        lemma_hollow_batch_round_trip(batch);
    }
}

/// Whether who holds a handle is what a message says, or nobody if it says nothing.
pub open spec fn is_holder(
    proto: Option<ProtoHandleDebugStateView>,
    debug: HandleDebugStateView,
) -> bool {
    match proto {
        Some(proto) => debug.hostname == proto.hostname && debug.purpose == proto.purpose,
        None => debug.hostname.len() == 0 && debug.purpose.len() == 0,
    }
}

/// A reader that has to renew its lease is read field by field. One that was written before leases
/// had a length gets fifteen minutes, and one without a frontier is not read.
pub proof fn lemma_leased_reader_is_read(proto: ProtoLeasedReaderStateView)
    ensures
        match leased_reader_of(proto) {
            Ok(reader) => {
                &&& proto.since is Some
                &&& is_frontier(proto.since->Some_0, reader.since)
                &&& reader.seqno == proto.seqno
                &&& reader.last_heartbeat_timestamp_ms == proto.last_heartbeat_timestamp_ms
                &&& proto.lease_duration_ms != 0 ==> reader.lease_duration_ms
                    == proto.lease_duration_ms
                &&& proto.lease_duration_ms == 0 ==> reader.lease_duration_ms == 15 * 60 * 1000
                &&& is_holder(proto.debug, reader.debug)
            },
            Err(err) => proto.since is None && err == TryFromProtoErrorView::MissingField(
                "ProtoLeasedReaderState::since"@,
            ),
        },
{
    if let Some(since) = proto.since {
        lemma_frontier_is_read(since, Seq::empty());
    }
}

/// A reader that has to renew its lease is written field by field, and read as it was written if
/// its lease lasts.
pub proof fn lemma_leased_reader_is_written(reader: LeasedReaderStateView)
    ensures
        ({
            let proto = leased_reader_proto(reader);
            &&& proto.seqno == reader.seqno
            &&& proto.since == Some(antichain_proto(reader.since))
            &&& proto.last_heartbeat_timestamp_ms == reader.last_heartbeat_timestamp_ms
            &&& proto.lease_duration_ms == reader.lease_duration_ms
            &&& is_holder(proto.debug, reader.debug)
        }),
        reader.since.len() <= 1 && reader.lease_duration_ms != 0 ==> leased_reader_of(
            leased_reader_proto(reader),
        ) == Ok::<LeasedReaderStateView, TryFromProtoErrorView>(reader),
{
    if reader.since.len() <= 1 && reader.lease_duration_ms != 0 {
        lemma_leased_reader_round_trip(reader);
    }
}

/// A reader that holds back compaction is read field by field, and not read without a frontier.
/// What its holder keeps with it are the eight bytes of a number, the least significant one first.
pub proof fn lemma_critical_reader_is_read(proto: ProtoCriticalReaderStateView)
    ensures
        match critical_reader_of(proto) {
            Ok(reader) => {
                &&& proto.since is Some
                &&& is_frontier(proto.since->Some_0, reader.since)
                &&& reader.opaque.len() == 8
                &&& reader.opaque[0] == (proto.opaque as u64) % 0x100
                &&& reader.opaque[1] == (proto.opaque as u64) / 0x100 % 0x100
                &&& reader.opaque[2] == (proto.opaque as u64) / 0x1_0000 % 0x100
                &&& reader.opaque[3] == (proto.opaque as u64) / 0x100_0000 % 0x100
                &&& reader.opaque[4] == (proto.opaque as u64) / 0x1_0000_0000 % 0x100
                &&& reader.opaque[5] == (proto.opaque as u64) / 0x100_0000_0000 % 0x100
                &&& reader.opaque[6] == (proto.opaque as u64) / 0x1_0000_0000_0000 % 0x100
                &&& reader.opaque[7] == (proto.opaque as u64) / 0x100_0000_0000_0000
                &&& reader.opaque_codec == proto.opaque_codec
                &&& is_holder(proto.debug, reader.debug)
            },
            Err(err) => proto.since is None && err == TryFromProtoErrorView::MissingField(
                "ProtoCriticalReaderState::since"@,
            ),
        },
{
    if let Some(since) = proto.since {
        lemma_frontier_is_read(since, Seq::empty());
    }
    reveal_with_fuel(crate::bytes::le_bytes, 9);
}

/// A reader that holds back compaction is written field by field, and read as it was written.
pub proof fn lemma_critical_reader_is_written(reader: CriticalReaderStateView)
    ensures
        ({
            let proto = critical_reader_proto(reader);
            &&& proto.since == Some(antichain_proto(reader.since))
            &&& proto.opaque_codec == reader.opaque_codec
            &&& is_holder(proto.debug, reader.debug)
        }),
        reader.since.len() <= 1 && reader.opaque.len() == 8 ==> critical_reader_of(
            critical_reader_proto(reader),
        ) == Ok::<CriticalReaderStateView, TryFromProtoErrorView>(reader),
{
    if reader.since.len() <= 1 && reader.opaque.len() == 8 {
        lemma_critical_reader_round_trip(reader);
    }
}

/// A writer is read field by field. One that was written before writers had a last write gets a
/// token of sixteen bytes of 17, which no write has, and a frontier at time 0.
pub proof fn lemma_writer_is_read(proto: ProtoWriterStateView)
    ensures
        match writer_of(proto) {
            Ok(writer) => {
                &&& writer.last_heartbeat_timestamp_ms == proto.last_heartbeat_timestamp_ms
                &&& writer.lease_duration_ms == proto.lease_duration_ms
                &&& is_holder(proto.debug, writer.debug)
                &&& if proto.most_recent_write_token.len() == 0 {
                    writer.most_recent_write_token.len() == 16 && forall|i: int|
                        0 <= i < 16 ==> #[trigger] writer.most_recent_write_token[i] == 17
                } else {
                    id_of('i', proto.most_recent_write_token) == Ok::<
                        Seq<u8>,
                        TryFromProtoErrorView,
                    >(writer.most_recent_write_token)
                }
                &&& match proto.most_recent_write_upper {
                    Some(upper) => is_frontier(upper, writer.most_recent_write_upper),
                    None => writer.most_recent_write_upper == seq![0u64],
                }
            },
            Err(err) => proto.most_recent_write_token.len() > 0 && id_of(
                'i',
                proto.most_recent_write_token,
            ) == Err::<Seq<u8>, TryFromProtoErrorView>(err),
        },
{
    if let Some(upper) = proto.most_recent_write_upper {
        lemma_frontier_is_read(upper, Seq::empty());
    }
}

/// A writer is written field by field, and read as it was written if its token is.
pub proof fn lemma_writer_is_written(writer: WriterStateView)
    ensures
        ({
            let proto = writer_proto(writer);
            &&& proto.last_heartbeat_timestamp_ms == writer.last_heartbeat_timestamp_ms
            &&& proto.lease_duration_ms == writer.lease_duration_ms
            &&& proto.most_recent_write_token == id_text('i', writer.most_recent_write_token)
            &&& proto.most_recent_write_upper == Some(
                antichain_proto(writer.most_recent_write_upper),
            )
            &&& is_holder(proto.debug, writer.debug)
        }),
        writer.most_recent_write_upper.len() <= 1 && id_of(
            'i',
            id_text('i', writer.most_recent_write_token),
        ) == Ok::<Seq<u8>, TryFromProtoErrorView>(writer.most_recent_write_token) ==> writer_of(
            writer_proto(writer),
        ) == Ok::<WriterStateView, TryFromProtoErrorView>(writer),
{
    if writer.most_recent_write_upper.len() <= 1 {
        lemma_antichain_round_trip(writer.most_recent_write_upper);
    }
}

/// An id in a message is its prefix, which has to be the right one, and a UUID, which is the id.
pub proof fn lemma_id_is_read(prefix: char, text: Seq<char>)
    ensures
        match id_of(prefix, text) {
            Ok(bytes) => text.len() > 0 && text[0] == prefix && uuid_parsed(text.skip(1)) == Ok::<
                Seq<u8>,
                Seq<char>,
            >(bytes),
            Err(err) => {
                &&& err == TryFromProtoErrorView::InvalidShardId(text)
                &&& text.len() == 0 || text[0] != prefix || uuid_parsed(text.skip(1)) is Err
            },
        },
{
}

/// An id outside of a message is read in the same way, and what is wrong with it says what it
/// should have been.
pub proof fn lemma_id_is_parsed(prefix: char, id_type: Seq<char>, text: Seq<char>)
    ensures
        parsed_id(prefix, id_type, text) is Ok <==> id_of(prefix, text) is Ok,
        parsed_id(prefix, id_type, text) matches Ok(bytes) ==> id_of(prefix, text) == Ok::<
            Seq<u8>,
            TryFromProtoErrorView,
        >(bytes),
        text.len() == 0 || text[0] != prefix ==> parsed_id(prefix, id_type, text) == Err::<
            Seq<u8>,
            Seq<char>,
        >("invalid "@ + id_type + " "@ + text + ": incorrect prefix"@),
        text.len() > 0 && text[0] == prefix && uuid_parsed(text.skip(1)) is Err ==> parsed_id(
            prefix,
            id_type,
            text,
        ) == Err::<Seq<u8>, Seq<char>>(
            "invalid "@ + id_type + " "@ + text + ": "@ + uuid_parsed(text.skip(1))->Err_0,
        ),
{
}

/// Ids with different prefixes are never taken for each other.
pub proof fn lemma_ids_are_apart(a: char, b: char, bytes: Seq<u8>)
    requires
        a != b,
    ensures
        id_of(b, id_text(a, bytes)) is Err,
        id_text(a, bytes).len() > 0,
        id_text(a, bytes)[0] == a,
{
}

/// A message without a version was written by the oldest code there is, and any other version is
/// what `semver` reads it as.
pub proof fn lemma_version_is_read(text: Seq<char>)
    ensures
        text.len() == 0 ==> (applier_version_of(text) matches Ok(version) && version.major == 0
            && version.minor == 0 && version.patch == 0 && version.pre.len() == 0
            && version.build.len() == 0),
        text.len() > 0 ==> match semver_parsed(text) {
            Ok(version) => applier_version_of(text) == Ok::<VersionView, TryFromProtoErrorView>(
                version,
            ),
            Err(message) => applier_version_of(text) == Err::<VersionView, _>(
                TryFromProtoErrorView::InvalidSemverVersion(
                    "invalid applier_version "@ + text + ": "@ + message,
                ),
            ),
        },
{
}

proof fn lemma_batches_are_read(since: Seq<u64>, protos: Seq<ProtoHollowBatchView>)
    ensures
        spine_of(since, protos) is Ok <==> forall|i: int|
            0 <= i < protos.len() ==> (hollow_batch_of(#[trigger] protos[i]) matches Ok(batch)
                && !frontier_less_than(since, batch.desc.since)),
        spine_of(since, protos) matches Ok(batches) ==> batches.len() == protos.len() && forall|
            i: int,
        |
            0 <= i < protos.len() ==> hollow_batch_of(#[trigger] protos[i]) == Ok::<
                HollowBatchView,
                TryFromProtoErrorView,
            >(batches[i]),
    decreases protos.len(),
{
    if protos.len() > 0 {
        let front = protos.drop_last();
        lemma_batches_are_read(since, front);
        assert(forall|i: int| 0 <= i < front.len() ==> front[i] == #[trigger] protos[i]);
        let fine = forall|i: int|
            0 <= i < protos.len() ==> (hollow_batch_of(#[trigger] protos[i]) matches Ok(batch)
                && !frontier_less_than(since, batch.desc.since));
        if fine {
            assert forall|i: int| 0 <= i < front.len() implies (hollow_batch_of(
                #[trigger] front[i],
            ) matches Ok(batch) && !frontier_less_than(since, batch.desc.since)) by {
                assert(hollow_batch_of(protos[i]) is Ok);
            }
            assert(hollow_batch_of(protos[protos.len() - 1]) is Ok);
        }
        if let Ok(batches) = spine_of(since, protos) {
            assert forall|i: int| 0 <= i < protos.len() implies hollow_batch_of(
                #[trigger] protos[i],
            ) == Ok::<HollowBatchView, TryFromProtoErrorView>(batches[i]) by {
                if i < front.len() {
                    let before = spine_of(since, front)->Ok_0;
                    assert(hollow_batch_of(front[i]) == Ok::<_, TryFromProtoErrorView>(before[i]));
                }
            }
            assert forall|i: int| 0 <= i < protos.len() implies (hollow_batch_of(
                #[trigger] protos[i],
            ) matches Ok(batch) && !frontier_less_than(since, batch.desc.since)) by {
                if i < front.len() {
                    assert(hollow_batch_of(front[i]) is Ok);
                }
            }
        }
    }
}

/// The batches of a shard are read in order, and its frontier. They are read exactly if the
/// frontier is there, each batch is read, and the frontier of the shard is behind that of no batch.
pub proof fn lemma_trace_is_read(proto: ProtoTraceView)
    ensures
        proto.since is None ==> trace_of(proto) == Err::<TraceView, _>(
            TryFromProtoErrorView::MissingField("since"@),
        ),
        proto.since is Some ==> (trace_of(proto) is Ok <==> forall|i: int|
            0 <= i < proto.spine.len() ==> (hollow_batch_of(
                #[trigger] proto.spine[i],
            ) matches Ok(batch) && !frontier_less_than(
                antichain_of(proto.since->Some_0),
                batch.desc.since,
            ))),
        trace_of(proto) matches Ok(trace) ==> {
            &&& is_frontier(proto.since->Some_0, trace.since)
            &&& trace.batches.len() == proto.spine.len()
            &&& forall|i: int|
                0 <= i < proto.spine.len() ==> hollow_batch_of(#[trigger] proto.spine[i]) == Ok::<
                    HollowBatchView,
                    TryFromProtoErrorView,
                >(trace.batches[i])
        },
{
    if let Some(since) = proto.since {
        lemma_frontier_is_read(since, Seq::empty());
        lemma_batches_are_read(antichain_of(since), proto.spine);
    }
}

/// Of the batches that cannot be read, or that the frontier of the shard is behind, the first is
/// told.
pub proof fn lemma_first_bad_batch_is_told(
    since: Seq<u64>,
    protos: Seq<ProtoHollowBatchView>,
    k: int,
)
    requires
        0 <= k < protos.len(),
        forall|i: int|
            0 <= i < k ==> (hollow_batch_of(#[trigger] protos[i]) matches Ok(batch)
                && !frontier_less_than(since, batch.desc.since)),
        hollow_batch_of(protos[k]) matches Ok(batch) ==> frontier_less_than(
            since,
            batch.desc.since,
        ),
    ensures
        spine_of(since, protos) == Err::<Seq<HollowBatchView>, _>(
            match hollow_batch_of(protos[k]) {
                Ok(batch) => TryFromProtoErrorView::InvalidPersistState(
                    "invalid ProtoTrace: the spine's since "@ + antichain_text(since)
                        + " was less than a batch's since "@ + antichain_text(batch.desc.since),
                ),
                Err(err) => err,
            },
        ),
    decreases protos.len(),
{
    let front = protos.drop_last();
    assert forall|i: int| 0 <= i < k && i < front.len() implies (hollow_batch_of(
        #[trigger] front[i],
    ) matches Ok(batch) && !frontier_less_than(since, batch.desc.since)) by {
        assert(hollow_batch_of(protos[i]) is Ok);
    }
    if k == protos.len() - 1 {
        lemma_batches_are_read(since, front);
    } else {
        lemma_first_bad_batch_is_told(since, front, k);
    }
}

/// A frontier in words is a list of its times, with commas between them.
pub proof fn lemma_frontier_in_words(times: Seq<u64>, first: u64, time: u64)
    ensures
        antichain_text(Seq::empty()) == "Antichain { elements: ["@ + Seq::empty() + "] }"@,
        antichain_text(seq![first]) == "Antichain { elements: ["@ + decimal(first as nat)
            + "] }"@,
        listed(seq![first]) == decimal(first as nat),
        times.len() > 0 ==> listed(times.push(time)) == listed(times) + ", "@ + decimal(
            time as nat,
        ),
        antichain_text(times) == "Antichain { elements: ["@ + listed(times) + "] }"@,
{
    assert(times.push(time).drop_last() =~= times);
}

/// The batches of a shard are written in order, and its frontier. They are read as they were
/// written if the frontier of the shard is behind that of no batch.
pub proof fn lemma_trace_is_written(trace: TraceView)
    ensures
        trace_proto(trace).since == Some(antichain_proto(trace.since)),
        trace_proto(trace).spine.len() == trace.batches.len(),
        forall|i: int|
            0 <= i < trace.batches.len() ==> #[trigger] trace_proto(trace).spine[i]
                == hollow_batch_proto(trace.batches[i]),
        trace.since.len() <= 1 && (forall|i: int|
            0 <= i < trace.batches.len() ==> {
                let desc = (#[trigger] trace.batches[i]).desc;
                &&& desc.lower.len() == 1
                &&& desc.upper.len() <= 1
                &&& desc.since.len() <= 1
                &&& !frontier_less_than(trace.since, desc.since)
            }) ==> trace_of(trace_proto(trace)) == Ok::<TraceView, TryFromProtoErrorView>(trace),
{
    if trace.since.len() <= 1 && (forall|i: int|
        0 <= i < trace.batches.len() ==> {
            let desc = (#[trigger] trace.batches[i]).desc;
            &&& desc.lower.len() == 1
            &&& desc.upper.len() <= 1
            &&& desc.since.len() <= 1
            &&& !frontier_less_than(trace.since, desc.since)
        }) {
        lemma_trace_round_trip(trace);
    }
}

} // verus!
