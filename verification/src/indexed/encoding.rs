//! Batches of updates, and what is written beside the updates.

use timely::progress::Antichain;
use vstd::prelude::*;

use crate::base64::{
    base64, base64_bytes, decode_base64, encode_base64, lemma_base64_round_trip,
};
use crate::indexed::columnar::{error, BatchError, ColumnarRecords, ColumnarRecordsView};
use crate::indexed::proto::{ProtoBatchPartInline, ProtoBatchPartInlineView};
use crate::persist::antichain::{
    antichain_elements, antichain_from_elem, antichain_of, antichain_text, description_proto,
    description_valid, elements, frontier_less_equal, lemma_antichain_round_trip, less_equal,
    write_antichain, Description, DescriptionView,
};
use crate::persist::error::RustType;
use crate::persist::proto::batch::{
    ProtoU64Antichain, ProtoU64AntichainView, ProtoU64Description, ProtoU64DescriptionView,
};
use crate::proto::message::{
    decode, decoded, encode_to_vec, encoded, lemma_round_trip, option_view, views,
};
use crate::proto::wire::decode_error_text;
use crate::text::{decimal, i64_text, signed_decimal, u64_text};

verus! {

/// How the updates of a batch are written.
#[derive(Debug, Clone, Copy, PartialEq, Eq, Structural)]
pub enum ProtoBatchFormat {
    Unknown,
    ArrowKvtd,
    ParquetKvtd,
}

/// The number that a format is written as.
pub open spec fn format_number(format: ProtoBatchFormat) -> i32 {
    match format {
        ProtoBatchFormat::Unknown => 0,
        ProtoBatchFormat::ArrowKvtd => 1,
        ProtoBatchFormat::ParquetKvtd => 2,
    }
}

/// The format that is written as a number.
pub open spec fn format_of(number: i32) -> Option<ProtoBatchFormat> {
    if number == 0 {
        Some(ProtoBatchFormat::Unknown)
    } else if number == 1 {
        Some(ProtoBatchFormat::ArrowKvtd)
    } else if number == 2 {
        Some(ProtoBatchFormat::ParquetKvtd)
    } else {
        None
    }
}

impl ProtoBatchFormat {
    /// The number that the format is written as.
    pub fn number(self) -> (number: i32)
        ensures
            number == format_number(self),
    {
        match self {
            ProtoBatchFormat::Unknown => 0,
            ProtoBatchFormat::ArrowKvtd => 1,
            ProtoBatchFormat::ParquetKvtd => 2,
        }
    }

    /// The format that is written as a number.
    pub fn from_i32(number: i32) -> (format: Option<ProtoBatchFormat>)
        ensures
            format == format_of(number),
    {
        match number {
            0 => Some(ProtoBatchFormat::Unknown),
            1 => Some(ProtoBatchFormat::ArrowKvtd),
            2 => Some(ProtoBatchFormat::ParquetKvtd),
            _ => None,
        }
    }
}

/// A part of a batch, with its updates.
#[derive(Debug, PartialEq, Eq)]
#[verifier::reject_recursive_types(T)]
pub struct BlobTraceBatchPart<T> {
    /// The frontiers of the batch.
    pub desc: Description<T>,
    /// The number of the part in its batch.
    pub index: u64,
    /// The updates.
    pub updates: Vec<ColumnarRecords>,
}

/// The contents of a [`BlobTraceBatchPart`].
#[verifier::ext_equal]
pub struct BlobTraceBatchPartView {
    pub desc: DescriptionView,
    pub index: u64,
    pub updates: Seq<ColumnarRecordsView>,
}

impl View for BlobTraceBatchPart<u64> {
    type V = BlobTraceBatchPartView;

    open spec fn view(&self) -> BlobTraceBatchPartView {
        BlobTraceBatchPartView {
            desc: self.desc@,
            index: self.index,
            updates: views(self.updates@),
        }
    }
}

/// The frontiers of a batch in words.
pub open spec fn description_text(desc: DescriptionView) -> Seq<char> {
    "Description { lower: "@ + antichain_text(desc.lower) + ", upper: "@ + antichain_text(
        desc.upper,
    ) + ", since: "@ + antichain_text(desc.since) + " }"@
}

fn write_description(desc: &Description<u64>) -> (text: String)
    ensures
        text@ == description_text(desc@),
{
    let mut text: String = "Description { lower: ".to_owned();
    text.append(write_antichain(desc.lower()).as_str());
    text.append(", upper: ");
    text.append(write_antichain(desc.upper()).as_str());
    text.append(", since: ");
    text.append(write_antichain(desc.since()).as_str());
    text.append(" }");
    text
}

/// Whether a time is at or after some time of a frontier.
pub open spec fn at_or_after(frontier: Seq<u64>, time: u64) -> bool {
    exists|i: int| 0 <= i < frontier.len() && #[trigger] frontier[i] <= time
}

fn is_at_or_after(frontier: &Vec<u64>, time: u64) -> (r: bool)
    ensures
        r == at_or_after(frontier@, time),
{
    let mut i: usize = 0;
    while i < frontier.len()
        invariant
            i <= frontier.len(),
            forall|j: int| 0 <= j < i ==> #[trigger] frontier[j] > time,
        decreases frontier.len() - i,
    {
        if frontier[i] <= time {
            assert(frontier@[i as int] <= time);
            return true;
        }
        i = i + 1;
    }
    false
}

/// What is wrong with the time of an update, by the frontiers of its batch: it is before the batch,
/// or, where no times have been advanced, after it.
pub open spec fn time_error(desc: DescriptionView, time: u64) -> Option<Seq<char>> {
    if !at_or_after(desc.lower, time) {
        Some(
            "timestamp "@ + decimal(time as nat) + " is less than the batch lower: "@
                + description_text(desc),
        )
    } else if frontier_less_equal(desc.since, desc.lower) && at_or_after(desc.upper, time) {
        Some(
            "timestamp "@ + decimal(time as nat)
                + " is greater than or equal to the batch upper: "@ + description_text(desc),
        )
    } else {
        None
    }
}

/// The first thing that is wrong with the times of updates.
pub open spec fn times_error(desc: DescriptionView, times: Seq<i64>) -> Option<Seq<char>>
    decreases times.len(),
{
    if times.len() == 0 {
        None
    } else {
        match times_error(desc, times.drop_last()) {
            Some(message) => Some(message),
            None => time_error(desc, times.last() as u64),
        }
    }
}

/// The first thing that is wrong with the times of groups of updates.
pub open spec fn updates_error(desc: DescriptionView, updates: Seq<ColumnarRecordsView>) -> Option<
    Seq<char>,
>
    decreases updates.len(),
{
    if updates.len() == 0 {
        None
    } else {
        match updates_error(desc, updates.drop_last()) {
            Some(message) => Some(message),
            None => times_error(desc, updates.last().timestamps),
        }
    }
}

/// The first thing that is wrong with a part: the batch is empty or goes backwards, or an update
/// does not belong to it.
pub open spec fn part_error(part: BlobTraceBatchPartView) -> Option<Seq<char>> {
    if frontier_less_equal(part.desc.upper, part.desc.lower) {
        Some("invalid desc: "@ + description_text(part.desc))
    } else {
        updates_error(part.desc, part.updates)
    }
}

proof fn lemma_times_prefix(desc: DescriptionView, times: Seq<i64>, i: int)
    requires
        0 <= i <= times.len(),
    ensures
        times_error(desc, times.take(i)) matches Some(message) ==> times_error(desc, times)
            == Some(message),
    decreases times.len(),
{
    if i < times.len() {
        lemma_times_prefix(desc, times.drop_last(), i);
        assert(times.drop_last().take(i) =~= times.take(i));
    } else {
        assert(times.take(i) =~= times);
    }
}

proof fn lemma_updates_prefix(desc: DescriptionView, updates: Seq<ColumnarRecordsView>, i: int)
    requires
        0 <= i <= updates.len(),
    ensures
        updates_error(desc, updates.take(i)) matches Some(message) ==> updates_error(desc, updates)
            == Some(message),
    decreases updates.len(),
{
    if i < updates.len() {
        lemma_updates_prefix(desc, updates.drop_last(), i);
        assert(updates.drop_last().take(i) =~= updates.take(i));
    } else {
        assert(updates.take(i) =~= updates);
    }
}

impl BlobTraceBatchPart<u64> {
    /// Checks that the frontiers of the batch are in order, and that the updates belong to it.
    pub fn validate(&self) -> (r: Result<(), BatchError>)
        ensures
            match r {
                Ok(()) => part_error(self@) is None,
                Err(err) => part_error(self@) == Some(err@),
            },
    {
        if less_equal(self.desc.upper(), self.desc.lower()) {
            let mut message: String = "invalid desc: ".to_owned();
            message.append(write_description(&self.desc).as_str());
            return Err(BatchError { message });
        }
        let uncompacted: bool = less_equal(self.desc.since(), self.desc.lower());
        let lower: Vec<u64> = elements(self.desc.lower());
        let upper: Vec<u64> = elements(self.desc.upper());
        let ghost all = self@.updates;
        let mut i: usize = 0;
        while i < self.updates.len()
            invariant
                i <= self.updates.len(),
                all == self@.updates,
                uncompacted == frontier_less_equal(self@.desc.since, self@.desc.lower),
                lower@ == self@.desc.lower,
                upper@ == self@.desc.upper,
                updates_error(self@.desc, all.take(i as int)) is None,
                part_error(self@) == updates_error(self@.desc, all),
            decreases self.updates.len() - i,
        {
            let times: &Vec<i64> = self.updates[i].timestamps();
            proof {
                assert(all.take(i + 1).drop_last() =~= all.take(i as int));
                assert(all.take(i + 1).last().timestamps == times@);
                lemma_updates_prefix(self@.desc, all, i + 1);
            }
            let mut j: usize = 0;
            while j < times.len()
                invariant
                    j <= times.len(),
                    i < self.updates.len(),
                    all == self@.updates,
                    uncompacted == frontier_less_equal(self@.desc.since, self@.desc.lower),
                    lower@ == self@.desc.lower,
                    upper@ == self@.desc.upper,
                    updates_error(self@.desc, all.take(i as int)) is None,
                    part_error(self@) == updates_error(self@.desc, all),
                    updates_error(self@.desc, all.take(i + 1)) == times_error(
                        self@.desc,
                        times@,
                    ),
                    updates_error(self@.desc, all.take(i + 1)) matches Some(message)
                        ==> updates_error(self@.desc, all) == Some(message),
                    times_error(self@.desc, times@.take(j as int)) is None,
                decreases times.len() - j,
            {
                let time: u64 = #[verifier::truncate] (times[j] as u64);
                proof {
                    assert(times@.take(j + 1).drop_last() =~= times@.take(j as int));
                    lemma_times_prefix(self@.desc, times@, j + 1);
                }
                if !is_at_or_after(&lower, time) {
                    let mut message: String = "timestamp ".to_owned();
                    message.append(u64_text(time).as_str());
                    message.append(" is less than the batch lower: ");
                    message.append(write_description(&self.desc).as_str());
                    return Err(BatchError { message });
                }
                if uncompacted && is_at_or_after(&upper, time) {
                    let mut message: String = "timestamp ".to_owned();
                    message.append(u64_text(time).as_str());
                    message.append(" is greater than or equal to the batch upper: ");
                    message.append(write_description(&self.desc).as_str());
                    return Err(BatchError { message });
                }
                j = j + 1;
            }
            assert(times@.take(j as int) =~= times@);
            i = i + 1;
        }
        assert(all.take(i as int) =~= all);
        Ok(())
    }
}

/// What is written beside the updates of a part: a message, in base 64.
pub open spec fn inline_meta(part: BlobTraceBatchPartView, format: ProtoBatchFormat) -> Seq<char> {
    base64(
        encoded::<ProtoBatchPartInline>(
            ProtoBatchPartInlineView {
                format: format_number(format),
                desc: Some(description_proto(part.desc)),
                index: part.index,
            },
        ),
    )
}

/// What is known of a part by what is written beside its updates, or what is wrong with that.
pub open spec fn meta_of(inline: Option<Seq<char>>) -> Result<
    (ProtoBatchFormat, ProtoBatchPartInlineView),
    Seq<char>,
> {
    match inline {
        Some(text) => match base64_bytes(text) {
            Some(bytes) => match decoded::<ProtoBatchPartInline>(bytes) {
                Some(meta) => match format_of(meta.format) {
                    Some(format) => Ok((format, meta)),
                    None => Err("unknown format: "@ + signed_decimal(meta.format as int)),
                },
                None => Err(decode_error_text()),
            },
            None => Err("invalid base64"@),
        },
        None => Err("missing batch metadata"@),
    }
}

/// Writes what is known of a part without its updates.
pub fn encode_trace_inline_meta(batch: &BlobTraceBatchPart<u64>, format: ProtoBatchFormat) -> (text:
    String)
    ensures
        text@ == inline_meta(batch@, format),
        meta_of(Some(text@)) matches Ok((read, meta)) && read == format && meta.desc == Some(
            description_proto(batch@.desc),
        ) && meta.index == batch@.index,
{
    let inline = ProtoBatchPartInline {
        format: format.number(),
        desc: Some(batch.desc.into_proto()),
        index: batch.index,
    };
    let bytes: Vec<u8> = encode_to_vec(&inline);
    proof {
        assert(bytes@.len() == bytes.len());
        lemma_round_trip::<ProtoBatchPartInline>(inline@);
        lemma_base64_round_trip(bytes@);
    }
    encode_base64(&bytes)
}

/// Reads what is known of a part without its updates.
pub fn decode_trace_inline_meta(inline_base64: Option<&String>) -> (r: Result<
    (ProtoBatchFormat, ProtoBatchPartInline),
    BatchError,
>)
    ensures
        ({
            let inline = match inline_base64 {
                Some(text) => Some(text@),
                None => None,
            };
            match r {
                Ok((format, meta)) => meta_of(inline) matches Ok((f, m)) && f == format && m
                    == meta@,
                Err(err) => meta_of(inline) matches Err(message) && message == err@,
            }
        }),
{
    let text: &String = match inline_base64 {
        Some(text) => text,
        None => {
            return Err(error("missing batch metadata"));
        },
    };
    let bytes: Vec<u8> = match decode_base64(text) {
        Some(bytes) => bytes,
        None => {
            return Err(error("invalid base64"));
        },
    };
    let meta: ProtoBatchPartInline = match decode(bytes.as_slice()) {
        Ok(meta) => meta,
        Err(err) => {
            return Err(BatchError { message: err.text() });
        },
    };
    match ProtoBatchFormat::from_i32(meta.format) {
        Some(format) => Ok((format, meta)),
        None => {
            let mut message: String = "unknown format: ".to_owned();
            message.append(i64_text(meta.format as i64).as_str());
            Err(BatchError { message })
        },
    }
}

/// A frontier, by a message that may be missing: the least one.
pub open spec fn frontier_or_least(proto: Option<ProtoU64AntichainView>) -> Seq<u64> {
    match proto {
        Some(proto) => antichain_of(proto),
        None => seq![0u64],
    }
}

/// The frontiers of a batch, by a message that may be missing.
pub open spec fn desc_or_least(proto: Option<ProtoU64DescriptionView>) -> DescriptionView {
    match proto {
        Some(proto) => DescriptionView {
            lower: frontier_or_least(proto.lower),
            upper: frontier_or_least(proto.upper),
            since: frontier_or_least(proto.since),
        },
        None => DescriptionView { lower: seq![0u64], upper: seq![0u64], since: seq![0u64] },
    }
}

/// The frontiers of a batch are read as they were written.
pub proof fn lemma_desc_round_trip(desc: DescriptionView)
    requires
        description_valid(desc),
    ensures
        desc_or_least(Some(description_proto(desc))) == desc,
{
    lemma_antichain_round_trip(desc.lower);
    lemma_antichain_round_trip(desc.upper);
    lemma_antichain_round_trip(desc.since);
}

fn read_frontier(proto: Option<ProtoU64Antichain>) -> (antichain: Antichain<u64>)
    ensures
        antichain_elements(antichain) == frontier_or_least(option_view(proto)),
{
    match proto {
        Some(proto) => match <Antichain<u64>>::from_proto(proto) {
            Ok(antichain) => antichain,
            Err(_) => antichain_from_elem(0),
        },
        None => antichain_from_elem(0),
    }
}

/// The frontiers of a batch, by a message that may be missing; `None` if the lower one is empty.
pub fn read_desc(proto: Option<ProtoU64Description>) -> (desc: Option<Description<u64>>)
    ensures
        match desc {
            Some(desc) => desc@ == desc_or_least(option_view(proto)) && desc@.lower.len() > 0,
            None => desc_or_least(option_view(proto)).lower.len() == 0,
        },
{
    let (lower, upper, since) = match proto {
        Some(proto) => (
            read_frontier(proto.lower),
            read_frontier(proto.upper),
            read_frontier(proto.since),
        ),
        None => (antichain_from_elem(0), antichain_from_elem(0), antichain_from_elem(0)),
    };
    let times: Vec<u64> = elements(&lower);
    if times.len() == 0 {
        None
    } else {
        Some(Description::new(lower, upper, since))
    }
}

} // verus!
