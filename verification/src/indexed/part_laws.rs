//! What parts of batches are for: which updates they may hold, and which are read.

use vstd::prelude::*;

use crate::base64::{base64, base64_bytes, base64_codes};
use crate::indexed::columnar::{columns_fit, rows_len, BatchError, ColumnarRecordsView};
use crate::indexed::encoding::{
    at_or_after, decode_trace_inline_meta, desc_or_least, description_text,
    encode_trace_inline_meta, format_number, format_of, inline_meta, meta_of, part_error,
    time_error, times_error, updates_error, BlobTraceBatchPart, BlobTraceBatchPartView,
    ProtoBatchFormat,
};
use crate::indexed::footer::footer_expected;
use crate::indexed::pages::{column_fits, is_texts, page_fits, pages_rows, PageHead, MAX_PAGES};
use crate::indexed::parquet::{
    column_error, decode_trace_parquet, empty_groups, encode_trace_parquet, few_pages, file_error,
    file_of, group_error, groups_error, groups_of, inline_of, kvtd_columns, kvtd_fields,
    pages_error, parquet_layout, parquet_metadata, parquet_opened, part_file, part_of, part_valid,
    plain_codec, schema_expected, trace_part_of, updates_of, value_of, EntryView, FileLayoutView,
    GroupView, MAX_EMPTY_GROUPS,
};
use crate::indexed::proto::{ProtoBatchPartInline, ProtoBatchPartInlineView};
use crate::persist::antichain::{description_proto, frontier_less_equal, DescriptionView};
use crate::persist::message_laws::{is_frontier, lemma_frontier_is_read};
use crate::persist::proto::batch::ProtoU64DescriptionView;
use crate::proto::message::decoded;
use crate::text::{decimal, signed_decimal};

verus! {

/// Whether a time is at or after some time of a frontier.
pub open spec fn reached(frontier: Seq<u64>, time: u64) -> bool {
    exists|i: int| 0 <= i < frontier.len() && #[trigger] frontier[i] <= time
}

/// Whether a time may occur in a batch: it is not before the batch and, unless times have been
/// advanced beyond the start of the batch, not after it.
pub open spec fn belongs(desc: DescriptionView, time: u64) -> bool {
    &&& reached(desc.lower, time)
    &&& frontier_less_equal(desc.since, desc.lower) ==> !reached(desc.upper, time)
}

proof fn lemma_times(desc: DescriptionView, times: Seq<i64>)
    ensures
        times_error(desc, times) is None <==> forall|i: int|
            0 <= i < times.len() ==> belongs(desc, #[trigger] times[i] as u64),
        times_error(desc, times) matches Some(message) ==> exists|i: int|
            0 <= i < times.len() && blames(desc, #[trigger] times[i] as u64, message),
    decreases times.len(),
{
    if times.len() > 0 {
        let front = times.drop_last();
        let n = times.len() - 1;
        lemma_times(desc, front);
        assert(forall|i: int| 0 <= i < front.len() ==> front[i] == #[trigger] times[i]);
        lemma_time(desc, times.last() as u64);
        assert(times[n] == times.last());
        if forall|i: int| 0 <= i < times.len() ==> belongs(desc, #[trigger] times[i] as u64) {
            assert forall|i: int| 0 <= i < front.len() implies belongs(
                desc,
                #[trigger] front[i] as u64,
            ) by {
                assert(belongs(desc, times[i] as u64));
            }
            assert(belongs(desc, times[n] as u64));
        }
        if times_error(desc, times) is None {
            assert forall|i: int| 0 <= i < times.len() implies belongs(
                desc,
                #[trigger] times[i] as u64,
            ) by {
                if i < n {
                    assert(belongs(desc, front[i] as u64));
                }
            }
        }
        if let Some(message) = times_error(desc, times) {
            if times_error(desc, front) is Some {
                let i = choose|i: int|
                    0 <= i < front.len() && blames(desc, #[trigger] front[i] as u64, message);
                assert(blames(desc, times[i] as u64, message));
            } else {
                assert(blames(desc, times[n] as u64, message));
            }
        }
    }
}

/// Whether a message blames a time that does not belong to a batch, on the right side of it.
pub open spec fn blames(desc: DescriptionView, time: u64, message: Seq<char>) -> bool {
    &&& !belongs(desc, time)
    &&& message == "timestamp "@ + decimal(time as nat) + (if !reached(desc.lower, time) {
        " is less than the batch lower: "@
    } else {
        " is greater than or equal to the batch upper: "@
    }) + description_text(desc)
}

proof fn lemma_time(desc: DescriptionView, time: u64)
    ensures
        time_error(desc, time) is None <==> belongs(desc, time),
        time_error(desc, time) matches Some(message) ==> blames(desc, time, message),
{
    assert(at_or_after(desc.lower, time) <==> reached(desc.lower, time));
    assert(at_or_after(desc.upper, time) <==> reached(desc.upper, time));
}

proof fn lemma_updates(desc: DescriptionView, updates: Seq<ColumnarRecordsView>)
    ensures
        updates_error(desc, updates) is None <==> forall|g: int, i: int|
            0 <= g < updates.len() && 0 <= i < updates[g].timestamps.len() ==> belongs(
                desc,
                #[trigger] updates[g].timestamps[i] as u64,
            ),
        updates_error(desc, updates) matches Some(message) ==> exists|g: int, i: int|
            0 <= g < updates.len() && 0 <= i < updates[g].timestamps.len() && blames(
                desc,
                #[trigger] updates[g].timestamps[i] as u64,
                message,
            ),
    decreases updates.len(),
{
    if updates.len() > 0 {
        let front = updates.drop_last();
        let n = updates.len() - 1;
        lemma_updates(desc, front);
        lemma_times(desc, updates.last().timestamps);
        assert(updates[n] == updates.last());
        assert(forall|g: int| 0 <= g < front.len() ==> front[g] == #[trigger] updates[g]);
        if forall|g: int, i: int|
            0 <= g < updates.len() && 0 <= i < updates[g].timestamps.len() ==> belongs(
                desc,
                #[trigger] updates[g].timestamps[i] as u64,
            ) {
            assert forall|g: int, i: int|
                0 <= g < front.len() && 0 <= i < front[g].timestamps.len() implies belongs(
                desc,
                #[trigger] front[g].timestamps[i] as u64,
            ) by {
                assert(belongs(desc, updates[g].timestamps[i] as u64));
            }
            assert forall|i: int| 0 <= i < updates.last().timestamps.len() implies belongs(
                desc,
                #[trigger] updates.last().timestamps[i] as u64,
            ) by {
                assert(belongs(desc, updates[n].timestamps[i] as u64));
            }
        }
        if updates_error(desc, updates) is None {
            assert forall|g: int, i: int|
                0 <= g < updates.len() && 0 <= i < updates[g].timestamps.len() implies belongs(
                desc,
                #[trigger] updates[g].timestamps[i] as u64,
            ) by {
                if g < n {
                    assert(belongs(desc, front[g].timestamps[i] as u64));
                } else {
                    assert(belongs(desc, updates.last().timestamps[i] as u64));
                }
            }
        }
        if let Some(message) = updates_error(desc, updates) {
            if updates_error(desc, front) is Some {
                let (g, i) = choose|g: int, i: int|
                    0 <= g < front.len() && 0 <= i < front[g].timestamps.len() && blames(
                        desc,
                        #[trigger] front[g].timestamps[i] as u64,
                        message,
                    );
                assert(blames(desc, updates[g].timestamps[i] as u64, message));
            } else {
                let times = updates.last().timestamps;
                let i = choose|i: int|
                    0 <= i < times.len() && blames(desc, #[trigger] times[i] as u64, message);
                assert(blames(desc, updates[n].timestamps[i] as u64, message));
            }
        }
    }
}

/// A part is valid exactly if its batch is not empty and does not go backwards, and every update of
/// every group belongs to the batch. Otherwise the batch is named, or an update that does not
/// belong to it.
pub proof fn lemma_valid_parts(part: BlobTraceBatchPartView)
    ensures
        part_error(part) is None <==> {
            &&& !frontier_less_equal(part.desc.upper, part.desc.lower)
            &&& forall|g: int, i: int|
                0 <= g < part.updates.len() && 0 <= i < part.updates[g].timestamps.len()
                    ==> belongs(part.desc, #[trigger] part.updates[g].timestamps[i] as u64)
        },
        frontier_less_equal(part.desc.upper, part.desc.lower) ==> part_error(part) == Some(
            "invalid desc: "@ + description_text(part.desc),
        ),
        part_error(part) matches Some(message) ==> frontier_less_equal(
            part.desc.upper,
            part.desc.lower,
        ) || exists|g: int, i: int|
            0 <= g < part.updates.len() && 0 <= i < part.updates[g].timestamps.len() && blames(
                part.desc,
                #[trigger] part.updates[g].timestamps[i] as u64,
                message,
            ),
{
    lemma_updates(part.desc, part.updates);
}

proof fn lemma_first_time(desc: DescriptionView, times: Seq<i64>, i: int)
    requires
        0 <= i < times.len(),
        !belongs(desc, times[i] as u64),
        forall|j: int| 0 <= j < i ==> belongs(desc, #[trigger] times[j] as u64),
    ensures
        times_error(desc, times) matches Some(message) && blames(desc, times[i] as u64, message),
    decreases times.len(),
{
    let front = times.drop_last();
    if i == times.len() - 1 {
        lemma_times(desc, front);
        assert forall|j: int| 0 <= j < front.len() implies belongs(
            desc,
            #[trigger] front[j] as u64,
        ) by {
            assert(belongs(desc, times[j] as u64));
        }
        lemma_time(desc, times.last() as u64);
    } else {
        assert forall|j: int| 0 <= j < i implies belongs(desc, #[trigger] front[j] as u64) by {
            assert(belongs(desc, times[j] as u64));
        }
        lemma_first_time(desc, front, i);
    }
}

proof fn lemma_first_update(
    desc: DescriptionView,
    updates: Seq<ColumnarRecordsView>,
    g: int,
    i: int,
)
    requires
        0 <= g < updates.len(),
        0 <= i < updates[g].timestamps.len(),
        !belongs(desc, updates[g].timestamps[i] as u64),
        forall|h: int, j: int|
            0 <= h < g && 0 <= j < updates[h].timestamps.len() ==> belongs(
                desc,
                #[trigger] updates[h].timestamps[j] as u64,
            ),
        forall|j: int|
            0 <= j < i ==> belongs(desc, #[trigger] updates[g].timestamps[j] as u64),
    ensures
        updates_error(desc, updates) matches Some(message) && blames(
            desc,
            updates[g].timestamps[i] as u64,
            message,
        ),
    decreases updates.len(),
{
    let front = updates.drop_last();
    assert(forall|h: int| 0 <= h < front.len() ==> front[h] == #[trigger] updates[h]);
    if g == updates.len() - 1 {
        lemma_updates(desc, front);
        assert forall|h: int, j: int|
            0 <= h < front.len() && 0 <= j < front[h].timestamps.len() implies belongs(
            desc,
            #[trigger] front[h].timestamps[j] as u64,
        ) by {
            assert(belongs(desc, updates[h].timestamps[j] as u64));
        }
        lemma_first_time(desc, updates.last().timestamps, i);
    } else {
        assert forall|h: int, j: int|
            0 <= h < g && 0 <= j < front[h].timestamps.len() implies belongs(
            desc,
            #[trigger] front[h].timestamps[j] as u64,
        ) by {
            assert(belongs(desc, updates[h].timestamps[j] as u64));
        }
        lemma_first_update(desc, front, g, i);
    }
}

/// Of the updates that do not belong to a batch that is in order, the first is named: that of the
/// first group that has one, and in the order of the group.
pub proof fn lemma_first_stray_update_is_named(part: BlobTraceBatchPartView, g: int, i: int)
    requires
        !frontier_less_equal(part.desc.upper, part.desc.lower),
        0 <= g < part.updates.len(),
        0 <= i < part.updates[g].timestamps.len(),
        !belongs(part.desc, part.updates[g].timestamps[i] as u64),
        forall|h: int, j: int|
            0 <= h < g && 0 <= j < part.updates[h].timestamps.len() ==> belongs(
                part.desc,
                #[trigger] part.updates[h].timestamps[j] as u64,
            ),
        forall|j: int|
            0 <= j < i ==> belongs(part.desc, #[trigger] part.updates[g].timestamps[j] as u64),
    ensures
        part_error(part) matches Some(message) && blames(
            part.desc,
            part.updates[g].timestamps[i] as u64,
            message,
        ),
{
    lemma_first_update(part.desc, part.updates, g, i);
}

/// What a part is checked for is what makes it valid.
pub proof fn lemma_parts_are_checked(
    part: BlobTraceBatchPart<u64>,
    checked: Result<(), BatchError>,
)
    requires
        call_ensures(BlobTraceBatchPart::<u64>::validate, (&part,), checked),
    ensures
        checked is Ok <==> {
            &&& !frontier_less_equal(part@.desc.upper, part@.desc.lower)
            &&& forall|g: int, i: int|
                0 <= g < part@.updates.len() && 0 <= i < part@.updates[g].timestamps.len()
                    ==> belongs(part@.desc, #[trigger] part@.updates[g].timestamps[i] as u64)
        },
{
    lemma_valid_parts(part@);
}

/// Whether a time is one of a batch from a lower time up to, and without, an upper one, whose times
/// have been advanced up to some time.
pub open spec fn is_within(lower: u64, upper: u64, since: u64, time: u64) -> bool {
    lower <= time && (since <= lower ==> time < upper)
}

/// Where frontiers have one time each, a batch goes from its lower time up to, and without, its
/// upper one. Its updates are in between; if its times have been advanced beyond its lower time,
/// they may also be later.
pub proof fn lemma_valid_parts_by_times(
    part: BlobTraceBatchPartView,
    lower: u64,
    upper: u64,
    since: u64,
)
    requires
        part.desc.lower == seq![lower],
        part.desc.upper == seq![upper],
        part.desc.since == seq![since],
    ensures
        part_error(part) is None <==> lower < upper && forall|g: int, i: int|
            0 <= g < part.updates.len() && 0 <= i < part.updates[g].timestamps.len() ==> is_within(
                lower,
                upper,
                since,
                #[trigger] part.updates[g].timestamps[i] as u64,
            ),
{
    lemma_valid_parts(part);
    let desc = part.desc;
    assert(desc.lower[0] == lower && desc.upper[0] == upper && desc.since[0] == since);
    assert(frontier_less_equal(desc.upper, desc.lower) <==> upper <= lower);
    assert(frontier_less_equal(desc.since, desc.lower) <==> since <= lower);
    assert forall|time: u64| #[trigger]
        belongs(desc, time) <==> is_within(lower, upper, since, time) by {
        if lower <= time {
            assert(desc.lower[0] <= time);
        }
        if upper <= time {
            assert(desc.upper[0] <= time);
        }
    }
    if part_error(part) is None {
        assert forall|g: int, i: int|
            0 <= g < part.updates.len() && 0 <= i
                < part.updates[g].timestamps.len() implies is_within(
            lower,
            upper,
            since,
            #[trigger] part.updates[g].timestamps[i] as u64,
        ) by {
            assert(belongs(desc, part.updates[g].timestamps[i] as u64));
        }
    }
    if lower < upper && forall|g: int, i: int|
        0 <= g < part.updates.len() && 0 <= i < part.updates[g].timestamps.len() ==> is_within(
            lower,
            upper,
            since,
            #[trigger] part.updates[g].timestamps[i] as u64,
        ) {
        assert forall|g: int, i: int|
            0 <= g < part.updates.len() && 0 <= i
                < part.updates[g].timestamps.len() implies belongs(
            desc,
            #[trigger] part.updates[g].timestamps[i] as u64,
        ) by {
            assert(is_within(lower, upper, since, part.updates[g].timestamps[i] as u64));
        }
    }
}

/// The formats are told apart by the numbers 0, 1 and 2, and no other number is one.
pub proof fn lemma_formats_are_numbered(number: i32, format: ProtoBatchFormat)
    ensures
        format_of(number) is Some <==> 0 <= number <= 2,
        format_of(format_number(format)) == Some(format),
        format_number(ProtoBatchFormat::Unknown) == 0,
        format_number(ProtoBatchFormat::ArrowKvtd) == 1,
        format_number(ProtoBatchFormat::ParquetKvtd) == 2,
{
}

/// What is known of a part is read from what is written beside its updates: it has to be there, in
/// base 64, a message, and in a known format; otherwise the first of these that fails is named.
pub proof fn lemma_meta_is_read(inline: Option<Seq<char>>)
    ensures
        match inline {
            None => meta_of(inline) == Err::<(ProtoBatchFormat, ProtoBatchPartInlineView), _>(
                "missing batch metadata"@,
            ),
            Some(text) => match base64_bytes(text) {
                None => meta_of(inline) == Err::<(ProtoBatchFormat, ProtoBatchPartInlineView), _>(
                    "invalid base64"@,
                ),
                Some(bytes) => match decoded::<ProtoBatchPartInline>(bytes) {
                    None => meta_of(inline) is Err,
                    Some(meta) => match meta.format {
                        0 => meta_of(inline) matches Ok((format, read)) && read == meta && format
                            == ProtoBatchFormat::Unknown,
                        1 => meta_of(inline) matches Ok((format, read)) && read == meta && format
                            == ProtoBatchFormat::ArrowKvtd,
                        2 => meta_of(inline) matches Ok((format, read)) && read == meta && format
                            == ProtoBatchFormat::ParquetKvtd,
                        other => meta_of(inline) == Err::<
                            (ProtoBatchFormat, ProtoBatchPartInlineView),
                            _,
                        >("unknown format: "@ + signed_decimal(other as int)),
                    },
                },
            },
        },
{
}

/// A character of base 64, as the code that stands for six bits.
pub open spec fn is_code(code: u8, bits: int) -> bool {
    ||| 0 <= bits < 26 && code == 'A' as u8 + bits
    ||| 26 <= bits < 52 && code == 'a' as u8 + (bits - 26)
    ||| 52 <= bits < 62 && code == '0' as u8 + (bits - 52)
    ||| bits == 62 && code == '+' as u8
    ||| bits == 63 && code == '/' as u8
}

/// Base 64 writes three bytes as four characters of six bits each, with the first bits first; two
/// bytes that are left over as three characters and a `=`, and one as two and two of these.
pub proof fn lemma_base64_groups(a: u8, b: u8, c: u8, rest: Seq<u8>)
    ensures
        base64_codes(Seq::empty()).len() == 0,
        ({
            let codes = base64_codes(seq![a]);
            &&& codes.len() == 4
            &&& is_code(codes[0], a as int / 4)
            &&& is_code(codes[1], a as int % 4 * 16)
            &&& codes[2] == '=' as u8
            &&& codes[3] == '=' as u8
        }),
        ({
            let codes = base64_codes(seq![a, b]);
            &&& codes.len() == 4
            &&& is_code(codes[0], a as int / 4)
            &&& is_code(codes[1], a as int % 4 * 16 + b as int / 16)
            &&& is_code(codes[2], b as int % 16 * 4)
            &&& codes[3] == '=' as u8
        }),
        ({
            let codes = base64_codes(seq![a, b, c] + rest);
            &&& codes.len() == 4 + base64_codes(rest).len()
            &&& is_code(codes[0], a as int / 4)
            &&& is_code(codes[1], a as int % 4 * 16 + b as int / 16)
            &&& is_code(codes[2], b as int % 16 * 4 + c as int / 64)
            &&& is_code(codes[3], c as int % 64)
            &&& codes.skip(4) == base64_codes(rest)
        }),
{
    let bytes = seq![a, b, c] + rest;
    assert(bytes.skip(3) =~= rest);
    assert(base64_codes(bytes).skip(4) =~= base64_codes(rest));
}

/// Base 64 as text has the characters of the codes, and only such texts are read, as the bytes they
/// were written from.
pub proof fn lemma_base64_is_read_back(bytes: Seq<u8>, text: Seq<char>)
    ensures
        base64(bytes).len() == base64_codes(bytes).len(),
        forall|i: int|
            0 <= i < base64(bytes).len() ==> #[trigger] base64(bytes)[i] == base64_codes(bytes)[i]
                as char,
        base64_bytes(base64(bytes)) == Some(bytes),
        base64_bytes(text) matches Some(read) ==> base64(read) == text,
{
    crate::base64::lemma_base64_round_trip(bytes);
}

/// Columns fit together exactly if there are as many keys, values, times and diffs, and neither the
/// keys nor the values take more bytes than 32 bits with a sign can count.
pub proof fn lemma_columns_fit(records: ColumnarRecordsView, rows: Seq<Seq<u8>>, row: Seq<u8>)
    ensures
        columns_fit(records) <==> {
            &&& records.keys.len() == records.vals.len()
            &&& records.keys.len() == records.timestamps.len()
            &&& records.keys.len() == records.diffs.len()
            &&& rows_len(records.keys) <= 0x7fff_ffff
            &&& rows_len(records.vals) <= 0x7fff_ffff
        },
        rows_len(Seq::empty()) == 0,
        rows_len(rows.push(row)) == rows_len(rows) + row.len(),
{
    assert(rows.push(row).drop_last() =~= rows);
}

/// The frontiers of a part are read each from its own place, and those that are missing are the
/// least ones.
pub proof fn lemma_missing_frontiers(proto: Option<ProtoU64DescriptionView>)
    ensures
        ({
            let desc = desc_or_least(proto);
            match proto {
                None => desc.lower == seq![0u64] && desc.upper == seq![0u64] && desc.since
                    == seq![0u64],
                Some(proto) => {
                    &&& match proto.lower {
                        Some(lower) => is_frontier(lower, desc.lower),
                        None => desc.lower == seq![0u64],
                    }
                    &&& match proto.upper {
                        Some(upper) => is_frontier(upper, desc.upper),
                        None => desc.upper == seq![0u64],
                    }
                    &&& match proto.since {
                        Some(since) => is_frontier(since, desc.since),
                        None => desc.since == seq![0u64],
                    }
                },
            }
        }),
{
    if let Some(proto) = proto {
        if let Some(lower) = proto.lower {
            lemma_frontier_is_read(lower, Seq::empty());
        }
        if let Some(upper) = proto.upper {
            lemma_frontier_is_read(upper, Seq::empty());
        }
        if let Some(since) = proto.since {
            lemma_frontier_is_read(since, Seq::empty());
        }
    }
}

/// A part that is put together holds all updates, has the index and the frontiers that are known of
/// it, and is valid; what is not valid is not put together.
pub proof fn lemma_assembled_parts_are_valid(
    meta: ProtoBatchPartInlineView,
    updates: Seq<ColumnarRecordsView>,
)
    ensures
        ({
            let whole = BlobTraceBatchPartView {
                desc: desc_or_least(meta.desc),
                index: meta.index,
                updates,
            };
            &&& part_of(meta, updates) matches Ok(part) ==> {
                &&& part.updates == updates
                &&& part.index == meta.index
                &&& part.desc == desc_or_least(meta.desc)
                &&& part.desc.lower.len() > 0
                &&& part_error(part) is None
            }
            &&& whole.desc.lower.len() > 0 && part_error(whole) is None ==> part_of(meta, updates)
                is Ok
            &&& whole.desc.lower.len() > 0 && part_error(whole) is Some ==> part_of(meta, updates)
                == Err::<BlobTraceBatchPartView, Seq<char>>(part_error(whole)->Some_0)
        }),
{
}

/// The value of a key is that of the first entry with the key, whatever entries follow it; there is
/// none if no entry has the key.
pub proof fn lemma_first_entry_counts(entries: Seq<EntryView>, key: Seq<char>, k: int)
    requires
        0 <= k <= entries.len(),
        forall|i: int| 0 <= i < k ==> (#[trigger] entries[i]).0 != key,
        k < entries.len() ==> entries[k].0 == key,
    ensures
        value_of(entries, key) == if k < entries.len() {
            entries[k].1
        } else {
            None
        },
    decreases k,
{
    if k > 0 {
        assert(entries[0].0 != key);
        let rest = entries.skip(1);
        assert forall|i: int| 0 <= i < k - 1 implies (#[trigger] rest[i]).0 != key by {
            assert(rest[i] == entries[i + 1]);
        }
        if k < entries.len() {
            assert(rest[k - 1] == entries[k]);
        }
        lemma_first_entry_counts(rest, key, k - 1);
    }
}

/// What is known of a part is kept under "MZ:inline".
pub proof fn lemma_inline_key(entries: Option<Seq<EntryView>>)
    ensures
        inline_of(entries) == match entries {
            Some(entries) => value_of(entries, "MZ:inline"@),
            None => None,
        },
{
}

/// The groups of a file are all read, in order, exactly if none of them is an error and the columns
/// of each fit together.
pub proof fn lemma_groups_are_read(groups: Seq<GroupView>)
    ensures
        groups_of(groups) is Ok <==> forall|i: int|
            0 <= i < groups.len() ==> (#[trigger] groups[i] matches Ok(group) && columns_fit(
                group,
            )),
        groups_of(groups) matches Ok(updates) ==> updates.len() == groups.len() && forall|i: int|
            0 <= i < groups.len() ==> #[trigger] groups[i] == Ok::<ColumnarRecordsView, Seq<char>>(
                updates[i],
            ),
    decreases groups.len(),
{
    if groups.len() > 0 {
        let front = groups.drop_last();
        let n = groups.len() - 1;
        lemma_groups_are_read(front);
        assert(forall|i: int| 0 <= i < front.len() ==> front[i] == #[trigger] groups[i]);
        assert(groups[n] == groups.last());
        if forall|i: int|
            0 <= i < groups.len() ==> (#[trigger] groups[i] matches Ok(group) && columns_fit(
                group,
            )) {
            assert forall|i: int| 0 <= i < front.len() implies (#[trigger] front[i] matches Ok(
                group,
            ) && columns_fit(group)) by {
                assert(groups[i] is Ok);
            }
            assert(groups[n] is Ok);
        }
        if groups_of(groups) is Ok {
            assert forall|i: int| 0 <= i < groups.len() implies (#[trigger] groups[i] matches Ok(
                group,
            ) && columns_fit(group)) by {
                if i < n {
                    assert(front[i] is Ok);
                }
            }
        }
        if let Ok(updates) = groups_of(groups) {
            assert forall|i: int| 0 <= i < groups.len() implies #[trigger] groups[i] == Ok::<
                ColumnarRecordsView,
                Seq<char>,
            >(updates[i]) by {
                if i < n {
                    assert(front[i] == Ok::<ColumnarRecordsView, Seq<char>>(
                        groups_of(front)->Ok_0[i],
                    ));
                }
            }
        }
    }
}

/// A part is read from a file only if what is known of it says that it is in the one format that is
/// read, the file has the columns of updates, and the part is valid; it then has the updates of all
/// groups of the file, in order, and the frontiers and the index that are known of it. A file in
/// another known format is refused by that format.
pub proof fn lemma_what_is_read_of_a_file(file: Seq<u8>)
    requires
        footer_expected(file),
        parquet_metadata(file) is Ok,
    ensures
        ({
            let entries = parquet_metadata(file)->Ok_0;
            let r = trace_part_of(file);
            &&& meta_of(inline_of(entries)) matches Err(message) ==> r == Err::<
                BlobTraceBatchPartView,
                Seq<char>,
            >(message)
            &&& meta_of(inline_of(entries)) matches Ok((format, meta)) ==> {
                &&& format is Unknown ==> r == Err::<BlobTraceBatchPartView, Seq<char>>(
                    "unknown format"@,
                )
                &&& format is ArrowKvtd ==> r == Err::<BlobTraceBatchPartView, Seq<char>>(
                    "ArrowKVTD format not supported in parquet"@,
                )
                &&& r matches Ok(part) ==> {
                    &&& format is ParquetKvtd
                    &&& parquet_opened(file) matches Ok((fields, groups))
                    &&& fields == kvtd_fields()
                    &&& part.updates.len() == groups.len()
                    &&& forall|i: int|
                        0 <= i < groups.len() ==> #[trigger] groups[i] == Ok::<
                            ColumnarRecordsView,
                            Seq<char>,
                        >(part.updates[i])
                    &&& part.index == meta.index
                    &&& part.desc == desc_or_least(meta.desc)
                    &&& part_error(part) is None
                }
            }
        }),
{
    if let Ok((_, groups)) = parquet_opened(file) {
        lemma_groups_are_read(groups);
    }
    let entries = parquet_metadata(file)->Ok_0;
    if let Ok((_, meta)) = meta_of(inline_of(entries)) {
        let updates = updates_of(entries, parquet_opened(file), file_error(
            file,
            parquet_layout(file),
        ));
        if let Ok(updates) = updates {
            lemma_assembled_parts_are_valid(meta, updates);
        }
    }
}

/// A part is read from a file in the format that is read if nothing is wrong: the columns that it
/// keeps are neither too short nor too long, it has the columns of updates, it is laid out as it
/// should be, its groups can be read, and what they hold is a valid part. Otherwise the first of
/// these that is wrong is told.
pub proof fn lemma_sound_files_are_read(
    file: Seq<u8>,
    entries: Option<Seq<EntryView>>,
    meta: ProtoBatchPartInlineView,
)
    requires
        footer_expected(file),
        parquet_metadata(file) == Ok::<Option<Seq<EntryView>>, Seq<char>>(entries),
        meta_of(inline_of(entries)) == Ok::<_, Seq<char>>((ProtoBatchFormat::ParquetKvtd, meta)),
    ensures
        ({
            let r = trace_part_of(file);
            let wrong = file_error(file, parquet_layout(file));
            if !schema_expected(entries) {
                r == Err::<BlobTraceBatchPartView, Seq<char>>(
                    "the columns that a file keeps are not laid out as expected"@,
                )
            } else {
                match parquet_opened(file) {
                    Err(err) => r == Err::<BlobTraceBatchPartView, Seq<char>>(err),
                    Ok((fields, groups)) => {
                        &&& fields != kvtd_fields() ==> r == Err::<
                            BlobTraceBatchPartView,
                            Seq<char>,
                        >("expected arrow schema "@ + kvtd_fields() + " got: "@ + fields)
                        &&& fields == kvtd_fields() ==> (wrong matches Some(err) ==> r == Err::<
                            BlobTraceBatchPartView,
                            Seq<char>,
                        >(err))
                        &&& fields == kvtd_fields() && wrong is None ==> match groups_of(groups) {
                            Err(err) => r == Err::<BlobTraceBatchPartView, Seq<char>>(err),
                            Ok(updates) => r == part_of(meta, updates),
                        }
                    },
                }
            }
        }),
{
}

/// A part without a lower frontier is not put together.
pub proof fn lemma_lower_frontier_is_needed(
    meta: ProtoBatchPartInlineView,
    updates: Seq<ColumnarRecordsView>,
)
    requires
        desc_or_least(meta.desc).lower.len() == 0,
    ensures
        part_of(meta, updates) == Err::<BlobTraceBatchPartView, Seq<char>>(
            "the lower frontier of a batch is empty"@,
        ),
{
}

/// Of the groups of a file that cannot be read, or whose columns do not fit together, the first is
/// told.
pub proof fn lemma_first_bad_group_is_told(groups: Seq<GroupView>, k: int)
    requires
        0 <= k < groups.len(),
        forall|i: int|
            0 <= i < k ==> (#[trigger] groups[i] matches Ok(group) && columns_fit(group)),
        groups[k] matches Ok(group) ==> !columns_fit(group),
    ensures
        groups_of(groups) == Err::<Seq<ColumnarRecordsView>, Seq<char>>(
            match groups[k] {
                Ok(_) => "the columns of a group do not fit together"@,
                Err(err) => err,
            },
        ),
    decreases groups.len(),
{
    let front = groups.drop_last();
    assert(forall|i: int| 0 <= i < front.len() ==> front[i] == #[trigger] groups[i]);
    if k == groups.len() - 1 {
        lemma_groups_are_read(front);
        assert forall|i: int| 0 <= i < front.len() implies (#[trigger] front[i] matches Ok(group)
            && columns_fit(group)) by {
            assert(groups[i] is Ok);
        }
    } else {
        assert forall|i: int| 0 <= i < k implies (#[trigger] front[i] matches Ok(group)
            && columns_fit(group)) by {
            assert(groups[i] is Ok);
        }
        lemma_first_bad_group_is_told(front, k);
    }
}

proof fn lemma_group(bytes: Seq<u8>, group: nat, columns: nat, count: nat)
    ensures
        group_error(bytes, group, columns, count) is None <==> forall|column: nat|
            column < columns ==> #[trigger] column_error(bytes, group, column, count) is None,
    decreases columns,
{
    if columns > 0 {
        lemma_group(bytes, group, (columns - 1) as nat, count);
    }
}

proof fn lemma_groups(bytes: Seq<u8>, groups: Seq<u64>)
    ensures
        groups_error(bytes, groups) is None <==> forall|group: nat, column: nat|
            group < groups.len() && column < 4 ==> #[trigger] column_error(
                bytes,
                group,
                column,
                groups[group as int] as nat,
            ) is None,
    decreases groups.len(),
{
    if groups.len() > 0 {
        let front = groups.drop_last();
        let n = (groups.len() - 1) as nat;
        lemma_groups(bytes, front);
        lemma_group(bytes, n, 4, groups.last() as nat);
        assert(groups[n as int] == groups.last());
        let all = forall|group: nat, column: nat|
            group < groups.len() && column < 4 ==> #[trigger] column_error(
                bytes,
                group,
                column,
                groups[group as int] as nat,
            ) is None;
        if all {
            assert forall|group: nat, column: nat| group < front.len() && column < 4 implies (
            #[trigger] column_error(bytes, group, column, front[group as int] as nat)) is None by {
                assert(column_error(bytes, group, column, groups[group as int] as nat) is None);
            }
            assert forall|column: nat| column < 4 implies (#[trigger] column_error(
                bytes,
                n,
                column,
                groups.last() as nat,
            )) is None by {
                assert(column_error(bytes, n, column, groups[n as int] as nat) is None);
            }
        }
        if groups_error(bytes, groups) is None {
            assert forall|group: nat, column: nat| group < groups.len() && column < 4 implies (
            #[trigger] column_error(bytes, group, column, groups[group as int] as nat)) is None by {
                if group < n {
                    assert(column_error(bytes, group, column, front[group as int] as nat) is None);
                } else {
                    assert(column_error(bytes, n, column, groups.last() as nat) is None);
                }
            }
        }
    }
}

/// Nothing is wrong with how a file is laid out exactly if it has the columns of updates, none of
/// them compressed or longer than the file, not too many empty groups, and each of the four columns
/// of each group can be read and holds a value for each row: texts in the first two, numbers in the
/// others.
pub proof fn lemma_files_are_laid_out(bytes: Seq<u8>, layout: FileLayoutView)
    ensures
        file_error(bytes, layout) is None <==> {
            &&& layout.columns == kvtd_columns()
            &&& forall|i: int|
                0 <= i < layout.chunks.len() ==> (#[trigger] layout.chunks[i]).0 <= bytes.len()
                    && layout.chunks[i].1 == plain_codec()
            &&& empty_groups(layout.groups) <= MAX_EMPTY_GROUPS
            &&& forall|group: nat, column: nat|
                group < layout.groups.len() && column < 4 ==> #[trigger] column_error(
                    bytes,
                    group,
                    column,
                    layout.groups[group as int] as nat,
                ) is None
        },
{
    lemma_groups(bytes, layout.groups);
}

/// The empty groups of a file are counted one by one.
pub proof fn lemma_empty_groups_are_counted(groups: Seq<u64>, rows: u64)
    ensures
        empty_groups(Seq::empty()) == 0,
        empty_groups(groups.push(rows)) == empty_groups(groups) + if rows == 0 {
            1int
        } else {
            0
        },
{
    assert(groups.push(rows).drop_last() =~= groups);
}

/// A column that can be read is fine exactly if its pages can be read and hold a value for each
/// row.
pub proof fn lemma_columns_are_checked(
    heads: Result<Seq<PageHead>, Seq<char>>,
    buffers: Result<Seq<Seq<u8>>, Seq<char>>,
    count: nat,
    texts: bool,
)
    ensures
        pages_error(heads, buffers, count, texts) is None <==> heads is Ok && buffers is Ok
            && column_fits(heads->Ok_0, buffers->Ok_0, count, texts),
        heads matches Err(err) ==> pages_error(heads, buffers, count, texts) == Some(err),
        buffers matches Err(err) ==> heads is Ok ==> pages_error(heads, buffers, count, texts)
            == Some(err),
{
}

/// The frontiers of a batch in words are its lower one, its upper one and the one that its times
/// may be advanced to, each with its times.
pub proof fn lemma_frontiers_in_words(lower: u64, upper: u64, since: u64)
    ensures
        description_text(
            DescriptionView { lower: seq![lower], upper: seq![upper], since: seq![since] },
        ) == "Description { lower: "@ + ("Antichain { elements: ["@ + decimal(lower as nat)
            + "] }"@) + ", upper: "@ + ("Antichain { elements: ["@ + decimal(upper as nat)
            + "] }"@) + ", since: "@ + ("Antichain { elements: ["@ + decimal(since as nat)
            + "] }"@) + " }"@,
{
}

/// What is known of a part without its updates is read as it was written, with its format.
pub proof fn lemma_meta_is_read_as_written(
    batch: BlobTraceBatchPart<u64>,
    format: ProtoBatchFormat,
    text: String,
    read: Result<(ProtoBatchFormat, ProtoBatchPartInline), BatchError>,
)
    requires
        call_ensures(encode_trace_inline_meta, (&batch, format), text),
        call_ensures(decode_trace_inline_meta, (Some(&text),), read),
    ensures
        read matches Ok((again, meta)) && again == format && meta.index == batch.index && meta@.desc
            == Some(description_proto(batch@.desc)),
{
}

/// A part that was written to an empty buffer is read from it, if it can be read again and no
/// column has too many pages.
pub proof fn lemma_part_is_read_as_written(
    w: &mut Vec<u8>,
    batch: BlobTraceBatchPart<u64>,
    written: Result<(), BatchError>,
    bytes: &[u8],
    read: Result<BlobTraceBatchPart<u64>, BatchError>,
)
    requires
        old(w)@.len() == 0,
        part_valid(batch@),
        call_ensures(encode_trace_parquet, (w, &batch), written),
        written is Ok,
        bytes@ == final(w)@,
        few_pages(bytes@, batch@.updates.len()),
        call_ensures(decode_trace_parquet, (bytes,), read),
    ensures
        read matches Ok(again) && again@ == batch@,
{
    let empty = old(w)@;
    assert(empty =~= Seq::empty());
    assert(forall|s: Seq<u8>| #[trigger] (empty + s) =~= s);
}

/// What is not valid is not written, and what is wrong with it is the answer.
pub proof fn lemma_only_valid_parts_are_written(part: BlobTraceBatchPartView)
    ensures
        part_error(part) matches Some(message) ==> part_file(part) == Err::<Seq<u8>, Seq<char>>(
            message,
        ),
        part_error(part) is None ==> part_file(part) == file_of(
            part.updates,
            inline_meta(part, ProtoBatchFormat::ParquetKvtd),
        ),
{
}

/// The pages of a column hold a value for each row exactly if they are not too many, each is plain
/// and holds what it says, and what they say adds up.
pub proof fn lemma_pages_hold_rows(
    heads: Seq<PageHead>,
    buffers: Seq<Seq<u8>>,
    rows: nat,
    head: PageHead,
)
    ensures
        column_fits(heads, buffers, rows, false) <==> {
            &&& heads.len() == buffers.len()
            &&& heads.len() <= MAX_PAGES
            &&& pages_rows(heads) == rows
            &&& forall|i: int|
                0 <= i < heads.len() ==> page_fits(#[trigger] heads[i], buffers[i], false)
        },
        column_fits(heads, buffers, rows, true) ==> rows_len(buffers) <= 4 * rows + 0x7fff_ffff,
        pages_rows(Seq::empty()) == 0,
        head matches PageHead::V1(n, _) ==> pages_rows(heads.push(head)) == pages_rows(heads) + n,
        head matches PageHead::V2(n, _, _, _) ==> pages_rows(heads.push(head)) == pages_rows(heads)
            + n,
{
    assert(heads.push(head).drop_last() =~= heads);
}

/// A page fits if it has plain values, as many as it says, without levels: numbers of eight bytes,
/// or texts behind their lengths. A page of values that others refer to does not.
pub proof fn lemma_page_holds_values(head: PageHead, data: Seq<u8>)
    ensures
        page_fits(head, data, false) <==> match head {
            PageHead::Dictionary => false,
            PageHead::V1(n, encoding) => n >= 0 && encoding == 0 && data.len() == 8 * n,
            PageHead::V2(n, encoding, repetition, definition) => n >= 0 && encoding == 0
                && repetition == 0 && definition == 0 && data.len() == 8 * n,
        },
        page_fits(head, data, true) <==> match head {
            PageHead::Dictionary => false,
            PageHead::V1(n, encoding) => n >= 0 && encoding == 0 && is_texts(data, n as nat),
            PageHead::V2(n, encoding, repetition, definition) => n >= 0 && encoding == 0
                && repetition == 0 && definition == 0 && is_texts(data, n as nat),
        },
{
}

} // verus!
