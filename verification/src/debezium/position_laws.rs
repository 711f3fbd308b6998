//! What the positions of records are for: how they are read, and how they are compared.

use vstd::prelude::*;
use vstd::utf8::encode_utf8;

use crate::debezium::coordinates::{
    lsn_value, precedes, PostgresOpCoordinates, RowCoordinates, SqlServerLsn,
};
use crate::debezium::datum::DatumView;
use crate::debezium::dedup::{
    extract, json_strings, judge, DebeziumDedupProjection, DebeziumSourceProjection, DedupView,
    Extraction,
};
use crate::text::{debug_text, decimal, digit_char, digit_value, digits_value, unsigned_value};

verus! {

/// Whether a row has a value at a place.
pub open spec fn holds(row: Seq<DatumView>, place: usize, value: DatumView) -> bool {
    place < row.len() && row[place as int] == value
}

/// Whether a row has a text at a place, and which.
pub open spec fn holds_text(row: Seq<DatumView>, place: usize, text: Seq<char>) -> bool {
    holds(row, place, DatumView::String(text))
}

/// Whether a record has a source block with a value of the `snapshot` field.
pub open spec fn has_source(
    projection: DebeziumDedupProjection,
    row: Seq<DatumView>,
    source: Seq<DatumView>,
    snapshot: DatumView,
) -> bool {
    &&& holds(row, projection.source_idx, DatumView::List(source))
    &&& holds(source, projection.snapshot_idx, snapshot)
}

/// Whether a record has a source block that is not part of a snapshot: the `snapshot` field is the
/// text "false", or neither a text nor true.
pub open spec fn has_live_source(
    projection: DebeziumDedupProjection,
    row: Seq<DatumView>,
    source: Seq<DatumView>,
) -> bool {
    &&& holds(row, projection.source_idx, DatumView::List(source))
    &&& projection.snapshot_idx < source.len()
    &&& match source[projection.snapshot_idx as int] {
        DatumView::String(text) => text == "false"@,
        DatumView::True => false,
        _ => true,
    }
}

/// A record of a snapshot has no position, and no log file is numbered for it. It is used, whatever
/// came before it, and does not move the last recorded position: so all rows of a snapshot are
/// used, though they share a place in the log.
pub proof fn lemma_snapshot_is_always_used(
    projection: DebeziumDedupProjection,
    dedup: DedupView,
    row: Seq<DatumView>,
    source: Seq<DatumView>,
    snapshot: DatumView,
)
    requires
        has_source(projection, row, source, snapshot),
        snapshot is True || (snapshot matches DatumView::String(text) && text != "false"@),
    ensures
        extract(projection, dedup.filenames, row) == Some(
            Extraction { filenames: dedup.filenames, position: Ok(None) },
        ),
        dedup.messages_processed < u64::MAX ==> judge(projection, dedup, row) == Some(
            (
                DedupView {
                    messages_processed: (dedup.messages_processed + 1) as u64,
                    ..dedup
                },
                Ok::<bool, Seq<char>>(true),
            ),
        ),
{
}

/// A record without a source block has no position, and is used.
pub proof fn lemma_no_source_is_always_used(
    projection: DebeziumDedupProjection,
    dedup: DedupView,
    row: Seq<DatumView>,
)
    requires
        holds(row, projection.source_idx, DatumView::Null),
    ensures
        extract(projection, dedup.filenames, row) == Some(
            Extraction { filenames: dedup.filenames, position: Ok(None) },
        ),
        dedup.messages_processed < u64::MAX ==> judge(projection, dedup, row) == Some(
            (
                DedupView {
                    messages_processed: (dedup.messages_processed + 1) as u64,
                    ..dedup
                },
                Ok::<bool, Seq<char>>(true),
            ),
        ),
{
}

/// A record whose source is missing, or neither a list nor null, or has no `snapshot` field, is not
/// read.
pub proof fn lemma_source_is_needed(
    projection: DebeziumDedupProjection,
    filenames: Map<Seq<char>, i64>,
    row: Seq<DatumView>,
)
    ensures
        projection.source_idx >= row.len() ==> extract(projection, filenames, row) is None,
        projection.source_idx < row.len() ==> match row[projection.source_idx as int] {
            DatumView::Null => true,
            DatumView::List(source) => projection.snapshot_idx >= source.len() ==> extract(
                projection,
                filenames,
                row,
            ) is None,
            _ => extract(projection, filenames, row) is None,
        },
{
}

/// The position of a MySQL record is the number of its log file, and its `pos` and `row` fields. A
/// log file that has a number keeps it, and a new one gets the count of those that have one; the
/// numbers of all others stay.
pub proof fn lemma_mysql_position_is_read(
    projection: DebeziumDedupProjection,
    filenames: Map<Seq<char>, i64>,
    row: Seq<DatumView>,
    source: Seq<DatumView>,
    file: usize,
    pos: usize,
    at: usize,
    name: Seq<char>,
    pos_value: i64,
    row_value: i32,
)
    requires
        projection.source_projection == (DebeziumSourceProjection::MySql { file, pos, row: at }),
        has_live_source(projection, row, source),
        holds_text(source, file, name),
        holds(source, pos, DatumView::Int64(pos_value)),
        holds(source, at, DatumView::Int32(row_value)),
    ensures
        ({
            let read = extract(projection, filenames, row);
            &&& read is Some
            &&& read->Some_0.position matches Ok(Some(RowCoordinates::MySql { file, pos, row }))
            &&& pos == pos_value
            &&& row == row_value
            &&& file == if filenames.contains_key(name) {
                filenames[name]
            } else {
                filenames.len() as i64
            }
            &&& read->Some_0.filenames.contains_key(name)
            &&& read->Some_0.filenames[name] == file
            &&& forall|other: Seq<char>| other != name ==> (
            #[trigger] read->Some_0.filenames.contains_key(other) <==> filenames.contains_key(
                other,
            )) && (filenames.contains_key(other) ==> read->Some_0.filenames[other]
                == filenames[other])
        }),
{
}

/// A MySQL record without a log file, or whose `pos` or `row` is null, has no position. Its log
/// file is numbered all the same, if it has one.
pub proof fn lemma_mysql_position_may_be_absent(
    projection: DebeziumDedupProjection,
    filenames: Map<Seq<char>, i64>,
    row: Seq<DatumView>,
    source: Seq<DatumView>,
    file: usize,
    pos: usize,
    at: usize,
)
    requires
        projection.source_projection == (DebeziumSourceProjection::MySql { file, pos, row: at }),
        has_live_source(projection, row, source),
        file < source.len(),
        pos < source.len(),
        at < source.len(),
    ensures
        ({
            let read = extract(projection, filenames, row);
            let fields = (source[file as int], source[pos as int], source[at as int]);
            &&& fields.0 is Null ==> read == Some(Extraction { filenames, position: Ok(None) })
            &&& fields.0 is String && fields.1 is Null ==> read is Some && read->Some_0.position
                == Ok::<Option<RowCoordinates>, Seq<char>>(None)
            &&& fields.0 is String && fields.1 is Int64 && fields.2 is Null ==> read is Some
                && read->Some_0.position == Ok::<Option<RowCoordinates>, Seq<char>>(None)
            &&& fields.0 matches DatumView::String(name) ==> read is Some
                ==> read->Some_0.filenames.contains_key(name)
            &&& !(fields.0 is Null) && !(fields.0 is String) ==> read is None
            &&& fields.0 is String && !(fields.1 is Null) && !(fields.1 is Int64) ==> read is None
            &&& fields.0 is String && fields.1 is Int64 && !(fields.2 is Null)
                && !(fields.2 is Int32) ==> read is None
        }),
{
}

/// The position of a PostgreSQL record is the last commit that the first entry of its sequence
/// gives, the `lsn` field, and the type of its operation.
pub proof fn lemma_postgres_position_is_read(
    projection: DebeziumDedupProjection,
    filenames: Map<Seq<char>, i64>,
    row: Seq<DatumView>,
    source: Seq<DatumView>,
    sequence: usize,
    lsn: usize,
    sequence_text: Seq<char>,
    entries: Seq<Option<Seq<char>>>,
    lsn_value: i64,
    op: Seq<char>,
)
    requires
        projection.source_projection == (DebeziumSourceProjection::Postgres { sequence, lsn }),
        has_live_source(projection, row, source),
        holds_text(source, sequence, sequence_text),
        json_strings(sequence_text) == Some(entries),
        entries.len() > 0,
        holds(source, lsn, DatumView::Int64(lsn_value)),
        holds_text(row, projection.op_idx, op),
    ensures
        ({
            let read = extract(projection, filenames, row);
            let position = |commit: Option<u64>, op_type: PostgresOpCoordinates|
                Some(
                    Extraction {
                        filenames,
                        position: Ok(
                            Some(
                                RowCoordinates::Postgres {
                                    last_commit_lsn: commit,
                                    lsn: lsn_value,
                                    op_type,
                                },
                            ),
                        ),
                    },
                );
            let op_type = if op == "d"@ {
                PostgresOpCoordinates::Delete
            } else if op == "c"@ {
                PostgresOpCoordinates::Create
            } else {
                PostgresOpCoordinates::Other
            };
            match entries[0] {
                None => read == position(None, op_type),
                Some(text) => {
                    &&& forall|n: u64|
                        text == #[trigger] decimal(n as nat) ==> read == position(Some(n), op_type)
                    &&& match unsigned_value(encode_utf8(text), 10, u64::MAX as nat) {
                        Some(n) => read == position(Some(n as u64), op_type),
                        None => read == Some(
                            Extraction {
                                filenames,
                                position: Err(
                                    "invalid sequence: "@ + debug_text(sequence_text),
                                ),
                            },
                        ),
                    }
                },
            }
        }),
{
    if let Some(text) = entries[0] {
        assert forall|n: u64| text == #[trigger] decimal(n as nat) implies unsigned_value(
            encode_utf8(text),
            10,
            u64::MAX as nat,
        ) == Some(n as nat) by {
            lemma_decimal_is_read_back(n as nat, u64::MAX as nat);
        }
    }
}

/// Whether the first entry of a sequence gives the last commit: none, or an unsigned number.
pub open spec fn gives_commit(entries: Seq<Option<Seq<char>>>) -> bool {
    entries.len() > 0 && (entries[0] matches Some(text) ==> unsigned_value(
        encode_utf8(text),
        10,
        u64::MAX as nat,
    ) is Some)
}

/// A PostgreSQL record without a sequence or with a null `lsn` has no position. One whose sequence
/// is no array of texts and nulls, or whose first entry does not give a commit, is an error,
/// whatever its `lsn` is. If both are there, the operation is needed.
pub proof fn lemma_postgres_position_may_be_absent(
    projection: DebeziumDedupProjection,
    filenames: Map<Seq<char>, i64>,
    row: Seq<DatumView>,
    source: Seq<DatumView>,
    sequence: usize,
    lsn: usize,
)
    requires
        projection.source_projection == (DebeziumSourceProjection::Postgres { sequence, lsn }),
        has_live_source(projection, row, source),
        sequence < source.len(),
    ensures
        ({
            let read = extract(projection, filenames, row);
            match source[sequence as int] {
                DatumView::Null => read == Some(Extraction { filenames, position: Ok(None) }),
                DatumView::String(text) => if json_strings(text) is Some && gives_commit(
                    json_strings(text)->Some_0,
                ) {
                    &&& lsn >= source.len() ==> read is None
                    &&& lsn < source.len() ==> match source[lsn as int] {
                        DatumView::Null => read == Some(
                            Extraction { filenames, position: Ok(None) },
                        ),
                        DatumView::Int64(_) => read is Some <==> projection.op_idx < row.len()
                            && row[projection.op_idx as int] is String,
                        _ => read is None,
                    }
                } else {
                    read == Some(
                        Extraction {
                            filenames,
                            position: Err("invalid sequence: "@ + debug_text(text)),
                        },
                    )
                },
                _ => read is None,
            }
        }),
{
}

/// A record without the field that tells where it is, is not read, whatever the database.
pub proof fn lemma_missing_fields(
    projection: DebeziumDedupProjection,
    filenames: Map<Seq<char>, i64>,
    row: Seq<DatumView>,
    source: Seq<DatumView>,
)
    requires
        has_live_source(projection, row, source),
    ensures
        match projection.source_projection {
            DebeziumSourceProjection::MySql { file, pos, row: at } => {
                &&& file >= source.len() ==> extract(projection, filenames, row) is None
                &&& file < source.len() && source[file as int] is String && pos >= source.len()
                    ==> extract(projection, filenames, row) is None
                &&& file < source.len() && source[file as int] is String && pos < source.len()
                    && source[pos as int] is Int64 && at >= source.len() ==> extract(
                    projection,
                    filenames,
                    row,
                ) is None
            },
            DebeziumSourceProjection::Postgres { sequence, lsn: _ } => sequence >= source.len()
                ==> extract(projection, filenames, row) is None,
            DebeziumSourceProjection::SqlServer { change_lsn, event_serial_no } => {
                &&& change_lsn >= source.len() ==> extract(projection, filenames, row) is None
                &&& change_lsn < source.len() && event_serial_no >= source.len() ==> (
                source[change_lsn as int] matches DatumView::String(text) && lsn_value(
                    encode_utf8(text),
                ) is Some ==> extract(projection, filenames, row) is None)
            },
        },
{
}

/// The position of a SQL Server record is the log sequence number of its `change_lsn` field, and
/// its `event_serial_no` field.
pub proof fn lemma_sql_server_position_is_read(
    projection: DebeziumDedupProjection,
    filenames: Map<Seq<char>, i64>,
    row: Seq<DatumView>,
    source: Seq<DatumView>,
    change_lsn: usize,
    event_serial_no: usize,
)
    requires
        projection.source_projection == (DebeziumSourceProjection::SqlServer {
            change_lsn,
            event_serial_no,
        }),
        has_live_source(projection, row, source),
        change_lsn < source.len(),
        event_serial_no < source.len(),
    ensures
        ({
            let read = extract(projection, filenames, row);
            match source[change_lsn as int] {
                DatumView::Null => read == Some(Extraction { filenames, position: Ok(None) }),
                DatumView::String(text) => match lsn_value(encode_utf8(text)) {
                    Some(lsn) => match source[event_serial_no as int] {
                        DatumView::Null => read == Some(
                            Extraction { filenames, position: Ok(None) },
                        ),
                        DatumView::Int64(serial) => read == Some(
                            Extraction {
                                filenames,
                                position: Ok(
                                    Some(
                                        RowCoordinates::SqlServer {
                                            change_lsn: lsn,
                                            event_serial_no: serial,
                                        },
                                    ),
                                ),
                            },
                        ),
                        _ => read is None,
                    },
                    None => read == Some(
                        Extraction { filenames, position: Err("invalid lsn: "@ + text) },
                    ),
                },
                _ => read is None,
            }
        }),
{
}

/// MySQL positions are compared by log file, then by position in the file, then by row.
pub proof fn lemma_mysql_order(a: RowCoordinates, b: RowCoordinates)
    ensures
        (a, b) matches (
            RowCoordinates::MySql { file: f, pos: p, row: r },
            RowCoordinates::MySql { file: g, pos: q, row: s },
        ) ==> {
            &&& f < g ==> precedes(a, b)
            &&& f == g && p < q ==> precedes(a, b)
            &&& f == g && p == q && r < s ==> precedes(a, b)
            &&& f > g ==> !precedes(a, b)
            &&& f == g && p > q ==> !precedes(a, b)
            &&& f == g && p == q && r >= s ==> !precedes(a, b)
        },
{
}

/// PostgreSQL positions are compared by the last commit, where none comes first, then by log
/// sequence number, then by operation: deletes, creates, and all others.
pub proof fn lemma_postgres_order(a: RowCoordinates, b: RowCoordinates)
    ensures
        (a, b) matches (
            RowCoordinates::Postgres { last_commit_lsn: c, lsn: l, op_type: o },
            RowCoordinates::Postgres { last_commit_lsn: d, lsn: m, op_type: p },
        ) ==> {
            let earlier = (c is None && d is Some) || (c is Some && d is Some && c->Some_0
                < d->Some_0);
            let sooner = (o is Delete && !(p is Delete)) || (o is Create && p is Other);
            &&& earlier ==> precedes(a, b) && !precedes(b, a)
            &&& c == d && l < m ==> precedes(a, b) && !precedes(b, a)
            &&& c == d && l == m && sooner ==> precedes(a, b) && !precedes(b, a)
            &&& c == d && l == m && o == p ==> !precedes(a, b)
        },
{
}

/// Whether a log sequence number comes before another: by file, then by block, then by slot.
pub open spec fn lsn_before(a: SqlServerLsn, b: SqlServerLsn) -> bool {
    ||| a.file_seq_num < b.file_seq_num
    ||| a.file_seq_num == b.file_seq_num && a.log_block_offset < b.log_block_offset
    ||| a.file_seq_num == b.file_seq_num && a.log_block_offset == b.log_block_offset && a.slot_num
        < b.slot_num
}

/// SQL Server positions are compared by log sequence number, whatever their serial numbers are.
/// The serial numbers decide only where the log sequence numbers are equal.
pub proof fn lemma_sql_server_order(
    a: SqlServerLsn,
    b: SqlServerLsn,
    a_serial: i64,
    b_serial: i64,
)
    ensures
        ({
            let x = RowCoordinates::SqlServer { change_lsn: a, event_serial_no: a_serial };
            let y = RowCoordinates::SqlServer { change_lsn: b, event_serial_no: b_serial };
            &&& lsn_before(a, b) ==> precedes(x, y) && !precedes(y, x)
            &&& a == b ==> (precedes(x, y) <==> a_serial < b_serial)
        }),
{
}

/// Positions of different databases are compared by database.
pub proof fn lemma_database_order(a: RowCoordinates, b: RowCoordinates)
    ensures
        a is MySql && !(b is MySql) ==> precedes(a, b) && !precedes(b, a),
        a is Postgres && b is SqlServer ==> precedes(a, b) && !precedes(b, a),
{
}

/// A record with a position is used exactly if it is the first one, or if the last recorded
/// position comes strictly before its own, which then becomes the last recorded one. One that is
/// not used leaves the last recorded position. All are counted, but for those whose position gives
/// an error.
pub proof fn lemma_used_if_ahead(
    projection: DebeziumDedupProjection,
    dedup: DedupView,
    row: Seq<DatumView>,
)
    requires
        dedup.messages_processed < u64::MAX,
    ensures
        match extract(projection, dedup.filenames, row) {
            None => judge(projection, dedup, row) is None,
            Some(read) => {
                let judged = judge(projection, dedup, row);
                &&& judged is Some
                &&& judged->Some_0.0.filenames == read.filenames
                &&& match read.position {
                    Err(message) => {
                        &&& judged->Some_0.1 == Err::<bool, Seq<char>>(message)
                        &&& judged->Some_0.0.last_position == dedup.last_position
                        &&& judged->Some_0.0.messages_processed == dedup.messages_processed
                    },
                    Ok(None) => {
                        &&& judged->Some_0.1 == Ok::<bool, Seq<char>>(true)
                        &&& judged->Some_0.0.last_position == dedup.last_position
                        &&& judged->Some_0.0.messages_processed == dedup.messages_processed + 1
                    },
                    Ok(Some(position)) => {
                        let ahead = dedup.last_position is None || precedes(
                            dedup.last_position->Some_0,
                            position,
                        );
                        &&& judged->Some_0.1 == Ok::<bool, Seq<char>>(ahead)
                        &&& judged->Some_0.0.last_position == if ahead {
                            Some(position)
                        } else {
                            dedup.last_position
                        }
                        &&& judged->Some_0.0.messages_processed == dedup.messages_processed + 1
                    },
                }
            },
        },
{
}

/// The decimal form of a number is read back as the number, if it is not too large, and is refused
/// otherwise. So is the form with a plus sign before it.
pub proof fn lemma_decimal_is_read_back(n: nat, max: nat)
    ensures
        unsigned_value(encode_utf8(decimal(n)), 10, max) == if n <= max {
            Some(n)
        } else {
            None
        },
        unsigned_value(encode_utf8(seq!['+'] + decimal(n)), 10, max) == if n <= max {
            Some(n)
        } else {
            None
        },
{
    lemma_decimal_digits(n);
    let text = decimal(n);
    lemma_ascii_digits(text);
    let bytes = encode_utf8(text);
    assert(bytes[0] != 43);
    let signed = seq!['+'] + text;
    assert(vstd::utf8::is_ascii_chars(signed));
    vstd::utf8::is_ascii_chars_encode_utf8(signed);
    assert(signed[0] as u8 == encode_utf8(signed)[0]);
    assert(encode_utf8(signed).skip(1) =~= bytes) by {
        assert forall|i: int| 0 <= i < bytes.len() implies encode_utf8(signed).skip(1)[i]
            == #[trigger] bytes[i] by {
            assert(signed[i + 1] as u8 == encode_utf8(signed)[i + 1]);
        }
    }
}

/// A text is an unsigned number only if it has digits, behind a plus sign or not, and nothing else.
pub proof fn lemma_unsigned_form(text: Seq<u8>, max: nat)
    ensures
        unsigned_value(text, 10, max) matches Some(n) ==> {
            &&& n <= max
            &&& text.len() > 0
            &&& text[0] == 43 ==> text.len() > 1
            &&& forall|i: int|
                0 <= i < text.len() ==> 48 <= #[trigger] text[i] <= 57 || (i == 0 && text[i] == 43)
        },
{
    let plus = text.len() > 0 && text[0] == 43;
    let digits = if plus {
        text.skip(1)
    } else {
        text
    };
    lemma_decimal_form(digits);
    if unsigned_value(text, 10, max) is Some {
        assert forall|i: int| 0 <= i < text.len() implies 48 <= #[trigger] text[i] <= 57 || (i == 0
            && text[i] == 43) by {
            if plus && i > 0 {
                assert(digits[i - 1] == text[i]);
            }
        }
    }
}

proof fn lemma_decimal_form(digits: Seq<u8>)
    ensures
        digits_value(digits, 10) is Some ==> forall|i: int|
            0 <= i < digits.len() ==> 48 <= #[trigger] digits[i] <= 57,
    decreases digits.len(),
{
    if digits.len() > 0 {
        let front = digits.drop_last();
        lemma_decimal_form(front);
        if digits_value(digits, 10) is Some {
            assert forall|i: int| 0 <= i < digits.len() implies 48 <= #[trigger] digits[i]
                <= 57 by {
                if i < front.len() {
                    assert(front[i] == digits[i]);
                }
            }
        }
    }
}

/// Whether a character is a decimal digit.
spec fn is_digit_char(c: char) -> bool {
    '0' <= c <= '9'
}

spec fn char_byte(c: char) -> u8 {
    c as u8
}

proof fn lemma_digit_char(d: nat)
    requires
        d < 10,
    ensures
        is_digit_char(digit_char(d)),
        digit_char(d) as u8 == 48 + d,
{
}

proof fn lemma_ascii_digits(text: Seq<char>)
    requires
        forall|i: int| 0 <= i < text.len() ==> is_digit_char(#[trigger] text[i]),
    ensures
        encode_utf8(text) == Seq::new(text.len(), |i: int| char_byte(text[i])),
{
    assert(vstd::utf8::is_ascii_chars(text));
    vstd::utf8::is_ascii_chars_encode_utf8(text);
    assert(encode_utf8(text) =~= Seq::new(text.len(), |i: int| char_byte(text[i])));
}

proof fn lemma_decimal_digits(n: nat)
    ensures
        decimal(n).len() > 0,
        forall|i: int| 0 <= i < decimal(n).len() ==> is_digit_char(#[trigger] decimal(n)[i]),
        digits_value(Seq::new(decimal(n).len(), |i: int| char_byte(decimal(n)[i])), 10) == Some(n),
    decreases n,
{
    let bytes = Seq::new(decimal(n).len(), |i: int| char_byte(decimal(n)[i]));
    lemma_digit_char(n % 10);
    if n < 10 {
        lemma_digit_char(n);
        assert(bytes.drop_last() =~= Seq::empty());
        assert(digits_value(bytes.drop_last(), 10) == Some(0nat));
        assert(bytes.last() == (48 + n) as u8);
    } else {
        lemma_decimal_digits(n / 10);
        let front = decimal(n / 10);
        assert(bytes.drop_last() =~= Seq::new(front.len(), |i: int| char_byte(front[i])));
        assert(bytes.last() == (48 + n % 10) as u8);
        assert(digit_value(bytes.last()) == Some(n % 10));
        assert(n / 10 * 10 + n % 10 == n);
    }
}

/// Whether a byte is a hex digit, and of which value.
pub open spec fn is_hex(b: u8, d: int) -> bool {
    ||| 48 <= b <= 57 && d == b - 48
    ||| 65 <= b <= 70 && d == b - 55
    ||| 97 <= b <= 102 && d == b - 87
}

/// Whether a byte is a hex digit.
pub open spec fn some_hex(b: u8) -> bool {
    48 <= b <= 57 || 65 <= b <= 70 || 97 <= b <= 102
}

/// A text is a log sequence number exactly if it has 22 bytes, all of them hex digits of either
/// case but for a colon behind the first eight and behind the next eight.
pub proof fn lemma_lsn_form(text: Seq<u8>)
    ensures
        lsn_value(text) is Some <==> text.len() == 22 && forall|i: int|
            0 <= i < 22 ==> if i == 8 || i == 17 {
                #[trigger] text[i] == 58
            } else {
                some_hex(text[i])
            },
{
    if text.len() == 22 {
        lemma_hex_form(text.subrange(0, 8));
        lemma_hex_form(text.subrange(9, 17));
        lemma_hex_form(text.subrange(18, 22));
        let form = forall|i: int|
            0 <= i < 22 ==> if i == 8 || i == 17 {
                #[trigger] text[i] == 58
            } else {
                some_hex(text[i])
            };
        if lsn_value(text) is Some {
            assert forall|i: int| 0 <= i < 22 implies if i == 8 || i == 17 {
                #[trigger] text[i] == 58
            } else {
                some_hex(text[i])
            } by {
                if i < 8 {
                    assert(text.subrange(0, 8)[i] == text[i]);
                } else if 8 < i < 17 {
                    assert(text.subrange(9, 17)[i - 9] == text[i]);
                } else if 17 < i {
                    assert(text.subrange(18, 22)[i - 18] == text[i]);
                }
            }
        }
        if form {
            assert(text[8] == 58 && text[17] == 58);
            assert forall|i: int| 0 <= i < 8 implies some_hex(
                #[trigger] text.subrange(0, 8)[i],
            ) by {
                assert(text.subrange(0, 8)[i] == text[i]);
            }
            assert forall|i: int| 0 <= i < 8 implies some_hex(
                #[trigger] text.subrange(9, 17)[i],
            ) by {
                assert(text.subrange(9, 17)[i] == text[i + 9]);
            }
            assert forall|i: int| 0 <= i < 4 implies some_hex(
                #[trigger] text.subrange(18, 22)[i],
            ) by {
                assert(text.subrange(18, 22)[i] == text[i + 18]);
            }
        }
    }
}

proof fn lemma_hex_form(digits: Seq<u8>)
    ensures
        digits_value(digits, 16) is Some <==> forall|i: int|
            0 <= i < digits.len() ==> some_hex(#[trigger] digits[i]),
    decreases digits.len(),
{
    if digits.len() > 0 {
        lemma_hex_form(digits.drop_last());
        let front = digits.drop_last();
        if forall|i: int| 0 <= i < digits.len() ==> some_hex(#[trigger] digits[i]) {
            assert forall|i: int| 0 <= i < front.len() implies some_hex(#[trigger] front[i]) by {
                assert(front[i] == digits[i]);
            }
            assert(some_hex(digits[digits.len() - 1]));
        }
        if digits_value(digits, 16) is Some {
            assert forall|i: int| 0 <= i < digits.len() implies some_hex(#[trigger] digits[i]) by {
                if i < front.len() {
                    assert(front[i] == digits[i]);
                }
            }
        }
    }
}

/// Hex digits are worth the same in either case: two texts that differ in nothing else are the same
/// log sequence number.
pub proof fn lemma_lsn_ignores_case(a: Seq<u8>, b: Seq<u8>)
    requires
        a.len() == b.len(),
        forall|i: int|
            0 <= i < a.len() ==> #[trigger] a[i] == b[i] || exists|d: int|
                #![trigger is_hex(a[i], d)]
                is_hex(a[i], d) && is_hex(b[i], d),
    ensures
        lsn_value(a) == lsn_value(b),
{
    if a.len() == 22 {
        assert(a[8] == 58 <==> b[8] == 58);
        assert(a[17] == 58 <==> b[17] == 58);
        lemma_digits_ignore_case(a.subrange(0, 8), b.subrange(0, 8), a, b, 0);
        lemma_digits_ignore_case(a.subrange(9, 17), b.subrange(9, 17), a, b, 9);
        lemma_digits_ignore_case(a.subrange(18, 22), b.subrange(18, 22), a, b, 18);
    }
}

proof fn lemma_digits_ignore_case(c: Seq<u8>, d: Seq<u8>, a: Seq<u8>, b: Seq<u8>, at: int)
    requires
        c.len() == d.len(),
        0 <= at,
        at + c.len() <= a.len(),
        a.len() == b.len(),
        c == a.subrange(at, at + c.len()),
        d == b.subrange(at, at + c.len()),
        forall|i: int|
            0 <= i < a.len() ==> #[trigger] a[i] == b[i] || exists|d: int|
                #![trigger is_hex(a[i], d)]
                is_hex(a[i], d) && is_hex(b[i], d),
    ensures
        digits_value(c, 16) == digits_value(d, 16),
    decreases c.len(),
{
    if c.len() > 0 {
        let last = at + c.len() - 1;
        assert(c.drop_last() =~= a.subrange(at, last));
        assert(d.drop_last() =~= b.subrange(at, last));
        lemma_digits_ignore_case(c.drop_last(), d.drop_last(), a, b, at);
        assert(c.last() == a[last] && d.last() == b[last]);
        assert(a[last] == b[last] || digit_value(a[last]) == digit_value(b[last]));
    }
}

} // verus!
