//! The position of a change record in the log of its upstream database.

use vstd::prelude::*;
use vstd::slice::slice_subrange;
use vstd::utf8::encode_utf8;

use crate::text::{digit_value, digits_value, read_digits};

verus! {

/// An error in the envelope of a record.
#[derive(Debug, PartialEq, Eq, Hash)]
pub enum EnvelopeError {
    /// The fields that Debezium adds to a record are not as they should be.
    Debezium(String),
}

impl View for EnvelopeError {
    type V = Seq<char>;

    /// The message of the error.
    open spec fn view(&self) -> Seq<char> {
        match self {
            EnvelopeError::Debezium(message) => message@,
        }
    }
}

/// A SQL Server log sequence number.
///
/// See <https://rusanu.com/2012/01/17/what-is-an-lsn-log-sequence-number/>
#[derive(Debug, Clone, Copy, Hash, PartialEq, Eq, PartialOrd, Ord, Structural)]
pub struct SqlServerLsn {
    pub file_seq_num: u32,
    pub log_block_offset: u32,
    pub slot_num: u16,
}

/// The log sequence number that a text denotes, given as the bytes of the text: three hex
/// numbers in the format `xxxxxxxx:xxxxxxxx:xxxx`, where each `x` is a hex digit.
pub open spec fn lsn_value(text: Seq<u8>) -> Option<SqlServerLsn> {
    if text.len() != 22 || text[8] != 58 || text[17] != 58 {
        None
    } else {
        match (
            digits_value(text.subrange(0, 8), 16),
            digits_value(text.subrange(9, 17), 16),
            digits_value(text.subrange(18, 22), 16),
        ) {
            (Some(file), Some(block), Some(slot)) => Some(
                SqlServerLsn {
                    file_seq_num: file as u32,
                    log_block_offset: block as u32,
                    slot_num: slot as u16,
                },
            ),
            _ => None,
        }
    }
}

/// The message for a text that is no log sequence number.
pub open spec fn invalid_lsn(input: Seq<char>) -> Seq<char> {
    "invalid lsn: "@ + input
}

impl SqlServerLsn {
    /// Reads a log sequence number.
    ///
    /// SQL Server change LSNs are 10-byte integers. Debezium encodes them as hex, in the
    /// following format: xxxxxxxx:xxxxxxxx:xxxx
    pub fn from_str(input: &str) -> (lsn: Result<SqlServerLsn, EnvelopeError>)
        ensures
            match lsn {
                Ok(lsn) => lsn_value(encode_utf8(input@)) == Some(lsn),
                Err(err) => lsn_value(encode_utf8(input@)) is None && err@ == invalid_lsn(input@),
            },
    {
        match read_lsn(input.as_bytes()) {
            Some(lsn) => Ok(lsn),
            None => {
                let mut message: String = "invalid lsn: ".to_owned();
                message.append(input);
                Err(EnvelopeError::Debezium(message))
            },
        }
    }
}

/// The numbers that as many hex digits can hold.
pub open spec fn hex_bound(digits: nat) -> nat
    decreases digits,
{
    if digits == 0 {
        1
    } else {
        16 * hex_bound((digits - 1) as nat)
    }
}

proof fn lemma_hex_bound(digits: Seq<u8>)
    ensures
        digits_value(digits, 16) matches Some(value) ==> value < hex_bound(digits.len()),
    decreases digits.len(),
{
    if digits.len() > 0 {
        lemma_hex_bound(digits.drop_last());
    }
}

/// Reads a log sequence number from the bytes of its text.
fn read_lsn(text: &[u8]) -> (lsn: Option<SqlServerLsn>)
    ensures
        lsn == lsn_value(text@),
{
    if text.len() != 22 {
        return None;
    }
    if text[8] != 58 || text[17] != 58 {
        return None;
    }
    proof {
        reveal_with_fuel(hex_bound, 9);
        lemma_hex_bound(text@.subrange(0, 8));
        lemma_hex_bound(text@.subrange(9, 17));
        lemma_hex_bound(text@.subrange(18, 22));
    }
    let file_seq_num: u64 = match read_digits(slice_subrange(text, 0, 8), 16, u32::MAX as u64) {
        Some(value) => value,
        None => {
            return None;
        },
    };
    let log_block_offset: u64 = match read_digits(
        slice_subrange(text, 9, 17),
        16,
        u32::MAX as u64,
    ) {
        Some(value) => value,
        None => {
            return None;
        },
    };
    let slot_num: u64 = match read_digits(slice_subrange(text, 18, 22), 16, u16::MAX as u64) {
        Some(value) => value,
        None => {
            return None;
        },
    };
    Some(
        SqlServerLsn {
            file_seq_num: file_seq_num as u32,
            log_block_offset: log_block_offset as u32,
            slot_num: slot_num as u16,
        },
    )
}

/// The coordinates of a PostgreSQL operation type.
///
/// Updates to the primary key of a PostgreSQL table will result in a delete operation followed
/// by a create operation at the same sequence number, rather than a single update operation.
/// PostgreSQL row coordinates therefore need to encode that expected order by ensuring delete
/// operations sort before create operations at the same sequence number.
///
/// See: <https://debezium.io/documentation/reference/stable/connectors/postgresql.html#postgresql-primary-key-updates>
#[derive(Debug, Clone, Copy, Hash, PartialEq, Eq, PartialOrd, Ord, Structural)]
pub enum PostgresOpCoordinates {
    // The order here is load bearing. See documentation comment above!
    Delete,
    Create,
    Other,
}

/// The position of a record in the log of its upstream database.
#[derive(Debug, Clone, Copy, Hash, PartialEq, Eq, PartialOrd, Ord, Structural)]
pub enum RowCoordinates {
    MySql { file: i64, pos: i64, row: i32 },
    Postgres { last_commit_lsn: Option<u64>, lsn: i64, op_type: PostgresOpCoordinates },
    SqlServer { change_lsn: SqlServerLsn, event_serial_no: i64 },
}

/// The rank of an operation type: deletes come before creates, and creates before the rest.
pub open spec fn op_rank(op_type: PostgresOpCoordinates) -> int {
    match op_type {
        PostgresOpCoordinates::Delete => 0,
        PostgresOpCoordinates::Create => 1,
        PostgresOpCoordinates::Other => 2,
    }
}

/// The numbers by which coordinates are ordered, the most significant first. An absent commit
/// position comes before every present one.
pub open spec fn rank(coords: RowCoordinates) -> (int, int, int, int, int) {
    match coords {
        RowCoordinates::MySql { file, pos, row } => (0, file as int, pos as int, row as int, 0),
        RowCoordinates::Postgres { last_commit_lsn, lsn, op_type } => (
            1,
            match last_commit_lsn {
                Some(commit) => commit as int,
                None => -1,
            },
            lsn as int,
            op_rank(op_type),
            0,
        ),
        RowCoordinates::SqlServer { change_lsn, event_serial_no } => (
            2,
            change_lsn.file_seq_num as int,
            change_lsn.log_block_offset as int,
            change_lsn.slot_num as int,
            event_serial_no as int,
        ),
    }
}

/// Whether coordinates come strictly before others: lexicographically, by their rank.
pub open spec fn precedes(a: RowCoordinates, b: RowCoordinates) -> bool {
    let (a0, a1, a2, a3, a4) = rank(a);
    let (b0, b1, b2, b3, b4) = rank(b);
    ||| a0 < b0
    ||| a0 == b0 && a1 < b1
    ||| a0 == b0 && a1 == b1 && a2 < b2
    ||| a0 == b0 && a1 == b1 && a2 == b2 && a3 < b3
    ||| a0 == b0 && a1 == b1 && a2 == b2 && a3 == b3 && a4 < b4
}

impl RowCoordinates {
    /// The numbers by which coordinates are ordered.
    fn rank(&self) -> (r: (i128, i128, i128, i128, i128))
        ensures
            (r.0 as int, r.1 as int, r.2 as int, r.3 as int, r.4 as int) == rank(*self),
    {
        match self {
            RowCoordinates::MySql { file, pos, row } => (
                0,
                *file as i128,
                *pos as i128,
                *row as i128,
                0,
            ),
            RowCoordinates::Postgres { last_commit_lsn, lsn, op_type } => {
                let commit: i128 = match last_commit_lsn {
                    Some(commit) => *commit as i128,
                    None => -1,
                };
                let op: i128 = match op_type {
                    PostgresOpCoordinates::Delete => 0,
                    PostgresOpCoordinates::Create => 1,
                    PostgresOpCoordinates::Other => 2,
                };
                (1, commit, *lsn as i128, op, 0)
            },
            RowCoordinates::SqlServer { change_lsn, event_serial_no } => (
                2,
                change_lsn.file_seq_num as i128,
                change_lsn.log_block_offset as i128,
                change_lsn.slot_num as i128,
                *event_serial_no as i128,
            ),
        }
    }

    /// Whether these coordinates come strictly after others.
    pub fn is_after(&self, other: &RowCoordinates) -> (after: bool)
        ensures
            after == precedes(*other, *self),
    {
        let (a0, a1, a2, a3, a4) = other.rank();
        let (b0, b1, b2, b3, b4) = self.rank();
        if a0 != b0 {
            a0 < b0
        } else if a1 != b1 {
            a1 < b1
        } else if a2 != b2 {
            a2 < b2
        } else if a3 != b3 {
            a3 < b3
        } else {
            a4 < b4
        }
    }
}

/// Coordinates are strictly and totally ordered: none precedes itself, precedence is
/// transitive, and of two different coordinates one precedes the other.
pub proof fn lemma_precedes_total_order(a: RowCoordinates, b: RowCoordinates, c: RowCoordinates)
    ensures
        !precedes(a, a),
        precedes(a, b) && precedes(b, c) ==> precedes(a, c),
        a == b || precedes(a, b) || precedes(b, a),
{
}

/// At the same commit and sequence number, a delete comes before a create, and a create before
/// any other operation.
pub proof fn lemma_delete_precedes_create(last_commit_lsn: Option<u64>, lsn: i64)
    ensures
        precedes(
            RowCoordinates::Postgres {
                last_commit_lsn,
                lsn,
                op_type: PostgresOpCoordinates::Delete,
            },
            RowCoordinates::Postgres {
                last_commit_lsn,
                lsn,
                op_type: PostgresOpCoordinates::Create,
            },
        ),
        precedes(
            RowCoordinates::Postgres {
                last_commit_lsn,
                lsn,
                op_type: PostgresOpCoordinates::Create,
            },
            RowCoordinates::Postgres {
                last_commit_lsn,
                lsn,
                op_type: PostgresOpCoordinates::Other,
            },
        ),
{
}

/// A hex digit as a byte.
pub open spec fn hex_digit(d: nat) -> u8 {
    if d < 10 {
        (48 + d) as u8
    } else {
        (87 + d) as u8
    }
}

/// The hex digits of a number, the most significant first.
pub open spec fn hex_text(n: nat, digits: nat) -> Seq<u8>
    decreases digits,
{
    if digits == 0 {
        Seq::empty()
    } else {
        hex_text(n / 16, (digits - 1) as nat).push(hex_digit(n % 16))
    }
}

/// The bytes of the text of a log sequence number.
pub open spec fn lsn_text(lsn: SqlServerLsn) -> Seq<u8> {
    hex_text(lsn.file_seq_num as nat, 8) + seq![58u8] + hex_text(lsn.log_block_offset as nat, 8)
        + seq![58u8] + hex_text(lsn.slot_num as nat, 4)
}

proof fn lemma_hex_read_back(n: nat, digits: nat)
    requires
        n < hex_bound(digits),
    ensures
        hex_text(n, digits).len() == digits,
        digits_value(hex_text(n, digits), 16) == Some(n),
    decreases digits,
{
    if digits > 0 {
        lemma_hex_read_back(n / 16, (digits - 1) as nat);
        let text = hex_text(n, digits);
        assert(text.drop_last() =~= hex_text(n / 16, (digits - 1) as nat));
        assert(digit_value(text.last()) == Some(n % 16));
        assert(n / 16 * 16 + n % 16 == n);
    }
}

/// The text of a log sequence number is read back as the same number.
pub proof fn lemma_lsn_read_back(lsn: SqlServerLsn)
    ensures
        lsn_value(lsn_text(lsn)) == Some(lsn),
{
    reveal_with_fuel(hex_bound, 9);
    lemma_hex_read_back(lsn.file_seq_num as nat, 8);
    lemma_hex_read_back(lsn.log_block_offset as nat, 8);
    lemma_hex_read_back(lsn.slot_num as nat, 4);
    let text = lsn_text(lsn);
    assert(text.subrange(0, 8) =~= hex_text(lsn.file_seq_num as nat, 8));
    assert(text.subrange(9, 17) =~= hex_text(lsn.log_block_offset as nat, 8));
    assert(text.subrange(18, 22) =~= hex_text(lsn.slot_num as nat, 4));
}

/// Whether a text has no capital letters.
pub open spec fn no_capitals(text: Seq<u8>) -> bool {
    forall|i: int| 0 <= i < text.len() ==> !(65 <= #[trigger] text[i] <= 90)
}

/// Whether two texts differ, and the first byte in which they do is smaller in the first of them.
pub open spec fn text_precedes(a: Seq<u8>, b: Seq<u8>) -> bool {
    exists|k: int| #[trigger] differ_first_at(a, b, k) && a[k] < b[k]
}

/// Whether the first byte in which two texts differ is the given one.
pub open spec fn differ_first_at(a: Seq<u8>, b: Seq<u8>, k: int) -> bool {
    &&& 0 <= k < a.len()
    &&& k < b.len()
    &&& a[k] != b[k]
    &&& forall|j: int| 0 <= j < k ==> #[trigger] a[j] == b[j]
}

proof fn lemma_precedes_join(a: Seq<u8>, b: Seq<u8>, c: Seq<u8>, d: Seq<u8>)
    requires
        a.len() == b.len(),
    ensures
        text_precedes(a + c, b + d) <==> text_precedes(a, b) || (a == b && text_precedes(c, d)),
{
    let (s, t) = (a + c, b + d);
    if text_precedes(s, t) {
        let k = choose|k: int| #[trigger] differ_first_at(s, t, k) && s[k] < t[k];
        if k < a.len() {
            assert forall|j: int| 0 <= j < k implies #[trigger] a[j] == b[j] by {
                assert(s[j] == t[j]);
            }
            assert(differ_first_at(a, b, k));
        } else {
            assert forall|j: int| 0 <= j < a.len() implies #[trigger] a[j] == b[j] by {
                assert(s[j] == t[j]);
            }
            assert(a =~= b);
            let l = k - a.len();
            assert forall|j: int| 0 <= j < l implies #[trigger] c[j] == d[j] by {
                assert(s[j + a.len()] == t[j + a.len()]);
            }
            assert(differ_first_at(c, d, l));
        }
    }
    if text_precedes(a, b) {
        let k = choose|k: int| #[trigger] differ_first_at(a, b, k) && a[k] < b[k];
        assert forall|j: int| 0 <= j < k implies #[trigger] s[j] == t[j] by {
            assert(a[j] == b[j]);
        }
        assert(differ_first_at(s, t, k));
    }
    if a == b && text_precedes(c, d) {
        let l = choose|l: int| #[trigger] differ_first_at(c, d, l) && c[l] < d[l];
        let k = l + a.len();
        assert forall|j: int| 0 <= j < k implies #[trigger] s[j] == t[j] by {
            if j >= a.len() {
                assert(c[j - a.len()] == d[j - a.len()]);
            }
        }
        assert(differ_first_at(s, t, k));
    }
}

proof fn lemma_digits_precede(a: Seq<u8>, b: Seq<u8>)
    requires
        a.len() == b.len(),
        no_capitals(a),
        no_capitals(b),
        digits_value(a, 16) is Some,
        digits_value(b, 16) is Some,
    ensures
        text_precedes(a, b) <==> digits_value(a, 16)->Some_0 < digits_value(b, 16)->Some_0,
        a == b <==> digits_value(a, 16) == digits_value(b, 16),
    decreases a.len(),
{
    if a.len() == 0 {
        assert(a =~= b);
    } else {
        let (c, d) = (seq![a.last()], seq![b.last()]);
        lemma_digits_precede(a.drop_last(), b.drop_last());
        lemma_precedes_join(a.drop_last(), b.drop_last(), c, d);
        assert(a.drop_last() + c =~= a);
        assert(b.drop_last() + d =~= b);
        assert(!(65 <= a[a.len() - 1] <= 90));
        assert(!(65 <= b[b.len() - 1] <= 90));
        if c[0] < d[0] {
            assert(differ_first_at(c, d, 0));
        }
    }
}

/// Log sequence numbers are ordered as their texts are, as long as their letters are small ones.
pub proof fn lemma_lsn_ordered_as_text(
    a: Seq<u8>,
    b: Seq<u8>,
    a_lsn: SqlServerLsn,
    b_lsn: SqlServerLsn,
    event_serial_no: i64,
)
    requires
        no_capitals(a),
        no_capitals(b),
        lsn_value(a) == Some(a_lsn),
        lsn_value(b) == Some(b_lsn),
    ensures
        text_precedes(a, b) <==> precedes(
            RowCoordinates::SqlServer { change_lsn: a_lsn, event_serial_no },
            RowCoordinates::SqlServer { change_lsn: b_lsn, event_serial_no },
        ),
        a == b <==> a_lsn == b_lsn,
{
    let colon = seq![58u8];
    let (a0, a1, a2) = (a.subrange(0, 8), a.subrange(9, 17), a.subrange(18, 22));
    let (b0, b1, b2) = (b.subrange(0, 8), b.subrange(9, 17), b.subrange(18, 22));
    reveal_with_fuel(hex_bound, 9);
    lemma_hex_bound(a0);
    lemma_hex_bound(a1);
    lemma_hex_bound(a2);
    lemma_hex_bound(b0);
    lemma_hex_bound(b1);
    lemma_hex_bound(b2);
    lemma_digits_precede(a0, b0);
    lemma_digits_precede(a1, b1);
    lemma_digits_precede(a2, b2);
    assert(a =~= a0 + (colon + (a1 + (colon + a2))));
    assert(b =~= b0 + (colon + (b1 + (colon + b2))));
    lemma_precedes_join(a0, b0, colon + (a1 + (colon + a2)), colon + (b1 + (colon + b2)));
    lemma_precedes_join(colon, colon, a1 + (colon + a2), b1 + (colon + b2));
    lemma_precedes_join(a1, b1, colon + a2, colon + b2);
    lemma_precedes_join(colon, colon, a2, b2);
    assert(!text_precedes(colon, colon));
}

} // verus!
