//! How the footer of a Parquet file is laid out, as far as it takes to tell how deep its schema is
//! nested.

use vstd::prelude::*;
use vstd::slice::slice_subrange;

use crate::bytes::{le_value, read_le_32};

verus! {

/// How deep the schema of a file may be nested.
pub const MAX_NESTING: u8 = 200;

/// How deep a field that is not known may be nested.
pub const MAX_SKIPPED: u8 = 64;

/// The most that the squares of the sizes of the outermost elements of a schema may add up to.
pub const MAX_SCHEMA_COST: u64 = 4_000_000;

/// The records of a footer.
#[derive(Clone, Copy)]
pub enum Layout {
    /// The file as a whole, but for its schema.
    File,
    /// An element of the schema, but for the number of its children.
    Element,
    /// What the values of an element stand for.
    Logical,
    /// A decimal number.
    Decimal,
    /// A time.
    Time,
    /// The unit of a time.
    Unit,
    /// A whole number.
    Integer,
    /// A group of rows.
    Group,
    /// A column of a group.
    Chunk,
    /// What is known of a column of a group.
    Column,
    /// Bounds on the values of a column.
    Statistics,
    /// How many pages of a kind a column has.
    Count,
    /// A column that a group is sorted by.
    Sorting,
    /// An entry of the metadata.
    Entry,
    /// How the values of a column are ordered.
    Order,
    /// How the file is encrypted.
    Crypto,
    /// A cipher.
    Cipher,
    /// How a column of a group is encrypted.
    ColumnCrypto,
    /// The key of a column of a group.
    ColumnKey,
    /// A record without known fields.
    Empty,
}

/// What a field of a record holds.
#[derive(Clone, Copy)]
pub enum Kind {
    Flag,
    Byte,
    Short,
    Int,
    Long,
    Text,
    Record(Layout),
    Ints,
    Texts,
    Records(Layout),
}

/// What the field of a record with the given number holds, if it is a known one.
pub open spec fn kind_of(layout: Layout, id: i16) -> Option<Kind> {
    match layout {
        Layout::File => match id {
            1 => Some(Kind::Int),
            3 => Some(Kind::Long),
            4 => Some(Kind::Records(Layout::Group)),
            5 => Some(Kind::Records(Layout::Entry)),
            6 | 9 => Some(Kind::Text),
            7 => Some(Kind::Records(Layout::Order)),
            8 => Some(Kind::Record(Layout::Crypto)),
            _ => None,
        },
        Layout::Element => match id {
            1 | 2 | 3 | 6 | 7 | 8 | 9 => Some(Kind::Int),
            4 => Some(Kind::Text),
            10 => Some(Kind::Record(Layout::Logical)),
            _ => None,
        },
        Layout::Logical => match id {
            1 | 2 | 3 | 4 | 6 | 11 | 12 | 13 | 14 => Some(Kind::Record(Layout::Empty)),
            5 => Some(Kind::Record(Layout::Decimal)),
            7 | 8 => Some(Kind::Record(Layout::Time)),
            10 => Some(Kind::Record(Layout::Integer)),
            _ => None,
        },
        Layout::Decimal => match id {
            1 | 2 => Some(Kind::Int),
            _ => None,
        },
        Layout::Time => match id {
            1 => Some(Kind::Flag),
            2 => Some(Kind::Record(Layout::Unit)),
            _ => None,
        },
        Layout::Unit => match id {
            1 | 2 | 3 => Some(Kind::Record(Layout::Empty)),
            _ => None,
        },
        Layout::Integer => match id {
            1 => Some(Kind::Byte),
            2 => Some(Kind::Flag),
            _ => None,
        },
        Layout::Group => match id {
            1 => Some(Kind::Records(Layout::Chunk)),
            2 | 3 | 5 | 6 => Some(Kind::Long),
            4 => Some(Kind::Records(Layout::Sorting)),
            7 => Some(Kind::Short),
            _ => None,
        },
        Layout::Chunk => match id {
            1 | 9 => Some(Kind::Text),
            2 | 4 | 6 => Some(Kind::Long),
            3 => Some(Kind::Record(Layout::Column)),
            5 | 7 => Some(Kind::Int),
            8 => Some(Kind::Record(Layout::ColumnCrypto)),
            _ => None,
        },
        Layout::Column => match id {
            1 | 4 => Some(Kind::Int),
            2 => Some(Kind::Ints),
            3 => Some(Kind::Texts),
            5 | 6 | 7 | 9 | 10 | 11 | 14 => Some(Kind::Long),
            8 => Some(Kind::Records(Layout::Entry)),
            12 => Some(Kind::Record(Layout::Statistics)),
            13 => Some(Kind::Records(Layout::Count)),
            _ => None,
        },
        Layout::Statistics => match id {
            1 | 2 | 5 | 6 => Some(Kind::Text),
            3 | 4 => Some(Kind::Long),
            _ => None,
        },
        Layout::Count => match id {
            1 | 2 | 3 => Some(Kind::Int),
            _ => None,
        },
        Layout::Sorting => match id {
            1 => Some(Kind::Int),
            2 | 3 => Some(Kind::Flag),
            _ => None,
        },
        Layout::Entry => match id {
            1 | 2 => Some(Kind::Text),
            _ => None,
        },
        Layout::Order => match id {
            1 => Some(Kind::Record(Layout::Empty)),
            _ => None,
        },
        Layout::Crypto => match id {
            1 | 2 => Some(Kind::Record(Layout::Cipher)),
            _ => None,
        },
        Layout::Cipher => match id {
            1 | 2 => Some(Kind::Text),
            3 => Some(Kind::Flag),
            _ => None,
        },
        Layout::ColumnCrypto => match id {
            1 => Some(Kind::Record(Layout::Empty)),
            2 => Some(Kind::Record(Layout::ColumnKey)),
            _ => None,
        },
        Layout::ColumnKey => match id {
            1 => Some(Kind::Texts),
            2 => Some(Kind::Text),
            _ => None,
        },
        Layout::Empty => None,
    }
}

fn find_kind(layout: Layout, id: i16) -> (kind: Option<Kind>)
    ensures
        kind == kind_of(layout, id),
{
    match layout {
        Layout::File => match id {
            1 => Some(Kind::Int),
            3 => Some(Kind::Long),
            4 => Some(Kind::Records(Layout::Group)),
            5 => Some(Kind::Records(Layout::Entry)),
            6 | 9 => Some(Kind::Text),
            7 => Some(Kind::Records(Layout::Order)),
            8 => Some(Kind::Record(Layout::Crypto)),
            _ => None,
        },
        Layout::Element => match id {
            1 | 2 | 3 | 6 | 7 | 8 | 9 => Some(Kind::Int),
            4 => Some(Kind::Text),
            10 => Some(Kind::Record(Layout::Logical)),
            _ => None,
        },
        Layout::Logical => match id {
            1 | 2 | 3 | 4 | 6 | 11 | 12 | 13 | 14 => Some(Kind::Record(Layout::Empty)),
            5 => Some(Kind::Record(Layout::Decimal)),
            7 | 8 => Some(Kind::Record(Layout::Time)),
            10 => Some(Kind::Record(Layout::Integer)),
            _ => None,
        },
        Layout::Decimal => match id {
            1 | 2 => Some(Kind::Int),
            _ => None,
        },
        Layout::Time => match id {
            1 => Some(Kind::Flag),
            2 => Some(Kind::Record(Layout::Unit)),
            _ => None,
        },
        Layout::Unit => match id {
            1 | 2 | 3 => Some(Kind::Record(Layout::Empty)),
            _ => None,
        },
        Layout::Integer => match id {
            1 => Some(Kind::Byte),
            2 => Some(Kind::Flag),
            _ => None,
        },
        Layout::Group => match id {
            1 => Some(Kind::Records(Layout::Chunk)),
            2 | 3 | 5 | 6 => Some(Kind::Long),
            4 => Some(Kind::Records(Layout::Sorting)),
            7 => Some(Kind::Short),
            _ => None,
        },
        Layout::Chunk => match id {
            1 | 9 => Some(Kind::Text),
            2 | 4 | 6 => Some(Kind::Long),
            3 => Some(Kind::Record(Layout::Column)),
            5 | 7 => Some(Kind::Int),
            8 => Some(Kind::Record(Layout::ColumnCrypto)),
            _ => None,
        },
        Layout::Column => match id {
            1 | 4 => Some(Kind::Int),
            2 => Some(Kind::Ints),
            3 => Some(Kind::Texts),
            5 | 6 | 7 | 9 | 10 | 11 | 14 => Some(Kind::Long),
            8 => Some(Kind::Records(Layout::Entry)),
            12 => Some(Kind::Record(Layout::Statistics)),
            13 => Some(Kind::Records(Layout::Count)),
            _ => None,
        },
        Layout::Statistics => match id {
            1 | 2 | 5 | 6 => Some(Kind::Text),
            3 | 4 => Some(Kind::Long),
            _ => None,
        },
        Layout::Count => match id {
            1 | 2 | 3 => Some(Kind::Int),
            _ => None,
        },
        Layout::Sorting => match id {
            1 => Some(Kind::Int),
            2 | 3 => Some(Kind::Flag),
            _ => None,
        },
        Layout::Entry => match id {
            1 | 2 => Some(Kind::Text),
            _ => None,
        },
        Layout::Order => match id {
            1 => Some(Kind::Record(Layout::Empty)),
            _ => None,
        },
        Layout::Crypto => match id {
            1 | 2 => Some(Kind::Record(Layout::Cipher)),
            _ => None,
        },
        Layout::Cipher => match id {
            1 | 2 => Some(Kind::Text),
            3 => Some(Kind::Flag),
            _ => None,
        },
        Layout::ColumnCrypto => match id {
            1 => Some(Kind::Record(Layout::Empty)),
            2 => Some(Kind::Record(Layout::ColumnKey)),
            _ => None,
        },
        Layout::ColumnKey => match id {
            1 => Some(Kind::Texts),
            2 => Some(Kind::Text),
            _ => None,
        },
        Layout::Empty => None,
    }
}

/// A place in a footer: what follows, and whether there is a flag that has been read but not used.
pub struct Place {
    pub rest: Seq<u8>,
    pub flag: bool,
}

/// How much there is left to read.
pub open spec fn left(place: Place) -> nat {
    2 * place.rest.len() + if place.flag {
        1nat
    } else {
        0
    }
}

/// A place in a footer.
#[derive(Clone, Copy)]
pub struct Cursor<'a> {
    pub rest: &'a [u8],
    pub flag: bool,
}

impl View for Cursor<'_> {
    type V = Place;

    open spec fn view(&self) -> Place {
        Place { rest: self.rest@, flag: self.flag }
    }
}

/// Whether a place is the one that is expected, if any, and comes after another.
spec fn moved(cursor: Option<Cursor<'_>>, expected: Option<Place>, from: Place) -> bool {
    match cursor {
        Some(cursor) => expected == Some(cursor@) && left(cursor@) < left(from),
        None => expected is None,
    }
}

/// Reads a number in base 128 that has at most `digits` digits, the least significant first, from
/// the front of `s`. All digits but the last have 128 added.
pub open spec fn take_number(s: Seq<u8>, digits: nat) -> Option<(nat, Seq<u8>)>
    decreases digits,
{
    if digits == 0 || s.len() == 0 {
        None
    } else if s[0] < 128 {
        Some((s[0] as nat, s.skip(1)))
    } else {
        match take_number(s.skip(1), (digits - 1) as nat) {
            Some((n, rest)) => Some(((s[0] - 128 + 128 * n) as nat, rest)),
            None => None,
        }
    }
}

spec fn number_bound(digits: nat) -> nat
    decreases digits,
{
    if digits == 0 {
        1
    } else {
        128 * number_bound((digits - 1) as nat)
    }
}

proof fn lemma_number_bound(digits: nat)
    requires
        digits <= 10,
    ensures
        number_bound(digits) <= 0x40_0000_0000_0000_0000,
        digits <= 5 ==> number_bound(digits) <= 0x8_0000_0000,
        digits <= 3 ==> number_bound(digits) <= 0x20_0000,
{
    reveal_with_fuel(number_bound, 11);
}

fn read_number(s: &[u8], digits: u8) -> (r: Option<(u128, &[u8])>)
    requires
        digits <= 10,
    ensures
        match r {
            Some((n, rest)) => take_number(s@, digits as nat) == Some((n as nat, rest@))
                && rest@.len() < s@.len() && n < number_bound(digits as nat),
            None => take_number(s@, digits as nat) is None,
        },
    decreases digits,
{
    if digits == 0 || s.len() == 0 {
        return None;
    }
    let tail = slice_subrange(s, 1, s.len());
    assert(tail@ =~= s@.skip(1));
    proof {
        lemma_number_bound(digits as nat);
        lemma_number_bound((digits - 1) as nat);
    }
    let digit: u128 = s[0] as u128;
    if digit < 128 {
        assert(number_bound((digits - 1) as nat) >= 1) by {
            reveal_with_fuel(number_bound, 11);
        }
        return Some((digit, tail));
    }
    match read_number(tail, digits - 1) {
        Some((n, rest)) => Some((digit - 128 + 128 * n, rest)),
        None => None,
    }
}

/// A number that may be negative, by the number that it is written as: even ones stand for those
/// from 0 on, and odd ones for the others.
pub open spec fn signed(n: nat) -> int {
    if n % 2 == 0 {
        (n / 2) as int
    } else {
        -((n / 2) as int) - 1
    }
}

/// The number with a sign of as many bits as `size` counts that a number is cut to.
pub open spec fn cut(i: int, size: int) -> int {
    (i + size / 2) % size - size / 2
}

fn read_signed(n: u128, size: i64) -> (i: i64)
    requires
        n < 0x8_0000_0000,
        size == 0x1_0000 || size == 0x1_0000_0000,
    ensures
        i == cut(signed(n as nat), size as int),
        -(size / 2) <= i < size / 2,
{
    let half: i64 = (n / 2) as i64;
    let value: i64 = if n % 2 == 0 {
        half
    } else {
        -half - 1
    };
    // A multiple of either size, which makes the sum positive.
    let lifted: i64 = value + size / 2 + 0x10_0000_0000;
    assert(lifted % size == (value + size / 2) % (size as int)) by {
        if size == 0x1_0000 {
            assert(lifted == 0x10_0000 * 0x1_0000 + (value + size / 2));
        } else {
            assert(lifted == 0x10 * 0x1_0000_0000 + (value + size / 2));
        }
    }
    lifted % size - size / 2
}

/// What follows a text at the front of `s`, which is preceded by its length in 32 bits. A text that
/// is not all there takes all that is.
pub open spec fn after_text(s: Seq<u8>) -> Option<Seq<u8>> {
    match take_number(s, 5) {
        Some((n, rest)) => if n % 0x1_0000_0000 <= rest.len() {
            Some(rest.skip((n % 0x1_0000_0000) as int))
        } else {
            Some(Seq::empty())
        },
        None => None,
    }
}

/// What follows as many bytes.
pub open spec fn after_bytes(s: Seq<u8>, count: int) -> Option<Seq<u8>> {
    if count <= s.len() {
        Some(s.skip(count))
    } else {
        None
    }
}

/// What follows a flag: nothing but what is there, if it has been read before.
pub open spec fn after_flag(place: Place) -> Option<Place> {
    if place.flag {
        Some(Place { flag: false, ..place })
    } else if place.rest.len() > 0 && (place.rest[0] == 1 || place.rest[0] == 2) {
        Some(Place { rest: place.rest.skip(1), flag: false })
    } else {
        None
    }
}

/// A place with the same flag, if there is anything that follows.
pub open spec fn with_rest(place: Place, rest: Option<Seq<u8>>) -> Option<Place> {
    match rest {
        Some(rest) => Some(Place { rest, ..place }),
        None => None,
    }
}

/// What follows a number with at most `digits` digits.
pub open spec fn after_number(place: Place, digits: nat) -> Option<Place> {
    match take_number(place.rest, digits) {
        Some((_, rest)) => Some(Place { rest, ..place }),
        None => None,
    }
}

/// Whether a number is that of a type of items.
pub open spec fn is_type(wire: u8) -> bool {
    wire <= 12 && wire != 2
}

/// Reads the type of the items of a list, and how many there are, from the front of `s`: the lower
/// and the upper half of a byte; if the upper half is 15, the number of items follows in 32 bits.
pub open spec fn take_count(s: Seq<u8>) -> Option<(u8, nat, Seq<u8>)> {
    if s.len() == 0 || !is_type(s[0] % 16) {
        None
    } else if s[0] / 16 < 15 {
        Some((s[0] % 16, (s[0] / 16) as nat, s.skip(1)))
    } else {
        match take_number(s.skip(1), 5) {
            Some((n, rest)) => Some((s[0] % 16, n % 0x1_0000_0000, rest)),
            None => None,
        }
    }
}

/// The start of a field.
pub enum Field {
    /// There is no field: the record ends.
    End(Place),
    /// The number of the field, its type, and what follows.
    Of(i16, u8, Place),
}

/// Reads the start of a field, where the number of the last field was `last`. A field starts with a
/// byte: its lower half is its type, and its upper half is how much larger its number is than the
/// last one; if that is zero, the number follows in 16 bits. A type of zero ends the record, and
/// types 1 and 2 are those of a flag, which has thereby been read.
pub open spec fn take_field(place: Place, last: i16) -> Option<Field> {
    let s = place.rest;
    if s.len() == 0 || s[0] % 16 > 12 {
        None
    } else {
        let wire = s[0] % 16;
        let flag = place.flag || wire == 1 || wire == 2;
        if wire == 0 {
            Some(Field::End(Place { rest: s.skip(1), ..place }))
        } else if s[0] / 16 > 0 {
            if last + s[0] / 16 <= i16::MAX {
                let id = (last + s[0] / 16) as i16;
                Some(Field::Of(id, wire, Place { rest: s.skip(1), flag }))
            } else {
                None
            }
        } else {
            match take_number(s.skip(1), 3) {
                Some((n, rest)) => Some(
                    Field::Of(cut(signed(n), 0x1_0000) as i16, wire, Place { rest, flag }),
                ),
                None => None,
            }
        }
    }
}

/// What follows a value of a type that is not known to hold anything, nested at most `depth` deep.
/// A type is 1 or 2 for a flag, 3 for a byte, 4, 5 or 6 for a number of 16, 32 or 64 bits, 7 for
/// eight bytes, 8 for a text, 9 or 10 for a list, 11 for pairs, and 12 for a record.
pub open spec fn after_skipped(place: Place, wire: u8, depth: nat) -> Option<Place>
    decreases left(place), 1nat,
{
    let s = place.rest;
    if depth == 0 {
        None
    } else {
        match wire {
            1 | 2 => after_flag(place),
            3 => with_rest(place, after_bytes(s, 1)),
            4 => after_number(place, 3),
            5 => after_number(place, 5),
            6 => after_number(place, 10),
            7 => with_rest(place, after_bytes(s, 8)),
            8 => with_rest(place, after_text(s)),
            9 | 10 => match take_count(s) {
                Some((item, count, rest)) => if rest.len() < s.len() {
                    after_skipped_items(
                        Place { rest, ..place },
                        item,
                        item,
                        count,
                        (depth - 1) as nat,
                    )
                } else {
                    None
                },
                None => None,
            },
            11 => match take_number(s, 5) {
                Some((n, rest)) => if n % 0x1_0000_0000 == 0 {
                    Some(Place { rest, ..place })
                } else if rest.len() == 0 || rest.len() >= s.len() || !is_type(rest[0] / 16)
                    || !is_type(rest[0] % 16) {
                    None
                } else {
                    after_skipped_items(
                        Place { rest: rest.skip(1), ..place },
                        rest[0] / 16,
                        rest[0] % 16,
                        2 * (n % 0x1_0000_0000),
                        (depth - 1) as nat,
                    )
                },
                None => None,
            },
            12 => after_skipped_fields(place, 0, (depth - 1) as nat),
            _ => None,
        }
    }
}

/// What follows the given number of values whose types take turns.
pub open spec fn after_skipped_items(
    place: Place,
    wire: u8,
    next: u8,
    count: nat,
    depth: nat,
) -> Option<Place>
    decreases left(place), 2nat,
{
    if count == 0 {
        Some(place)
    } else {
        match after_skipped(place, wire, depth) {
            Some(after) => if left(after) < left(place) {
                after_skipped_items(after, next, wire, (count - 1) as nat, depth)
            } else {
                None
            },
            None => None,
        }
    }
}

/// What follows the rest of a record whose fields are not known.
pub open spec fn after_skipped_fields(place: Place, last: i16, depth: nat) -> Option<Place>
    decreases left(place), 0nat,
{
    match take_field(place, last) {
        Some(Field::Of(id, wire, value)) => if left(value) < left(place) {
            match after_skipped(value, wire, depth) {
                Some(after) => if left(after) < left(place) {
                    after_skipped_fields(after, id, depth)
                } else {
                    None
                },
                None => None,
            }
        } else {
            None
        },
        Some(Field::End(after)) => Some(after),
        None => None,
    }
}

/// What the items of a list hold.
pub open spec fn item_of(kind: Kind) -> Kind {
    match kind {
        Kind::Ints => Kind::Int,
        Kind::Texts => Kind::Text,
        Kind::Records(layout) => Kind::Record(layout),
        _ => kind,
    }
}

/// What follows a value of the given kind.
pub open spec fn after_value(place: Place, kind: Kind) -> Option<Place>
    decreases left(place), 1nat,
{
    let s = place.rest;
    match kind {
        Kind::Flag => after_flag(place),
        Kind::Byte => with_rest(place, after_bytes(s, 1)),
        Kind::Short => after_number(place, 3),
        Kind::Int => after_number(place, 5),
        Kind::Long => after_number(place, 10),
        Kind::Text => with_rest(place, after_text(s)),
        Kind::Record(layout) => after_fields(place, layout, 0),
        _ => match take_count(s) {
            Some((_, count, rest)) => if rest.len() < s.len() {
                after_items(Place { rest, ..place }, item_of(kind), count)
            } else {
                None
            },
            None => None,
        },
    }
}

/// What follows the given number of items.
pub open spec fn after_items(place: Place, item: Kind, count: nat) -> Option<Place>
    decreases left(place), 2nat,
{
    if count == 0 {
        Some(place)
    } else {
        match after_value(place, item) {
            Some(after) => if left(after) < left(place) {
                after_items(after, item, (count - 1) as nat)
            } else {
                None
            },
            None => None,
        }
    }
}

/// What follows the value of a field of a record, by its number if that is a known one, or else by
/// its type.
pub open spec fn after_field(value: Place, layout: Layout, id: i16, wire: u8) -> Option<Place>
    decreases left(value), 2nat,
{
    match kind_of(layout, id) {
        Some(kind) => after_value(value, kind),
        None => after_skipped(value, wire, MAX_SKIPPED as nat),
    }
}

/// What follows the rest of a record.
pub open spec fn after_fields(place: Place, layout: Layout, last: i16) -> Option<Place>
    decreases left(place), 0nat,
{
    match take_field(place, last) {
        Some(Field::Of(id, wire, value)) => if left(value) < left(place) {
            match after_field(value, layout, id, wire) {
                Some(after) => if left(after) < left(place) {
                    after_fields(after, layout, id)
                } else {
                    None
                },
                None => None,
            }
        } else {
            None
        },
        Some(Field::End(after)) => Some(after),
        None => None,
    }
}

/// Reads the rest of an element of the schema, and the number of its children. If that is there
/// more than once, the last one counts.
pub open spec fn take_element(place: Place, last: i16, children: i32) -> Option<(i32, Place)>
    decreases left(place),
{
    match take_field(place, last) {
        Some(Field::Of(id, wire, value)) => if id == 5 {
            match take_number(value.rest, 5) {
                Some((n, rest)) => {
                    let after = Place { rest, ..value };
                    if left(after) < left(place) {
                        take_element(after, id, cut(signed(n), 0x1_0000_0000) as i32)
                    } else {
                        None
                    }
                },
                None => None,
            }
        } else {
            match after_field(value, Layout::Element, id, wire) {
                Some(after) => if left(after) < left(place) {
                    take_element(after, id, children)
                } else {
                    None
                },
                None => None,
            }
        },
        Some(Field::End(after)) => Some((children, after)),
        None => None,
    }
}

/// Reads the given number of elements of the schema, and the number of the children of each.
pub open spec fn take_elements(place: Place, count: nat) -> Option<(Seq<i32>, Place)>
    decreases count,
{
    if count == 0 {
        Some((Seq::empty(), place))
    } else {
        match take_elements(place, (count - 1) as nat) {
            Some((schema, next)) => match take_element(next, 0, 0) {
                Some((children, after)) => Some((schema.push(children), after)),
                None => None,
            },
            None => None,
        }
    }
}

/// Reads the rest of the record of a file, and the number of the children of each element of its
/// schema. If the schema is there more than once, the last one counts.
pub open spec fn take_schema(place: Place, last: i16, schema: Seq<i32>) -> Option<Seq<i32>>
    decreases left(place),
{
    match take_field(place, last) {
        Some(Field::Of(id, wire, value)) => if id == 2 {
            match take_count(value.rest) {
                Some((_, count, rest)) => match take_elements(Place { rest, ..value }, count) {
                    Some((elements, after)) => if left(after) < left(place) {
                        take_schema(after, id, elements)
                    } else {
                        None
                    },
                    None => None,
                },
                None => None,
            }
        } else {
            match after_field(value, Layout::File, id, wire) {
                Some(after) => if left(after) < left(place) {
                    take_schema(after, id, schema)
                } else {
                    None
                },
                None => None,
            }
        },
        Some(Field::End(_)) => Some(schema),
        None => None,
    }
}

fn move_past_flag(at: Cursor<'_>) -> (r: Option<Cursor<'_>>)
    ensures
        moved(r, after_flag(at@), at@),
{
    if at.flag {
        return Some(Cursor { rest: at.rest, flag: false });
    }
    if at.rest.len() > 0 && (at.rest[0] == 1 || at.rest[0] == 2) {
        let rest = slice_subrange(at.rest, 1, at.rest.len());
        assert(rest@ =~= at.rest@.skip(1));
        return Some(Cursor { rest, flag: false });
    }
    None
}

fn move_past_bytes(at: Cursor<'_>, count: usize) -> (r: Option<Cursor<'_>>)
    requires
        count > 0,
    ensures
        moved(r, with_rest(at@, after_bytes(at@.rest, count as int)), at@),
{
    if count <= at.rest.len() {
        let rest = slice_subrange(at.rest, count, at.rest.len());
        assert(rest@ =~= at.rest@.skip(count as int));
        Some(Cursor { rest, ..at })
    } else {
        None
    }
}

fn move_past_number(at: Cursor<'_>, digits: u8) -> (r: Option<Cursor<'_>>)
    requires
        digits <= 10,
    ensures
        moved(r, after_number(at@, digits as nat), at@),
{
    match read_number(at.rest, digits) {
        Some((_, rest)) => Some(Cursor { rest, ..at }),
        None => None,
    }
}

fn move_past_text(at: Cursor<'_>) -> (r: Option<Cursor<'_>>)
    ensures
        moved(r, with_rest(at@, after_text(at@.rest)), at@),
{
    match read_number(at.rest, 5) {
        Some((n, rest)) => {
            proof {
                lemma_number_bound(5);
            }
            let len: u64 = (n % 0x1_0000_0000) as u64;
            if len <= rest.len() as u64 {
                let tail = slice_subrange(rest, len as usize, rest.len());
                assert(tail@ =~= rest@.skip(len as int));
                Some(Cursor { rest: tail, ..at })
            } else {
                let tail = slice_subrange(rest, rest.len(), rest.len());
                assert(tail@ =~= Seq::empty());
                Some(Cursor { rest: tail, ..at })
            }
        },
        None => None,
    }
}

fn read_count(s: &[u8]) -> (r: Option<(u8, u64, &[u8])>)
    ensures
        match r {
            Some((wire, count, rest)) => take_count(s@) == Some((wire, count as nat, rest@))
                && rest@.len() < s@.len() && count <= 0xffff_ffff,
            None => take_count(s@) is None,
        },
{
    if s.len() == 0 {
        return None;
    }
    let wire: u8 = s[0] % 16;
    if wire > 12 || wire == 2 {
        return None;
    }
    let rest = slice_subrange(s, 1, s.len());
    assert(rest@ =~= s@.skip(1));
    if s[0] / 16 < 15 {
        return Some((wire, (s[0] / 16) as u64, rest));
    }
    match read_number(rest, 5) {
        Some((n, rest)) => Some((wire, (n % 0x1_0000_0000) as u64, rest)),
        None => None,
    }
}

fn read_field(at: Cursor<'_>, last: i16) -> (r: Option<(Option<(i16, u8)>, Cursor<'_>)>)
    ensures
        match r {
            Some((Some((id, wire)), after)) => take_field(at@, last) == Some(
                Field::Of(id, wire, after@),
            ) && left(after@) < left(at@),
            Some((None, after)) => take_field(at@, last) == Some(Field::End(after@)) && left(after@)
                < left(at@),
            None => take_field(at@, last) is None,
        },
{
    if at.rest.len() == 0 {
        return None;
    }
    let head: u8 = at.rest[0];
    let wire: u8 = head % 16;
    if wire > 12 {
        return None;
    }
    let rest = slice_subrange(at.rest, 1, at.rest.len());
    assert(rest@ =~= at.rest@.skip(1));
    let flag: bool = at.flag || wire == 1 || wire == 2;
    if wire == 0 {
        return Some((None, Cursor { rest, flag: at.flag }));
    }
    if head / 16 > 0 {
        let id: i32 = last as i32 + (head / 16) as i32;
        if id > 0x7fff {
            return None;
        }
        return Some((Some((id as i16, wire)), Cursor { rest, flag }));
    }
    match read_number(rest, 3) {
        Some((n, rest)) => {
            proof {
                lemma_number_bound(3);
            }
            let id: i64 = read_signed(n, 0x1_0000);
            Some((Some((id as i16, wire)), Cursor { rest, flag }))
        },
        None => None,
    }
}

fn move_past_skipped(at: Cursor<'_>, wire: u8, depth: u8) -> (r: Option<Cursor<'_>>)
    ensures
        moved(r, after_skipped(at@, wire, depth as nat), at@),
    decreases left(at@), 1nat,
{
    if depth == 0 {
        return None;
    }
    match wire {
        1 | 2 => move_past_flag(at),
        3 => move_past_bytes(at, 1),
        4 => move_past_number(at, 3),
        5 => move_past_number(at, 5),
        6 => move_past_number(at, 10),
        7 => move_past_bytes(at, 8),
        8 => move_past_text(at),
        9 | 10 => match read_count(at.rest) {
            Some((item, count, rest)) => {
                move_past_skipped_items(Cursor { rest, ..at }, item, item, count, depth - 1)
            },
            None => None,
        },
        11 => match read_number(at.rest, 5) {
            Some((n, rest)) => {
                let count: u64 = (n % 0x1_0000_0000) as u64;
                if count == 0 {
                    return Some(Cursor { rest, ..at });
                }
                if rest.len() == 0 {
                    return None;
                }
                let key: u8 = rest[0] / 16;
                let value: u8 = rest[0] % 16;
                if key > 12 || key == 2 || value > 12 || value == 2 {
                    return None;
                }
                let tail = slice_subrange(rest, 1, rest.len());
                assert(tail@ =~= rest@.skip(1));
                move_past_skipped_items(
                    Cursor { rest: tail, ..at },
                    key,
                    value,
                    2 * count,
                    depth - 1,
                )
            },
            None => None,
        },
        12 => move_past_skipped_fields(at, depth - 1),
        _ => None,
    }
}

fn move_past_skipped_items(at: Cursor<'_>, wire: u8, next: u8, count: u64, depth: u8) -> (r: Option<
    Cursor<'_>,
>)
    ensures
        match r {
            Some(after) => after_skipped_items(at@, wire, next, count as nat, depth as nat) == Some(
                after@,
            ) && left(after@) <= left(at@),
            None => after_skipped_items(at@, wire, next, count as nat, depth as nat) is None,
        },
    decreases left(at@), 2nat,
{
    let mut now: Cursor<'_> = at;
    let mut now_wire: u8 = wire;
    let mut next_wire: u8 = next;
    let mut todo: u64 = count;
    while todo > 0
        invariant
            left(now@) <= left(at@),
            after_skipped_items(at@, wire, next, count as nat, depth as nat)
                == after_skipped_items(now@, now_wire, next_wire, todo as nat, depth as nat),
        decreases todo,
    {
        match move_past_skipped(now, now_wire, depth) {
            Some(after) => {
                now = after;
            },
            None => {
                return None;
            },
        }
        let spare: u8 = now_wire;
        now_wire = next_wire;
        next_wire = spare;
        todo = todo - 1;
    }
    Some(now)
}

fn move_past_skipped_fields(at: Cursor<'_>, depth: u8) -> (r: Option<Cursor<'_>>)
    ensures
        moved(r, after_skipped_fields(at@, 0, depth as nat), at@),
    decreases left(at@), 0nat,
{
    let mut now: Cursor<'_> = at;
    let mut last: i16 = 0;
    loop
        invariant
            left(now@) <= left(at@),
            after_skipped_fields(at@, 0, depth as nat) == after_skipped_fields(
                now@,
                last,
                depth as nat,
            ),
        decreases left(now@),
    {
        match read_field(now, last) {
            Some((Some((id, wire)), value)) => match move_past_skipped(value, wire, depth) {
                Some(after) => {
                    now = after;
                    last = id;
                },
                None => {
                    return None;
                },
            },
            Some((None, after)) => {
                return Some(after);
            },
            None => {
                return None;
            },
        }
    }
}

fn find_item(kind: Kind) -> (item: Kind)
    ensures
        item == item_of(kind),
{
    match kind {
        Kind::Ints => Kind::Int,
        Kind::Texts => Kind::Text,
        Kind::Records(layout) => Kind::Record(layout),
        _ => kind,
    }
}

fn move_past_value(at: Cursor<'_>, kind: Kind) -> (r: Option<Cursor<'_>>)
    ensures
        moved(r, after_value(at@, kind), at@),
    decreases left(at@), 1nat,
{
    match kind {
        Kind::Flag => move_past_flag(at),
        Kind::Byte => move_past_bytes(at, 1),
        Kind::Short => move_past_number(at, 3),
        Kind::Int => move_past_number(at, 5),
        Kind::Long => move_past_number(at, 10),
        Kind::Text => move_past_text(at),
        Kind::Record(layout) => move_past_fields(at, layout),
        _ => match read_count(at.rest) {
            Some((_, count, rest)) => {
                move_past_items(Cursor { rest, ..at }, find_item(kind), count)
            },
            None => None,
        },
    }
}

fn move_past_items(at: Cursor<'_>, item: Kind, count: u64) -> (r: Option<Cursor<'_>>)
    ensures
        match r {
            Some(after) => after_items(at@, item, count as nat) == Some(after@) && left(after@)
                <= left(at@),
            None => after_items(at@, item, count as nat) is None,
        },
    decreases left(at@), 2nat,
{
    let mut now: Cursor<'_> = at;
    let mut todo: u64 = count;
    while todo > 0
        invariant
            left(now@) <= left(at@),
            after_items(at@, item, count as nat) == after_items(now@, item, todo as nat),
        decreases todo,
    {
        match move_past_value(now, item) {
            Some(after) => {
                now = after;
            },
            None => {
                return None;
            },
        }
        todo = todo - 1;
    }
    Some(now)
}

fn move_past_field(value: Cursor<'_>, layout: Layout, id: i16, wire: u8) -> (r: Option<Cursor<'_>>)
    ensures
        moved(r, after_field(value@, layout, id, wire), value@),
    decreases left(value@), 2nat,
{
    match find_kind(layout, id) {
        Some(kind) => move_past_value(value, kind),
        None => move_past_skipped(value, wire, MAX_SKIPPED),
    }
}

fn move_past_fields(at: Cursor<'_>, layout: Layout) -> (r: Option<Cursor<'_>>)
    ensures
        moved(r, after_fields(at@, layout, 0), at@),
    decreases left(at@), 0nat,
{
    let mut now: Cursor<'_> = at;
    let mut last: i16 = 0;
    loop
        invariant
            left(now@) <= left(at@),
            after_fields(at@, layout, 0) == after_fields(now@, layout, last),
        decreases left(now@),
    {
        match read_field(now, last) {
            Some((Some((id, wire)), value)) => match move_past_field(value, layout, id, wire) {
                Some(after) => {
                    now = after;
                    last = id;
                },
                None => {
                    return None;
                },
            },
            Some((None, after)) => {
                return Some(after);
            },
            None => {
                return None;
            },
        }
    }
}

fn read_element(at: Cursor<'_>) -> (r: Option<(i32, Cursor<'_>)>)
    ensures
        match r {
            Some((children, after)) => take_element(at@, 0, 0) == Some((children, after@)) && left(
                after@,
            ) < left(at@),
            None => take_element(at@, 0, 0) is None,
        },
{
    let mut now: Cursor<'_> = at;
    let mut last: i16 = 0;
    let mut children: i32 = 0;
    loop
        invariant
            left(now@) <= left(at@),
            take_element(at@, 0, 0) == take_element(now@, last, children),
        decreases left(now@),
    {
        let ((id, wire), value) = match read_field(now, last) {
            Some((Some(field), value)) => (field, value),
            Some((None, after)) => {
                return Some((children, after));
            },
            None => {
                return None;
            },
        };
        if id == 5 {
            match read_number(value.rest, 5) {
                Some((n, rest)) => {
                    proof {
                        lemma_number_bound(5);
                    }
                    children = read_signed(n, 0x1_0000_0000) as i32;
                    now = Cursor { rest, ..value };
                },
                None => {
                    return None;
                },
            }
        } else {
            match move_past_field(value, Layout::Element, id, wire) {
                Some(after) => {
                    now = after;
                },
                None => {
                    return None;
                },
            }
        }
        last = id;
    }
}

proof fn lemma_elements_prefix(place: Place, count: nat, more: nat)
    requires
        count <= more,
    ensures
        take_elements(place, count) is None ==> take_elements(place, more) is None,
    decreases more,
{
    if count < more {
        lemma_elements_prefix(place, count, (more - 1) as nat);
    }
}

fn read_elements(at: Cursor<'_>, count: u64) -> (r: Option<(Vec<i32>, Cursor<'_>)>)
    ensures
        match r {
            Some((schema, after)) => take_elements(at@, count as nat) == Some((schema@, after@))
                && left(after@) <= left(at@),
            None => take_elements(at@, count as nat) is None,
        },
{
    let mut now: Cursor<'_> = at;
    let mut schema: Vec<i32> = Vec::new();
    let mut done: u64 = 0;
    while done < count
        invariant
            done <= count,
            left(now@) <= left(at@),
            take_elements(at@, done as nat) == Some((schema@, now@)),
        decreases count - done,
    {
        proof {
            lemma_elements_prefix(at@, (done + 1) as nat, count as nat);
        }
        match read_element(now) {
            Some((children, after)) => {
                schema.push(children);
                now = after;
            },
            None => {
                return None;
            },
        }
        done = done + 1;
    }
    Some((schema, now))
}

fn read_schema(at: Cursor<'_>) -> (r: Option<Vec<i32>>)
    ensures
        match r {
            Some(schema) => take_schema(at@, 0, Seq::empty()) == Some(schema@),
            None => take_schema(at@, 0, Seq::empty()) is None,
        },
{
    let mut now: Cursor<'_> = at;
    let mut last: i16 = 0;
    let mut schema: Vec<i32> = Vec::new();
    loop
        invariant
            take_schema(at@, 0, Seq::empty()) == take_schema(now@, last, schema@),
        decreases left(now@),
    {
        let ((id, wire), value) = match read_field(now, last) {
            Some((Some(field), value)) => (field, value),
            Some((None, _)) => {
                return Some(schema);
            },
            None => {
                return None;
            },
        };
        if id == 2 {
            let (_, count, rest) = match read_count(value.rest) {
                Some(list) => list,
                None => {
                    return None;
                },
            };
            match read_elements(Cursor { rest, ..value }, count) {
                Some((elements, after)) => {
                    schema = elements;
                    now = after;
                },
                None => {
                    return None;
                },
            }
        } else {
            match move_past_field(value, Layout::File, id, wire) {
                Some(after) => {
                    now = after;
                },
                None => {
                    return None;
                },
            }
        }
        last = id;
    }
}

/// What comes of following the elements of a schema.
pub enum Walk {
    /// An element is nested too deep.
    Deep,
    /// There are fewer elements than there should be.
    Short,
    /// The place of the next element.
    At(int),
}

/// Follows an element of a schema and those below it, which come right behind it, at most `depth`
/// deep.
pub open spec fn walk_element(schema: Seq<i32>, index: int, depth: nat) -> Walk
    decreases depth, 0nat,
{
    if depth == 0 {
        Walk::Deep
    } else if index >= schema.len() {
        Walk::Short
    } else if schema[index] <= 0 {
        Walk::At(index + 1)
    } else {
        walk_elements(schema, index + 1, schema[index] as nat, (depth - 1) as nat)
    }
}

/// Follows the given number of elements of a schema and those below them.
pub open spec fn walk_elements(schema: Seq<i32>, index: int, count: nat, depth: nat) -> Walk
    decreases depth, count + 1,
{
    if count == 0 {
        Walk::At(index)
    } else {
        match walk_element(schema, index, depth) {
            Walk::At(next) => walk_elements(schema, next, (count - 1) as nat, depth),
            other => other,
        }
    }
}

/// Follows the given number of outermost elements of a schema. `Deep` also if the squares of their
/// sizes, with `cost`, add up to too much.
pub open spec fn walk_outermost(schema: Seq<i32>, index: int, count: nat, cost: int) -> Walk
    decreases count,
{
    if count == 0 {
        Walk::At(index)
    } else {
        match walk_element(schema, index, MAX_NESTING as nat) {
            Walk::At(next) => {
                let more = cost + (next - index) * (next - index);
                if more > MAX_SCHEMA_COST {
                    Walk::Deep
                } else {
                    walk_outermost(schema, next, (count - 1) as nat, more)
                }
            },
            other => other,
        }
    }
}

/// Whether one of the elements that follow is nested too deep.
pub open spec fn deep_from(schema: Seq<i32>, index: int) -> bool
    decreases schema.len() - index,
{
    if index >= schema.len() {
        false
    } else {
        match walk_element(schema, index, MAX_NESTING as nat) {
            Walk::Deep => true,
            Walk::Short => false,
            Walk::At(next) => index < next <= schema.len() && deep_from(schema, next),
        }
    }
}

/// Whether a schema, given by the number of the children of each element, is nested too deep, or
/// too large. The first element is that of the file, and those below it are the outermost ones.
pub open spec fn too_deep(schema: Seq<i32>) -> bool {
    if schema.len() == 0 {
        false
    } else if schema[0] <= 0 {
        deep_from(schema, 1)
    } else {
        match walk_outermost(schema, 1, schema[0] as nat, 0) {
            Walk::Deep => true,
            Walk::Short => false,
            Walk::At(next) => deep_from(schema, next),
        }
    }
}

/// What comes of following the elements of a schema.
enum Step {
    Deep,
    Short,
    At(usize),
}

/// Whether a step is the one that is expected, and ends behind `from`.
spec fn stepped(step: Step, walk: Walk, from: int, len: nat) -> bool {
    match step {
        Step::Deep => walk == Walk::Deep,
        Step::Short => walk == Walk::Short,
        Step::At(next) => walk == Walk::At(next as int) && from <= next <= len,
    }
}

fn step_element(schema: &Vec<i32>, index: usize, depth: u8) -> (step: Step)
    ensures
        stepped(step, walk_element(schema@, index as int, depth as nat), index + 1, schema@.len()),
    decreases depth, 0nat,
{
    if depth == 0 {
        Step::Deep
    } else if index >= schema.len() {
        Step::Short
    } else if schema[index] <= 0 {
        Step::At(index + 1)
    } else {
        step_elements(schema, index + 1, schema[index] as u32, depth - 1)
    }
}

fn step_elements(schema: &Vec<i32>, index: usize, count: u32, depth: u8) -> (step: Step)
    requires
        index <= schema@.len(),
    ensures
        stepped(
            step,
            walk_elements(schema@, index as int, count as nat, depth as nat),
            index as int,
            schema@.len(),
        ),
    decreases depth, 1nat,
{
    let mut now: usize = index;
    let mut todo: u32 = count;
    while todo > 0
        invariant
            index <= now <= schema@.len(),
            walk_elements(schema@, index as int, count as nat, depth as nat) == walk_elements(
                schema@,
                now as int,
                todo as nat,
                depth as nat,
            ),
        decreases todo,
    {
        match step_element(schema, now, depth) {
            Step::At(next) => {
                now = next;
            },
            other => {
                return other;
            },
        }
        todo = todo - 1;
    }
    Step::At(now)
}

fn step_outermost(schema: &Vec<i32>, count: u32) -> (step: Step)
    requires
        schema@.len() > 0,
    ensures
        stepped(step, walk_outermost(schema@, 1, count as nat, 0), 1, schema@.len()),
{
    let mut now: usize = 1;
    let mut todo: u32 = count;
    let mut cost: u64 = 0;
    while todo > 0
        invariant
            1 <= now <= schema@.len(),
            cost <= MAX_SCHEMA_COST,
            walk_outermost(schema@, 1, count as nat, 0) == walk_outermost(
                schema@,
                now as int,
                todo as nat,
                cost as int,
            ),
        decreases todo,
    {
        match step_element(schema, now, MAX_NESTING) {
            Step::At(next) => {
                let size: usize = next - now;
                if size > 2_000 {
                    assert(size * size > 4_000_000) by (nonlinear_arith)
                        requires
                            size > 2_000,
                    ;
                    return Step::Deep;
                }
                assert(size * size <= 4_000_000) by (nonlinear_arith)
                    requires
                        0 <= size <= 2_000,
                ;
                cost = cost + size as u64 * size as u64;
                if cost > MAX_SCHEMA_COST {
                    return Step::Deep;
                }
                now = next;
            },
            other => {
                return other;
            },
        }
        todo = todo - 1;
    }
    Step::At(now)
}

fn is_deep_from(schema: &Vec<i32>, index: usize) -> (deep: bool)
    ensures
        deep == deep_from(schema@, index as int),
{
    let mut now: usize = index;
    while now < schema.len()
        invariant
            deep_from(schema@, index as int) == deep_from(schema@, now as int),
        decreases schema@.len() - now,
    {
        match step_element(schema, now, MAX_NESTING) {
            Step::Deep => {
                return true;
            },
            Step::Short => {
                return false;
            },
            Step::At(next) => {
                now = next;
            },
        }
    }
    false
}

/// Tells whether a schema is nested too deep, or too large.
pub fn is_too_deep(schema: &Vec<i32>) -> (deep: bool)
    ensures
        deep == too_deep(schema@),
{
    if schema.len() == 0 {
        return false;
    }
    if schema[0] <= 0 {
        return is_deep_from(schema, 1);
    }
    match step_outermost(schema, schema[0] as u32) {
        Step::Deep => true,
        Step::Short => false,
        Step::At(next) => is_deep_from(schema, next),
    }
}

/// The footer of a file and what follows it, if the file has one: the file ends in the length of
/// its footer as a number of 32 bits with a sign, and in a mark.
pub open spec fn footer_of(bytes: Seq<u8>) -> Option<Seq<u8>> {
    let end = bytes.len() - 8;
    if bytes.len() < 12 || bytes.skip(end + 4) != seq![80u8, 65u8, 82u8, 49u8] {
        None
    } else {
        let len = le_value(bytes.subrange(end, end + 4));
        if len < 0x8000_0000 && len <= end {
            Some(bytes.skip(end - len))
        } else {
            None
        }
    }
}

/// Whether the schema of a file, if it has one that can be read, is neither nested too deep nor too
/// large.
pub open spec fn footer_expected(bytes: Seq<u8>) -> bool {
    match footer_of(bytes) {
        Some(footer) => match take_schema(Place { rest: footer, flag: false }, 0, Seq::empty()) {
            Some(schema) => !too_deep(schema),
            None => true,
        },
        None => true,
    }
}

/// Tells whether the schema of a file, if it has one that can be read, is neither nested too deep
/// nor too large.
pub fn is_footer_expected(bytes: &[u8]) -> (expected: bool)
    ensures
        expected == footer_expected(bytes@),
{
    if bytes.len() < 12 {
        return true;
    }
    let end: usize = bytes.len() - 8;
    let ghost mark = bytes@.skip(end + 4);
    if bytes[end + 4] != 80 || bytes[end + 5] != 65 || bytes[end + 6] != 82 || bytes[end + 7]
        != 49 {
        assert(mark[0] != 80 || mark[1] != 65 || mark[2] != 82 || mark[3] != 49);
        return true;
    }
    assert(mark =~= seq![80u8, 65u8, 82u8, 49u8]);
    let tail = slice_subrange(bytes, end, bytes.len());
    assert(tail@.take(4) =~= bytes@.subrange(end as int, end + 4));
    let len: u64 = read_le_32(tail);
    if len >= 0x8000_0000 || len > end as u64 {
        return true;
    }
    let rest = slice_subrange(bytes, end - len as usize, bytes.len());
    assert(rest@ =~= bytes@.skip(end - len));
    match read_schema(Cursor { rest, flag: false }) {
        Some(schema) => !is_too_deep(&schema),
        None => true,
    }
}

} // verus!
