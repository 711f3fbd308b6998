//! The wire format of Protocol Buffers: a message is a sequence of numbered fields.

use vstd::prelude::*;
use vstd::slice::slice_subrange;

verus! {

/// A message could not be decoded.
#[derive(Debug, Clone, Copy, PartialEq, Eq, Structural)]
pub struct DecodeError {}

/// What [`DecodeError::text`] says.
pub open spec fn decode_error_text() -> Seq<char> {
    "failed to decode Protobuf message"@
}

impl DecodeError {
    /// The error in words.
    pub fn text(&self) -> (text: String)
        ensures
            text@ == decode_error_text(),
    {
        "failed to decode Protobuf message".to_owned()
    }
}

/// How deep the groups that a message skips may be nested.
pub const RECURSION_LIMIT: u32 = 100;

/// A number in base 128, the least significant digit first. All digits but the last have their
/// high bit set.
pub open spec fn varint(n: nat) -> Seq<u8>
    decreases n,
{
    if n < 128 {
        seq![n as u8]
    } else {
        seq![(n % 128 + 128) as u8] + varint(n / 128)
    }
}

/// Reads a number in base 128 that has at most `digits` digits, of which the last possible one is
/// less than two, from the front of `s`. Returns the number, and what follows it.
pub open spec fn take_digits(s: Seq<u8>, digits: nat) -> Option<(nat, Seq<u8>)>
    decreases digits,
{
    if digits == 0 || s.len() == 0 {
        None
    } else if s[0] < 128 {
        if digits == 1 && s[0] >= 2 {
            None
        } else {
            Some((s[0] as nat, s.skip(1)))
        }
    } else {
        match take_digits(s.skip(1), (digits - 1) as nat) {
            Some((n, rest)) => Some(((s[0] - 128 + 128 * n) as nat, rest)),
            None => None,
        }
    }
}

/// Reads a 64-bit number from the front of `s`.
pub open spec fn take_varint(s: Seq<u8>) -> Option<(nat, Seq<u8>)> {
    take_digits(s, 10)
}

/// The numbers that `digits` digits can hold, if the last one is less than two.
spec fn digits_bound(digits: nat) -> nat
    decreases digits,
{
    if digits <= 1 {
        2
    } else {
        128 * digits_bound((digits - 1) as nat)
    }
}

proof fn lemma_digits_bound(digits: nat)
    ensures
        digits_bound(digits) >= 2,
    decreases digits,
{
    if digits > 1 {
        lemma_digits_bound((digits - 1) as nat);
    }
}

proof fn lemma_take_digits(n: nat, digits: nat, rest: Seq<u8>)
    requires
        1 <= digits,
        n < digits_bound(digits),
    ensures
        take_digits(varint(n) + rest, digits) == Some((n, rest)),
    decreases digits,
{
    let s = varint(n) + rest;
    if n < 128 {
        assert(s.skip(1) =~= rest);
    } else {
        assert(s.skip(1) =~= varint(n / 128) + rest);
        lemma_take_digits(n / 128, (digits - 1) as nat, rest);
    }
}

/// A number is read as it was written.
pub proof fn lemma_take_varint(n: u64, rest: Seq<u8>)
    ensures
        take_varint(varint(n as nat) + rest) == Some((n as nat, rest)),
        1 <= varint(n as nat).len(),
{
    assert(digits_bound(10) == 0x1_0000_0000_0000_0000) by {
        reveal_with_fuel(digits_bound, 10);
    }
    lemma_take_digits(n as nat, 10, rest);
}

proof fn lemma_take_digits_shrinks(s: Seq<u8>, digits: nat)
    ensures
        match take_digits(s, digits) {
            Some((n, rest)) => n < digits_bound(digits) && rest.len() < s.len(),
            None => true,
        },
    decreases digits,
{
    if digits > 1 {
        lemma_digits_bound((digits - 1) as nat);
    }
    if digits > 0 && s.len() > 0 && s[0] >= 128 {
        lemma_take_digits_shrinks(s.skip(1), (digits - 1) as nat);
    }
}

/// A number that is read has 64 bits and at least one byte.
pub proof fn lemma_take_varint_shrinks(s: Seq<u8>)
    ensures
        match take_varint(s) {
            Some((n, rest)) => n <= u64::MAX && rest.len() < s.len(),
            None => true,
        },
{
    assert(digits_bound(10) == 0x1_0000_0000_0000_0000) by {
        reveal_with_fuel(digits_bound, 10);
    }
    lemma_take_digits_shrinks(s, 10);
}

/// What a field holds.
pub enum PayloadView {
    Varint(u64),
    Bytes(Seq<u8>),
    /// A number of a fixed size, or a group: no message here has such a field.
    Other,
}

/// A field of a message.
pub struct FieldView {
    pub tag: u32,
    pub payload: PayloadView,
}

/// Reads the key of a field from the front of `s`: its number, and how it is encoded.
pub open spec fn take_key(s: Seq<u8>) -> Option<(u32, nat, Seq<u8>)> {
    match take_varint(s) {
        Some((key, rest)) => if key <= u32::MAX && key % 8 <= 5 && key >= 8 {
            Some(((key / 8) as u32, key % 8, rest))
        } else {
            None
        },
        None => None,
    }
}

/// Reads bytes from the front of `s`, preceded by their number.
pub open spec fn take_bytes(s: Seq<u8>) -> Option<(Seq<u8>, Seq<u8>)> {
    match take_varint(s) {
        Some((len, rest)) => if len <= rest.len() {
            Some((rest.take(len as int), rest.skip(len as int)))
        } else {
            None
        },
        None => None,
    }
}

/// What follows `n` bytes at the front of `s`.
pub open spec fn skip_bytes(s: Seq<u8>, n: int) -> Option<Seq<u8>> {
    if n <= s.len() {
        Some(s.skip(n))
    } else {
        None
    }
}

/// What follows a field that nobody reads, and that may be a group.
pub open spec fn skip_field(s: Seq<u8>, tag: u32, wire: nat, limit: nat) -> Option<Seq<u8>>
    decreases limit, s.len(), 1nat,
{
    if limit == 0 {
        None
    } else if wire == 0 {
        match take_varint(s) {
            Some((_, rest)) => Some(rest),
            None => None,
        }
    } else if wire == 1 {
        skip_bytes(s, 8)
    } else if wire == 2 {
        match take_bytes(s) {
            Some((_, rest)) => Some(rest),
            None => None,
        }
    } else if wire == 3 {
        skip_group(s, tag, limit)
    } else if wire == 5 {
        skip_bytes(s, 4)
    } else {
        None
    }
}

/// What follows the fields of a group, and the key that closes it.
pub open spec fn skip_group(s: Seq<u8>, tag: u32, limit: nat) -> Option<Seq<u8>>
    decreases limit, s.len(), 0nat,
{
    match take_key(s) {
        Some((inner_tag, inner_wire, rest)) => if inner_wire == 4 {
            if inner_tag == tag {
                Some(rest)
            } else {
                None
            }
        } else if limit == 0 {
            None
        } else {
            match skip_field(rest, inner_tag, inner_wire, (limit - 1) as nat) {
                Some(rest) => if rest.len() < s.len() {
                    skip_group(rest, tag, limit)
                } else {
                    None
                },
                None => None,
            }
        },
        None => None,
    }
}

/// Reads a field from the front of `s`. Returns the field, and what follows it.
pub open spec fn take_field(s: Seq<u8>, limit: nat) -> Option<(FieldView, Seq<u8>)> {
    match take_key(s) {
        Some((tag, wire, rest)) => if wire == 0 {
            match take_varint(rest) {
                Some((n, rest)) => Some(
                    (FieldView { tag, payload: PayloadView::Varint(n as u64) }, rest),
                ),
                None => None,
            }
        } else if wire == 2 {
            match take_bytes(rest) {
                Some((bytes, rest)) => Some(
                    (FieldView { tag, payload: PayloadView::Bytes(bytes) }, rest),
                ),
                None => None,
            }
        } else {
            match skip_field(rest, tag, wire, limit) {
                Some(rest) => Some((FieldView { tag, payload: PayloadView::Other }, rest)),
                None => None,
            }
        },
        None => None,
    }
}

/// The fields of which `s` is made.
pub open spec fn parse(s: Seq<u8>, limit: nat) -> Option<Seq<FieldView>>
    decreases s.len(),
{
    if s.len() == 0 {
        Some(Seq::empty())
    } else {
        match take_field(s, limit) {
            Some((field, rest)) => if rest.len() < s.len() {
                match parse(rest, limit) {
                    Some(fields) => Some(seq![field] + fields),
                    None => None,
                }
            } else {
                None
            },
            None => None,
        }
    }
}

/// Whether a field can be written: its number is in range, it is no group, and its length can be
/// counted.
pub open spec fn writable(field: FieldView) -> bool {
    &&& 1 <= field.tag < 0x2000_0000
    &&& field.payload !is Other
    &&& field.payload matches PayloadView::Bytes(bytes) ==> bytes.len() <= u64::MAX
}

/// A field as bytes.
pub open spec fn field_bytes(field: FieldView) -> Seq<u8> {
    match field.payload {
        PayloadView::Varint(n) => varint((field.tag * 8) as nat) + varint(n as nat),
        PayloadView::Bytes(bytes) => varint((field.tag * 8 + 2) as nat) + varint(bytes.len())
            + bytes,
        PayloadView::Other => Seq::empty(),
    }
}

/// Fields as bytes, one after the other.
pub open spec fn fields_bytes(fields: Seq<FieldView>) -> Seq<u8>
    decreases fields.len(),
{
    if fields.len() == 0 {
        Seq::empty()
    } else {
        field_bytes(fields[0]) + fields_bytes(fields.skip(1))
    }
}

/// A field is read as it was written.
pub proof fn lemma_take_field(field: FieldView, rest: Seq<u8>, limit: nat)
    requires
        writable(field),
    ensures
        take_field(field_bytes(field) + rest, limit) == Some((field, rest)),
        1 <= field_bytes(field).len(),
{
    let s = field_bytes(field) + rest;
    match field.payload {
        PayloadView::Varint(n) => {
            let key = (field.tag * 8) as u64;
            let tail = varint(n as nat) + rest;
            assert(s =~= varint(key as nat) + tail);
            lemma_take_varint(key, tail);
            lemma_take_varint(n, rest);
        },
        PayloadView::Bytes(bytes) => {
            let key = (field.tag * 8 + 2) as u64;
            let tail = varint(bytes.len()) + (bytes + rest);
            assert(s =~= varint(key as nat) + tail);
            lemma_take_varint(key, tail);
            lemma_take_varint(bytes.len() as u64, bytes + rest);
            assert((bytes + rest).take(bytes.len() as int) =~= bytes);
            assert((bytes + rest).skip(bytes.len() as int) =~= rest);
        },
        PayloadView::Other => {},
    }
}

/// Fields are read as they were written.
pub proof fn lemma_parse(fields: Seq<FieldView>, limit: nat)
    requires
        forall|i: int| 0 <= i < fields.len() ==> writable(#[trigger] fields[i]),
    ensures
        parse(fields_bytes(fields), limit) == Some(fields),
    decreases fields.len(),
{
    if fields.len() > 0 {
        let rest = fields_bytes(fields.skip(1));
        lemma_take_field(fields[0], rest, limit);
        lemma_parse(fields.skip(1), limit);
        assert(seq![fields[0]] + fields.skip(1) =~= fields);
    } else {
        assert(fields =~= Seq::empty());
    }
}

/// The bytes of two sequences of fields follow each other.
pub proof fn lemma_fields_join(a: Seq<FieldView>, b: Seq<FieldView>)
    ensures
        fields_bytes(a + b) == fields_bytes(a) + fields_bytes(b),
    decreases a.len(),
{
    if a.len() == 0 {
        assert(a + b =~= b);
        assert(fields_bytes(a) + fields_bytes(b) =~= fields_bytes(b));
    } else {
        assert((a + b).skip(1) =~= a.skip(1) + b);
        lemma_fields_join(a.skip(1), b);
        assert(fields_bytes(a + b) =~= fields_bytes(a) + fields_bytes(b));
    }
}

/// The bytes that a field holds are no more than those of all fields together.
pub proof fn lemma_field_fits(fields: Seq<FieldView>, i: int)
    requires
        0 <= i < fields.len(),
    ensures
        fields[i].payload matches PayloadView::Bytes(bytes) ==> bytes.len() <= fields_bytes(
            fields,
        ).len(),
    decreases fields.len(),
{
    if i > 0 {
        lemma_field_fits(fields.skip(1), i - 1);
        assert(fields[i] == fields.skip(1)[i - 1]);
    }
}

/// What a field holds, in a buffer.
pub enum Payload<'a> {
    Varint(u64),
    Bytes(&'a [u8]),
    Other,
}

impl View for Payload<'_> {
    type V = PayloadView;

    open spec fn view(&self) -> PayloadView {
        match self {
            Payload::Varint(n) => PayloadView::Varint(*n),
            Payload::Bytes(bytes) => PayloadView::Bytes(bytes@),
            Payload::Other => PayloadView::Other,
        }
    }
}

/// Calls `prost::encoding::encode_varint`, which appends a number in base 128.
#[verifier::external_body]
fn encode_varint(value: u64, buf: &mut Vec<u8>)
    ensures
        final(buf)@ == old(buf)@ + varint(value as nat),
{
    prost::encoding::encode_varint(value, buf)
}

/// Calls `prost::encoding::decode_varint`, which reads a number in base 128 from the front of a
/// buffer. It fails if the number does not end in the buffer, or needs more than 64 bits or ten
/// digits.
#[verifier::external_body]
fn decode_varint(buf: &[u8]) -> (r: Option<(u64, &[u8])>)
    ensures
        match r {
            Some((value, rest)) => take_varint(buf@) == Some((value as nat, rest@)),
            None => take_varint(buf@) is None,
        },
{
    let mut rest = buf;
    let value = prost::encoding::decode_varint(&mut rest).ok()?;
    Some((value, rest))
}

/// Reads a number from the front of a buffer.
pub fn read_varint(buf: &[u8]) -> (r: Option<(u64, &[u8])>)
    ensures
        match r {
            Some((value, rest)) => take_varint(buf@) == Some((value as nat, rest@)) && rest@.len()
                < buf@.len(),
            None => take_varint(buf@) is None,
        },
{
    proof {
        lemma_take_varint_shrinks(buf@);
    }
    decode_varint(buf)
}

fn read_key(buf: &[u8]) -> (r: Option<(u32, u8, &[u8])>)
    ensures
        match r {
            Some((tag, wire, rest)) => take_key(buf@) == Some((tag, wire as nat, rest@))
                && rest@.len() < buf@.len(),
            None => take_key(buf@) is None,
        },
{
    match read_varint(buf) {
        Some((key, rest)) => {
            if key <= 0xffff_ffff && key % 8 <= 5 && key >= 8 {
                Some(((key / 8) as u32, (key % 8) as u8, rest))
            } else {
                None
            }
        },
        None => None,
    }
}

fn read_bytes(buf: &[u8]) -> (r: Option<(&[u8], &[u8])>)
    ensures
        match r {
            Some((bytes, rest)) => take_bytes(buf@) == Some((bytes@, rest@)) && rest@.len()
                < buf@.len(),
            None => take_bytes(buf@) is None,
        },
{
    match read_varint(buf) {
        Some((len, rest)) => {
            if len <= rest.len() as u64 {
                let len: usize = len as usize;
                let bytes = slice_subrange(rest, 0, len);
                let tail = slice_subrange(rest, len, rest.len());
                assert(bytes@ =~= rest@.take(len as int));
                assert(tail@ =~= rest@.skip(len as int));
                Some((bytes, tail))
            } else {
                None
            }
        },
        None => None,
    }
}

fn read_past(buf: &[u8], n: usize) -> (r: Option<&[u8]>)
    ensures
        match r {
            Some(rest) => skip_bytes(buf@, n as int) == Some(rest@) && rest@.len() <= buf@.len(),
            None => skip_bytes(buf@, n as int) is None,
        },
{
    if n <= buf.len() {
        let rest = slice_subrange(buf, n, buf.len());
        assert(rest@ =~= buf@.skip(n as int));
        Some(rest)
    } else {
        None
    }
}

fn read_past_field(buf: &[u8], tag: u32, wire: u8, limit: u32) -> (r: Option<&[u8]>)
    ensures
        match r {
            Some(rest) => skip_field(buf@, tag, wire as nat, limit as nat) == Some(rest@)
                && rest@.len() <= buf@.len(),
            None => skip_field(buf@, tag, wire as nat, limit as nat) is None,
        },
    decreases limit, buf@.len(), 1nat,
{
    if limit == 0 {
        None
    } else if wire == 0 {
        match read_varint(buf) {
            Some((_, rest)) => Some(rest),
            None => None,
        }
    } else if wire == 1 {
        read_past(buf, 8)
    } else if wire == 2 {
        match read_bytes(buf) {
            Some((_, rest)) => Some(rest),
            None => None,
        }
    } else if wire == 3 {
        read_past_group(buf, tag, limit)
    } else if wire == 5 {
        read_past(buf, 4)
    } else {
        None
    }
}

fn read_past_group(buf: &[u8], tag: u32, limit: u32) -> (r: Option<&[u8]>)
    ensures
        match r {
            Some(rest) => skip_group(buf@, tag, limit as nat) == Some(rest@) && rest@.len()
                <= buf@.len(),
            None => skip_group(buf@, tag, limit as nat) is None,
        },
    decreases limit, buf@.len(), 0nat,
{
    match read_key(buf) {
        Some((inner_tag, inner_wire, rest)) => {
            if inner_wire == 4 {
                if inner_tag == tag {
                    Some(rest)
                } else {
                    None
                }
            } else if limit == 0 {
                None
            } else {
                match read_past_field(rest, inner_tag, inner_wire, limit - 1) {
                    Some(rest) => read_past_group(rest, tag, limit),
                    None => None,
                }
            }
        },
        None => None,
    }
}

/// Reads a field from the front of a buffer. Groups may be nested `limit` deep.
pub fn read_field(buf: &[u8], limit: u32) -> (r: Option<(u32, Payload<'_>, &[u8])>)
    ensures
        match r {
            Some((tag, payload, rest)) => take_field(buf@, limit as nat) == Some(
                (FieldView { tag, payload: payload@ }, rest@),
            ) && rest@.len() < buf@.len(),
            None => take_field(buf@, limit as nat) is None,
        },
{
    match read_key(buf) {
        Some((tag, wire, rest)) => {
            if wire == 0 {
                match read_varint(rest) {
                    Some((n, rest)) => Some((tag, Payload::Varint(n), rest)),
                    None => None,
                }
            } else if wire == 2 {
                match read_bytes(rest) {
                    Some((bytes, rest)) => Some((tag, Payload::Bytes(bytes), rest)),
                    None => None,
                }
            } else {
                match read_past_field(rest, tag, wire, limit) {
                    Some(rest) => Some((tag, Payload::Other, rest)),
                    None => None,
                }
            }
        },
        None => None,
    }
}

/// Appends a number.
pub fn write_varint(buf: &mut Vec<u8>, value: u64)
    ensures
        final(buf)@ == old(buf)@ + varint(value as nat),
{
    encode_varint(value, buf)
}

/// Appends a field that holds a number.
pub fn write_number(buf: &mut Vec<u8>, tag: u32, value: u64)
    requires
        1 <= tag < 0x2000_0000,
    ensures
        final(buf)@ == old(buf)@ + field_bytes(
            FieldView { tag, payload: PayloadView::Varint(value) },
        ),
{
    write_varint(buf, (tag * 8) as u64);
    write_varint(buf, value);
    assert(buf@ =~= old(buf)@ + (varint((tag * 8) as nat) + varint(value as nat)));
}

/// Appends bytes.
pub fn write_all(buf: &mut Vec<u8>, bytes: &[u8])
    ensures
        final(buf)@ == old(buf)@ + bytes@,
{
    buf.extend_from_slice(bytes);
    assert(buf@ =~= old(buf)@ + bytes@);
}

/// Appends a field that holds bytes.
pub fn write_bytes(buf: &mut Vec<u8>, tag: u32, bytes: &[u8])
    requires
        1 <= tag < 0x2000_0000,
    ensures
        final(buf)@ == old(buf)@ + field_bytes(
            FieldView { tag, payload: PayloadView::Bytes(bytes@) },
        ),
{
    write_varint(buf, (tag * 8 + 2) as u64);
    write_varint(buf, bytes.len() as u64);
    write_all(buf, bytes);
    assert(buf@ =~= old(buf)@ + (varint((tag * 8 + 2) as nat) + varint(bytes@.len()) + bytes@));
}

} // verus!
