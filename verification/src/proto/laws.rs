//! What reading and writing messages is for: how fields follow each other, and what is passed over.

use vstd::prelude::*;

use crate::proto::message::{
    all_writable, decode, encode_to_vec, inner, lemma_round_trip, lemma_with_fields_join,
    lemma_with_one_field, message_with, with_bytes, with_fields, Message, Schema,
};
use crate::proto::wire::{
    fields_bytes, lemma_fields_join, lemma_parse, lemma_take_varint, take_field, varint, writable,
    DecodeError, FieldView, PayloadView,
};

verus! {

/// A message is read field by field: what its last field does is done to what the others have made
/// of it, so that of two fields that cannot both be kept, the last one is.
pub proof fn lemma_fields_are_read_in_order<M: Schema>(
    message: M::V,
    fields: Seq<FieldView>,
    last: FieldView,
    limit: nat,
)
    requires
        all_writable(fields.push(last)),
    ensures
        with_bytes::<M>(message, fields_bytes(Seq::empty()), limit) == Some(message),
        with_bytes::<M>(message, fields_bytes(fields.push(last)), limit) == match with_bytes::<M>(
            message,
            fields_bytes(fields),
            limit,
        ) {
            Some(before) => M::with_field(before, last, limit),
            None => None,
        },
{
    lemma_parse(fields.push(last), limit);
    assert forall|i: int| 0 <= i < fields.len() implies writable(#[trigger] fields[i]) by {
        assert(fields.push(last)[i] == fields[i]);
    }
    lemma_parse(fields, limit);
    assert(fields.push(last) =~= fields + seq![last]);
    lemma_with_fields_join::<M>(message, fields, seq![last], limit);
    lemma_with_one_field::<M>(
        match with_fields::<M>(message, fields, limit) {
            Some(before) => before,
            None => message,
        },
        last,
        limit,
    );
}

/// A message that is itself a field may come in pieces: what the later one holds is merged into
/// what the earlier one has made of it.
pub proof fn lemma_pieces_are_merged<M: Schema>(
    a: Seq<FieldView>,
    b: Seq<FieldView>,
    limit: nat,
)
    requires
        all_writable(a),
        all_writable(b),
    ensures
        ({
            let whole = PayloadView::Bytes(fields_bytes(a) + fields_bytes(b));
            let (first, second) = (
                PayloadView::Bytes(fields_bytes(a)),
                PayloadView::Bytes(fields_bytes(b)),
            );
            message_with::<M>(None, whole, limit) == match message_with::<M>(None, first, limit) {
                Some(piece) => message_with::<M>(Some(piece), second, limit),
                None => None,
            }
        }),
{
    let inside = inner(limit);
    lemma_fields_join(a, b);
    lemma_parse(a, inside);
    lemma_parse(b, inside);
    assert forall|i: int| 0 <= i < (a + b).len() implies writable(#[trigger] (a + b)[i]) by {
        if i < a.len() {
            assert((a + b)[i] == a[i]);
        } else {
            assert((a + b)[i] == b[i - a.len()]);
        }
    }
    lemma_parse(a + b, inside);
    lemma_with_fields_join::<M>(M::empty(), a, b, inside);
}

/// Only bytes hold a message.
pub proof fn lemma_messages_are_bytes<M: Schema>(before: Option<M::V>, number: u64, limit: nat)
    ensures
        message_with::<M>(before, PayloadView::Varint(number), limit) is None,
        message_with::<M>(before, PayloadView::Other, limit) is None,
{
}

/// Numbers of a fixed size, of eight or four bytes, are passed over as fields that nobody knows the
/// contents of.
pub proof fn lemma_fixed_numbers_are_passed_over(
    tag: u32,
    data: Seq<u8>,
    rest: Seq<u8>,
    limit: nat,
)
    requires
        1 <= tag < 0x2000_0000,
        limit > 0,
    ensures
        data.len() == 8 ==> take_field(varint((tag * 8 + 1) as nat) + data + rest, limit) == Some(
            (FieldView { tag, payload: PayloadView::Other }, rest),
        ),
        data.len() == 4 ==> take_field(varint((tag * 8 + 5) as nat) + data + rest, limit) == Some(
            (FieldView { tag, payload: PayloadView::Other }, rest),
        ),
{
    let (wide, narrow) = ((tag * 8 + 1) as u64, (tag * 8 + 5) as u64);
    lemma_take_varint(wide, data + rest);
    lemma_take_varint(narrow, data + rest);
    assert(varint(wide as nat) + data + rest =~= varint(wide as nat) + (data + rest));
    assert(varint(narrow as nat) + data + rest =~= varint(narrow as nat) + (data + rest));
    assert((data + rest).skip(data.len() as int) =~= rest);
}

/// A field with number 0, or of a kind that there is none of, is refused, and so is a number or are
/// bytes that end too early.
pub proof fn lemma_broken_fields_are_refused(
    kind: u64,
    tag: u32,
    len: u64,
    rest: Seq<u8>,
    limit: nat,
)
    requires
        tag < 0x2000_0000,
    ensures
        kind < 8 ==> take_field(varint(kind as nat) + rest, limit) is None,
        kind == 6 || kind == 7 ==> take_field(
            varint((tag * 8 + kind) as nat) + rest,
            limit,
        ) is None,
        take_field(Seq::empty(), limit) is None,
        take_field(varint((tag * 8) as nat), limit) is None,
        rest.len() < len ==> take_field(
            varint((tag * 8 + 2) as nat) + varint(len as nat) + rest,
            limit,
        ) is None,
{
    lemma_take_varint(kind, rest);
    if kind == 6 || kind == 7 {
        lemma_take_varint((tag * 8 + kind) as u64, rest);
    }
    let number = (tag * 8) as u64;
    lemma_take_varint(number, Seq::empty());
    assert(varint(number as nat) + Seq::<u8>::empty() =~= varint(number as nat));
    let bytes = (tag * 8 + 2) as u64;
    let tail = varint(len as nat) + rest;
    lemma_take_varint(bytes, tail);
    lemma_take_varint(len, rest);
    assert(varint(bytes as nat) + varint(len as nat) + rest =~= varint(bytes as nat) + tail);
}

/// A number takes as many bytes as it has digits in base 128; all but the last have their high bit
/// set, and the least significant comes first.
pub proof fn lemma_varint_form(n: nat)
    ensures
        n < 128 ==> varint(n) == seq![n as u8],
        n >= 128 ==> varint(n).len() == varint(n / 128).len() + 1 && varint(n)[0] == n % 128 + 128
            && varint(n).skip(1) == varint(n / 128),
        varint(n).len() > 0,
        varint(n).last() < 128,
    decreases n,
{
    if n >= 128 {
        lemma_varint_form(n / 128);
        assert(varint(n).skip(1) =~= varint(n / 128));
        assert(varint(n).last() == varint(n / 128).last());
    }
}

/// A message that was encoded is decoded as the same message.
pub proof fn lemma_message_is_read_as_written<M: Message>(
    message: M,
    bytes: Vec<u8>,
    buf: &[u8],
    read: Result<M, DecodeError>,
)
    requires
        M::well_formed(message@),
        call_ensures(encode_to_vec::<M>, (&message,), bytes),
        bytes@.len() <= u64::MAX,
        buf@ == bytes@,
        call_ensures(decode::<M>, (buf,), read),
    ensures
        read matches Ok(again) && again@ == message@,
{
    lemma_round_trip::<M>(message@);
}

} // verus!
