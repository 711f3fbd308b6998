//! Messages, and the kinds of fields that they have.

use vstd::prelude::*;
use vstd::utf8::{decode_utf8, encode_utf8, valid_utf8};

use crate::proto::wire::{
    field_bytes, fields_bytes, lemma_field_fits, lemma_fields_join, lemma_parse, lemma_take_varint,
    parse, read_field, read_varint, take_varint, varint, writable, write_all, write_bytes,
    write_number, write_varint, DecodeError, FieldView, Payload, PayloadView, RECURSION_LIMIT,
};

verus! {

/// What the fields of a message do to it, and which fields it is written as.
pub trait Schema: View + Sized {
    /// The message without any field.
    spec fn empty() -> Self::V;

    /// The message after one more field. `None` if the field does not hold what it should. A field
    /// that the message does not know has no effect. Groups may be nested `limit` deep.
    spec fn with_field(message: Self::V, field: FieldView, limit: nat) -> Option<Self::V>;

    /// The fields that a message is written as.
    spec fn fields(message: Self::V) -> Seq<FieldView>;

    /// Whether the message holds nothing twice that it can hold only once.
    spec fn well_formed(message: Self::V) -> bool;
}

/// A message that can be read and written.
pub trait Message: Schema {
    fn blank() -> (message: Self)
        ensures
            message@ == Self::empty(),
    ;

    fn merge_field(&mut self, tag: u32, payload: Payload<'_>, limit: u32) -> (merged: bool)
        ensures
            match Self::with_field(
                old(self)@,
                FieldView { tag, payload: payload@ },
                limit as nat,
            ) {
                Some(message) => merged && final(self)@ == message,
                None => !merged,
            },
    ;

    fn write_fields(&self, buf: &mut Vec<u8>)
        ensures
            final(buf)@ == old(buf)@ + fields_bytes(Self::fields(self@)),
    ;

    /// A message is what its fields make of the empty message.
    proof fn lemma_fields(message: Self::V, limit: nat)
        requires
            Self::well_formed(message),
            fields_bytes(Self::fields(message)).len() <= u64::MAX,
        ensures
            all_writable(Self::fields(message)),
            with_fields::<Self>(Self::empty(), Self::fields(message), limit) == Some(message),
    ;
}

/// Whether each of the fields can be written.
pub open spec fn all_writable(fields: Seq<FieldView>) -> bool {
    forall|i: int| 0 <= i < fields.len() ==> writable(#[trigger] fields[i])
}

/// The message after some more fields.
pub open spec fn with_fields<M: Schema>(
    message: M::V,
    fields: Seq<FieldView>,
    limit: nat,
) -> Option<M::V>
    decreases fields.len(),
{
    if fields.len() == 0 {
        Some(message)
    } else {
        match M::with_field(message, fields[0], limit) {
            Some(next) => with_fields::<M>(next, fields.skip(1), limit),
            None => None,
        }
    }
}

/// The message after the fields of which `s` is made.
pub open spec fn with_bytes<M: Schema>(message: M::V, s: Seq<u8>, limit: nat) -> Option<M::V> {
    match parse(s, limit) {
        Some(fields) => with_fields::<M>(message, fields, limit),
        None => None,
    }
}

/// A message as bytes.
pub open spec fn encoded<M: Schema>(message: M::V) -> Seq<u8> {
    fields_bytes(M::fields(message))
}

/// The message that is written as `s`.
pub open spec fn decoded<M: Schema>(s: Seq<u8>) -> Option<M::V> {
    with_bytes::<M>(M::empty(), s, RECURSION_LIMIT as nat)
}

/// How deep groups may be nested in a message that is itself a field.
pub open spec fn inner(limit: nat) -> nat {
    if limit == 0 {
        0
    } else {
        (limit - 1) as nat
    }
}

fn inner_limit(limit: u32) -> (r: u32)
    ensures
        r == inner(limit as nat),
{
    if limit == 0 {
        0
    } else {
        limit - 1
    }
}

/// Fields can be merged in two steps.
pub proof fn lemma_with_fields_join<M: Schema>(
    message: M::V,
    a: Seq<FieldView>,
    b: Seq<FieldView>,
    limit: nat,
)
    ensures
        with_fields::<M>(message, a + b, limit) == match with_fields::<M>(message, a, limit) {
            Some(between) => with_fields::<M>(between, b, limit),
            None => None,
        },
    decreases a.len(),
{
    if a.len() == 0 {
        assert(a + b =~= b);
    } else {
        assert((a + b).skip(1) =~= a.skip(1) + b);
        if let Some(next) = M::with_field(message, a[0], limit) {
            lemma_with_fields_join::<M>(next, a.skip(1), b, limit);
        }
    }
}

/// A single field.
pub proof fn lemma_with_one_field<M: Schema>(message: M::V, field: FieldView, limit: nat)
    ensures
        with_fields::<M>(message, seq![field], limit) == M::with_field(message, field, limit),
{
    reveal_with_fuel(with_fields, 2);
    assert(seq![field].skip(1) =~= Seq::empty());
}

/// The fields in front fit if all of them do.
pub proof fn lemma_front_fits(front: Seq<FieldView>, rest: Seq<FieldView>)
    requires
        fields_bytes(front + rest).len() <= u64::MAX,
    ensures
        fields_bytes(front).len() <= u64::MAX,
        fields_bytes(rest).len() <= u64::MAX,
        forall|i: int|
            0 <= i < front.len()
                ==> ((#[trigger] front[i]).payload matches PayloadView::Bytes(bytes)
                ==> bytes.len() <= u64::MAX),
{
    lemma_fields_join(front, rest);
    assert forall|i: int| 0 <= i < front.len() implies ((
    #[trigger] front[i]).payload matches PayloadView::Bytes(bytes) ==> bytes.len()
        <= u64::MAX) by {
        lemma_field_fits(front, i);
    }
}

/// Takes an optional field off the front of the fields of a message.
pub proof fn lemma_front<M: Schema>(
    before: M::V,
    front: Seq<FieldView>,
    rest: Seq<FieldView>,
    after: M::V,
    limit: nat,
)
    requires
        fields_bytes(front + rest).len() <= u64::MAX,
        front.len() == 0 ==> before == after,
        front.len() != 0 ==> front.len() == 1 && 1 <= front[0].tag < 0x2000_0000
            && front[0].payload !is Other && M::with_field(before, front[0], limit) == Some(after),
    ensures
        fields_bytes(rest).len() <= u64::MAX,
        all_writable(rest) ==> all_writable(front + rest),
        with_fields::<M>(before, front + rest, limit) == with_fields::<M>(after, rest, limit),
{
    lemma_front_fits(front, rest);
    lemma_with_fields_join::<M>(before, front, rest, limit);
    if front.len() != 0 {
        assert(front =~= seq![front[0]]);
        lemma_with_one_field::<M>(before, front[0], limit);
    }
}

/// A message is read as it was written, also where groups may be nested less deep.
pub proof fn lemma_with_encoded<M: Message>(message: M::V, limit: nat)
    requires
        M::well_formed(message),
        encoded::<M>(message).len() <= u64::MAX,
    ensures
        with_bytes::<M>(M::empty(), encoded::<M>(message), limit) == Some(message),
{
    M::lemma_fields(message, limit);
    lemma_parse(M::fields(message), limit);
}

/// A message is read as it was written.
pub proof fn lemma_round_trip<M: Message>(message: M::V)
    requires
        M::well_formed(message),
        encoded::<M>(message).len() <= u64::MAX,
    ensures
        decoded::<M>(encoded::<M>(message)) == Some(message),
{
    lemma_with_encoded::<M>(message, RECURSION_LIMIT as nat);
}

/// Merges the fields in a buffer into a message. Returns whether there was nothing wrong with them.
pub fn merge<M: Message>(message: &mut M, buf: &[u8], limit: u32) -> (merged: bool)
    ensures
        match with_bytes::<M>(old(message)@, buf@, limit as nat) {
            Some(after) => merged && final(message)@ == after,
            None => !merged,
        },
{
    let mut rest: &[u8] = buf;
    while rest.len() > 0
        invariant
            with_bytes::<M>(message@, rest@, limit as nat) == with_bytes::<M>(
                old(message)@,
                buf@,
                limit as nat,
            ),
        decreases rest@.len(),
    {
        match read_field(rest, limit) {
            Some((tag, payload, tail)) => {
                let ghost field = FieldView { tag, payload: payload@ };
                proof {
                    if let Some(fields) = parse(tail@, limit as nat) {
                        assert((seq![field] + fields).skip(1) =~= fields);
                    }
                }
                if !message.merge_field(tag, payload, limit) {
                    return false;
                }
                rest = tail;
            },
            None => {
                return false;
            },
        }
    }
    true
}

/// Decodes a message.
pub fn decode<M: Message>(buf: &[u8]) -> (r: Result<M, DecodeError>)
    ensures
        match r {
            Ok(message) => decoded::<M>(buf@) == Some(message@),
            Err(_) => decoded::<M>(buf@) is None,
        },
{
    let mut message: M = M::blank();
    if merge(&mut message, buf, RECURSION_LIMIT) {
        Ok(message)
    } else {
        Err(DecodeError {  })
    }
}

/// Encodes a message.
pub fn encode_to_vec<M: Message>(message: &M) -> (bytes: Vec<u8>)
    ensures
        bytes@ == encoded::<M>(message@),
{
    let mut buf: Vec<u8> = Vec::new();
    message.write_fields(&mut buf);
    assert(buf@ =~= encoded::<M>(message@));
    buf
}

// Numbers.
/// A field that holds a number. It is left out if the number is zero.
pub open spec fn number_fields(tag: u32, value: u64) -> Seq<FieldView> {
    if value == 0 {
        Seq::empty()
    } else {
        seq![FieldView { tag, payload: PayloadView::Varint(value) }]
    }
}

/// The number that a field holds.
pub open spec fn number_of(payload: PayloadView) -> Option<u64> {
    match payload {
        PayloadView::Varint(value) => Some(value),
        _ => None,
    }
}

proof fn lemma_one_field(field: FieldView)
    ensures
        fields_bytes(seq![field]) == field_bytes(field),
{
    reveal_with_fuel(fields_bytes, 2);
    assert(seq![field].skip(1) =~= Seq::empty());
    assert(field_bytes(field) + Seq::<u8>::empty() =~= field_bytes(field));
}

pub fn put_number(buf: &mut Vec<u8>, tag: u32, value: u64)
    requires
        1 <= tag < 0x2000_0000,
    ensures
        final(buf)@ == old(buf)@ + fields_bytes(number_fields(tag, value)),
{
    if value != 0 {
        write_number(buf, tag, value);
        proof {
            lemma_one_field(FieldView { tag, payload: PayloadView::Varint(value) });
        }
    }
    assert(buf@ =~= old(buf)@ + fields_bytes(number_fields(tag, value)));
}

pub fn get_number(payload: &Payload<'_>) -> (value: Option<u64>)
    ensures
        value == number_of(payload@),
{
    match payload {
        Payload::Varint(value) => Some(*value),
        _ => None,
    }
}

// Bytes.
/// A field that holds bytes. It is left out if there are none.
pub open spec fn data_fields(tag: u32, data: Seq<u8>) -> Seq<FieldView> {
    if data.len() == 0 {
        Seq::empty()
    } else {
        seq![FieldView { tag, payload: PayloadView::Bytes(data) }]
    }
}

/// The bytes that a field holds.
pub open spec fn data_of(payload: PayloadView) -> Option<Seq<u8>> {
    match payload {
        PayloadView::Bytes(data) => Some(data),
        _ => None,
    }
}

pub fn put_data(buf: &mut Vec<u8>, tag: u32, data: &[u8])
    requires
        1 <= tag < 0x2000_0000,
    ensures
        final(buf)@ == old(buf)@ + fields_bytes(data_fields(tag, data@)),
{
    if data.len() != 0 {
        write_bytes(buf, tag, data);
        proof {
            lemma_one_field(FieldView { tag, payload: PayloadView::Bytes(data@) });
        }
    }
    assert(buf@ =~= old(buf)@ + fields_bytes(data_fields(tag, data@)));
}

pub fn get_data(payload: &Payload<'_>) -> (data: Option<Vec<u8>>)
    ensures
        match data {
            Some(data) => data_of(payload@) == Some(data@),
            None => data_of(payload@) is None,
        },
{
    match payload {
        Payload::Bytes(data) => {
            let mut copy: Vec<u8> = Vec::new();
            write_all(&mut copy, data);
            assert(copy@ =~= data@);
            Some(copy)
        },
        _ => None,
    }
}

// Texts.
/// A field that holds a text. It is left out if the text is empty.
pub open spec fn text_fields(tag: u32, text: Seq<char>) -> Seq<FieldView> {
    data_fields(tag, encode_utf8(text))
}

/// The text that a field holds.
pub open spec fn text_of(payload: PayloadView) -> Option<Seq<char>> {
    match payload {
        PayloadView::Bytes(bytes) => if valid_utf8(bytes) {
            Some(decode_utf8(bytes))
        } else {
            None
        },
        _ => None,
    }
}

/// Calls `std::str::from_utf8`, which succeeds on the bytes that are valid UTF-8.
#[verifier::external_body]
pub(crate) fn from_utf8(bytes: &[u8]) -> (text: Option<String>)
    ensures
        match text {
            Some(text) => valid_utf8(bytes@) && text@ == decode_utf8(bytes@),
            None => !valid_utf8(bytes@),
        },
{
    std::str::from_utf8(bytes).ok().map(|text| text.to_owned())
}

/// A text is read as it was written.
pub proof fn lemma_text_field(text: Seq<char>)
    ensures
        text_of(PayloadView::Bytes(encode_utf8(text))) == Some(text),
        encode_utf8(text).len() == 0 <==> text.len() == 0,
{
    broadcast use vstd::utf8::encode_utf8_valid_utf8, vstd::utf8::encode_utf8_decode_utf8;

    if encode_utf8(text).len() == 0 {
        assert(encode_utf8(text) =~= Seq::empty());
        assert(decode_utf8(encode_utf8(text)).len() == 0);
    } else if text.len() == 0 {
        assert(false);
    }
}

pub fn put_text(buf: &mut Vec<u8>, tag: u32, text: &String)
    requires
        1 <= tag < 0x2000_0000,
    ensures
        final(buf)@ == old(buf)@ + fields_bytes(text_fields(tag, text@)),
{
    put_data(buf, tag, text.as_str().as_bytes())
}

pub fn get_text(payload: &Payload<'_>) -> (text: Option<String>)
    ensures
        match text {
            Some(text) => text_of(payload@) == Some(text@),
            None => text_of(payload@) is None,
        },
{
    match payload {
        Payload::Bytes(bytes) => from_utf8(bytes),
        _ => None,
    }
}

// Messages as fields.
/// The contents of an optional value.
pub open spec fn option_view<T: View>(option: Option<T>) -> Option<T::V> {
    match option {
        Some(value) => Some(value@),
        None => None,
    }
}

/// The contents of values.
pub open spec fn views<T: View>(values: Seq<T>) -> Seq<T::V> {
    Seq::new(values.len(), |i: int| values[i]@)
}

/// A field that holds a message.
pub open spec fn message_field<M: Schema>(tag: u32, message: M::V) -> FieldView {
    FieldView { tag, payload: PayloadView::Bytes(encoded::<M>(message)) }
}

/// A field that holds a message, if there is one.
pub open spec fn message_fields<M: Schema>(tag: u32, message: Option<M::V>) -> Seq<FieldView> {
    match message {
        Some(message) => seq![message_field::<M>(tag, message)],
        None => Seq::empty(),
    }
}

/// The message that a field makes of the one before, or of the empty one.
pub open spec fn message_with<M: Schema>(
    message: Option<M::V>,
    payload: PayloadView,
    limit: nat,
) -> Option<M::V> {
    match payload {
        PayloadView::Bytes(bytes) => with_bytes::<M>(
            match message {
                Some(message) => message,
                None => M::empty(),
            },
            bytes,
            inner(limit),
        ),
        _ => None,
    }
}

/// A message in a field is read as it was written.
pub proof fn lemma_message_field<M: Message>(tag: u32, message: M::V, limit: nat)
    requires
        M::well_formed(message),
        encoded::<M>(message).len() <= u64::MAX,
    ensures
        message_with::<M>(None, message_field::<M>(tag, message).payload, limit) == Some(message),
{
    lemma_with_encoded::<M>(message, inner(limit));
}

fn put_one_message<M: Message>(buf: &mut Vec<u8>, tag: u32, message: &M)
    requires
        1 <= tag < 0x2000_0000,
    ensures
        final(buf)@ == old(buf)@ + field_bytes(message_field::<M>(tag, message@)),
{
    let bytes: Vec<u8> = encode_to_vec(message);
    write_bytes(buf, tag, bytes.as_slice());
}

pub fn put_message<M: Message>(buf: &mut Vec<u8>, tag: u32, message: &Option<M>)
    requires
        1 <= tag < 0x2000_0000,
    ensures
        final(buf)@ == old(buf)@ + fields_bytes(message_fields::<M>(tag, option_view(*message))),
{
    match message {
        Some(message) => {
            put_one_message(buf, tag, message);
            proof {
                lemma_one_field(message_field::<M>(tag, message@));
            }
        },
        None => {
            assert(buf@ =~= old(buf)@ + fields_bytes(Seq::<FieldView>::empty()));
        },
    }
}

pub fn get_message<M: Message>(message: &mut Option<M>, payload: &Payload<'_>, limit: u32) -> (r:
    bool)
    ensures
        match message_with::<M>(option_view(*old(message)), payload@, limit as nat) {
            Some(after) => r && option_view(*final(message)) == Some(after),
            None => !r,
        },
{
    match payload {
        Payload::Bytes(bytes) => {
            let mut after: M = match message.take() {
                Some(message) => message,
                None => M::blank(),
            };
            let merged = merge(&mut after, bytes, inner_limit(limit));
            *message = Some(after);
            merged
        },
        _ => false,
    }
}

pub fn merge_message<M: Message>(message: &mut M, payload: &Payload<'_>, limit: u32) -> (r: bool)
    ensures
        match message_with::<M>(Some(old(message)@), payload@, limit as nat) {
            Some(after) => r && final(message)@ == after,
            None => !r,
        },
{
    match payload {
        Payload::Bytes(bytes) => merge(message, bytes, inner_limit(limit)),
        _ => false,
    }
}

// Repeated fields.
/// One field for each of the values.
pub open spec fn repeated<E>(values: Seq<E>, field: spec_fn(E) -> FieldView) -> Seq<FieldView> {
    Seq::new(values.len(), |i: int| field(values[i]))
}

/// A message in a repeated field.
pub open spec fn element<M: Schema>(tag: u32) -> spec_fn(M::V) -> FieldView {
    |message: M::V| message_field::<M>(tag, message)
}

/// A text in a repeated field. It is not left out if it is empty.
pub open spec fn text_element(tag: u32) -> spec_fn(Seq<char>) -> FieldView {
    |text: Seq<char>| FieldView { tag, payload: PayloadView::Bytes(encode_utf8(text)) }
}

/// If each field takes the message from one state to the next, all of them together take it from
/// the first to the last.
pub proof fn lemma_repeated<M: Schema, E>(
    values: Seq<E>,
    field: spec_fn(E) -> FieldView,
    state: spec_fn(Seq<E>) -> M::V,
    limit: nat,
)
    requires
        forall|i: int|
            0 <= i < values.len() ==> #[trigger] M::with_field(
                state(values.take(i)),
                field(values[i]),
                limit,
            ) == Some(state(values.take(i + 1))),
    ensures
        with_fields::<M>(state(Seq::empty()), repeated(values, field), limit) == Some(
            state(values),
        ),
{
    assert(values.take(0) =~= Seq::empty());
    assert(repeated(values, field).skip(0) =~= repeated(values, field));
    lemma_repeated_from::<M, E>(values, field, state, 0, limit);
}

proof fn lemma_repeated_from<M: Schema, E>(
    values: Seq<E>,
    field: spec_fn(E) -> FieldView,
    state: spec_fn(Seq<E>) -> M::V,
    i: int,
    limit: nat,
)
    requires
        0 <= i <= values.len(),
        forall|i: int|
            0 <= i < values.len() ==> #[trigger] M::with_field(
                state(values.take(i)),
                field(values[i]),
                limit,
            ) == Some(state(values.take(i + 1))),
    ensures
        with_fields::<M>(state(values.take(i)), repeated(values, field).skip(i), limit) == Some(
            state(values),
        ),
    decreases values.len() - i,
{
    if i == values.len() {
        assert(values.take(i) =~= values);
    } else {
        let rest = repeated(values, field).skip(i);
        assert(rest[0] == field(values[i]));
        assert(rest.skip(1) =~= repeated(values, field).skip(i + 1));
        assert(M::with_field(state(values.take(i)), field(values[i]), limit) == Some(
            state(values.take(i + 1)),
        ));
        lemma_repeated_from::<M, E>(values, field, state, i + 1, limit);
    }
}

/// Repeated fields as bytes, up to one of them and the next.
proof fn lemma_repeated_bytes<E>(values: Seq<E>, field: spec_fn(E) -> FieldView, i: int)
    requires
        0 <= i < values.len(),
    ensures
        fields_bytes(repeated(values.take(i + 1), field)) == fields_bytes(
            repeated(values.take(i), field),
        ) + field_bytes(field(values[i])),
{
    let before = repeated(values.take(i), field);
    let one = seq![field(values[i])];
    assert(repeated(values.take(i + 1), field) =~= before + one);
    lemma_fields_join(before, one);
    lemma_one_field(field(values[i]));
}

pub fn put_messages<M: Message>(buf: &mut Vec<u8>, tag: u32, messages: &Vec<M>)
    requires
        1 <= tag < 0x2000_0000,
    ensures
        final(buf)@ == old(buf)@ + fields_bytes(repeated(views(messages@), element::<M>(tag))),
{
    let ghost values = views(messages@);
    let mut i: usize = 0;
    assert(buf@ =~= old(buf)@ + fields_bytes(repeated(values.take(0), element::<M>(tag))));
    while i < messages.len()
        invariant
            1 <= tag < 0x2000_0000,
            i <= messages.len(),
            values == views(messages@),
            buf@ == old(buf)@ + fields_bytes(repeated(values.take(i as int), element::<M>(tag))),
        decreases messages.len() - i,
    {
        put_one_message(buf, tag, &messages[i]);
        proof {
            lemma_repeated_bytes(values, element::<M>(tag), i as int);
            assert(buf@ =~= old(buf)@ + fields_bytes(
                repeated(values.take(i + 1), element::<M>(tag)),
            ));
        }
        i = i + 1;
    }
    assert(values.take(i as int) =~= values);
}

pub fn get_element<M: Message>(messages: &mut Vec<M>, payload: &Payload<'_>, limit: u32) -> (r:
    bool)
    ensures
        match message_with::<M>(None, payload@, limit as nat) {
            Some(message) => r && views(final(messages)@) == views(old(messages)@).push(message),
            None => !r,
        },
{
    let mut message: Option<M> = None;
    if !get_message(&mut message, payload, limit) {
        return false;
    }
    match message {
        Some(message) => {
            messages.push(message);
            assert(views(messages@) =~= views(old(messages)@).push(message@));
            true
        },
        None => false,
    }
}

pub fn put_texts(buf: &mut Vec<u8>, tag: u32, texts: &Vec<String>)
    requires
        1 <= tag < 0x2000_0000,
    ensures
        final(buf)@ == old(buf)@ + fields_bytes(repeated(views(texts@), text_element(tag))),
{
    let ghost values = views(texts@);
    let mut i: usize = 0;
    assert(buf@ =~= old(buf)@ + fields_bytes(repeated(values.take(0), text_element(tag))));
    while i < texts.len()
        invariant
            1 <= tag < 0x2000_0000,
            i <= texts.len(),
            values == views(texts@),
            buf@ == old(buf)@ + fields_bytes(repeated(values.take(i as int), text_element(tag))),
        decreases texts.len() - i,
    {
        write_bytes(buf, tag, texts[i].as_str().as_bytes());
        proof {
            lemma_repeated_bytes(values, text_element(tag), i as int);
            assert(buf@ =~= old(buf)@ + fields_bytes(
                repeated(values.take(i + 1), text_element(tag)),
            ));
        }
        i = i + 1;
    }
    assert(values.take(i as int) =~= values);
}

pub fn get_text_element(texts: &mut Vec<String>, payload: &Payload<'_>) -> (r: bool)
    ensures
        match text_of(payload@) {
            Some(text) => r && views(final(texts)@) == views(old(texts)@).push(text),
            None => !r,
        },
{
    match get_text(payload) {
        Some(text) => {
            texts.push(text);
            assert(views(texts@) =~= views(old(texts)@).push(text@));
            true
        },
        None => false,
    }
}

// Repeated numbers.
/// Numbers as bytes, one after the other.
pub open spec fn varints(numbers: Seq<u64>) -> Seq<u8>
    decreases numbers.len(),
{
    if numbers.len() == 0 {
        Seq::empty()
    } else {
        varints(numbers.drop_last()) + varint(numbers.last() as nat)
    }
}

/// The numbers of which `s` is made.
pub open spec fn take_varints(s: Seq<u8>) -> Option<Seq<u64>>
    decreases s.len(),
{
    if s.len() == 0 {
        Some(Seq::empty())
    } else {
        match take_varint(s) {
            Some((number, rest)) => if rest.len() < s.len() {
                match take_varints(rest) {
                    Some(numbers) => Some(seq![number as u64] + numbers),
                    None => None,
                }
            } else {
                None
            },
            None => None,
        }
    }
}

/// A field that holds numbers. It is left out if there are none.
pub open spec fn numbers_fields(tag: u32, numbers: Seq<u64>) -> Seq<FieldView> {
    data_fields(tag, varints(numbers))
}

/// The numbers that a field adds to those before: one, or several in a row.
pub open spec fn numbers_with(numbers: Seq<u64>, payload: PayloadView) -> Option<Seq<u64>> {
    match payload {
        PayloadView::Varint(number) => Some(numbers.push(number)),
        PayloadView::Bytes(bytes) => match take_varints(bytes) {
            Some(more) => Some(numbers + more),
            None => None,
        },
        PayloadView::Other => None,
    }
}

proof fn lemma_take_varints(numbers: Seq<u64>, tail: Seq<u8>)
    ensures
        take_varints(varints(numbers) + tail) == match take_varints(tail) {
            Some(more) => Some(numbers + more),
            None => None,
        },
        varints(numbers).len() >= numbers.len(),
    decreases numbers.len(),
{
    if numbers.len() == 0 {
        assert(varints(numbers) + tail =~= tail);
        if let Some(more) = take_varints(tail) {
            assert(numbers + more =~= more);
        }
    } else {
        let last = numbers.last();
        let rest = varint(last as nat) + tail;
        assert(varints(numbers) + tail =~= varints(numbers.drop_last()) + rest);
        lemma_take_varints(numbers.drop_last(), rest);
        lemma_take_varint(last, tail);
        if let Some(more) = take_varints(tail) {
            assert(numbers.drop_last() + (seq![last] + more) =~= numbers + more);
        }
    }
}

/// Numbers are read as they were written.
pub proof fn lemma_numbers_field(numbers: Seq<u64>)
    ensures
        numbers_with(Seq::empty(), PayloadView::Bytes(varints(numbers))) == Some(numbers),
        varints(numbers).len() == 0 <==> numbers.len() == 0,
{
    lemma_take_varints(numbers, Seq::empty());
    assert(varints(numbers) + Seq::<u8>::empty() =~= varints(numbers));
    assert(numbers + Seq::<u64>::empty() =~= numbers);
    assert(Seq::<u64>::empty() + numbers =~= numbers);
}

pub fn put_numbers(buf: &mut Vec<u8>, tag: u32, numbers: &Vec<u64>)
    requires
        1 <= tag < 0x2000_0000,
    ensures
        final(buf)@ == old(buf)@ + fields_bytes(numbers_fields(tag, numbers@)),
{
    let mut bytes: Vec<u8> = Vec::new();
    let mut i: usize = 0;
    while i < numbers.len()
        invariant
            i <= numbers.len(),
            bytes@ == varints(numbers@.take(i as int)),
        decreases numbers.len() - i,
    {
        write_varint(&mut bytes, numbers[i]);
        assert(numbers@.take(i + 1).drop_last() =~= numbers@.take(i as int));
        i = i + 1;
    }
    assert(numbers@.take(i as int) =~= numbers@);
    put_data(buf, tag, bytes.as_slice());
}

pub fn get_numbers(numbers: &mut Vec<u64>, payload: &Payload<'_>) -> (r: bool)
    ensures
        match numbers_with(old(numbers)@, payload@) {
            Some(after) => r && final(numbers)@ == after,
            None => !r,
        },
{
    match payload {
        Payload::Varint(number) => {
            numbers.push(*number);
            true
        },
        Payload::Bytes(bytes) => {
            let mut rest: &[u8] = bytes;
            assert(take_varints(bytes@) matches Some(more) ==> old(numbers)@ + more
                =~= numbers@ + more);
            while rest.len() > 0
                invariant
                    payload@ == PayloadView::Bytes(bytes@),
                    match take_varints(bytes@) {
                        Some(all) => take_varints(rest@) matches Some(more) && numbers@ + more
                            == old(numbers)@ + all,
                        None => take_varints(rest@) is None,
                    },
                decreases rest@.len(),
            {
                match read_varint(rest) {
                    Some((number, tail)) => {
                        let ghost before = numbers@;
                        numbers.push(number);
                        proof {
                            if let Some(more) = take_varints(tail@) {
                                assert(before + (seq![number] + more) =~= numbers@ + more);
                            }
                        }
                        rest = tail;
                    },
                    None => {
                        return false;
                    },
                }
            }
            assert(numbers@ + Seq::<u64>::empty() =~= numbers@);
            true
        },
        Payload::Other => false,
    }
}

// Repeated signed numbers.
/// Signed numbers, each as the unsigned number with the same bits.
pub open spec fn i64_numbers(values: Seq<i64>) -> Seq<u64> {
    Seq::new(values.len(), |i: int| values[i] as u64)
}

/// The inverse of [`i64_numbers`].
pub open spec fn numbers_i64(numbers: Seq<u64>) -> Seq<i64> {
    Seq::new(numbers.len(), |i: int| numbers[i] as i64)
}

/// The signed numbers that a field adds to those before.
pub open spec fn i64s_with(values: Seq<i64>, payload: PayloadView) -> Option<Seq<i64>> {
    match numbers_with(Seq::empty(), payload) {
        Some(numbers) => Some(values + numbers_i64(numbers)),
        None => None,
    }
}

/// Signed numbers are read as they were written.
pub proof fn lemma_i64s_field(values: Seq<i64>)
    ensures
        i64s_with(Seq::empty(), PayloadView::Bytes(varints(i64_numbers(values)))) == Some(values),
        varints(i64_numbers(values)).len() == 0 <==> values.len() == 0,
{
    lemma_numbers_field(i64_numbers(values));
    assert forall|i: int| 0 <= i < values.len() implies #[trigger] numbers_i64(
        i64_numbers(values),
    )[i] == values[i] by {
        let value = values[i];
        assert((value as u64) as i64 == value) by (bit_vector);
    }
    assert(Seq::<i64>::empty() + numbers_i64(i64_numbers(values)) =~= values);
}

pub fn put_i64s(buf: &mut Vec<u8>, tag: u32, values: &Vec<i64>)
    requires
        1 <= tag < 0x2000_0000,
    ensures
        final(buf)@ == old(buf)@ + fields_bytes(numbers_fields(tag, i64_numbers(values@))),
{
    let mut numbers: Vec<u64> = Vec::new();
    let mut i: usize = 0;
    while i < values.len()
        invariant
            i <= values.len(),
            numbers@ == i64_numbers(values@).take(i as int),
        decreases values.len() - i,
    {
        numbers.push(#[verifier::truncate] (values[i] as u64));
        assert(numbers@ =~= i64_numbers(values@).take(i + 1));
        i = i + 1;
    }
    assert(numbers@ =~= i64_numbers(values@));
    put_numbers(buf, tag, &numbers);
}

pub fn get_i64s(values: &mut Vec<i64>, payload: &Payload<'_>) -> (r: bool)
    ensures
        match i64s_with(old(values)@, payload@) {
            Some(after) => r && final(values)@ == after,
            None => !r,
        },
{
    let mut numbers: Vec<u64> = Vec::new();
    if !get_numbers(&mut numbers, payload) {
        return false;
    }
    let mut i: usize = 0;
    assert(values@ =~= old(values)@ + numbers_i64(numbers@).take(0));
    while i < numbers.len()
        invariant
            i <= numbers.len(),
            values@ == old(values)@ + numbers_i64(numbers@).take(i as int),
        decreases numbers.len() - i,
    {
        values.push(#[verifier::truncate] (numbers[i] as i64));
        assert(values@ =~= old(values)@ + numbers_i64(numbers@).take(i + 1));
        i = i + 1;
    }
    assert(numbers_i64(numbers@).take(i as int) =~= numbers_i64(numbers@));
    true
}

/// The numbers of variants, each as the unsigned number with the same bits, extended by its sign.
pub open spec fn i32_numbers(values: Seq<i32>) -> Seq<u64> {
    Seq::new(values.len(), |i: int| values[i] as u64)
}

/// The inverse of [`i32_numbers`], for numbers that have been extended.
pub open spec fn numbers_i32(numbers: Seq<u64>) -> Seq<i32> {
    Seq::new(numbers.len(), |i: int| numbers[i] as i32)
}

/// The numbers of variants that a field adds to those before.
pub open spec fn i32s_with(values: Seq<i32>, payload: PayloadView) -> Option<Seq<i32>> {
    match numbers_with(Seq::empty(), payload) {
        Some(numbers) => Some(values + numbers_i32(numbers)),
        None => None,
    }
}

/// The numbers of variants are read as they were written.
pub proof fn lemma_i32s_field(values: Seq<i32>)
    ensures
        i32s_with(Seq::empty(), PayloadView::Bytes(varints(i32_numbers(values)))) == Some(values),
        varints(i32_numbers(values)).len() == 0 <==> values.len() == 0,
{
    lemma_numbers_field(i32_numbers(values));
    assert forall|i: int| 0 <= i < values.len() implies #[trigger] numbers_i32(
        i32_numbers(values),
    )[i] == values[i] by {
        let value = values[i];
        assert((value as u64) as i32 == value) by (bit_vector);
    }
    assert(Seq::<i32>::empty() + numbers_i32(i32_numbers(values)) =~= values);
}

pub fn put_i32s(buf: &mut Vec<u8>, tag: u32, values: &Vec<i32>)
    requires
        1 <= tag < 0x2000_0000,
    ensures
        final(buf)@ == old(buf)@ + fields_bytes(numbers_fields(tag, i32_numbers(values@))),
{
    let mut numbers: Vec<u64> = Vec::new();
    let mut i: usize = 0;
    while i < values.len()
        invariant
            i <= values.len(),
            numbers@ == i32_numbers(values@).take(i as int),
        decreases values.len() - i,
    {
        numbers.push(#[verifier::truncate] (values[i] as u64));
        assert(numbers@ =~= i32_numbers(values@).take(i + 1));
        i = i + 1;
    }
    assert(numbers@ =~= i32_numbers(values@));
    put_numbers(buf, tag, &numbers);
}

pub fn get_i32s(values: &mut Vec<i32>, payload: &Payload<'_>) -> (r: bool)
    ensures
        match i32s_with(old(values)@, payload@) {
            Some(after) => r && final(values)@ == after,
            None => !r,
        },
{
    let mut numbers: Vec<u64> = Vec::new();
    if !get_numbers(&mut numbers, payload) {
        return false;
    }
    let mut i: usize = 0;
    assert(values@ =~= old(values)@ + numbers_i32(numbers@).take(0));
    while i < numbers.len()
        invariant
            i <= numbers.len(),
            values@ == old(values)@ + numbers_i32(numbers@).take(i as int),
        decreases numbers.len() - i,
    {
        values.push(#[verifier::truncate] (numbers[i] as i32));
        assert(values@ =~= old(values)@ + numbers_i32(numbers@).take(i + 1));
        i = i + 1;
    }
    assert(numbers_i32(numbers@).take(i as int) =~= numbers_i32(numbers@));
    true
}

/// Takes repeated fields off the front of the fields of a message.
pub proof fn lemma_front_repeated<M: Schema, E>(
    values: Seq<E>,
    field: spec_fn(E) -> FieldView,
    state: spec_fn(Seq<E>) -> M::V,
    rest: Seq<FieldView>,
    limit: nat,
)
    requires
        fields_bytes(repeated(values, field) + rest).len() <= u64::MAX,
        forall|i: int|
            0 <= i < values.len() ==> #[trigger] M::with_field(
                state(values.take(i)),
                field(values[i]),
                limit,
            ) == Some(state(values.take(i + 1))),
        forall|value: E|
            1 <= (#[trigger] field(value)).tag < 0x2000_0000 && field(value).payload !is Other,
    ensures
        fields_bytes(rest).len() <= u64::MAX,
        all_writable(rest) ==> all_writable(repeated(values, field) + rest),
        with_fields::<M>(state(Seq::empty()), repeated(values, field) + rest, limit)
            == with_fields::<M>(state(values), rest, limit),
{
    let front = repeated(values, field);
    lemma_front_fits(front, rest);
    lemma_repeated::<M, E>(values, field, state, limit);
    lemma_with_fields_join::<M>(state(Seq::empty()), front, rest, limit);
    if all_writable(rest) {
        assert forall|i: int| 0 <= i < (front + rest).len() implies writable(
            #[trigger] (front + rest)[i],
        ) by {
            if i < front.len() {
                assert(front[i] == field(values[i]));
            } else {
                assert(writable(rest[i - front.len()]));
            }
        }
    }
}

/// The fields in front are written before the others.
pub proof fn lemma_written(before: Seq<u8>, front: Seq<FieldView>, rest: Seq<FieldView>)
    ensures
        before + fields_bytes(front + rest) == (before + fields_bytes(front)) + fields_bytes(rest),
{
    lemma_fields_join(front, rest);
    assert(before + (fields_bytes(front) + fields_bytes(rest)) =~= (before + fields_bytes(front))
        + fields_bytes(rest));
}

} // verus!
