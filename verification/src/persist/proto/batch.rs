//! The messages that batches and traces are written as.

use vstd::prelude::*;

use crate::proto::message::{
    element, get_element, get_i64s, get_message, get_number, get_numbers, get_text,
    get_text_element, i64_numbers, i64s_with, lemma_front, lemma_front_fits, lemma_front_repeated,
    lemma_i64s_field, lemma_message_field, lemma_numbers_field, lemma_text_field, lemma_written,
    message_field, message_fields, message_with, number_fields, number_of, numbers_fields,
    numbers_with, option_view, put_i64s, put_message, put_messages, put_number, put_numbers,
    put_text, put_texts, repeated, text_element, text_fields, text_of, views, Message, Schema,
};
use crate::proto::wire::{fields_bytes, FieldView, Payload};

verus! {

/// The elements of an antichain.
#[derive(Debug, PartialEq, Eq)]
pub struct ProtoU64Antichain {
    pub elements: Vec<i64>,
}

/// The contents of a [`ProtoU64Antichain`].
#[verifier::ext_equal]
pub struct ProtoU64AntichainView {
    pub elements: Seq<i64>,
}

impl View for ProtoU64Antichain {
    type V = ProtoU64AntichainView;

    open spec fn view(&self) -> ProtoU64AntichainView {
        ProtoU64AntichainView {
            elements: self.elements@,
        }
    }
}

impl Schema for ProtoU64Antichain {
    open spec fn empty() -> ProtoU64AntichainView {
        ProtoU64AntichainView {
            elements: Seq::empty(),
        }
    }

    open spec fn with_field(
        message: ProtoU64AntichainView,
        field: FieldView,
        limit: nat,
    ) -> Option<ProtoU64AntichainView> {
        if field.tag == 1 {
            match i64s_with(message.elements, field.payload) {
                Some(elements) => Some(ProtoU64AntichainView { elements, ..message }),
                None => None,
            }
        } else {
            Some(message)
        }
    }

    open spec fn fields(message: ProtoU64AntichainView) -> Seq<FieldView> {
        numbers_fields(1, i64_numbers(message.elements))
            + Seq::empty()
    }

    open spec fn well_formed(message: ProtoU64AntichainView) -> bool {
        true
    }
}

impl Message for ProtoU64Antichain {
    fn blank() -> ProtoU64Antichain {
        ProtoU64Antichain {
            elements: Vec::new(),
        }
    }

    fn merge_field(&mut self, tag: u32, payload: Payload<'_>, limit: u32) -> bool {
        if tag == 1 {
            get_i64s(&mut self.elements, &payload)
        } else {
            true
        }
    }

    fn write_fields(&self, buf: &mut Vec<u8>) {
        let ghost b0 = buf@;
        put_i64s(buf, 1, &self.elements);
        proof {
            let message = self@;
            let r1 = Seq::<FieldView>::empty();
            lemma_written(b0, numbers_fields(1, i64_numbers(message.elements)), r1);
            assert(buf@ + fields_bytes(r1) =~= buf@);
        }
    }

    proof fn lemma_fields(message: ProtoU64AntichainView, limit: nat) {
        let r1 = Seq::<FieldView>::empty();
        let s0 = Self::empty();
        let s1 = ProtoU64AntichainView { elements: message.elements, ..s0 };
        lemma_i64s_field(message.elements);
        assert(message.elements.len() == 0 ==> message.elements =~= Seq::empty());
        lemma_front::<Self>(s0, numbers_fields(1, i64_numbers(message.elements)), r1, s1, limit);
        assert(s1 =~= message);
    }
}

/// The frontiers of a batch.
#[derive(Debug, PartialEq, Eq)]
pub struct ProtoU64Description {
    pub lower: Option<ProtoU64Antichain>,
    pub upper: Option<ProtoU64Antichain>,
    pub since: Option<ProtoU64Antichain>,
}

/// The contents of a [`ProtoU64Description`].
#[verifier::ext_equal]
pub struct ProtoU64DescriptionView {
    pub lower: Option<ProtoU64AntichainView>,
    pub upper: Option<ProtoU64AntichainView>,
    pub since: Option<ProtoU64AntichainView>,
}

impl View for ProtoU64Description {
    type V = ProtoU64DescriptionView;

    open spec fn view(&self) -> ProtoU64DescriptionView {
        ProtoU64DescriptionView {
            lower: option_view(self.lower),
            upper: option_view(self.upper),
            since: option_view(self.since),
        }
    }
}

impl Schema for ProtoU64Description {
    open spec fn empty() -> ProtoU64DescriptionView {
        ProtoU64DescriptionView {
            lower: None,
            upper: None,
            since: None,
        }
    }

    open spec fn with_field(
        message: ProtoU64DescriptionView,
        field: FieldView,
        limit: nat,
    ) -> Option<ProtoU64DescriptionView> {
        if field.tag == 1 {
            match message_with::<ProtoU64Antichain>(message.lower, field.payload, limit) {
                Some(lower) => Some(ProtoU64DescriptionView { lower: Some(lower), ..message }),
                None => None,
            }
        } else if field.tag == 2 {
            match message_with::<ProtoU64Antichain>(message.upper, field.payload, limit) {
                Some(upper) => Some(ProtoU64DescriptionView { upper: Some(upper), ..message }),
                None => None,
            }
        } else if field.tag == 3 {
            match message_with::<ProtoU64Antichain>(message.since, field.payload, limit) {
                Some(since) => Some(ProtoU64DescriptionView { since: Some(since), ..message }),
                None => None,
            }
        } else {
            Some(message)
        }
    }

    open spec fn fields(message: ProtoU64DescriptionView) -> Seq<FieldView> {
        message_fields::<ProtoU64Antichain>(1, message.lower)
            + (message_fields::<ProtoU64Antichain>(2, message.upper)
            + (message_fields::<ProtoU64Antichain>(3, message.since)
            + Seq::empty()))
    }

    open spec fn well_formed(message: ProtoU64DescriptionView) -> bool {
        true
    }
}

impl Message for ProtoU64Description {
    fn blank() -> ProtoU64Description {
        ProtoU64Description {
            lower: None,
            upper: None,
            since: None,
        }
    }

    fn merge_field(&mut self, tag: u32, payload: Payload<'_>, limit: u32) -> bool {
        if tag == 1 {
            get_message(&mut self.lower, &payload, limit)
        } else if tag == 2 {
            get_message(&mut self.upper, &payload, limit)
        } else if tag == 3 {
            get_message(&mut self.since, &payload, limit)
        } else {
            true
        }
    }

    fn write_fields(&self, buf: &mut Vec<u8>) {
        let ghost b0 = buf@;
        put_message(buf, 1, &self.lower);
        let ghost b1 = buf@;
        put_message(buf, 2, &self.upper);
        let ghost b2 = buf@;
        put_message(buf, 3, &self.since);
        proof {
            let message = self@;
            let r3 = Seq::<FieldView>::empty();
            let r2 = message_fields::<ProtoU64Antichain>(3, message.since) + r3;
            let r1 = message_fields::<ProtoU64Antichain>(2, message.upper) + r2;
            lemma_written(b0, message_fields::<ProtoU64Antichain>(1, message.lower), r1);
            lemma_written(b1, message_fields::<ProtoU64Antichain>(2, message.upper), r2);
            lemma_written(b2, message_fields::<ProtoU64Antichain>(3, message.since), r3);
            assert(buf@ + fields_bytes(r3) =~= buf@);
        }
    }

    proof fn lemma_fields(message: ProtoU64DescriptionView, limit: nat) {
        let r3 = Seq::<FieldView>::empty();
        let r2 = message_fields::<ProtoU64Antichain>(3, message.since) + r3;
        let r1 = message_fields::<ProtoU64Antichain>(2, message.upper) + r2;
        let s0 = Self::empty();
        let s1 = ProtoU64DescriptionView { lower: message.lower, ..s0 };
        let s2 = ProtoU64DescriptionView { upper: message.upper, ..s1 };
        let s3 = ProtoU64DescriptionView { since: message.since, ..s2 };
        lemma_front_fits(message_fields::<ProtoU64Antichain>(1, message.lower), r1);
        if let Some(lower) = message.lower {
            assert(
                message_fields::<ProtoU64Antichain>(
                    1,
                    message.lower,
                )[0] == message_field::<ProtoU64Antichain>(1, lower)
            );
            lemma_message_field::<ProtoU64Antichain>(1, lower, limit);
        }
        lemma_front::<Self>(
            s0,
            message_fields::<ProtoU64Antichain>(1, message.lower),
            r1,
            s1,
            limit,
        );
        lemma_front_fits(message_fields::<ProtoU64Antichain>(2, message.upper), r2);
        if let Some(upper) = message.upper {
            assert(
                message_fields::<ProtoU64Antichain>(
                    2,
                    message.upper,
                )[0] == message_field::<ProtoU64Antichain>(2, upper)
            );
            lemma_message_field::<ProtoU64Antichain>(2, upper, limit);
        }
        lemma_front::<Self>(
            s1,
            message_fields::<ProtoU64Antichain>(2, message.upper),
            r2,
            s2,
            limit,
        );
        lemma_front_fits(message_fields::<ProtoU64Antichain>(3, message.since), r3);
        if let Some(since) = message.since {
            assert(
                message_fields::<ProtoU64Antichain>(
                    3,
                    message.since,
                )[0] == message_field::<ProtoU64Antichain>(3, since)
            );
            lemma_message_field::<ProtoU64Antichain>(3, since, limit);
        }
        lemma_front::<Self>(
            s2,
            message_fields::<ProtoU64Antichain>(3, message.since),
            r3,
            s3,
            limit,
        );
        assert(s3 =~= message);
    }
}

/// A part of a batch.
#[derive(Debug, PartialEq, Eq)]
pub struct ProtoHollowBatchPart {
    pub key: String,
    pub encoded_size_bytes: u64,
}

/// The contents of a [`ProtoHollowBatchPart`].
#[verifier::ext_equal]
pub struct ProtoHollowBatchPartView {
    pub key: Seq<char>,
    pub encoded_size_bytes: u64,
}

impl View for ProtoHollowBatchPart {
    type V = ProtoHollowBatchPartView;

    open spec fn view(&self) -> ProtoHollowBatchPartView {
        ProtoHollowBatchPartView {
            key: self.key@,
            encoded_size_bytes: self.encoded_size_bytes,
        }
    }
}

impl Schema for ProtoHollowBatchPart {
    open spec fn empty() -> ProtoHollowBatchPartView {
        ProtoHollowBatchPartView {
            key: Seq::empty(),
            encoded_size_bytes: 0,
        }
    }

    open spec fn with_field(
        message: ProtoHollowBatchPartView,
        field: FieldView,
        limit: nat,
    ) -> Option<ProtoHollowBatchPartView> {
        if field.tag == 1 {
            match text_of(field.payload) {
                Some(key) => Some(ProtoHollowBatchPartView { key, ..message }),
                None => None,
            }
        } else if field.tag == 2 {
            match number_of(field.payload) {
                Some(encoded_size_bytes) => Some(
                    ProtoHollowBatchPartView { encoded_size_bytes, ..message },
                ),
                None => None,
            }
        } else {
            Some(message)
        }
    }

    open spec fn fields(message: ProtoHollowBatchPartView) -> Seq<FieldView> {
        text_fields(1, message.key)
            + (number_fields(2, message.encoded_size_bytes)
            + Seq::empty())
    }

    open spec fn well_formed(message: ProtoHollowBatchPartView) -> bool {
        true
    }
}

impl Message for ProtoHollowBatchPart {
    fn blank() -> ProtoHollowBatchPart {
        ProtoHollowBatchPart {
            key: String::new(),
            encoded_size_bytes: 0,
        }
    }

    fn merge_field(&mut self, tag: u32, payload: Payload<'_>, limit: u32) -> bool {
        if tag == 1 {
            match get_text(&payload) {
                Some(key) => {
                    self.key = key;
                    true
                },
                None => false,
            }
        } else if tag == 2 {
            match get_number(&payload) {
                Some(encoded_size_bytes) => {
                    self.encoded_size_bytes = encoded_size_bytes;
                    true
                },
                None => false,
            }
        } else {
            true
        }
    }

    fn write_fields(&self, buf: &mut Vec<u8>) {
        let ghost b0 = buf@;
        put_text(buf, 1, &self.key);
        let ghost b1 = buf@;
        put_number(buf, 2, self.encoded_size_bytes);
        proof {
            let message = self@;
            let r2 = Seq::<FieldView>::empty();
            let r1 = number_fields(2, message.encoded_size_bytes) + r2;
            lemma_written(b0, text_fields(1, message.key), r1);
            lemma_written(b1, number_fields(2, message.encoded_size_bytes), r2);
            assert(buf@ + fields_bytes(r2) =~= buf@);
        }
    }

    proof fn lemma_fields(message: ProtoHollowBatchPartView, limit: nat) {
        let r2 = Seq::<FieldView>::empty();
        let r1 = number_fields(2, message.encoded_size_bytes) + r2;
        let s0 = Self::empty();
        let s1 = ProtoHollowBatchPartView { key: message.key, ..s0 };
        let s2 = ProtoHollowBatchPartView { encoded_size_bytes: message.encoded_size_bytes, ..s1 };
        lemma_text_field(message.key);
        assert(message.key.len() == 0 ==> message.key =~= Seq::empty());
        lemma_front::<Self>(s0, text_fields(1, message.key), r1, s1, limit);
        lemma_front::<Self>(s1, number_fields(2, message.encoded_size_bytes), r2, s2, limit);
        assert(s2 =~= message);
    }
}

/// A batch, by reference to the data that it holds.
#[derive(Debug, PartialEq, Eq)]
pub struct ProtoHollowBatch {
    pub desc: Option<ProtoU64Description>,
    pub parts: Vec<ProtoHollowBatchPart>,
    pub len: u64,
    pub runs: Vec<u64>,
    /// The keys of the parts of a batch that was written before parts had more than a key.
    pub deprecated_keys: Vec<String>,
}

/// The contents of a [`ProtoHollowBatch`].
#[verifier::ext_equal]
pub struct ProtoHollowBatchView {
    pub desc: Option<ProtoU64DescriptionView>,
    pub parts: Seq<ProtoHollowBatchPartView>,
    pub len: u64,
    pub runs: Seq<u64>,
    pub deprecated_keys: Seq<Seq<char>>,
}

impl View for ProtoHollowBatch {
    type V = ProtoHollowBatchView;

    open spec fn view(&self) -> ProtoHollowBatchView {
        ProtoHollowBatchView {
            desc: option_view(self.desc),
            parts: views(self.parts@),
            len: self.len,
            runs: self.runs@,
            deprecated_keys: views(self.deprecated_keys@),
        }
    }
}

impl Schema for ProtoHollowBatch {
    open spec fn empty() -> ProtoHollowBatchView {
        ProtoHollowBatchView {
            desc: None,
            parts: Seq::empty(),
            len: 0,
            runs: Seq::empty(),
            deprecated_keys: Seq::empty(),
        }
    }

    open spec fn with_field(
        message: ProtoHollowBatchView,
        field: FieldView,
        limit: nat,
    ) -> Option<ProtoHollowBatchView> {
        if field.tag == 1 {
            match message_with::<ProtoU64Description>(message.desc, field.payload, limit) {
                Some(desc) => Some(ProtoHollowBatchView { desc: Some(desc), ..message }),
                None => None,
            }
        } else if field.tag == 2 {
            match message_with::<ProtoHollowBatchPart>(None, field.payload, limit) {
                Some(element) => Some(
                    ProtoHollowBatchView { parts: message.parts.push(element), ..message },
                ),
                None => None,
            }
        } else if field.tag == 3 {
            match number_of(field.payload) {
                Some(len) => Some(ProtoHollowBatchView { len, ..message }),
                None => None,
            }
        } else if field.tag == 4 {
            match numbers_with(message.runs, field.payload) {
                Some(runs) => Some(ProtoHollowBatchView { runs, ..message }),
                None => None,
            }
        } else if field.tag == 5 {
            match text_of(field.payload) {
                Some(text) => Some(
                    ProtoHollowBatchView {
                        deprecated_keys: message.deprecated_keys.push(text),
                        ..message
                    },
                ),
                None => None,
            }
        } else {
            Some(message)
        }
    }

    open spec fn fields(message: ProtoHollowBatchView) -> Seq<FieldView> {
        message_fields::<ProtoU64Description>(1, message.desc)
            + (repeated(message.parts, element::<ProtoHollowBatchPart>(2))
            + (number_fields(3, message.len)
            + (numbers_fields(4, message.runs)
            + (repeated(message.deprecated_keys, text_element(5))
            + Seq::empty()))))
    }

    open spec fn well_formed(message: ProtoHollowBatchView) -> bool {
        true
    }
}

impl Message for ProtoHollowBatch {
    fn blank() -> ProtoHollowBatch {
        let message = ProtoHollowBatch {
            desc: None,
            parts: Vec::new(),
            len: 0,
            runs: Vec::new(),
            deprecated_keys: Vec::new(),
        };
        assert(message@ =~= Self::empty());
        message
    }

    fn merge_field(&mut self, tag: u32, payload: Payload<'_>, limit: u32) -> bool {
        if tag == 1 {
            get_message(&mut self.desc, &payload, limit)
        } else if tag == 2 {
            get_element(&mut self.parts, &payload, limit)
        } else if tag == 3 {
            match get_number(&payload) {
                Some(len) => {
                    self.len = len;
                    true
                },
                None => false,
            }
        } else if tag == 4 {
            get_numbers(&mut self.runs, &payload)
        } else if tag == 5 {
            get_text_element(&mut self.deprecated_keys, &payload)
        } else {
            true
        }
    }

    fn write_fields(&self, buf: &mut Vec<u8>) {
        let ghost b0 = buf@;
        put_message(buf, 1, &self.desc);
        let ghost b1 = buf@;
        put_messages(buf, 2, &self.parts);
        let ghost b2 = buf@;
        put_number(buf, 3, self.len);
        let ghost b3 = buf@;
        put_numbers(buf, 4, &self.runs);
        let ghost b4 = buf@;
        put_texts(buf, 5, &self.deprecated_keys);
        proof {
            let message = self@;
            let r5 = Seq::<FieldView>::empty();
            let r4 = repeated(message.deprecated_keys, text_element(5)) + r5;
            let r3 = numbers_fields(4, message.runs) + r4;
            let r2 = number_fields(3, message.len) + r3;
            let r1 = repeated(message.parts, element::<ProtoHollowBatchPart>(2)) + r2;
            lemma_written(b0, message_fields::<ProtoU64Description>(1, message.desc), r1);
            lemma_written(b1, repeated(message.parts, element::<ProtoHollowBatchPart>(2)), r2);
            lemma_written(b2, number_fields(3, message.len), r3);
            lemma_written(b3, numbers_fields(4, message.runs), r4);
            lemma_written(b4, repeated(message.deprecated_keys, text_element(5)), r5);
            assert(buf@ + fields_bytes(r5) =~= buf@);
        }
    }

    proof fn lemma_fields(message: ProtoHollowBatchView, limit: nat) {
        let r5 = Seq::<FieldView>::empty();
        let r4 = repeated(message.deprecated_keys, text_element(5)) + r5;
        let r3 = numbers_fields(4, message.runs) + r4;
        let r2 = number_fields(3, message.len) + r3;
        let r1 = repeated(message.parts, element::<ProtoHollowBatchPart>(2)) + r2;
        let s0 = Self::empty();
        let s1 = ProtoHollowBatchView { desc: message.desc, ..s0 };
        let s2 = ProtoHollowBatchView { parts: message.parts, ..s1 };
        let s3 = ProtoHollowBatchView { len: message.len, ..s2 };
        let s4 = ProtoHollowBatchView { runs: message.runs, ..s3 };
        let s5 = ProtoHollowBatchView { deprecated_keys: message.deprecated_keys, ..s4 };
        lemma_front_fits(message_fields::<ProtoU64Description>(1, message.desc), r1);
        if let Some(desc) = message.desc {
            assert(
                message_fields::<ProtoU64Description>(
                    1,
                    message.desc,
                )[0] == message_field::<ProtoU64Description>(1, desc)
            );
            lemma_message_field::<ProtoU64Description>(1, desc, limit);
        }
        lemma_front::<Self>(
            s0,
            message_fields::<ProtoU64Description>(1, message.desc),
            r1,
            s1,
            limit,
        );
        let state = |done: Seq<ProtoHollowBatchPartView>| ProtoHollowBatchView {
            parts: done,
            ..s1
        };
        assert forall|i: int| 0 <= i < message.parts.len() implies #[trigger] Self::with_field(
            state(message.parts.take(i)),
            element::<ProtoHollowBatchPart>(2)(message.parts[i]),
            limit,
        ) == Some(state(message.parts.take(i + 1))) by {
            lemma_front_fits(repeated(message.parts, element::<ProtoHollowBatchPart>(2)), r2);
            assert(
                repeated(
                    message.parts,
                    element::<ProtoHollowBatchPart>(2),
                )[i] == message_field::<ProtoHollowBatchPart>(2, message.parts[i])
            );
            lemma_message_field::<ProtoHollowBatchPart>(2, message.parts[i], limit);
            assert(message.parts.take(i).push(message.parts[i]) =~= message.parts.take(i + 1));
        }
        assert(state(Seq::empty()) =~= s1);
        lemma_front_repeated::<Self, ProtoHollowBatchPartView>(
            message.parts,
            element::<ProtoHollowBatchPart>(2),
            state,
            r2,
            limit,
        );
        lemma_front::<Self>(s2, number_fields(3, message.len), r3, s3, limit);
        lemma_numbers_field(message.runs);
        assert(message.runs.len() == 0 ==> message.runs =~= Seq::empty());
        lemma_front::<Self>(s3, numbers_fields(4, message.runs), r4, s4, limit);
        let state = |done: Seq<Seq<char>>| ProtoHollowBatchView { deprecated_keys: done, ..s4 };
        assert forall|i: int|
            0 <= i < message.deprecated_keys.len() implies #[trigger] Self::with_field(
            state(message.deprecated_keys.take(i)),
            text_element(5)(message.deprecated_keys[i]),
            limit,
        ) == Some(state(message.deprecated_keys.take(i + 1))) by {
            lemma_text_field(message.deprecated_keys[i]);
            assert(
                message.deprecated_keys.take(i).push(
                    message.deprecated_keys[i],
                ) =~= message.deprecated_keys.take(i + 1)
            );
        }
        assert(state(Seq::empty()) =~= s4);
        lemma_front_repeated::<Self, Seq<char>>(
            message.deprecated_keys,
            text_element(5),
            state,
            r5,
            limit,
        );
        assert(s5 =~= message);
    }
}

/// The batches of a shard.
#[derive(Debug, PartialEq, Eq)]
pub struct ProtoTrace {
    pub since: Option<ProtoU64Antichain>,
    pub spine: Vec<ProtoHollowBatch>,
}

/// The contents of a [`ProtoTrace`].
#[verifier::ext_equal]
pub struct ProtoTraceView {
    pub since: Option<ProtoU64AntichainView>,
    pub spine: Seq<ProtoHollowBatchView>,
}

impl View for ProtoTrace {
    type V = ProtoTraceView;

    open spec fn view(&self) -> ProtoTraceView {
        ProtoTraceView {
            since: option_view(self.since),
            spine: views(self.spine@),
        }
    }
}

impl Schema for ProtoTrace {
    open spec fn empty() -> ProtoTraceView {
        ProtoTraceView {
            since: None,
            spine: Seq::empty(),
        }
    }

    open spec fn with_field(
        message: ProtoTraceView,
        field: FieldView,
        limit: nat,
    ) -> Option<ProtoTraceView> {
        if field.tag == 1 {
            match message_with::<ProtoU64Antichain>(message.since, field.payload, limit) {
                Some(since) => Some(ProtoTraceView { since: Some(since), ..message }),
                None => None,
            }
        } else if field.tag == 2 {
            match message_with::<ProtoHollowBatch>(None, field.payload, limit) {
                Some(element) => Some(
                    ProtoTraceView { spine: message.spine.push(element), ..message },
                ),
                None => None,
            }
        } else {
            Some(message)
        }
    }

    open spec fn fields(message: ProtoTraceView) -> Seq<FieldView> {
        message_fields::<ProtoU64Antichain>(1, message.since)
            + (repeated(message.spine, element::<ProtoHollowBatch>(2))
            + Seq::empty())
    }

    open spec fn well_formed(message: ProtoTraceView) -> bool {
        true
    }
}

impl Message for ProtoTrace {
    fn blank() -> ProtoTrace {
        let message = ProtoTrace {
            since: None,
            spine: Vec::new(),
        };
        assert(message@ =~= Self::empty());
        message
    }

    fn merge_field(&mut self, tag: u32, payload: Payload<'_>, limit: u32) -> bool {
        if tag == 1 {
            get_message(&mut self.since, &payload, limit)
        } else if tag == 2 {
            get_element(&mut self.spine, &payload, limit)
        } else {
            true
        }
    }

    fn write_fields(&self, buf: &mut Vec<u8>) {
        let ghost b0 = buf@;
        put_message(buf, 1, &self.since);
        let ghost b1 = buf@;
        put_messages(buf, 2, &self.spine);
        proof {
            let message = self@;
            let r2 = Seq::<FieldView>::empty();
            let r1 = repeated(message.spine, element::<ProtoHollowBatch>(2)) + r2;
            lemma_written(b0, message_fields::<ProtoU64Antichain>(1, message.since), r1);
            lemma_written(b1, repeated(message.spine, element::<ProtoHollowBatch>(2)), r2);
            assert(buf@ + fields_bytes(r2) =~= buf@);
        }
    }

    proof fn lemma_fields(message: ProtoTraceView, limit: nat) {
        let r2 = Seq::<FieldView>::empty();
        let r1 = repeated(message.spine, element::<ProtoHollowBatch>(2)) + r2;
        let s0 = Self::empty();
        let s1 = ProtoTraceView { since: message.since, ..s0 };
        let s2 = ProtoTraceView { spine: message.spine, ..s1 };
        lemma_front_fits(message_fields::<ProtoU64Antichain>(1, message.since), r1);
        if let Some(since) = message.since {
            assert(
                message_fields::<ProtoU64Antichain>(
                    1,
                    message.since,
                )[0] == message_field::<ProtoU64Antichain>(1, since)
            );
            lemma_message_field::<ProtoU64Antichain>(1, since, limit);
        }
        lemma_front::<Self>(
            s0,
            message_fields::<ProtoU64Antichain>(1, message.since),
            r1,
            s1,
            limit,
        );
        let state = |done: Seq<ProtoHollowBatchView>| ProtoTraceView { spine: done, ..s1 };
        assert forall|i: int| 0 <= i < message.spine.len() implies #[trigger] Self::with_field(
            state(message.spine.take(i)),
            element::<ProtoHollowBatch>(2)(message.spine[i]),
            limit,
        ) == Some(state(message.spine.take(i + 1))) by {
            lemma_front_fits(repeated(message.spine, element::<ProtoHollowBatch>(2)), r2);
            assert(
                repeated(
                    message.spine,
                    element::<ProtoHollowBatch>(2),
                )[i] == message_field::<ProtoHollowBatch>(2, message.spine[i])
            );
            lemma_message_field::<ProtoHollowBatch>(2, message.spine[i], limit);
            assert(message.spine.take(i).push(message.spine[i]) =~= message.spine.take(i + 1));
        }
        assert(state(Seq::empty()) =~= s1);
        lemma_front_repeated::<Self, ProtoHollowBatchView>(
            message.spine,
            element::<ProtoHollowBatch>(2),
            state,
            r2,
            limit,
        );
        assert(s2 =~= message);
    }
}

} // verus!
