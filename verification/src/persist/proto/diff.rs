//! The messages that the difference between two states is written as.

use vstd::prelude::*;

use crate::proto::message::{
    data_fields, data_of, get_data, get_i32s, get_message, get_number, get_numbers, get_text,
    i32_numbers, i32s_with, lemma_front, lemma_front_fits, lemma_i32s_field, lemma_message_field,
    lemma_numbers_field, lemma_text_field, lemma_written, message_field, message_fields,
    message_with, number_fields, number_of, numbers_fields, numbers_with, option_view, put_data,
    put_i32s, put_message, put_number, put_numbers, put_text, text_fields, text_of, Message,
    Schema,
};
use crate::proto::wire::{fields_bytes, FieldView, Payload};

verus! {

/// The differences between two states, field by field.
#[derive(Debug, PartialEq, Eq)]
pub struct ProtoStateFieldDiffs {
    /// The number of the field of each difference.
    pub fields: Vec<i32>,
    /// The kind of each difference.
    pub diff_types: Vec<i32>,
    /// The lengths of the pieces of which `data_bytes` is made.
    pub data_lens: Vec<u64>,
    pub data_bytes: Vec<u8>,
}

/// The contents of a [`ProtoStateFieldDiffs`].
#[verifier::ext_equal]
pub struct ProtoStateFieldDiffsView {
    pub fields: Seq<i32>,
    pub diff_types: Seq<i32>,
    pub data_lens: Seq<u64>,
    pub data_bytes: Seq<u8>,
}

impl View for ProtoStateFieldDiffs {
    type V = ProtoStateFieldDiffsView;

    open spec fn view(&self) -> ProtoStateFieldDiffsView {
        ProtoStateFieldDiffsView {
            fields: self.fields@,
            diff_types: self.diff_types@,
            data_lens: self.data_lens@,
            data_bytes: self.data_bytes@,
        }
    }
}

impl Schema for ProtoStateFieldDiffs {
    open spec fn empty() -> ProtoStateFieldDiffsView {
        ProtoStateFieldDiffsView {
            fields: Seq::empty(),
            diff_types: Seq::empty(),
            data_lens: Seq::empty(),
            data_bytes: Seq::empty(),
        }
    }

    open spec fn with_field(
        message: ProtoStateFieldDiffsView,
        field: FieldView,
        limit: nat,
    ) -> Option<ProtoStateFieldDiffsView> {
        if field.tag == 1 {
            match i32s_with(message.fields, field.payload) {
                Some(fields) => Some(ProtoStateFieldDiffsView { fields, ..message }),
                None => None,
            }
        } else if field.tag == 2 {
            match i32s_with(message.diff_types, field.payload) {
                Some(diff_types) => Some(ProtoStateFieldDiffsView { diff_types, ..message }),
                None => None,
            }
        } else if field.tag == 3 {
            match numbers_with(message.data_lens, field.payload) {
                Some(data_lens) => Some(ProtoStateFieldDiffsView { data_lens, ..message }),
                None => None,
            }
        } else if field.tag == 4 {
            match data_of(field.payload) {
                Some(data_bytes) => Some(ProtoStateFieldDiffsView { data_bytes, ..message }),
                None => None,
            }
        } else {
            Some(message)
        }
    }

    open spec fn fields(message: ProtoStateFieldDiffsView) -> Seq<FieldView> {
        numbers_fields(1, i32_numbers(message.fields))
            + (numbers_fields(2, i32_numbers(message.diff_types))
            + (numbers_fields(3, message.data_lens)
            + (data_fields(4, message.data_bytes)
            + Seq::empty())))
    }

    open spec fn well_formed(message: ProtoStateFieldDiffsView) -> bool {
        true
    }
}

impl Message for ProtoStateFieldDiffs {
    fn blank() -> ProtoStateFieldDiffs {
        ProtoStateFieldDiffs {
            fields: Vec::new(),
            diff_types: Vec::new(),
            data_lens: Vec::new(),
            data_bytes: Vec::new(),
        }
    }

    fn merge_field(&mut self, tag: u32, payload: Payload<'_>, limit: u32) -> bool {
        if tag == 1 {
            get_i32s(&mut self.fields, &payload)
        } else if tag == 2 {
            get_i32s(&mut self.diff_types, &payload)
        } else if tag == 3 {
            get_numbers(&mut self.data_lens, &payload)
        } else if tag == 4 {
            match get_data(&payload) {
                Some(data_bytes) => {
                    self.data_bytes = data_bytes;
                    true
                },
                None => false,
            }
        } else {
            true
        }
    }

    fn write_fields(&self, buf: &mut Vec<u8>) {
        let ghost b0 = buf@;
        put_i32s(buf, 1, &self.fields);
        let ghost b1 = buf@;
        put_i32s(buf, 2, &self.diff_types);
        let ghost b2 = buf@;
        put_numbers(buf, 3, &self.data_lens);
        let ghost b3 = buf@;
        put_data(buf, 4, self.data_bytes.as_slice());
        proof {
            let message = self@;
            let r4 = Seq::<FieldView>::empty();
            let r3 = data_fields(4, message.data_bytes) + r4;
            let r2 = numbers_fields(3, message.data_lens) + r3;
            let r1 = numbers_fields(2, i32_numbers(message.diff_types)) + r2;
            lemma_written(b0, numbers_fields(1, i32_numbers(message.fields)), r1);
            lemma_written(b1, numbers_fields(2, i32_numbers(message.diff_types)), r2);
            lemma_written(b2, numbers_fields(3, message.data_lens), r3);
            lemma_written(b3, data_fields(4, message.data_bytes), r4);
            assert(buf@ + fields_bytes(r4) =~= buf@);
        }
    }

    proof fn lemma_fields(message: ProtoStateFieldDiffsView, limit: nat) {
        let r4 = Seq::<FieldView>::empty();
        let r3 = data_fields(4, message.data_bytes) + r4;
        let r2 = numbers_fields(3, message.data_lens) + r3;
        let r1 = numbers_fields(2, i32_numbers(message.diff_types)) + r2;
        let s0 = Self::empty();
        let s1 = ProtoStateFieldDiffsView { fields: message.fields, ..s0 };
        let s2 = ProtoStateFieldDiffsView { diff_types: message.diff_types, ..s1 };
        let s3 = ProtoStateFieldDiffsView { data_lens: message.data_lens, ..s2 };
        let s4 = ProtoStateFieldDiffsView { data_bytes: message.data_bytes, ..s3 };
        lemma_i32s_field(message.fields);
        assert(message.fields.len() == 0 ==> message.fields =~= Seq::empty());
        lemma_front::<Self>(s0, numbers_fields(1, i32_numbers(message.fields)), r1, s1, limit);
        lemma_i32s_field(message.diff_types);
        assert(message.diff_types.len() == 0 ==> message.diff_types =~= Seq::empty());
        lemma_front::<Self>(s1, numbers_fields(2, i32_numbers(message.diff_types)), r2, s2, limit);
        lemma_numbers_field(message.data_lens);
        assert(message.data_lens.len() == 0 ==> message.data_lens =~= Seq::empty());
        lemma_front::<Self>(s2, numbers_fields(3, message.data_lens), r3, s3, limit);
        assert(message.data_bytes.len() == 0 ==> message.data_bytes =~= Seq::empty());
        lemma_front::<Self>(s3, data_fields(4, message.data_bytes), r4, s4, limit);
        assert(s4 =~= message);
    }
}

/// The difference between two states.
#[derive(Debug, PartialEq, Eq)]
pub struct ProtoStateDiff {
    pub applier_version: String,
    pub seqno_from: u64,
    pub seqno_to: u64,
    pub latest_rollup_key: String,
    pub field_diffs: Option<ProtoStateFieldDiffs>,
}

/// The contents of a [`ProtoStateDiff`].
#[verifier::ext_equal]
pub struct ProtoStateDiffView {
    pub applier_version: Seq<char>,
    pub seqno_from: u64,
    pub seqno_to: u64,
    pub latest_rollup_key: Seq<char>,
    pub field_diffs: Option<ProtoStateFieldDiffsView>,
}

impl View for ProtoStateDiff {
    type V = ProtoStateDiffView;

    open spec fn view(&self) -> ProtoStateDiffView {
        ProtoStateDiffView {
            applier_version: self.applier_version@,
            seqno_from: self.seqno_from,
            seqno_to: self.seqno_to,
            latest_rollup_key: self.latest_rollup_key@,
            field_diffs: option_view(self.field_diffs),
        }
    }
}

impl Schema for ProtoStateDiff {
    open spec fn empty() -> ProtoStateDiffView {
        ProtoStateDiffView {
            applier_version: Seq::empty(),
            seqno_from: 0,
            seqno_to: 0,
            latest_rollup_key: Seq::empty(),
            field_diffs: None,
        }
    }

    open spec fn with_field(
        message: ProtoStateDiffView,
        field: FieldView,
        limit: nat,
    ) -> Option<ProtoStateDiffView> {
        if field.tag == 1 {
            match text_of(field.payload) {
                Some(applier_version) => Some(ProtoStateDiffView { applier_version, ..message }),
                None => None,
            }
        } else if field.tag == 2 {
            match number_of(field.payload) {
                Some(seqno_from) => Some(ProtoStateDiffView { seqno_from, ..message }),
                None => None,
            }
        } else if field.tag == 3 {
            match number_of(field.payload) {
                Some(seqno_to) => Some(ProtoStateDiffView { seqno_to, ..message }),
                None => None,
            }
        } else if field.tag == 4 {
            match text_of(field.payload) {
                Some(latest_rollup_key) => Some(
                    ProtoStateDiffView { latest_rollup_key, ..message },
                ),
                None => None,
            }
        } else if field.tag == 5 {
            match message_with::<ProtoStateFieldDiffs>(message.field_diffs, field.payload, limit) {
                Some(field_diffs) => Some(
                    ProtoStateDiffView { field_diffs: Some(field_diffs), ..message },
                ),
                None => None,
            }
        } else {
            Some(message)
        }
    }

    open spec fn fields(message: ProtoStateDiffView) -> Seq<FieldView> {
        text_fields(1, message.applier_version)
            + (number_fields(2, message.seqno_from)
            + (number_fields(3, message.seqno_to)
            + (text_fields(4, message.latest_rollup_key)
            + (message_fields::<ProtoStateFieldDiffs>(5, message.field_diffs)
            + Seq::empty()))))
    }

    open spec fn well_formed(message: ProtoStateDiffView) -> bool {
        true
    }
}

impl Message for ProtoStateDiff {
    fn blank() -> ProtoStateDiff {
        ProtoStateDiff {
            applier_version: String::new(),
            seqno_from: 0,
            seqno_to: 0,
            latest_rollup_key: String::new(),
            field_diffs: None,
        }
    }

    fn merge_field(&mut self, tag: u32, payload: Payload<'_>, limit: u32) -> bool {
        if tag == 1 {
            match get_text(&payload) {
                Some(applier_version) => {
                    self.applier_version = applier_version;
                    true
                },
                None => false,
            }
        } else if tag == 2 {
            match get_number(&payload) {
                Some(seqno_from) => {
                    self.seqno_from = seqno_from;
                    true
                },
                None => false,
            }
        } else if tag == 3 {
            match get_number(&payload) {
                Some(seqno_to) => {
                    self.seqno_to = seqno_to;
                    true
                },
                None => false,
            }
        } else if tag == 4 {
            match get_text(&payload) {
                Some(latest_rollup_key) => {
                    self.latest_rollup_key = latest_rollup_key;
                    true
                },
                None => false,
            }
        } else if tag == 5 {
            get_message(&mut self.field_diffs, &payload, limit)
        } else {
            true
        }
    }

    fn write_fields(&self, buf: &mut Vec<u8>) {
        let ghost b0 = buf@;
        put_text(buf, 1, &self.applier_version);
        let ghost b1 = buf@;
        put_number(buf, 2, self.seqno_from);
        let ghost b2 = buf@;
        put_number(buf, 3, self.seqno_to);
        let ghost b3 = buf@;
        put_text(buf, 4, &self.latest_rollup_key);
        let ghost b4 = buf@;
        put_message(buf, 5, &self.field_diffs);
        proof {
            let message = self@;
            let r5 = Seq::<FieldView>::empty();
            let r4 = message_fields::<ProtoStateFieldDiffs>(5, message.field_diffs) + r5;
            let r3 = text_fields(4, message.latest_rollup_key) + r4;
            let r2 = number_fields(3, message.seqno_to) + r3;
            let r1 = number_fields(2, message.seqno_from) + r2;
            lemma_written(b0, text_fields(1, message.applier_version), r1);
            lemma_written(b1, number_fields(2, message.seqno_from), r2);
            lemma_written(b2, number_fields(3, message.seqno_to), r3);
            lemma_written(b3, text_fields(4, message.latest_rollup_key), r4);
            lemma_written(b4, message_fields::<ProtoStateFieldDiffs>(5, message.field_diffs), r5);
            assert(buf@ + fields_bytes(r5) =~= buf@);
        }
    }

    proof fn lemma_fields(message: ProtoStateDiffView, limit: nat) {
        let r5 = Seq::<FieldView>::empty();
        let r4 = message_fields::<ProtoStateFieldDiffs>(5, message.field_diffs) + r5;
        let r3 = text_fields(4, message.latest_rollup_key) + r4;
        let r2 = number_fields(3, message.seqno_to) + r3;
        let r1 = number_fields(2, message.seqno_from) + r2;
        let s0 = Self::empty();
        let s1 = ProtoStateDiffView { applier_version: message.applier_version, ..s0 };
        let s2 = ProtoStateDiffView { seqno_from: message.seqno_from, ..s1 };
        let s3 = ProtoStateDiffView { seqno_to: message.seqno_to, ..s2 };
        let s4 = ProtoStateDiffView { latest_rollup_key: message.latest_rollup_key, ..s3 };
        let s5 = ProtoStateDiffView { field_diffs: message.field_diffs, ..s4 };
        lemma_text_field(message.applier_version);
        assert(message.applier_version.len() == 0 ==> message.applier_version =~= Seq::empty());
        lemma_front::<Self>(s0, text_fields(1, message.applier_version), r1, s1, limit);
        lemma_front::<Self>(s1, number_fields(2, message.seqno_from), r2, s2, limit);
        lemma_front::<Self>(s2, number_fields(3, message.seqno_to), r3, s3, limit);
        lemma_text_field(message.latest_rollup_key);
        assert(message.latest_rollup_key.len() == 0 ==> message.latest_rollup_key =~= Seq::empty());
        lemma_front::<Self>(s3, text_fields(4, message.latest_rollup_key), r4, s4, limit);
        lemma_front_fits(message_fields::<ProtoStateFieldDiffs>(5, message.field_diffs), r5);
        if let Some(field_diffs) = message.field_diffs {
            assert(
                message_fields::<ProtoStateFieldDiffs>(
                    5,
                    message.field_diffs,
                )[0] == message_field::<ProtoStateFieldDiffs>(5, field_diffs)
            );
            lemma_message_field::<ProtoStateFieldDiffs>(5, field_diffs, limit);
        }
        lemma_front::<Self>(
            s4,
            message_fields::<ProtoStateFieldDiffs>(5, message.field_diffs),
            r5,
            s5,
            limit,
        );
        assert(s5 =~= message);
    }
}

} // verus!
