//! The message that is written beside the updates of a batch.

use vstd::prelude::*;

use crate::persist::proto::batch::{ProtoU64Description, ProtoU64DescriptionView};
use crate::proto::message::{
    get_message, get_number, lemma_front, lemma_front_fits, lemma_message_field, lemma_written,
    message_field, message_fields, message_with, number_fields, number_of, option_view,
    put_message, put_number, Message, Schema,
};
use crate::proto::wire::{fields_bytes, FieldView, Payload};

verus! {

/// What is known of a batch without its updates.
#[derive(Debug, PartialEq, Eq)]
pub struct ProtoBatchPartInline {
    /// The number of the format of the updates.
    pub format: i32,
    pub desc: Option<ProtoU64Description>,
    pub index: u64,
}

/// The contents of a [`ProtoBatchPartInline`].
#[verifier::ext_equal]
pub struct ProtoBatchPartInlineView {
    pub format: i32,
    pub desc: Option<ProtoU64DescriptionView>,
    pub index: u64,
}

impl View for ProtoBatchPartInline {
    type V = ProtoBatchPartInlineView;

    open spec fn view(&self) -> ProtoBatchPartInlineView {
        ProtoBatchPartInlineView {
            format: self.format,
            desc: option_view(self.desc),
            index: self.index,
        }
    }
}

impl Schema for ProtoBatchPartInline {
    open spec fn empty() -> ProtoBatchPartInlineView {
        ProtoBatchPartInlineView {
            format: 0,
            desc: None,
            index: 0,
        }
    }

    open spec fn with_field(
        message: ProtoBatchPartInlineView,
        field: FieldView,
        limit: nat,
    ) -> Option<ProtoBatchPartInlineView> {
        if field.tag == 1 {
            match number_of(field.payload) {
                Some(number) => Some(ProtoBatchPartInlineView { format: number as i32, ..message }),
                None => None,
            }
        } else if field.tag == 2 {
            match message_with::<ProtoU64Description>(message.desc, field.payload, limit) {
                Some(desc) => Some(ProtoBatchPartInlineView { desc: Some(desc), ..message }),
                None => None,
            }
        } else if field.tag == 3 {
            match number_of(field.payload) {
                Some(index) => Some(ProtoBatchPartInlineView { index, ..message }),
                None => None,
            }
        } else {
            Some(message)
        }
    }

    open spec fn fields(message: ProtoBatchPartInlineView) -> Seq<FieldView> {
        number_fields(1, message.format as u64)
            + (message_fields::<ProtoU64Description>(2, message.desc)
            + (number_fields(3, message.index)
            + Seq::empty()))
    }

    open spec fn well_formed(message: ProtoBatchPartInlineView) -> bool {
        true
    }
}

impl Message for ProtoBatchPartInline {
    fn blank() -> ProtoBatchPartInline {
        ProtoBatchPartInline {
            format: 0,
            desc: None,
            index: 0,
        }
    }

    fn merge_field(&mut self, tag: u32, payload: Payload<'_>, limit: u32) -> bool {
        if tag == 1 {
            match get_number(&payload) {
                Some(number) => {
                    self.format = #[verifier::truncate] (number as i32);
                    true
                },
                None => false,
            }
        } else if tag == 2 {
            get_message(&mut self.desc, &payload, limit)
        } else if tag == 3 {
            match get_number(&payload) {
                Some(index) => {
                    self.index = index;
                    true
                },
                None => false,
            }
        } else {
            true
        }
    }

    fn write_fields(&self, buf: &mut Vec<u8>) {
        let ghost b0 = buf@;
        put_number(buf, 1, #[verifier::truncate] (self.format as u64));
        let ghost b1 = buf@;
        put_message(buf, 2, &self.desc);
        let ghost b2 = buf@;
        put_number(buf, 3, self.index);
        proof {
            let message = self@;
            let r3 = Seq::<FieldView>::empty();
            let r2 = number_fields(3, message.index) + r3;
            let r1 = message_fields::<ProtoU64Description>(2, message.desc) + r2;
            lemma_written(b0, number_fields(1, message.format as u64), r1);
            lemma_written(b1, message_fields::<ProtoU64Description>(2, message.desc), r2);
            lemma_written(b2, number_fields(3, message.index), r3);
            assert(buf@ + fields_bytes(r3) =~= buf@);
        }
    }

    proof fn lemma_fields(message: ProtoBatchPartInlineView, limit: nat) {
        let r3 = Seq::<FieldView>::empty();
        let r2 = number_fields(3, message.index) + r3;
        let r1 = message_fields::<ProtoU64Description>(2, message.desc) + r2;
        let s0 = Self::empty();
        let s1 = ProtoBatchPartInlineView { format: message.format, ..s0 };
        let s2 = ProtoBatchPartInlineView { desc: message.desc, ..s1 };
        let s3 = ProtoBatchPartInlineView { index: message.index, ..s2 };
        let format = message.format;
        assert((format as u64) as i32 == format) by (bit_vector);
        assert(format as u64 == 0 ==> format == 0) by (bit_vector);
        lemma_front::<Self>(s0, number_fields(1, message.format as u64), r1, s1, limit);
        lemma_front_fits(message_fields::<ProtoU64Description>(2, message.desc), r2);
        if let Some(desc) = message.desc {
            assert(
                message_fields::<ProtoU64Description>(
                    2,
                    message.desc,
                )[0] == message_field::<ProtoU64Description>(2, desc)
            );
            lemma_message_field::<ProtoU64Description>(2, desc, limit);
        }
        lemma_front::<Self>(
            s1,
            message_fields::<ProtoU64Description>(2, message.desc),
            r2,
            s2,
            limit,
        );
        lemma_front::<Self>(s2, number_fields(3, message.index), r3, s3, limit);
        assert(s3 =~= message);
    }
}

} // verus!
