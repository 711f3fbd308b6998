//! Plain values as messages: a value is the first field of the message.

use vstd::prelude::*;

use crate::proto::message::{
    get_number, get_text, lemma_front, lemma_text_field, lemma_written, number_fields, number_of,
    put_number, put_text, text_fields, text_of, Message, Schema,
};
use crate::proto::wire::{fields_bytes, FieldView, Payload};

verus! {

impl Schema for u64 {
    open spec fn empty() -> u64 {
        0
    }

    open spec fn with_field(message: u64, field: FieldView, limit: nat) -> Option<u64> {
        if field.tag == 1 {
            number_of(field.payload)
        } else {
            Some(message)
        }
    }

    open spec fn fields(message: u64) -> Seq<FieldView> {
        number_fields(1, message) + Seq::empty()
    }

    open spec fn well_formed(message: u64) -> bool {
        true
    }
}

impl Message for u64 {
    fn blank() -> u64 {
        0
    }

    fn merge_field(&mut self, tag: u32, payload: Payload<'_>, limit: u32) -> bool {
        if tag == 1 {
            match get_number(&payload) {
                Some(number) => {
                    *self = number;
                    true
                },
                None => false,
            }
        } else {
            true
        }
    }

    fn write_fields(&self, buf: &mut Vec<u8>) {
        let ghost b0 = buf@;
        put_number(buf, 1, *self);
        proof {
            let none = Seq::<FieldView>::empty();
            lemma_written(b0, number_fields(1, *self), none);
            assert(buf@ + fields_bytes(none) =~= buf@);
        }
    }

    proof fn lemma_fields(message: u64, limit: nat) {
        let none = Seq::<FieldView>::empty();
        lemma_front::<Self>(0, number_fields(1, message), none, message, limit);
    }
}

impl Schema for String {
    open spec fn empty() -> Seq<char> {
        Seq::empty()
    }

    open spec fn with_field(message: Seq<char>, field: FieldView, limit: nat) -> Option<
        Seq<char>,
    > {
        if field.tag == 1 {
            text_of(field.payload)
        } else {
            Some(message)
        }
    }

    open spec fn fields(message: Seq<char>) -> Seq<FieldView> {
        text_fields(1, message) + Seq::empty()
    }

    open spec fn well_formed(message: Seq<char>) -> bool {
        true
    }
}

impl Message for String {
    fn blank() -> String {
        String::new()
    }

    fn merge_field(&mut self, tag: u32, payload: Payload<'_>, limit: u32) -> bool {
        if tag == 1 {
            match get_text(&payload) {
                Some(text) => {
                    *self = text;
                    true
                },
                None => false,
            }
        } else {
            true
        }
    }

    fn write_fields(&self, buf: &mut Vec<u8>) {
        let ghost b0 = buf@;
        put_text(buf, 1, self);
        proof {
            let none = Seq::<FieldView>::empty();
            lemma_written(b0, text_fields(1, self@), none);
            assert(buf@ + fields_bytes(none) =~= buf@);
        }
    }

    proof fn lemma_fields(message: Seq<char>, limit: nat) {
        let none = Seq::<FieldView>::empty();
        lemma_text_field(message);
        assert(message.len() == 0 ==> message =~= Seq::empty());
        lemma_front::<Self>(Seq::empty(), text_fields(1, message), none, message, limit);
    }
}

impl Schema for () {
    open spec fn empty() -> () {
        ()
    }

    open spec fn with_field(message: (), field: FieldView, limit: nat) -> Option<()> {
        Some(message)
    }

    open spec fn fields(message: ()) -> Seq<FieldView> {
        Seq::empty()
    }

    open spec fn well_formed(message: ()) -> bool {
        true
    }
}

impl Message for () {
    fn blank() -> () {
        ()
    }

    fn merge_field(&mut self, tag: u32, payload: Payload<'_>, limit: u32) -> bool {
        true
    }

    fn write_fields(&self, buf: &mut Vec<u8>) {
        assert(buf@ =~= old(buf)@ + fields_bytes(Seq::empty()));
    }

    proof fn lemma_fields(message: (), limit: nat) {
    }
}

} // verus!
