//! The messages that readers and writers are written as.

use vstd::prelude::*;

use crate::persist::proto::batch::{ProtoU64Antichain, ProtoU64AntichainView};
use crate::proto::message::{
    get_message, get_number, get_text, lemma_front, lemma_front_fits, lemma_message_field,
    lemma_text_field, lemma_written, message_field, message_fields, message_with, number_fields,
    number_of, option_view, put_message, put_number, put_text, text_fields, text_of, Message,
    Schema,
};
use crate::proto::wire::{fields_bytes, FieldView, Payload};

verus! {

/// Who holds a handle, for debugging.
#[derive(Debug, PartialEq, Eq)]
pub struct ProtoHandleDebugState {
    pub hostname: String,
    pub purpose: String,
}

/// The contents of a [`ProtoHandleDebugState`].
#[verifier::ext_equal]
pub struct ProtoHandleDebugStateView {
    pub hostname: Seq<char>,
    pub purpose: Seq<char>,
}

impl View for ProtoHandleDebugState {
    type V = ProtoHandleDebugStateView;

    open spec fn view(&self) -> ProtoHandleDebugStateView {
        ProtoHandleDebugStateView {
            hostname: self.hostname@,
            purpose: self.purpose@,
        }
    }
}

impl Schema for ProtoHandleDebugState {
    open spec fn empty() -> ProtoHandleDebugStateView {
        ProtoHandleDebugStateView {
            hostname: Seq::empty(),
            purpose: Seq::empty(),
        }
    }

    open spec fn with_field(
        message: ProtoHandleDebugStateView,
        field: FieldView,
        limit: nat,
    ) -> Option<ProtoHandleDebugStateView> {
        if field.tag == 1 {
            match text_of(field.payload) {
                Some(hostname) => Some(ProtoHandleDebugStateView { hostname, ..message }),
                None => None,
            }
        } else if field.tag == 2 {
            match text_of(field.payload) {
                Some(purpose) => Some(ProtoHandleDebugStateView { purpose, ..message }),
                None => None,
            }
        } else {
            Some(message)
        }
    }

    open spec fn fields(message: ProtoHandleDebugStateView) -> Seq<FieldView> {
        text_fields(1, message.hostname)
            + (text_fields(2, message.purpose)
            + Seq::empty())
    }

    open spec fn well_formed(message: ProtoHandleDebugStateView) -> bool {
        true
    }
}

impl Message for ProtoHandleDebugState {
    fn blank() -> ProtoHandleDebugState {
        ProtoHandleDebugState {
            hostname: String::new(),
            purpose: String::new(),
        }
    }

    fn merge_field(&mut self, tag: u32, payload: Payload<'_>, limit: u32) -> bool {
        if tag == 1 {
            match get_text(&payload) {
                Some(hostname) => {
                    self.hostname = hostname;
                    true
                },
                None => false,
            }
        } else if tag == 2 {
            match get_text(&payload) {
                Some(purpose) => {
                    self.purpose = purpose;
                    true
                },
                None => false,
            }
        } else {
            true
        }
    }

    fn write_fields(&self, buf: &mut Vec<u8>) {
        let ghost b0 = buf@;
        put_text(buf, 1, &self.hostname);
        let ghost b1 = buf@;
        put_text(buf, 2, &self.purpose);
        proof {
            let message = self@;
            let r2 = Seq::<FieldView>::empty();
            let r1 = text_fields(2, message.purpose) + r2;
            lemma_written(b0, text_fields(1, message.hostname), r1);
            lemma_written(b1, text_fields(2, message.purpose), r2);
            assert(buf@ + fields_bytes(r2) =~= buf@);
        }
    }

    proof fn lemma_fields(message: ProtoHandleDebugStateView, limit: nat) {
        let r2 = Seq::<FieldView>::empty();
        let r1 = text_fields(2, message.purpose) + r2;
        let s0 = Self::empty();
        let s1 = ProtoHandleDebugStateView { hostname: message.hostname, ..s0 };
        let s2 = ProtoHandleDebugStateView { purpose: message.purpose, ..s1 };
        lemma_text_field(message.hostname);
        assert(message.hostname.len() == 0 ==> message.hostname =~= Seq::empty());
        lemma_front::<Self>(s0, text_fields(1, message.hostname), r1, s1, limit);
        lemma_text_field(message.purpose);
        assert(message.purpose.len() == 0 ==> message.purpose =~= Seq::empty());
        lemma_front::<Self>(s1, text_fields(2, message.purpose), r2, s2, limit);
        assert(s2 =~= message);
    }
}

/// A reader that has to renew its lease.
#[derive(Debug, PartialEq, Eq)]
pub struct ProtoLeasedReaderState {
    pub seqno: u64,
    pub since: Option<ProtoU64Antichain>,
    pub last_heartbeat_timestamp_ms: u64,
    pub lease_duration_ms: u64,
    pub debug: Option<ProtoHandleDebugState>,
}

/// The contents of a [`ProtoLeasedReaderState`].
#[verifier::ext_equal]
pub struct ProtoLeasedReaderStateView {
    pub seqno: u64,
    pub since: Option<ProtoU64AntichainView>,
    pub last_heartbeat_timestamp_ms: u64,
    pub lease_duration_ms: u64,
    pub debug: Option<ProtoHandleDebugStateView>,
}

impl View for ProtoLeasedReaderState {
    type V = ProtoLeasedReaderStateView;

    open spec fn view(&self) -> ProtoLeasedReaderStateView {
        ProtoLeasedReaderStateView {
            seqno: self.seqno,
            since: option_view(self.since),
            last_heartbeat_timestamp_ms: self.last_heartbeat_timestamp_ms,
            lease_duration_ms: self.lease_duration_ms,
            debug: option_view(self.debug),
        }
    }
}

impl Schema for ProtoLeasedReaderState {
    open spec fn empty() -> ProtoLeasedReaderStateView {
        ProtoLeasedReaderStateView {
            seqno: 0,
            since: None,
            last_heartbeat_timestamp_ms: 0,
            lease_duration_ms: 0,
            debug: None,
        }
    }

    open spec fn with_field(
        message: ProtoLeasedReaderStateView,
        field: FieldView,
        limit: nat,
    ) -> Option<ProtoLeasedReaderStateView> {
        if field.tag == 1 {
            match number_of(field.payload) {
                Some(seqno) => Some(ProtoLeasedReaderStateView { seqno, ..message }),
                None => None,
            }
        } else if field.tag == 2 {
            match message_with::<ProtoU64Antichain>(message.since, field.payload, limit) {
                Some(since) => Some(ProtoLeasedReaderStateView { since: Some(since), ..message }),
                None => None,
            }
        } else if field.tag == 3 {
            match number_of(field.payload) {
                Some(last_heartbeat_timestamp_ms) => Some(
                    ProtoLeasedReaderStateView { last_heartbeat_timestamp_ms, ..message },
                ),
                None => None,
            }
        } else if field.tag == 4 {
            match number_of(field.payload) {
                Some(lease_duration_ms) => Some(
                    ProtoLeasedReaderStateView { lease_duration_ms, ..message },
                ),
                None => None,
            }
        } else if field.tag == 5 {
            match message_with::<ProtoHandleDebugState>(message.debug, field.payload, limit) {
                Some(debug) => Some(ProtoLeasedReaderStateView { debug: Some(debug), ..message }),
                None => None,
            }
        } else {
            Some(message)
        }
    }

    open spec fn fields(message: ProtoLeasedReaderStateView) -> Seq<FieldView> {
        number_fields(1, message.seqno)
            + (message_fields::<ProtoU64Antichain>(2, message.since)
            + (number_fields(3, message.last_heartbeat_timestamp_ms)
            + (number_fields(4, message.lease_duration_ms)
            + (message_fields::<ProtoHandleDebugState>(5, message.debug)
            + Seq::empty()))))
    }

    open spec fn well_formed(message: ProtoLeasedReaderStateView) -> bool {
        true
    }
}

impl Message for ProtoLeasedReaderState {
    fn blank() -> ProtoLeasedReaderState {
        ProtoLeasedReaderState {
            seqno: 0,
            since: None,
            last_heartbeat_timestamp_ms: 0,
            lease_duration_ms: 0,
            debug: None,
        }
    }

    fn merge_field(&mut self, tag: u32, payload: Payload<'_>, limit: u32) -> bool {
        if tag == 1 {
            match get_number(&payload) {
                Some(seqno) => {
                    self.seqno = seqno;
                    true
                },
                None => false,
            }
        } else if tag == 2 {
            get_message(&mut self.since, &payload, limit)
        } else if tag == 3 {
            match get_number(&payload) {
                Some(last_heartbeat_timestamp_ms) => {
                    self.last_heartbeat_timestamp_ms = last_heartbeat_timestamp_ms;
                    true
                },
                None => false,
            }
        } else if tag == 4 {
            match get_number(&payload) {
                Some(lease_duration_ms) => {
                    self.lease_duration_ms = lease_duration_ms;
                    true
                },
                None => false,
            }
        } else if tag == 5 {
            get_message(&mut self.debug, &payload, limit)
        } else {
            true
        }
    }

    fn write_fields(&self, buf: &mut Vec<u8>) {
        let ghost b0 = buf@;
        put_number(buf, 1, self.seqno);
        let ghost b1 = buf@;
        put_message(buf, 2, &self.since);
        let ghost b2 = buf@;
        put_number(buf, 3, self.last_heartbeat_timestamp_ms);
        let ghost b3 = buf@;
        put_number(buf, 4, self.lease_duration_ms);
        let ghost b4 = buf@;
        put_message(buf, 5, &self.debug);
        proof {
            let message = self@;
            let r5 = Seq::<FieldView>::empty();
            let r4 = message_fields::<ProtoHandleDebugState>(5, message.debug) + r5;
            let r3 = number_fields(4, message.lease_duration_ms) + r4;
            let r2 = number_fields(3, message.last_heartbeat_timestamp_ms) + r3;
            let r1 = message_fields::<ProtoU64Antichain>(2, message.since) + r2;
            lemma_written(b0, number_fields(1, message.seqno), r1);
            lemma_written(b1, message_fields::<ProtoU64Antichain>(2, message.since), r2);
            lemma_written(b2, number_fields(3, message.last_heartbeat_timestamp_ms), r3);
            lemma_written(b3, number_fields(4, message.lease_duration_ms), r4);
            lemma_written(b4, message_fields::<ProtoHandleDebugState>(5, message.debug), r5);
            assert(buf@ + fields_bytes(r5) =~= buf@);
        }
    }

    proof fn lemma_fields(message: ProtoLeasedReaderStateView, limit: nat) {
        let r5 = Seq::<FieldView>::empty();
        let r4 = message_fields::<ProtoHandleDebugState>(5, message.debug) + r5;
        let r3 = number_fields(4, message.lease_duration_ms) + r4;
        let r2 = number_fields(3, message.last_heartbeat_timestamp_ms) + r3;
        let r1 = message_fields::<ProtoU64Antichain>(2, message.since) + r2;
        let s0 = Self::empty();
        let s1 = ProtoLeasedReaderStateView { seqno: message.seqno, ..s0 };
        let s2 = ProtoLeasedReaderStateView { since: message.since, ..s1 };
        let s3 = ProtoLeasedReaderStateView {
            last_heartbeat_timestamp_ms: message.last_heartbeat_timestamp_ms,
            ..s2
        };
        let s4 = ProtoLeasedReaderStateView { lease_duration_ms: message.lease_duration_ms, ..s3 };
        let s5 = ProtoLeasedReaderStateView { debug: message.debug, ..s4 };
        lemma_front::<Self>(s0, number_fields(1, message.seqno), r1, s1, limit);
        lemma_front_fits(message_fields::<ProtoU64Antichain>(2, message.since), r2);
        if let Some(since) = message.since {
            assert(
                message_fields::<ProtoU64Antichain>(
                    2,
                    message.since,
                )[0] == message_field::<ProtoU64Antichain>(2, since)
            );
            lemma_message_field::<ProtoU64Antichain>(2, since, limit);
        }
        lemma_front::<Self>(
            s1,
            message_fields::<ProtoU64Antichain>(2, message.since),
            r2,
            s2,
            limit,
        );
        lemma_front::<Self>(
            s2,
            number_fields(3, message.last_heartbeat_timestamp_ms),
            r3,
            s3,
            limit,
        );
        lemma_front::<Self>(s3, number_fields(4, message.lease_duration_ms), r4, s4, limit);
        lemma_front_fits(message_fields::<ProtoHandleDebugState>(5, message.debug), r5);
        if let Some(debug) = message.debug {
            assert(
                message_fields::<ProtoHandleDebugState>(
                    5,
                    message.debug,
                )[0] == message_field::<ProtoHandleDebugState>(5, debug)
            );
            lemma_message_field::<ProtoHandleDebugState>(5, debug, limit);
        }
        lemma_front::<Self>(
            s4,
            message_fields::<ProtoHandleDebugState>(5, message.debug),
            r5,
            s5,
            limit,
        );
        assert(s5 =~= message);
    }
}

/// A reader that holds back compaction until it says otherwise.
#[derive(Debug, PartialEq, Eq)]
pub struct ProtoCriticalReaderState {
    pub since: Option<ProtoU64Antichain>,
    pub opaque: i64,
    pub opaque_codec: String,
    pub debug: Option<ProtoHandleDebugState>,
}

/// The contents of a [`ProtoCriticalReaderState`].
#[verifier::ext_equal]
pub struct ProtoCriticalReaderStateView {
    pub since: Option<ProtoU64AntichainView>,
    pub opaque: i64,
    pub opaque_codec: Seq<char>,
    pub debug: Option<ProtoHandleDebugStateView>,
}

impl View for ProtoCriticalReaderState {
    type V = ProtoCriticalReaderStateView;

    open spec fn view(&self) -> ProtoCriticalReaderStateView {
        ProtoCriticalReaderStateView {
            since: option_view(self.since),
            opaque: self.opaque,
            opaque_codec: self.opaque_codec@,
            debug: option_view(self.debug),
        }
    }
}

impl Schema for ProtoCriticalReaderState {
    open spec fn empty() -> ProtoCriticalReaderStateView {
        ProtoCriticalReaderStateView {
            since: None,
            opaque: 0,
            opaque_codec: Seq::empty(),
            debug: None,
        }
    }

    open spec fn with_field(
        message: ProtoCriticalReaderStateView,
        field: FieldView,
        limit: nat,
    ) -> Option<ProtoCriticalReaderStateView> {
        if field.tag == 1 {
            match message_with::<ProtoU64Antichain>(message.since, field.payload, limit) {
                Some(since) => Some(ProtoCriticalReaderStateView { since: Some(since), ..message }),
                None => None,
            }
        } else if field.tag == 2 {
            match number_of(field.payload) {
                Some(number) => Some(
                    ProtoCriticalReaderStateView { opaque: number as i64, ..message },
                ),
                None => None,
            }
        } else if field.tag == 3 {
            match text_of(field.payload) {
                Some(opaque_codec) => Some(
                    ProtoCriticalReaderStateView { opaque_codec, ..message },
                ),
                None => None,
            }
        } else if field.tag == 4 {
            match message_with::<ProtoHandleDebugState>(message.debug, field.payload, limit) {
                Some(debug) => Some(ProtoCriticalReaderStateView { debug: Some(debug), ..message }),
                None => None,
            }
        } else {
            Some(message)
        }
    }

    open spec fn fields(message: ProtoCriticalReaderStateView) -> Seq<FieldView> {
        message_fields::<ProtoU64Antichain>(1, message.since)
            + (number_fields(2, message.opaque as u64)
            + (text_fields(3, message.opaque_codec)
            + (message_fields::<ProtoHandleDebugState>(4, message.debug)
            + Seq::empty())))
    }

    open spec fn well_formed(message: ProtoCriticalReaderStateView) -> bool {
        true
    }
}

impl Message for ProtoCriticalReaderState {
    fn blank() -> ProtoCriticalReaderState {
        ProtoCriticalReaderState {
            since: None,
            opaque: 0,
            opaque_codec: String::new(),
            debug: None,
        }
    }

    fn merge_field(&mut self, tag: u32, payload: Payload<'_>, limit: u32) -> bool {
        if tag == 1 {
            get_message(&mut self.since, &payload, limit)
        } else if tag == 2 {
            match get_number(&payload) {
                Some(number) => {
                    self.opaque = #[verifier::truncate] (number as i64);
                    true
                },
                None => false,
            }
        } else if tag == 3 {
            match get_text(&payload) {
                Some(opaque_codec) => {
                    self.opaque_codec = opaque_codec;
                    true
                },
                None => false,
            }
        } else if tag == 4 {
            get_message(&mut self.debug, &payload, limit)
        } else {
            true
        }
    }

    fn write_fields(&self, buf: &mut Vec<u8>) {
        let ghost b0 = buf@;
        put_message(buf, 1, &self.since);
        let ghost b1 = buf@;
        put_number(buf, 2, #[verifier::truncate] (self.opaque as u64));
        let ghost b2 = buf@;
        put_text(buf, 3, &self.opaque_codec);
        let ghost b3 = buf@;
        put_message(buf, 4, &self.debug);
        proof {
            let message = self@;
            let r4 = Seq::<FieldView>::empty();
            let r3 = message_fields::<ProtoHandleDebugState>(4, message.debug) + r4;
            let r2 = text_fields(3, message.opaque_codec) + r3;
            let r1 = number_fields(2, message.opaque as u64) + r2;
            lemma_written(b0, message_fields::<ProtoU64Antichain>(1, message.since), r1);
            lemma_written(b1, number_fields(2, message.opaque as u64), r2);
            lemma_written(b2, text_fields(3, message.opaque_codec), r3);
            lemma_written(b3, message_fields::<ProtoHandleDebugState>(4, message.debug), r4);
            assert(buf@ + fields_bytes(r4) =~= buf@);
        }
    }

    proof fn lemma_fields(message: ProtoCriticalReaderStateView, limit: nat) {
        let r4 = Seq::<FieldView>::empty();
        let r3 = message_fields::<ProtoHandleDebugState>(4, message.debug) + r4;
        let r2 = text_fields(3, message.opaque_codec) + r3;
        let r1 = number_fields(2, message.opaque as u64) + r2;
        let s0 = Self::empty();
        let s1 = ProtoCriticalReaderStateView { since: message.since, ..s0 };
        let s2 = ProtoCriticalReaderStateView { opaque: message.opaque, ..s1 };
        let s3 = ProtoCriticalReaderStateView { opaque_codec: message.opaque_codec, ..s2 };
        let s4 = ProtoCriticalReaderStateView { debug: message.debug, ..s3 };
        lemma_front_fits(message_fields::<ProtoU64Antichain>(1, message.since), r1);
        if let Some(since) = message.since {
            assert(
                message_fields::<ProtoU64Antichain>(
                    1,
                    message.since,
                )[0] == message_field::<ProtoU64Antichain>(1, since)
            );
            lemma_message_field::<ProtoU64Antichain>(1, since, limit);
        }
        lemma_front::<Self>(
            s0,
            message_fields::<ProtoU64Antichain>(1, message.since),
            r1,
            s1,
            limit,
        );
        let opaque = message.opaque;
        assert((opaque as u64) as i64 == opaque) by (bit_vector);
        assert(opaque as u64 == 0 ==> opaque == 0) by (bit_vector);
        lemma_front::<Self>(s1, number_fields(2, message.opaque as u64), r2, s2, limit);
        lemma_text_field(message.opaque_codec);
        assert(message.opaque_codec.len() == 0 ==> message.opaque_codec =~= Seq::empty());
        lemma_front::<Self>(s2, text_fields(3, message.opaque_codec), r3, s3, limit);
        lemma_front_fits(message_fields::<ProtoHandleDebugState>(4, message.debug), r4);
        if let Some(debug) = message.debug {
            assert(
                message_fields::<ProtoHandleDebugState>(
                    4,
                    message.debug,
                )[0] == message_field::<ProtoHandleDebugState>(4, debug)
            );
            lemma_message_field::<ProtoHandleDebugState>(4, debug, limit);
        }
        lemma_front::<Self>(
            s3,
            message_fields::<ProtoHandleDebugState>(4, message.debug),
            r4,
            s4,
            limit,
        );
        assert(s4 =~= message);
    }
}

/// A writer.
#[derive(Debug, PartialEq, Eq)]
pub struct ProtoWriterState {
    pub last_heartbeat_timestamp_ms: u64,
    pub lease_duration_ms: u64,
    pub most_recent_write_token: String,
    pub most_recent_write_upper: Option<ProtoU64Antichain>,
    pub debug: Option<ProtoHandleDebugState>,
}

/// The contents of a [`ProtoWriterState`].
#[verifier::ext_equal]
pub struct ProtoWriterStateView {
    pub last_heartbeat_timestamp_ms: u64,
    pub lease_duration_ms: u64,
    pub most_recent_write_token: Seq<char>,
    pub most_recent_write_upper: Option<ProtoU64AntichainView>,
    pub debug: Option<ProtoHandleDebugStateView>,
}

impl View for ProtoWriterState {
    type V = ProtoWriterStateView;

    open spec fn view(&self) -> ProtoWriterStateView {
        ProtoWriterStateView {
            last_heartbeat_timestamp_ms: self.last_heartbeat_timestamp_ms,
            lease_duration_ms: self.lease_duration_ms,
            most_recent_write_token: self.most_recent_write_token@,
            most_recent_write_upper: option_view(self.most_recent_write_upper),
            debug: option_view(self.debug),
        }
    }
}

impl Schema for ProtoWriterState {
    open spec fn empty() -> ProtoWriterStateView {
        ProtoWriterStateView {
            last_heartbeat_timestamp_ms: 0,
            lease_duration_ms: 0,
            most_recent_write_token: Seq::empty(),
            most_recent_write_upper: None,
            debug: None,
        }
    }

    open spec fn with_field(
        message: ProtoWriterStateView,
        field: FieldView,
        limit: nat,
    ) -> Option<ProtoWriterStateView> {
        if field.tag == 1 {
            match number_of(field.payload) {
                Some(last_heartbeat_timestamp_ms) => Some(
                    ProtoWriterStateView { last_heartbeat_timestamp_ms, ..message },
                ),
                None => None,
            }
        } else if field.tag == 2 {
            match number_of(field.payload) {
                Some(lease_duration_ms) => Some(
                    ProtoWriterStateView { lease_duration_ms, ..message },
                ),
                None => None,
            }
        } else if field.tag == 3 {
            match text_of(field.payload) {
                Some(most_recent_write_token) => Some(
                    ProtoWriterStateView { most_recent_write_token, ..message },
                ),
                None => None,
            }
        } else if field.tag == 4 {
            match message_with::<ProtoU64Antichain>(
                message.most_recent_write_upper,
                field.payload,
                limit,
            ) {
                Some(most_recent_write_upper) => Some(
                    ProtoWriterStateView {
                        most_recent_write_upper: Some(most_recent_write_upper),
                        ..message
                    },
                ),
                None => None,
            }
        } else if field.tag == 5 {
            match message_with::<ProtoHandleDebugState>(message.debug, field.payload, limit) {
                Some(debug) => Some(ProtoWriterStateView { debug: Some(debug), ..message }),
                None => None,
            }
        } else {
            Some(message)
        }
    }

    open spec fn fields(message: ProtoWriterStateView) -> Seq<FieldView> {
        number_fields(1, message.last_heartbeat_timestamp_ms)
            + (number_fields(2, message.lease_duration_ms)
            + (text_fields(3, message.most_recent_write_token)
            + (message_fields::<ProtoU64Antichain>(4, message.most_recent_write_upper)
            + (message_fields::<ProtoHandleDebugState>(5, message.debug)
            + Seq::empty()))))
    }

    open spec fn well_formed(message: ProtoWriterStateView) -> bool {
        true
    }
}

impl Message for ProtoWriterState {
    fn blank() -> ProtoWriterState {
        ProtoWriterState {
            last_heartbeat_timestamp_ms: 0,
            lease_duration_ms: 0,
            most_recent_write_token: String::new(),
            most_recent_write_upper: None,
            debug: None,
        }
    }

    fn merge_field(&mut self, tag: u32, payload: Payload<'_>, limit: u32) -> bool {
        if tag == 1 {
            match get_number(&payload) {
                Some(last_heartbeat_timestamp_ms) => {
                    self.last_heartbeat_timestamp_ms = last_heartbeat_timestamp_ms;
                    true
                },
                None => false,
            }
        } else if tag == 2 {
            match get_number(&payload) {
                Some(lease_duration_ms) => {
                    self.lease_duration_ms = lease_duration_ms;
                    true
                },
                None => false,
            }
        } else if tag == 3 {
            match get_text(&payload) {
                Some(most_recent_write_token) => {
                    self.most_recent_write_token = most_recent_write_token;
                    true
                },
                None => false,
            }
        } else if tag == 4 {
            get_message(&mut self.most_recent_write_upper, &payload, limit)
        } else if tag == 5 {
            get_message(&mut self.debug, &payload, limit)
        } else {
            true
        }
    }

    fn write_fields(&self, buf: &mut Vec<u8>) {
        let ghost b0 = buf@;
        put_number(buf, 1, self.last_heartbeat_timestamp_ms);
        let ghost b1 = buf@;
        put_number(buf, 2, self.lease_duration_ms);
        let ghost b2 = buf@;
        put_text(buf, 3, &self.most_recent_write_token);
        let ghost b3 = buf@;
        put_message(buf, 4, &self.most_recent_write_upper);
        let ghost b4 = buf@;
        put_message(buf, 5, &self.debug);
        proof {
            let message = self@;
            let r5 = Seq::<FieldView>::empty();
            let r4 = message_fields::<ProtoHandleDebugState>(5, message.debug) + r5;
            let r3 = message_fields::<ProtoU64Antichain>(4, message.most_recent_write_upper) + r4;
            let r2 = text_fields(3, message.most_recent_write_token) + r3;
            let r1 = number_fields(2, message.lease_duration_ms) + r2;
            lemma_written(b0, number_fields(1, message.last_heartbeat_timestamp_ms), r1);
            lemma_written(b1, number_fields(2, message.lease_duration_ms), r2);
            lemma_written(b2, text_fields(3, message.most_recent_write_token), r3);
            lemma_written(
                b3,
                message_fields::<ProtoU64Antichain>(4, message.most_recent_write_upper),
                r4,
            );
            lemma_written(b4, message_fields::<ProtoHandleDebugState>(5, message.debug), r5);
            assert(buf@ + fields_bytes(r5) =~= buf@);
        }
    }

    proof fn lemma_fields(message: ProtoWriterStateView, limit: nat) {
        let r5 = Seq::<FieldView>::empty();
        let r4 = message_fields::<ProtoHandleDebugState>(5, message.debug) + r5;
        let r3 = message_fields::<ProtoU64Antichain>(4, message.most_recent_write_upper) + r4;
        let r2 = text_fields(3, message.most_recent_write_token) + r3;
        let r1 = number_fields(2, message.lease_duration_ms) + r2;
        let s0 = Self::empty();
        let s1 = ProtoWriterStateView {
            last_heartbeat_timestamp_ms: message.last_heartbeat_timestamp_ms,
            ..s0
        };
        let s2 = ProtoWriterStateView { lease_duration_ms: message.lease_duration_ms, ..s1 };
        let s3 = ProtoWriterStateView {
            most_recent_write_token: message.most_recent_write_token,
            ..s2
        };
        let s4 = ProtoWriterStateView {
            most_recent_write_upper: message.most_recent_write_upper,
            ..s3
        };
        let s5 = ProtoWriterStateView { debug: message.debug, ..s4 };
        lemma_front::<Self>(
            s0,
            number_fields(1, message.last_heartbeat_timestamp_ms),
            r1,
            s1,
            limit,
        );
        lemma_front::<Self>(s1, number_fields(2, message.lease_duration_ms), r2, s2, limit);
        lemma_text_field(message.most_recent_write_token);
        assert(
            message.most_recent_write_token.len() == 0
                ==> message.most_recent_write_token =~= Seq::empty()
        );
        lemma_front::<Self>(s2, text_fields(3, message.most_recent_write_token), r3, s3, limit);
        lemma_front_fits(
            message_fields::<ProtoU64Antichain>(4, message.most_recent_write_upper),
            r4,
        );
        if let Some(most_recent_write_upper) = message.most_recent_write_upper {
            assert(
                message_fields::<ProtoU64Antichain>(
                    4,
                    message.most_recent_write_upper,
                )[0] == message_field::<ProtoU64Antichain>(4, most_recent_write_upper)
            );
            lemma_message_field::<ProtoU64Antichain>(4, most_recent_write_upper, limit);
        }
        lemma_front::<Self>(
            s3,
            message_fields::<ProtoU64Antichain>(4, message.most_recent_write_upper),
            r4,
            s4,
            limit,
        );
        lemma_front_fits(message_fields::<ProtoHandleDebugState>(5, message.debug), r5);
        if let Some(debug) = message.debug {
            assert(
                message_fields::<ProtoHandleDebugState>(
                    5,
                    message.debug,
                )[0] == message_field::<ProtoHandleDebugState>(5, debug)
            );
            lemma_message_field::<ProtoHandleDebugState>(5, debug, limit);
        }
        lemma_front::<Self>(
            s4,
            message_fields::<ProtoHandleDebugState>(5, message.debug),
            r5,
            s5,
            limit,
        );
        assert(s5 =~= message);
    }
}

} // verus!
