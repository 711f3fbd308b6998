//! The messages that a state is written as.

use vstd::prelude::*;

use crate::persist::proto::batch::{ProtoTrace, ProtoTraceView};
use crate::persist::proto::handle::{
    ProtoCriticalReaderState, ProtoCriticalReaderStateView, ProtoLeasedReaderState,
    ProtoLeasedReaderStateView, ProtoWriterState, ProtoWriterStateView,
};
use crate::proto::message::{
    all_writable, data_fields, element, encode_to_vec, encoded, get_message, get_number, get_text,
    lemma_front, lemma_front_fits, lemma_front_repeated, lemma_message_field, lemma_text_field,
    lemma_written, merge_message, message_field, message_fields, message_with, number_fields,
    number_of, option_view, put_data, put_message, put_messages, put_number, put_text, repeated,
    text_fields, text_of, views, with_fields, Message, Schema,
};
use crate::proto::wire::{fields_bytes, FieldView, Payload};

verus! {

/// A rollup, in a map by its number.
#[derive(Debug, PartialEq, Eq)]
pub struct ProtoRollup {
    pub seqno: u64,
    pub key: String,
}

/// The contents of a [`ProtoRollup`].
#[verifier::ext_equal]
pub struct ProtoRollupView {
    pub seqno: u64,
    pub key: Seq<char>,
}

impl View for ProtoRollup {
    type V = ProtoRollupView;

    open spec fn view(&self) -> ProtoRollupView {
        ProtoRollupView {
            seqno: self.seqno,
            key: self.key@,
        }
    }
}

impl Schema for ProtoRollup {
    open spec fn empty() -> ProtoRollupView {
        ProtoRollupView {
            seqno: 0,
            key: Seq::empty(),
        }
    }

    open spec fn with_field(
        message: ProtoRollupView,
        field: FieldView,
        limit: nat,
    ) -> Option<ProtoRollupView> {
        if field.tag == 1 {
            match number_of(field.payload) {
                Some(seqno) => Some(ProtoRollupView { seqno, ..message }),
                None => None,
            }
        } else if field.tag == 2 {
            match text_of(field.payload) {
                Some(key) => Some(ProtoRollupView { key, ..message }),
                None => None,
            }
        } else {
            Some(message)
        }
    }

    open spec fn fields(message: ProtoRollupView) -> Seq<FieldView> {
        number_fields(1, message.seqno)
            + (text_fields(2, message.key)
            + Seq::empty())
    }

    open spec fn well_formed(message: ProtoRollupView) -> bool {
        true
    }
}

impl Message for ProtoRollup {
    fn blank() -> ProtoRollup {
        ProtoRollup {
            seqno: 0,
            key: String::new(),
        }
    }

    fn merge_field(&mut self, tag: u32, payload: Payload<'_>, limit: u32) -> bool {
        if tag == 1 {
            match get_number(&payload) {
                Some(seqno) => {
                    self.seqno = seqno;
                    true
                },
                None => false,
            }
        } else if tag == 2 {
            match get_text(&payload) {
                Some(key) => {
                    self.key = key;
                    true
                },
                None => false,
            }
        } else {
            true
        }
    }

    fn write_fields(&self, buf: &mut Vec<u8>) {
        let ghost b0 = buf@;
        put_number(buf, 1, self.seqno);
        let ghost b1 = buf@;
        put_text(buf, 2, &self.key);
        proof {
            let message = self@;
            let r2 = Seq::<FieldView>::empty();
            let r1 = text_fields(2, message.key) + r2;
            lemma_written(b0, number_fields(1, message.seqno), r1);
            lemma_written(b1, text_fields(2, message.key), r2);
            assert(buf@ + fields_bytes(r2) =~= buf@);
        }
    }

    proof fn lemma_fields(message: ProtoRollupView, limit: nat) {
        let r2 = Seq::<FieldView>::empty();
        let r1 = text_fields(2, message.key) + r2;
        let s0 = Self::empty();
        let s1 = ProtoRollupView { seqno: message.seqno, ..s0 };
        let s2 = ProtoRollupView { key: message.key, ..s1 };
        lemma_front::<Self>(s0, number_fields(1, message.seqno), r1, s1, limit);
        lemma_text_field(message.key);
        assert(message.key.len() == 0 ==> message.key =~= Seq::empty());
        lemma_front::<Self>(s1, text_fields(2, message.key), r2, s2, limit);
        assert(s2 =~= message);
    }
}

/// Where the entry with a key stands.
pub open spec fn place_of<E, K>(entries: Seq<E>, key: spec_fn(E) -> K, k: K) -> Option<int>
    decreases entries.len(),
{
    if entries.len() == 0 {
        None
    } else if key(entries.last()) == k {
        Some(entries.len() - 1)
    } else {
        place_of(entries.drop_last(), key, k)
    }
}

/// The entries of a map after one more: it takes the place of the one with its key, if there is
/// one.
pub open spec fn with_entry<E, K>(entries: Seq<E>, key: spec_fn(E) -> K, entry: E) -> Seq<E> {
    match place_of(entries, key, key(entry)) {
        Some(place) => entries.update(place, entry),
        None => entries.push(entry),
    }
}

/// Whether no two entries have the same key.
pub open spec fn distinct<E, K>(entries: Seq<E>, key: spec_fn(E) -> K) -> bool {
    forall|i: int, j: int|
        0 <= i < j < entries.len() ==> key(#[trigger] entries[i]) != key(#[trigger] entries[j])
}

proof fn lemma_no_place<E, K>(entries: Seq<E>, key: spec_fn(E) -> K, k: K)
    requires
        forall|i: int| 0 <= i < entries.len() ==> key(#[trigger] entries[i]) != k,
    ensures
        place_of(entries, key, k) is None,
    decreases entries.len(),
{
    if entries.len() > 0 {
        lemma_no_place(entries.drop_last(), key, k);
    }
}

/// An entry with a new key comes last.
proof fn lemma_new_entry<E, K>(entries: Seq<E>, key: spec_fn(E) -> K, i: int)
    requires
        distinct(entries, key),
        0 <= i < entries.len(),
    ensures
        with_entry(entries.take(i), key, entries[i]) == entries.take(i + 1),
{
    lemma_no_place(entries.take(i), key, key(entries[i]));
    assert(entries.take(i).push(entries[i]) =~= entries.take(i + 1));
}

/// The key of a rollup.
pub open spec fn rollup_key() -> spec_fn(ProtoRollupView) -> u64 {
    |rollup: ProtoRollupView| rollup.seqno
}

fn get_rollup(rollups: &mut Vec<ProtoRollup>, payload: &Payload<'_>, limit: u32) -> (r: bool)
    ensures
        match message_with::<ProtoRollup>(None, payload@, limit as nat) {
            Some(rollup) => r && views(final(rollups)@) == with_entry(
                views(old(rollups)@),
                rollup_key(),
                rollup,
            ),
            None => !r,
        },
{
    let mut message: Option<ProtoRollup> = None;
    if !get_message(&mut message, payload, limit) {
        return false;
    }
    match message {
        Some(rollup) => {
            let ghost all = views(rollups@);
            let mut i: usize = rollups.len();
            assert(all.take(i as int) =~= all);
            while i > 0
                invariant
                    i <= rollups.len(),
                    rollups@ == old(rollups)@,
                    all == views(rollups@),
                    place_of(all, rollup_key(), rollup@.seqno) == place_of(
                        all.take(i as int),
                        rollup_key(),
                        rollup@.seqno,
                    ),
                    message_with::<ProtoRollup>(None, payload@, limit as nat) == Some(rollup@),
                decreases i,
            {
                i = i - 1;
                assert(all.take(i + 1).drop_last() =~= all.take(i as int));
                if rollups[i].seqno == rollup.seqno {
                    rollups.set(i, rollup);
                    assert(views(rollups@) =~= all.update(i as int, rollup@));
                    return true;
                }
            }
            rollups.push(rollup);
            assert(views(rollups@) =~= all.push(rollup@));
            true
        },
        None => false,
    }
}

/// The state of something that has an id, in a map by its id.
#[derive(Debug, PartialEq, Eq)]
pub struct ProtoKeyed<M> {
    pub id: String,
    pub state: M,
}

/// The contents of a [`ProtoKeyed`].
#[verifier::ext_equal]
pub struct ProtoKeyedView<S> {
    pub id: Seq<char>,
    pub state: S,
}

impl<M: View> View for ProtoKeyed<M> {
    type V = ProtoKeyedView<M::V>;

    open spec fn view(&self) -> ProtoKeyedView<M::V> {
        ProtoKeyedView { id: self.id@, state: self.state@ }
    }
}

impl<M: Schema> Schema for ProtoKeyed<M> {
    open spec fn empty() -> ProtoKeyedView<M::V> {
        ProtoKeyedView { id: Seq::empty(), state: M::empty() }
    }

    open spec fn with_field(
        message: ProtoKeyedView<M::V>,
        field: FieldView,
        limit: nat,
    ) -> Option<ProtoKeyedView<M::V>> {
        if field.tag == 1 {
            match text_of(field.payload) {
                Some(id) => Some(ProtoKeyedView { id, ..message }),
                None => None,
            }
        } else if field.tag == 2 {
            match message_with::<M>(Some(message.state), field.payload, limit) {
                Some(state) => Some(ProtoKeyedView { state, ..message }),
                None => None,
            }
        } else {
            Some(message)
        }
    }

    open spec fn fields(message: ProtoKeyedView<M::V>) -> Seq<FieldView> {
        text_fields(1, message.id) + (data_fields(2, encoded::<M>(message.state)) + Seq::empty())
    }

    open spec fn well_formed(message: ProtoKeyedView<M::V>) -> bool {
        M::well_formed(message.state)
    }
}

impl<M: Message> Message for ProtoKeyed<M> {
    fn blank() -> ProtoKeyed<M> {
        ProtoKeyed { id: String::new(), state: M::blank() }
    }

    fn merge_field(&mut self, tag: u32, payload: Payload<'_>, limit: u32) -> bool {
        if tag == 1 {
            match get_text(&payload) {
                Some(id) => {
                    self.id = id;
                    true
                },
                None => false,
            }
        } else if tag == 2 {
            merge_message(&mut self.state, &payload, limit)
        } else {
            true
        }
    }

    fn write_fields(&self, buf: &mut Vec<u8>) {
        let ghost b0 = buf@;
        put_text(buf, 1, &self.id);
        let ghost b1 = buf@;
        let state: Vec<u8> = encode_to_vec(&self.state);
        put_data(buf, 2, state.as_slice());
        proof {
            let message = self@;
            let r2 = Seq::<FieldView>::empty();
            let r1 = data_fields(2, encoded::<M>(message.state)) + r2;
            lemma_written(b0, text_fields(1, message.id), r1);
            lemma_written(b1, data_fields(2, encoded::<M>(message.state)), r2);
            assert(buf@ + fields_bytes(r2) =~= buf@);
        }
    }

    proof fn lemma_fields(message: ProtoKeyedView<M::V>, limit: nat) {
        let r2 = Seq::<FieldView>::empty();
        let r1 = data_fields(2, encoded::<M>(message.state)) + r2;
        let s0 = Self::empty();
        let s1 = ProtoKeyedView { id: message.id, ..s0 };
        lemma_text_field(message.id);
        assert(message.id.len() == 0 ==> message.id =~= Seq::empty());
        lemma_front::<Self>(s0, text_fields(1, message.id), r1, s1, limit);
        lemma_front_fits(data_fields(2, encoded::<M>(message.state)), r2);
        if encoded::<M>(message.state).len() > 0 {
            assert(data_fields(2, encoded::<M>(message.state))[0] == message_field::<M>(
                2,
                message.state,
            ));
        }
        lemma_message_field::<M>(2, message.state, limit);
        if encoded::<M>(message.state).len() == 0 {
            assert(encoded::<M>(message.state) =~= Seq::empty());
            assert(message.state == M::empty());
        }
        lemma_front::<Self>(s1, data_fields(2, encoded::<M>(message.state)), r2, message, limit);
    }
}

/// The key of a state that has an id.
pub open spec fn id_key<S>() -> spec_fn(ProtoKeyedView<S>) -> Seq<char> {
    |keyed: ProtoKeyedView<S>| keyed.id
}

fn get_entry<M: Message>(
    entries: &mut Vec<ProtoKeyed<M>>,
    payload: &Payload<'_>,
    limit: u32,
) -> (r: bool)
    ensures
        match message_with::<ProtoKeyed<M>>(None, payload@, limit as nat) {
            Some(entry) => r && views(final(entries)@) == with_entry(
                views(old(entries)@),
                id_key(),
                entry,
            ),
            None => !r,
        },
{
    let mut message: Option<ProtoKeyed<M>> = None;
    if !get_message(&mut message, payload, limit) {
        return false;
    }
    match message {
        Some(entry) => {
            let ghost all = views(entries@);
            let mut i: usize = entries.len();
            assert(all.take(i as int) =~= all);
            while i > 0
                invariant
                    i <= entries.len(),
                    entries@ == old(entries)@,
                    all == views(entries@),
                    place_of(all, id_key(), entry@.id) == place_of(
                        all.take(i as int),
                        id_key(),
                        entry@.id,
                    ),
                    message_with::<ProtoKeyed<M>>(None, payload@, limit as nat) == Some(entry@),
                decreases i,
            {
                i = i - 1;
                assert(all.take(i + 1).drop_last() =~= all.take(i as int));
                if entries[i].id == entry.id {
                    entries.set(i, entry);
                    assert(views(entries@) =~= all.update(i as int, entry@));
                    return true;
                }
            }
            entries.push(entry);
            assert(views(entries@) =~= all.push(entry@));
            true
        },
        None => false,
    }
}

/// The state of a shard.
#[derive(Debug, PartialEq, Eq)]
pub struct ProtoStateRollup {
    pub applier_version: String,
    pub shard_id: String,
    pub seqno: u64,
    pub hostname: String,
    pub key_codec: String,
    pub val_codec: String,
    pub ts_codec: String,
    pub diff_codec: String,
    pub last_gc_req: u64,
    pub rollups: Vec<ProtoRollup>,
    pub leased_readers: Vec<ProtoKeyed<ProtoLeasedReaderState>>,
    pub critical_readers: Vec<ProtoKeyed<ProtoCriticalReaderState>>,
    pub writers: Vec<ProtoKeyed<ProtoWriterState>>,
    pub trace: Option<ProtoTrace>,
}

/// The contents of a [`ProtoStateRollup`].
#[verifier::ext_equal]
pub struct ProtoStateRollupView {
    pub applier_version: Seq<char>,
    pub shard_id: Seq<char>,
    pub seqno: u64,
    pub hostname: Seq<char>,
    pub key_codec: Seq<char>,
    pub val_codec: Seq<char>,
    pub ts_codec: Seq<char>,
    pub diff_codec: Seq<char>,
    pub last_gc_req: u64,
    pub rollups: Seq<ProtoRollupView>,
    pub leased_readers: Seq<ProtoKeyedView<ProtoLeasedReaderStateView>>,
    pub critical_readers: Seq<ProtoKeyedView<ProtoCriticalReaderStateView>>,
    pub writers: Seq<ProtoKeyedView<ProtoWriterStateView>>,
    pub trace: Option<ProtoTraceView>,
}

impl View for ProtoStateRollup {
    type V = ProtoStateRollupView;

    open spec fn view(&self) -> ProtoStateRollupView {
        ProtoStateRollupView {
            applier_version: self.applier_version@,
            shard_id: self.shard_id@,
            seqno: self.seqno,
            hostname: self.hostname@,
            key_codec: self.key_codec@,
            val_codec: self.val_codec@,
            ts_codec: self.ts_codec@,
            diff_codec: self.diff_codec@,
            last_gc_req: self.last_gc_req,
            rollups: views(self.rollups@),
            leased_readers: views(self.leased_readers@),
            critical_readers: views(self.critical_readers@),
            writers: views(self.writers@),
            trace: option_view(self.trace),
        }
    }
}

impl Schema for ProtoStateRollup {
    open spec fn empty() -> ProtoStateRollupView {
        ProtoStateRollupView {
            applier_version: Seq::empty(),
            shard_id: Seq::empty(),
            seqno: 0,
            hostname: Seq::empty(),
            key_codec: Seq::empty(),
            val_codec: Seq::empty(),
            ts_codec: Seq::empty(),
            diff_codec: Seq::empty(),
            last_gc_req: 0,
            rollups: Seq::empty(),
            leased_readers: Seq::empty(),
            critical_readers: Seq::empty(),
            writers: Seq::empty(),
            trace: None,
        }
    }

    open spec fn with_field(
        message: ProtoStateRollupView,
        field: FieldView,
        limit: nat,
    ) -> Option<ProtoStateRollupView> {
        if field.tag == 1 {
            match text_of(field.payload) {
                Some(applier_version) => Some(ProtoStateRollupView { applier_version, ..message }),
                None => None,
            }
        } else if field.tag == 2 {
            match text_of(field.payload) {
                Some(shard_id) => Some(ProtoStateRollupView { shard_id, ..message }),
                None => None,
            }
        } else if field.tag == 3 {
            match number_of(field.payload) {
                Some(seqno) => Some(ProtoStateRollupView { seqno, ..message }),
                None => None,
            }
        } else if field.tag == 4 {
            match text_of(field.payload) {
                Some(hostname) => Some(ProtoStateRollupView { hostname, ..message }),
                None => None,
            }
        } else if field.tag == 5 {
            match text_of(field.payload) {
                Some(key_codec) => Some(ProtoStateRollupView { key_codec, ..message }),
                None => None,
            }
        } else if field.tag == 6 {
            match text_of(field.payload) {
                Some(val_codec) => Some(ProtoStateRollupView { val_codec, ..message }),
                None => None,
            }
        } else if field.tag == 7 {
            match text_of(field.payload) {
                Some(ts_codec) => Some(ProtoStateRollupView { ts_codec, ..message }),
                None => None,
            }
        } else if field.tag == 8 {
            match text_of(field.payload) {
                Some(diff_codec) => Some(ProtoStateRollupView { diff_codec, ..message }),
                None => None,
            }
        } else if field.tag == 9 {
            match number_of(field.payload) {
                Some(last_gc_req) => Some(ProtoStateRollupView { last_gc_req, ..message }),
                None => None,
            }
        } else if field.tag == 10 {
            match message_with::<ProtoRollup>(None, field.payload, limit) {
                Some(entry) => Some(
                    ProtoStateRollupView {
                        rollups: with_entry(message.rollups, rollup_key(), entry),
                        ..message
                    },
                ),
                None => None,
            }
        } else if field.tag == 11 {
            match message_with::<ProtoKeyed<ProtoLeasedReaderState>>(None, field.payload, limit) {
                Some(entry) => Some(
                    ProtoStateRollupView {
                        leased_readers: with_entry(message.leased_readers, id_key(), entry),
                        ..message
                    },
                ),
                None => None,
            }
        } else if field.tag == 12 {
            match message_with::<ProtoKeyed<ProtoCriticalReaderState>>(None, field.payload, limit) {
                Some(entry) => Some(
                    ProtoStateRollupView {
                        critical_readers: with_entry(message.critical_readers, id_key(), entry),
                        ..message
                    },
                ),
                None => None,
            }
        } else if field.tag == 13 {
            match message_with::<ProtoKeyed<ProtoWriterState>>(None, field.payload, limit) {
                Some(entry) => Some(
                    ProtoStateRollupView {
                        writers: with_entry(message.writers, id_key(), entry),
                        ..message
                    },
                ),
                None => None,
            }
        } else if field.tag == 14 {
            match message_with::<ProtoTrace>(message.trace, field.payload, limit) {
                Some(trace) => Some(ProtoStateRollupView { trace: Some(trace), ..message }),
                None => None,
            }
        } else {
            Some(message)
        }
    }

    open spec fn fields(message: ProtoStateRollupView) -> Seq<FieldView> {
        text_fields(1, message.applier_version)
            + (text_fields(2, message.shard_id)
            + (number_fields(3, message.seqno)
            + (text_fields(4, message.hostname)
            + (text_fields(5, message.key_codec)
            + (text_fields(6, message.val_codec)
            + (text_fields(7, message.ts_codec)
            + (text_fields(8, message.diff_codec)
            + (number_fields(9, message.last_gc_req)
            + (repeated(message.rollups, element::<ProtoRollup>(10))
            + (repeated(message.leased_readers, element::<ProtoKeyed<ProtoLeasedReaderState>>(11))
            + (repeated(message.critical_readers, element::<ProtoKeyed<ProtoCriticalReaderState>>(12))
            + (repeated(message.writers, element::<ProtoKeyed<ProtoWriterState>>(13))
            + (message_fields::<ProtoTrace>(14, message.trace)
            + Seq::empty())))))))))))))
    }

    open spec fn well_formed(message: ProtoStateRollupView) -> bool {
        &&& distinct(message.rollups, rollup_key())
        &&& distinct(message.leased_readers, id_key())
        &&& distinct(message.critical_readers, id_key())
        &&& distinct(message.writers, id_key())
    }
}

impl Message for ProtoStateRollup {
    fn blank() -> ProtoStateRollup {
        let message = ProtoStateRollup {
            applier_version: String::new(),
            shard_id: String::new(),
            seqno: 0,
            hostname: String::new(),
            key_codec: String::new(),
            val_codec: String::new(),
            ts_codec: String::new(),
            diff_codec: String::new(),
            last_gc_req: 0,
            rollups: Vec::new(),
            leased_readers: Vec::new(),
            critical_readers: Vec::new(),
            writers: Vec::new(),
            trace: None,
        };
        assert(message@ =~= Self::empty());
        message
    }

    fn merge_field(&mut self, tag: u32, payload: Payload<'_>, limit: u32) -> bool {
        if tag == 1 {
            match get_text(&payload) {
                Some(applier_version) => {
                    self.applier_version = applier_version;
                    true
                },
                None => false,
            }
        } else if tag == 2 {
            match get_text(&payload) {
                Some(shard_id) => {
                    self.shard_id = shard_id;
                    true
                },
                None => false,
            }
        } else if tag == 3 {
            match get_number(&payload) {
                Some(seqno) => {
                    self.seqno = seqno;
                    true
                },
                None => false,
            }
        } else if tag == 4 {
            match get_text(&payload) {
                Some(hostname) => {
                    self.hostname = hostname;
                    true
                },
                None => false,
            }
        } else if tag == 5 {
            match get_text(&payload) {
                Some(key_codec) => {
                    self.key_codec = key_codec;
                    true
                },
                None => false,
            }
        } else if tag == 6 {
            match get_text(&payload) {
                Some(val_codec) => {
                    self.val_codec = val_codec;
                    true
                },
                None => false,
            }
        } else if tag == 7 {
            match get_text(&payload) {
                Some(ts_codec) => {
                    self.ts_codec = ts_codec;
                    true
                },
                None => false,
            }
        } else if tag == 8 {
            match get_text(&payload) {
                Some(diff_codec) => {
                    self.diff_codec = diff_codec;
                    true
                },
                None => false,
            }
        } else if tag == 9 {
            match get_number(&payload) {
                Some(last_gc_req) => {
                    self.last_gc_req = last_gc_req;
                    true
                },
                None => false,
            }
        } else if tag == 10 {
            get_rollup(&mut self.rollups, &payload, limit)
        } else if tag == 11 {
            get_entry(&mut self.leased_readers, &payload, limit)
        } else if tag == 12 {
            get_entry(&mut self.critical_readers, &payload, limit)
        } else if tag == 13 {
            get_entry(&mut self.writers, &payload, limit)
        } else if tag == 14 {
            get_message(&mut self.trace, &payload, limit)
        } else {
            true
        }
    }

    fn write_fields(&self, buf: &mut Vec<u8>) {
        let ghost b0 = buf@;
        put_text(buf, 1, &self.applier_version);
        let ghost b1 = buf@;
        put_text(buf, 2, &self.shard_id);
        let ghost b2 = buf@;
        put_number(buf, 3, self.seqno);
        let ghost b3 = buf@;
        put_text(buf, 4, &self.hostname);
        let ghost b4 = buf@;
        put_text(buf, 5, &self.key_codec);
        let ghost b5 = buf@;
        put_text(buf, 6, &self.val_codec);
        let ghost b6 = buf@;
        put_text(buf, 7, &self.ts_codec);
        let ghost b7 = buf@;
        put_text(buf, 8, &self.diff_codec);
        let ghost b8 = buf@;
        put_number(buf, 9, self.last_gc_req);
        let ghost b9 = buf@;
        put_messages(buf, 10, &self.rollups);
        let ghost b10 = buf@;
        put_messages(buf, 11, &self.leased_readers);
        let ghost b11 = buf@;
        put_messages(buf, 12, &self.critical_readers);
        let ghost b12 = buf@;
        put_messages(buf, 13, &self.writers);
        let ghost b13 = buf@;
        put_message(buf, 14, &self.trace);
        proof {
            let message = self@;
            let r14 = Seq::<FieldView>::empty();
            let r13 = message_fields::<ProtoTrace>(14, message.trace) + r14;
            let r12 = repeated(message.writers, element::<ProtoKeyed<ProtoWriterState>>(13)) + r13;
            let r11 = repeated(
                message.critical_readers,
                element::<ProtoKeyed<ProtoCriticalReaderState>>(12),
            ) + r12;
            let r10 = repeated(
                message.leased_readers,
                element::<ProtoKeyed<ProtoLeasedReaderState>>(11),
            ) + r11;
            let r9 = repeated(message.rollups, element::<ProtoRollup>(10)) + r10;
            let r8 = number_fields(9, message.last_gc_req) + r9;
            let r7 = text_fields(8, message.diff_codec) + r8;
            let r6 = text_fields(7, message.ts_codec) + r7;
            let r5 = text_fields(6, message.val_codec) + r6;
            let r4 = text_fields(5, message.key_codec) + r5;
            let r3 = text_fields(4, message.hostname) + r4;
            let r2 = number_fields(3, message.seqno) + r3;
            let r1 = text_fields(2, message.shard_id) + r2;
            lemma_written(b0, text_fields(1, message.applier_version), r1);
            lemma_written(b1, text_fields(2, message.shard_id), r2);
            lemma_written(b2, number_fields(3, message.seqno), r3);
            lemma_written(b3, text_fields(4, message.hostname), r4);
            lemma_written(b4, text_fields(5, message.key_codec), r5);
            lemma_written(b5, text_fields(6, message.val_codec), r6);
            lemma_written(b6, text_fields(7, message.ts_codec), r7);
            lemma_written(b7, text_fields(8, message.diff_codec), r8);
            lemma_written(b8, number_fields(9, message.last_gc_req), r9);
            lemma_written(b9, repeated(message.rollups, element::<ProtoRollup>(10)), r10);
            lemma_written(
                b10,
                repeated(message.leased_readers, element::<ProtoKeyed<ProtoLeasedReaderState>>(11)),
                r11,
            );
            lemma_written(
                b11,
                repeated(
                    message.critical_readers,
                    element::<ProtoKeyed<ProtoCriticalReaderState>>(12),
                ),
                r12,
            );
            lemma_written(
                b12,
                repeated(message.writers, element::<ProtoKeyed<ProtoWriterState>>(13)),
                r13,
            );
            lemma_written(b13, message_fields::<ProtoTrace>(14, message.trace), r14);
            assert(buf@ + fields_bytes(r14) =~= buf@);
        }
    }

    #[verifier::rlimit(60)]
    proof fn lemma_fields(message: ProtoStateRollupView, limit: nat) {
        let r14 = Seq::<FieldView>::empty();
        let r13 = message_fields::<ProtoTrace>(14, message.trace) + r14;
        let r12 = repeated(message.writers, element::<ProtoKeyed<ProtoWriterState>>(13)) + r13;
        let r11 = repeated(
            message.critical_readers,
            element::<ProtoKeyed<ProtoCriticalReaderState>>(12),
        ) + r12;
        let r10 = repeated(
            message.leased_readers,
            element::<ProtoKeyed<ProtoLeasedReaderState>>(11),
        ) + r11;
        let r9 = repeated(message.rollups, element::<ProtoRollup>(10)) + r10;
        let r8 = number_fields(9, message.last_gc_req) + r9;
        let r7 = text_fields(8, message.diff_codec) + r8;
        let r6 = text_fields(7, message.ts_codec) + r7;
        let r5 = text_fields(6, message.val_codec) + r6;
        let r4 = text_fields(5, message.key_codec) + r5;
        let r3 = text_fields(4, message.hostname) + r4;
        let r2 = number_fields(3, message.seqno) + r3;
        let r1 = text_fields(2, message.shard_id) + r2;
        let s0 = Self::empty();
        let s1 = ProtoStateRollupView { applier_version: message.applier_version, ..s0 };
        let s2 = ProtoStateRollupView { shard_id: message.shard_id, ..s1 };
        let s3 = ProtoStateRollupView { seqno: message.seqno, ..s2 };
        let s4 = ProtoStateRollupView { hostname: message.hostname, ..s3 };
        let s5 = ProtoStateRollupView { key_codec: message.key_codec, ..s4 };
        let s6 = ProtoStateRollupView { val_codec: message.val_codec, ..s5 };
        let s7 = ProtoStateRollupView { ts_codec: message.ts_codec, ..s6 };
        let s8 = ProtoStateRollupView { diff_codec: message.diff_codec, ..s7 };
        let s9 = ProtoStateRollupView { last_gc_req: message.last_gc_req, ..s8 };
        let s10 = ProtoStateRollupView { rollups: message.rollups, ..s9 };
        let s11 = ProtoStateRollupView { leased_readers: message.leased_readers, ..s10 };
        let s12 = ProtoStateRollupView { critical_readers: message.critical_readers, ..s11 };
        let s13 = ProtoStateRollupView { writers: message.writers, ..s12 };
        let s14 = ProtoStateRollupView { trace: message.trace, ..s13 };
        assert({
            &&& with_fields::<Self>(
                s0,
                text_fields(1, message.applier_version) + r1,
                limit,
            ) == with_fields::<Self>(
                s1,
                r1,
                limit,
            )
            &&& fields_bytes(r1).len() <= u64::MAX
            &&& all_writable(r1) ==> all_writable(text_fields(1, message.applier_version) + r1)
        }) by {
            lemma_text_field(message.applier_version);
            assert(message.applier_version.len() == 0 ==> message.applier_version =~= Seq::empty());
            lemma_front::<Self>(s0, text_fields(1, message.applier_version), r1, s1, limit);
        }
        assert({
            &&& with_fields::<Self>(
                s1,
                text_fields(2, message.shard_id) + r2,
                limit,
            ) == with_fields::<Self>(
                s2,
                r2,
                limit,
            )
            &&& fields_bytes(r2).len() <= u64::MAX
            &&& all_writable(r2) ==> all_writable(text_fields(2, message.shard_id) + r2)
        }) by {
            lemma_text_field(message.shard_id);
            assert(message.shard_id.len() == 0 ==> message.shard_id =~= Seq::empty());
            lemma_front::<Self>(s1, text_fields(2, message.shard_id), r2, s2, limit);
        }
        assert({
            &&& with_fields::<Self>(
                s2,
                number_fields(3, message.seqno) + r3,
                limit,
            ) == with_fields::<Self>(
                s3,
                r3,
                limit,
            )
            &&& fields_bytes(r3).len() <= u64::MAX
            &&& all_writable(r3) ==> all_writable(number_fields(3, message.seqno) + r3)
        }) by {
            lemma_front::<Self>(s2, number_fields(3, message.seqno), r3, s3, limit);
        }
        assert({
            &&& with_fields::<Self>(
                s3,
                text_fields(4, message.hostname) + r4,
                limit,
            ) == with_fields::<Self>(
                s4,
                r4,
                limit,
            )
            &&& fields_bytes(r4).len() <= u64::MAX
            &&& all_writable(r4) ==> all_writable(text_fields(4, message.hostname) + r4)
        }) by {
            lemma_text_field(message.hostname);
            assert(message.hostname.len() == 0 ==> message.hostname =~= Seq::empty());
            lemma_front::<Self>(s3, text_fields(4, message.hostname), r4, s4, limit);
        }
        assert({
            &&& with_fields::<Self>(
                s4,
                text_fields(5, message.key_codec) + r5,
                limit,
            ) == with_fields::<Self>(
                s5,
                r5,
                limit,
            )
            &&& fields_bytes(r5).len() <= u64::MAX
            &&& all_writable(r5) ==> all_writable(text_fields(5, message.key_codec) + r5)
        }) by {
            lemma_text_field(message.key_codec);
            assert(message.key_codec.len() == 0 ==> message.key_codec =~= Seq::empty());
            lemma_front::<Self>(s4, text_fields(5, message.key_codec), r5, s5, limit);
        }
        assert({
            &&& with_fields::<Self>(
                s5,
                text_fields(6, message.val_codec) + r6,
                limit,
            ) == with_fields::<Self>(
                s6,
                r6,
                limit,
            )
            &&& fields_bytes(r6).len() <= u64::MAX
            &&& all_writable(r6) ==> all_writable(text_fields(6, message.val_codec) + r6)
        }) by {
            lemma_text_field(message.val_codec);
            assert(message.val_codec.len() == 0 ==> message.val_codec =~= Seq::empty());
            lemma_front::<Self>(s5, text_fields(6, message.val_codec), r6, s6, limit);
        }
        assert({
            &&& with_fields::<Self>(
                s6,
                text_fields(7, message.ts_codec) + r7,
                limit,
            ) == with_fields::<Self>(
                s7,
                r7,
                limit,
            )
            &&& fields_bytes(r7).len() <= u64::MAX
            &&& all_writable(r7) ==> all_writable(text_fields(7, message.ts_codec) + r7)
        }) by {
            lemma_text_field(message.ts_codec);
            assert(message.ts_codec.len() == 0 ==> message.ts_codec =~= Seq::empty());
            lemma_front::<Self>(s6, text_fields(7, message.ts_codec), r7, s7, limit);
        }
        assert({
            &&& with_fields::<Self>(
                s7,
                text_fields(8, message.diff_codec) + r8,
                limit,
            ) == with_fields::<Self>(
                s8,
                r8,
                limit,
            )
            &&& fields_bytes(r8).len() <= u64::MAX
            &&& all_writable(r8) ==> all_writable(text_fields(8, message.diff_codec) + r8)
        }) by {
            lemma_text_field(message.diff_codec);
            assert(message.diff_codec.len() == 0 ==> message.diff_codec =~= Seq::empty());
            lemma_front::<Self>(s7, text_fields(8, message.diff_codec), r8, s8, limit);
        }
        assert({
            &&& with_fields::<Self>(
                s8,
                number_fields(9, message.last_gc_req) + r9,
                limit,
            ) == with_fields::<Self>(
                s9,
                r9,
                limit,
            )
            &&& fields_bytes(r9).len() <= u64::MAX
            &&& all_writable(r9) ==> all_writable(number_fields(9, message.last_gc_req) + r9)
        }) by {
            lemma_front::<Self>(s8, number_fields(9, message.last_gc_req), r9, s9, limit);
        }
        assert({
            &&& with_fields::<Self>(
                s9,
                repeated(message.rollups, element::<ProtoRollup>(10)) + r10,
                limit,
            ) == with_fields::<Self>(
                s10,
                r10,
                limit,
            )
            &&& fields_bytes(r10).len() <= u64::MAX
            &&& all_writable(r10) ==> all_writable(
                repeated(message.rollups, element::<ProtoRollup>(10)) + r10,
            )
        }) by {
            let state = |done: Seq<ProtoRollupView>| ProtoStateRollupView { rollups: done, ..s9 };
            assert forall|i: int|
                0 <= i < message.rollups.len() implies #[trigger] Self::with_field(
                state(message.rollups.take(i)),
                element::<ProtoRollup>(10)(message.rollups[i]),
                limit,
            ) == Some(state(message.rollups.take(i + 1))) by {
                lemma_front_fits(repeated(message.rollups, element::<ProtoRollup>(10)), r10);
                assert(
                    repeated(
                        message.rollups,
                        element::<ProtoRollup>(10),
                    )[i] == message_field::<ProtoRollup>(10, message.rollups[i])
                );
                lemma_message_field::<ProtoRollup>(10, message.rollups[i], limit);
                lemma_new_entry(message.rollups, rollup_key(), i);
                assert(
                    message.rollups.take(i).push(message.rollups[i]) =~= message.rollups.take(i + 1)
                );
            }
            assert(state(Seq::empty()) =~= s9);
            lemma_front_repeated::<Self, ProtoRollupView>(
                message.rollups,
                element::<ProtoRollup>(10),
                state,
                r10,
                limit,
            );
        }
        assert({
            &&& with_fields::<Self>(
                s10,
                repeated(
                    message.leased_readers,
                    element::<ProtoKeyed<ProtoLeasedReaderState>>(11),
                ) + r11,
                limit,
            ) == with_fields::<Self>(
                s11,
                r11,
                limit,
            )
            &&& fields_bytes(r11).len() <= u64::MAX
            &&& all_writable(r11) ==> all_writable(
                repeated(
                    message.leased_readers,
                    element::<ProtoKeyed<ProtoLeasedReaderState>>(11),
                ) + r11,
            )
        }) by {
            let state = |done: Seq<ProtoKeyedView<ProtoLeasedReaderStateView>>|
                ProtoStateRollupView {
                leased_readers: done,
                ..s10
            };
            assert forall|i: int|
                0 <= i < message.leased_readers.len() implies #[trigger] Self::with_field(
                state(message.leased_readers.take(i)),
                element::<ProtoKeyed<ProtoLeasedReaderState>>(11)(message.leased_readers[i]),
                limit,
            ) == Some(state(message.leased_readers.take(i + 1))) by {
                lemma_front_fits(
                    repeated(
                        message.leased_readers,
                        element::<ProtoKeyed<ProtoLeasedReaderState>>(11),
                    ),
                    r11,
                );
                assert(
                    repeated(
                        message.leased_readers,
                        element::<ProtoKeyed<ProtoLeasedReaderState>>(11),
                    )[i] == message_field::<ProtoKeyed<ProtoLeasedReaderState>>(
                        11,
                        message.leased_readers[i],
                    )
                );
                lemma_message_field::<ProtoKeyed<ProtoLeasedReaderState>>(
                    11,
                    message.leased_readers[i],
                    limit,
                );
                lemma_new_entry(message.leased_readers, id_key(), i);
                assert(
                    message.leased_readers.take(i).push(
                        message.leased_readers[i],
                    ) =~= message.leased_readers.take(i + 1)
                );
            }
            assert(state(Seq::empty()) =~= s10);
            lemma_front_repeated::<Self, ProtoKeyedView<ProtoLeasedReaderStateView>>(
                message.leased_readers,
                element::<ProtoKeyed<ProtoLeasedReaderState>>(11),
                state,
                r11,
                limit,
            );
        }
        assert({
            &&& with_fields::<Self>(
                s11,
                repeated(
                    message.critical_readers,
                    element::<ProtoKeyed<ProtoCriticalReaderState>>(12),
                ) + r12,
                limit,
            ) == with_fields::<Self>(
                s12,
                r12,
                limit,
            )
            &&& fields_bytes(r12).len() <= u64::MAX
            &&& all_writable(r12) ==> all_writable(
                repeated(
                    message.critical_readers,
                    element::<ProtoKeyed<ProtoCriticalReaderState>>(12),
                ) + r12,
            )
        }) by {
            let state = |done: Seq<ProtoKeyedView<ProtoCriticalReaderStateView>>|
                ProtoStateRollupView {
                critical_readers: done,
                ..s11
            };
            assert forall|i: int|
                0 <= i < message.critical_readers.len() implies #[trigger] Self::with_field(
                state(message.critical_readers.take(i)),
                element::<ProtoKeyed<ProtoCriticalReaderState>>(12)(message.critical_readers[i]),
                limit,
            ) == Some(state(message.critical_readers.take(i + 1))) by {
                lemma_front_fits(
                    repeated(
                        message.critical_readers,
                        element::<ProtoKeyed<ProtoCriticalReaderState>>(12),
                    ),
                    r12,
                );
                assert(
                    repeated(
                        message.critical_readers,
                        element::<ProtoKeyed<ProtoCriticalReaderState>>(12),
                    )[i] == message_field::<ProtoKeyed<ProtoCriticalReaderState>>(
                        12,
                        message.critical_readers[i],
                    )
                );
                lemma_message_field::<ProtoKeyed<ProtoCriticalReaderState>>(
                    12,
                    message.critical_readers[i],
                    limit,
                );
                lemma_new_entry(message.critical_readers, id_key(), i);
                assert(
                    message.critical_readers.take(i).push(
                        message.critical_readers[i],
                    ) =~= message.critical_readers.take(i + 1)
                );
            }
            assert(state(Seq::empty()) =~= s11);
            lemma_front_repeated::<Self, ProtoKeyedView<ProtoCriticalReaderStateView>>(
                message.critical_readers,
                element::<ProtoKeyed<ProtoCriticalReaderState>>(12),
                state,
                r12,
                limit,
            );
        }
        assert({
            &&& with_fields::<Self>(
                s12,
                repeated(message.writers, element::<ProtoKeyed<ProtoWriterState>>(13)) + r13,
                limit,
            ) == with_fields::<Self>(
                s13,
                r13,
                limit,
            )
            &&& fields_bytes(r13).len() <= u64::MAX
            &&& all_writable(r13) ==> all_writable(
                repeated(message.writers, element::<ProtoKeyed<ProtoWriterState>>(13)) + r13,
            )
        }) by {
            let state = |done: Seq<ProtoKeyedView<ProtoWriterStateView>>| ProtoStateRollupView {
                writers: done,
                ..s12
            };
            assert forall|i: int|
                0 <= i < message.writers.len() implies #[trigger] Self::with_field(
                state(message.writers.take(i)),
                element::<ProtoKeyed<ProtoWriterState>>(13)(message.writers[i]),
                limit,
            ) == Some(state(message.writers.take(i + 1))) by {
                lemma_front_fits(
                    repeated(message.writers, element::<ProtoKeyed<ProtoWriterState>>(13)),
                    r13,
                );
                assert(
                    repeated(
                        message.writers,
                        element::<ProtoKeyed<ProtoWriterState>>(13),
                    )[i] == message_field::<ProtoKeyed<ProtoWriterState>>(13, message.writers[i])
                );
                lemma_message_field::<ProtoKeyed<ProtoWriterState>>(13, message.writers[i], limit);
                lemma_new_entry(message.writers, id_key(), i);
                assert(
                    message.writers.take(i).push(message.writers[i]) =~= message.writers.take(i + 1)
                );
            }
            assert(state(Seq::empty()) =~= s12);
            lemma_front_repeated::<Self, ProtoKeyedView<ProtoWriterStateView>>(
                message.writers,
                element::<ProtoKeyed<ProtoWriterState>>(13),
                state,
                r13,
                limit,
            );
        }
        assert({
            &&& with_fields::<Self>(
                s13,
                message_fields::<ProtoTrace>(14, message.trace) + r14,
                limit,
            ) == with_fields::<Self>(
                s14,
                r14,
                limit,
            )
            &&& fields_bytes(r14).len() <= u64::MAX
            &&& all_writable(r14) ==> all_writable(
                message_fields::<ProtoTrace>(14, message.trace) + r14,
            )
        }) by {
            lemma_front_fits(message_fields::<ProtoTrace>(14, message.trace), r14);
            if let Some(trace) = message.trace {
                assert(
                    message_fields::<ProtoTrace>(
                        14,
                        message.trace,
                    )[0] == message_field::<ProtoTrace>(14, trace)
                );
                lemma_message_field::<ProtoTrace>(14, trace, limit);
            }
            lemma_front::<Self>(
                s13,
                message_fields::<ProtoTrace>(14, message.trace),
                r14,
                s14,
                limit,
            );
        }
        assert(s14 =~= message);
    }
}

} // verus!
