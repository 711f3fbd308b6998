//! Differences between the entries of a field, as values and as bytes.

use vstd::prelude::*;

use crate::persist::error::{TryFromProtoError, TryFromProtoErrorView};
use crate::persist::field_diffs::{
    field_number, raw_fits, with_raw, with_raws, ProtoStateField, ProtoStateFieldDiff,
    ProtoStateFieldDiffType, RawDiff,
};
use crate::persist::proto::diff::ProtoStateFieldDiffs;
use crate::proto::message::{decode, decoded, Message, Schema};
use crate::proto::wire::decode_error_text;

verus! {

/// What has happened to the value of an entry.
#[derive(Debug, PartialEq, Eq)]
pub enum StateFieldValDiff<V> {
    Insert(V),
    Update(V, V),
    Delete(V),
}

/// What has happened to an entry of a field.
#[derive(Debug, PartialEq, Eq)]
pub struct StateFieldDiff<K, V> {
    pub key: K,
    pub val: StateFieldValDiff<V>,
}

/// The contents of a difference, by the contents of keys and values.
pub open spec fn diff_view<K, V, A, B>(
    diff: StateFieldDiff<K, V>,
    key: spec_fn(K) -> A,
    value: spec_fn(V) -> B,
) -> StateFieldDiff<A, B> {
    StateFieldDiff {
        key: key(diff.key),
        val: match diff.val {
            StateFieldValDiff::Insert(to) => StateFieldValDiff::Insert(value(to)),
            StateFieldValDiff::Update(from, to) => StateFieldValDiff::Update(
                value(from),
                value(to),
            ),
            StateFieldValDiff::Delete(from) => StateFieldValDiff::Delete(value(from)),
        },
    }
}

/// The contents of differences.
pub open spec fn diffs_view<K, V, A, B>(
    diffs: Seq<StateFieldDiff<K, V>>,
    key: spec_fn(K) -> A,
    value: spec_fn(V) -> B,
) -> Seq<StateFieldDiff<A, B>> {
    Seq::new(diffs.len(), |i: int| diff_view(diffs[i], key, value))
}

/// A difference as bytes, by its key and values as bytes.
pub open spec fn raw_of<A, B>(
    field: ProtoStateField,
    diff: StateFieldDiff<A, B>,
    key: spec_fn(A) -> Seq<u8>,
    value: spec_fn(B) -> Seq<u8>,
) -> RawDiff {
    match diff.val {
        StateFieldValDiff::Insert(to) => RawDiff {
            field: field_number(field),
            diff_type: ProtoStateFieldDiffType::Insert,
            key: key(diff.key),
            from: Seq::empty(),
            to: value(to),
        },
        StateFieldValDiff::Update(from, to) => RawDiff {
            field: field_number(field),
            diff_type: ProtoStateFieldDiffType::Update,
            key: key(diff.key),
            from: value(from),
            to: value(to),
        },
        StateFieldValDiff::Delete(from) => RawDiff {
            field: field_number(field),
            diff_type: ProtoStateFieldDiffType::Delete,
            key: key(diff.key),
            from: value(from),
            to: Seq::empty(),
        },
    }
}

/// Differences as bytes.
pub open spec fn raws_of<A, B>(
    field: ProtoStateField,
    diffs: Seq<StateFieldDiff<A, B>>,
    key: spec_fn(A) -> Seq<u8>,
    value: spec_fn(B) -> Seq<u8>,
) -> Seq<RawDiff> {
    Seq::new(diffs.len(), |i: int| raw_of(field, diffs[i], key, value))
}

/// Whether `bytes` are what a function returns for a value.
pub open spec fn returned<X, F: Fn(&X) -> Vec<u8>>(f: F, value: X, bytes: Seq<u8>) -> bool {
    exists|out: Vec<u8>| #[trigger] call_ensures(f, (&value,), out) && out@ == bytes
}

/// Whether a difference is written as `raw` by functions that write its key and its values.
pub open spec fn written_as<K, V, KFn: Fn(&K) -> Vec<u8>, VFn: Fn(&V) -> Vec<u8>>(
    field: ProtoStateField,
    diff: StateFieldDiff<K, V>,
    k_fn: KFn,
    v_fn: VFn,
    raw: RawDiff,
) -> bool {
    &&& raw.field == field_number(field)
    &&& returned(k_fn, diff.key, raw.key)
    &&& match diff.val {
        StateFieldValDiff::Insert(to) => {
            &&& raw.diff_type is Insert
            &&& raw.from.len() == 0
            &&& returned(v_fn, to, raw.to)
        },
        StateFieldValDiff::Update(from, to) => {
            &&& raw.diff_type is Update
            &&& returned(v_fn, from, raw.from)
            &&& returned(v_fn, to, raw.to)
        },
        StateFieldValDiff::Delete(from) => {
            &&& raw.diff_type is Delete
            &&& returned(v_fn, from, raw.from)
            &&& raw.to.len() == 0
        },
    }
}

/// Whether differences are written as `raws`, one by one.
pub open spec fn all_written_as<K, V, KFn: Fn(&K) -> Vec<u8>, VFn: Fn(&V) -> Vec<u8>>(
    field: ProtoStateField,
    diffs: Seq<StateFieldDiff<K, V>>,
    k_fn: KFn,
    v_fn: VFn,
    raws: Seq<RawDiff>,
) -> bool {
    &&& raws.len() == diffs.len()
    &&& forall|i: int|
        0 <= i < diffs.len() ==> written_as(field, diffs[i], k_fn, v_fn, #[trigger] raws[i])
}

/// Packs a difference.
pub fn field_diff_into_proto<K, V, KFn, VFn>(
    field: ProtoStateField,
    diff: &StateFieldDiff<K, V>,
    proto: &mut ProtoStateFieldDiffs,
    k_fn: &KFn,
    v_fn: &VFn,
) where KFn: Fn(&K) -> Vec<u8>, VFn: Fn(&V) -> Vec<u8>
    requires
        forall|k: &K| call_requires(*k_fn, (k,)),
        forall|v: &V| call_requires(*v_fn, (v,)),
    ensures
        exists|raw: RawDiff| #[trigger]
            written_as(field, *diff, *k_fn, *v_fn, raw) && final(proto)@ == with_raw(
                old(proto)@,
                raw,
            ),
{
    let ghost before = proto@;
    proto.fields.push(field.number());
    let key: Vec<u8> = k_fn(&diff.key);
    let ghost k = key@;
    assert(returned(*k_fn, diff.key, k));
    proto.push_data(key);
    let ghost empty = Seq::<u8>::empty();
    match &diff.val {
        StateFieldValDiff::Insert(to) => {
            proto.diff_types.push(ProtoStateFieldDiffType::Insert.number());
            let to_bytes: Vec<u8> = v_fn(to);
            let ghost raw = RawDiff {
                field: field_number(field),
                diff_type: ProtoStateFieldDiffType::Insert,
                key: k,
                from: empty,
                to: to_bytes@,
            };
            assert(returned(*v_fn, *to, to_bytes@));
            proto.push_data(to_bytes);
            assert(proto@ =~= with_raw(before, raw));
            assert(written_as(field, *diff, *k_fn, *v_fn, raw));
        },
        StateFieldValDiff::Update(from, to) => {
            proto.diff_types.push(ProtoStateFieldDiffType::Update.number());
            let from_bytes: Vec<u8> = v_fn(from);
            let ghost f = from_bytes@;
            assert(returned(*v_fn, *from, f));
            proto.push_data(from_bytes);
            let to_bytes: Vec<u8> = v_fn(to);
            let ghost raw = RawDiff {
                field: field_number(field),
                diff_type: ProtoStateFieldDiffType::Update,
                key: k,
                from: f,
                to: to_bytes@,
            };
            assert(returned(*v_fn, *to, to_bytes@));
            proto.push_data(to_bytes);
            assert(proto@ =~= with_raw(before, raw));
            assert(written_as(field, *diff, *k_fn, *v_fn, raw));
        },
        StateFieldValDiff::Delete(from) => {
            proto.diff_types.push(ProtoStateFieldDiffType::Delete.number());
            let from_bytes: Vec<u8> = v_fn(from);
            let ghost raw = RawDiff {
                field: field_number(field),
                diff_type: ProtoStateFieldDiffType::Delete,
                key: k,
                from: from_bytes@,
                to: empty,
            };
            assert(returned(*v_fn, *from, from_bytes@));
            proto.push_data(from_bytes);
            assert(proto@ =~= with_raw(before, raw));
            assert(written_as(field, *diff, *k_fn, *v_fn, raw));
        },
    }
}

/// Packs differences.
pub fn field_diffs_into_proto<K, V, KFn, VFn>(
    field: ProtoStateField,
    diffs: &Vec<StateFieldDiff<K, V>>,
    proto: &mut ProtoStateFieldDiffs,
    k_fn: &KFn,
    v_fn: &VFn,
) where KFn: Fn(&K) -> Vec<u8>, VFn: Fn(&V) -> Vec<u8>
    requires
        forall|k: &K| call_requires(*k_fn, (k,)),
        forall|v: &V| call_requires(*v_fn, (v,)),
    ensures
        exists|raws: Seq<RawDiff>| #[trigger]
            all_written_as(field, diffs@, *k_fn, *v_fn, raws) && final(proto)@ == with_raws(
                old(proto)@,
                raws,
            ),
{
    let ghost mut raws: Seq<RawDiff> = Seq::empty();
    let mut i: usize = 0;
    while i < diffs.len()
        invariant
            forall|k: &K| call_requires(*k_fn, (k,)),
            forall|v: &V| call_requires(*v_fn, (v,)),
            i <= diffs.len(),
            all_written_as(field, diffs@.take(i as int), *k_fn, *v_fn, raws),
            proto@ == with_raws(old(proto)@, raws),
        decreases diffs.len() - i,
    {
        let ghost before = proto@;
        field_diff_into_proto(field, &diffs[i], proto, k_fn, v_fn);
        proof {
            let raw = choose|raw: RawDiff| #[trigger]
                written_as(field, diffs@[i as int], *k_fn, *v_fn, raw) && proto@ == with_raw(
                    before,
                    raw,
                );
            let more = raws.push(raw);
            assert(more.drop_last() =~= raws);
            assert forall|j: int| 0 <= j < i + 1 implies written_as(
                field,
                diffs@.take(i + 1)[j],
                *k_fn,
                *v_fn,
                #[trigger] more[j],
            ) by {
                if j < i {
                    assert(more[j] == raws[j]);
                    assert(diffs@.take(i + 1)[j] == diffs@.take(i as int)[j]);
                }
            }
            raws = more;
        }
        i = i + 1;
    }
    assert(diffs@.take(i as int) =~= diffs@);
    assert(all_written_as(field, diffs@, *k_fn, *v_fn, raws));
}

/// Differences are written as their keys and values are, if those are written in one way only.
pub proof fn lemma_written<K, V, KFn: Fn(&K) -> Vec<u8>, VFn: Fn(&V) -> Vec<u8>, A, B>(
    field: ProtoStateField,
    diffs: Seq<StateFieldDiff<K, V>>,
    k_fn: KFn,
    v_fn: VFn,
    raws: Seq<RawDiff>,
    key_view: spec_fn(K) -> A,
    value_view: spec_fn(V) -> B,
    key: spec_fn(A) -> Seq<u8>,
    value: spec_fn(B) -> Seq<u8>,
    key_reads: spec_fn(A) -> bool,
    value_reads: spec_fn(B) -> bool,
)
    requires
        all_written_as(field, diffs, k_fn, v_fn, raws),
        forall|k: K, out: Vec<u8>| #[trigger]
            call_ensures(k_fn, (&k,), out) ==> out@ == key(key_view(k)) && key_reads(key_view(k)),
        forall|v: V, out: Vec<u8>| #[trigger]
            call_ensures(v_fn, (&v,), out) ==> out@ == value(value_view(v)) && value_reads(
                value_view(v),
            ),
    ensures
        raws == raws_of(field, diffs_view(diffs, key_view, value_view), key, value),
        forall|i: int| 0 <= i < raws.len() ==> raw_fits(#[trigger] raws[i]),
        all_read(diffs_view(diffs, key_view, value_view), key_reads, value_reads),
{
    let views = diffs_view(diffs, key_view, value_view);
    assert forall|i: int| 0 <= i < diffs.len() implies {
        &&& #[trigger] raws[i] == raw_of(field, views[i], key, value)
        &&& raw_fits(raws[i])
        &&& diff_reads(views[i], key_reads, value_reads)
    } by {
        let raw = raws[i];
        assert(written_as(field, diffs[i], k_fn, v_fn, raw));
        let k = choose|out: Vec<u8>| #[trigger]
            call_ensures(k_fn, (&diffs[i].key,), out) && out@ == raw.key;
        assert(k@.len() == k.len());
        match diffs[i].val {
            StateFieldValDiff::Insert(to) => {
                let t = choose|out: Vec<u8>| #[trigger]
                    call_ensures(v_fn, (&to,), out) && out@ == raw.to;
                assert(t@.len() == t.len());
                assert(raw.from =~= Seq::empty());
            },
            StateFieldValDiff::Update(from, to) => {
                let f = choose|out: Vec<u8>| #[trigger]
                    call_ensures(v_fn, (&from,), out) && out@ == raw.from;
                assert(f@.len() == f.len());
                let t = choose|out: Vec<u8>| #[trigger]
                    call_ensures(v_fn, (&to,), out) && out@ == raw.to;
                assert(t@.len() == t.len());
            },
            StateFieldValDiff::Delete(from) => {
                let f = choose|out: Vec<u8>| #[trigger]
                    call_ensures(v_fn, (&from,), out) && out@ == raw.from;
                assert(f@.len() == f.len());
                assert(raw.to =~= Seq::empty());
            },
        }
        assert(raw =~= raw_of(field, views[i], key, value));
    }
    assert(raws =~= raws_of(field, views, key, value));
    assert forall|i: int| 0 <= i < views.len() implies diff_reads(
        #[trigger] views[i],
        key_reads,
        value_reads,
    ) by {
        assert(raws[i] == raw_of(field, views[i], key, value));
    }
}

/// Whether something holds of the key and the values of a difference.
pub open spec fn diff_reads<A, B>(
    diff: StateFieldDiff<A, B>,
    key: spec_fn(A) -> bool,
    value: spec_fn(B) -> bool,
) -> bool {
    &&& key(diff.key)
    &&& match diff.val {
        StateFieldValDiff::Insert(to) => value(to),
        StateFieldValDiff::Update(from, to) => value(from) && value(to),
        StateFieldValDiff::Delete(from) => value(from),
    }
}

/// Whether something holds of the keys and the values of differences.
pub open spec fn all_read<A, B>(
    diffs: Seq<StateFieldDiff<A, B>>,
    key: spec_fn(A) -> bool,
    value: spec_fn(B) -> bool,
) -> bool {
    forall|i: int| 0 <= i < diffs.len() ==> diff_reads(#[trigger] diffs[i], key, value)
}

/// The error for bytes that are no message.
pub open spec fn undecodable() -> TryFromProtoErrorView {
    TryFromProtoErrorView::InvalidPersistState(decode_error_text())
}

/// The key that bytes stand for, with what has happened to its value.
pub open spec fn key_read<KP: Schema, A, B>(
    bytes: Seq<u8>,
    key: spec_fn(KP::V) -> Result<A, TryFromProtoErrorView>,
    val: StateFieldValDiff<B>,
) -> Result<StateFieldDiff<A, B>, TryFromProtoErrorView> {
    match decoded::<KP>(bytes) {
        None => Err(undecodable()),
        Some(proto) => match key(proto) {
            Ok(key) => Ok(StateFieldDiff { key, val }),
            Err(err) => Err(err),
        },
    }
}

/// The difference that bytes stand for: the messages in them are decoded, and turned into a key
/// and values.
pub open spec fn diff_read<KP: Schema, VP: Schema, A, B>(
    raw: RawDiff,
    key: spec_fn(KP::V) -> Result<A, TryFromProtoErrorView>,
    value: spec_fn(VP::V) -> Result<B, TryFromProtoErrorView>,
) -> Result<StateFieldDiff<A, B>, TryFromProtoErrorView> {
    match raw.diff_type {
        ProtoStateFieldDiffType::Insert => match decoded::<VP>(raw.to) {
            None => Err(undecodable()),
            Some(to) => match value(to) {
                Ok(to) => key_read::<KP, A, B>(raw.key, key, StateFieldValDiff::Insert(to)),
                Err(err) => Err(err),
            },
        },
        ProtoStateFieldDiffType::Update => match decoded::<VP>(raw.from) {
            None => Err(undecodable()),
            Some(from) => match decoded::<VP>(raw.to) {
                None => Err(undecodable()),
                Some(to) => match value(from) {
                    Ok(from) => match value(to) {
                        Ok(to) => key_read::<KP, A, B>(
                            raw.key,
                            key,
                            StateFieldValDiff::Update(from, to),
                        ),
                        Err(err) => Err(err),
                    },
                    Err(err) => Err(err),
                },
            },
        },
        ProtoStateFieldDiffType::Delete => match decoded::<VP>(raw.from) {
            None => Err(undecodable()),
            Some(from) => match value(from) {
                Ok(from) => key_read::<KP, A, B>(raw.key, key, StateFieldValDiff::Delete(from)),
                Err(err) => Err(err),
            },
        },
    }
}

/// Whether bytes that a value was written as are read as the value.
pub open spec fn reads<P: Schema, A>(
    bytes: Seq<u8>,
    of: spec_fn(P::V) -> Result<A, TryFromProtoErrorView>,
    value: A,
) -> bool {
    decoded::<P>(bytes) matches Some(proto) && of(proto) == Ok::<A, TryFromProtoErrorView>(value)
}

/// A difference is read as it was written, if its key and its values are.
pub proof fn lemma_diff_round_trip<KP: Schema, VP: Schema, A, B>(
    field: ProtoStateField,
    diff: StateFieldDiff<A, B>,
    key: spec_fn(A) -> Seq<u8>,
    value: spec_fn(B) -> Seq<u8>,
    key_of: spec_fn(KP::V) -> Result<A, TryFromProtoErrorView>,
    value_of: spec_fn(VP::V) -> Result<B, TryFromProtoErrorView>,
)
    requires
        diff_reads(
            diff,
            |a: A| reads::<KP, A>(key(a), key_of, a),
            |b: B| reads::<VP, B>(value(b), value_of, b),
        ),
    ensures
        diff_read::<KP, VP, A, B>(raw_of(field, diff, key, value), key_of, value_of) == Ok::<
            StateFieldDiff<A, B>,
            TryFromProtoErrorView,
        >(diff),
{
}

/// Whether a function may return `r` for some message with the given contents.
pub open spec fn turned<P: View, X, F: Fn(P) -> Result<X, TryFromProtoError>>(
    f: F,
    proto: P::V,
    r: Result<X, TryFromProtoError>,
) -> bool {
    exists|message: P| #[trigger] call_ensures(f, (message,), r) && message@ == proto
}

/// Turns a message into a value.
fn turn<P, X, F>(message: P, f: &F) -> (r: Result<X, TryFromProtoError>) where
    P: Message,
    F: Fn(P) -> Result<X, TryFromProtoError>,

    requires
        forall|p: P| call_requires(*f, (p,)),
    ensures
        turned::<P, X, F>(*f, message@, r),
{
    f(message)
}

/// Decodes a message, and turns it into a value.
fn read_value<P, X, F>(bytes: &[u8], f: &F) -> (r: Result<X, TryFromProtoError>) where
    P: Message,
    F: Fn(P) -> Result<X, TryFromProtoError>,

    requires
        forall|p: P| call_requires(*f, (p,)),
    ensures
        match decoded::<P>(bytes@) {
            None => r matches Err(err) && err@ == undecodable(),
            Some(proto) => turned::<P, X, F>(*f, proto, r),
        },
{
    match decode::<P>(bytes) {
        Ok(message) => turn(message, f),
        Err(err) => Err(TryFromProtoError::InvalidPersistState(err.text())),
    }
}

/// The contents of a result, by the contents of the value.
pub open spec fn result_by<X, A>(
    r: Result<X, TryFromProtoError>,
    view: spec_fn(X) -> A,
) -> Result<A, TryFromProtoErrorView> {
    match r {
        Ok(value) => Ok(view(value)),
        Err(err) => Err(err@),
    }
}

/// Whether a function returns what `of` says, for each message.
pub open spec fn turns_by<P: View, X, F: Fn(P) -> Result<X, TryFromProtoError>, A>(
    f: F,
    view: spec_fn(X) -> A,
    of: spec_fn(P::V) -> Result<A, TryFromProtoErrorView>,
) -> bool {
    forall|message: P, r: Result<X, TryFromProtoError>| #[trigger]
        call_ensures(f, (message,), r) ==> result_by(r, view) == of(message@)
}

/// Whether nothing was unpacked, because of an error.
pub open spec fn stopped<D>(
    before: Seq<D>,
    after: Seq<D>,
    r: Result<(), TryFromProtoError>,
    err: TryFromProtoErrorView,
) -> bool {
    after == before && (r matches Err(e) && e@ == err)
}

/// What becomes of differences when the key of one more is unpacked, and what has happened to its
/// value is known.
pub open spec fn key_unpacked<KP: Schema, K, V, KFn>(
    bytes: Seq<u8>,
    val: StateFieldValDiff<V>,
    before: Seq<StateFieldDiff<K, V>>,
    after: Seq<StateFieldDiff<K, V>>,
    r: Result<(), TryFromProtoError>,
    k_fn: KFn,
) -> bool where KFn: Fn(KP) -> Result<K, TryFromProtoError> {
    match decoded::<KP>(bytes) {
        None => stopped(before, after, r, undecodable()),
        Some(proto) => exists|k: Result<K, TryFromProtoError>| #[trigger]
            turned::<KP, K, KFn>(k_fn, proto, k) && match k {
                Ok(key) => r is Ok && after == before.push(StateFieldDiff { key, val }),
                Err(err) => stopped(before, after, r, err@),
            },
    }
}

/// What becomes of differences when the value after an update and the key of one more are
/// unpacked, and the value before is known.
pub open spec fn update_unpacked<KP: Schema, VP: Schema, K, V, KFn, VFn>(
    bytes: Seq<u8>,
    from: V,
    to: VP::V,
    before: Seq<StateFieldDiff<K, V>>,
    after: Seq<StateFieldDiff<K, V>>,
    r: Result<(), TryFromProtoError>,
    k_fn: KFn,
    v_fn: VFn,
) -> bool where
    KFn: Fn(KP) -> Result<K, TryFromProtoError>,
    VFn: Fn(VP) -> Result<V, TryFromProtoError>,
 {
    exists|v: Result<V, TryFromProtoError>| #[trigger]
        turned::<VP, V, VFn>(v_fn, to, v) && match v {
            Ok(to) => key_unpacked::<KP, K, V, KFn>(
                bytes,
                StateFieldValDiff::Update(from, to),
                before,
                after,
                r,
                k_fn,
            ),
            Err(err) => stopped(before, after, r, err@),
        }
}

/// What becomes of differences when the values before and after an update and the key of one more
/// are unpacked.
pub open spec fn from_unpacked<KP: Schema, VP: Schema, K, V, KFn, VFn>(
    bytes: Seq<u8>,
    from: VP::V,
    to: VP::V,
    before: Seq<StateFieldDiff<K, V>>,
    after: Seq<StateFieldDiff<K, V>>,
    r: Result<(), TryFromProtoError>,
    k_fn: KFn,
    v_fn: VFn,
) -> bool where
    KFn: Fn(KP) -> Result<K, TryFromProtoError>,
    VFn: Fn(VP) -> Result<V, TryFromProtoError>,
 {
    exists|v: Result<V, TryFromProtoError>| #[trigger]
        turned::<VP, V, VFn>(v_fn, from, v) && match v {
            Ok(value) => update_unpacked::<KP, VP, K, V, KFn, VFn>(
                bytes,
                value,
                to,
                before,
                after,
                r,
                k_fn,
                v_fn,
            ),
            Err(err) => stopped(before, after, r, err@),
        }
}

/// What becomes of differences when one more is unpacked, by functions that turn messages into
/// keys and values: it comes last, or the first thing that is wrong with it is an error.
pub open spec fn unpacked<KP: Schema, VP: Schema, K, V, KFn, VFn>(
    raw: RawDiff,
    before: Seq<StateFieldDiff<K, V>>,
    after: Seq<StateFieldDiff<K, V>>,
    r: Result<(), TryFromProtoError>,
    k_fn: KFn,
    v_fn: VFn,
) -> bool where
    KFn: Fn(KP) -> Result<K, TryFromProtoError>,
    VFn: Fn(VP) -> Result<V, TryFromProtoError>,
 {
    match raw.diff_type {
        ProtoStateFieldDiffType::Insert => match decoded::<VP>(raw.to) {
            None => stopped(before, after, r, undecodable()),
            Some(to) => exists|v: Result<V, TryFromProtoError>| #[trigger]
                turned::<VP, V, VFn>(v_fn, to, v) && match v {
                    Ok(to) => key_unpacked::<KP, K, V, KFn>(
                        raw.key,
                        StateFieldValDiff::Insert(to),
                        before,
                        after,
                        r,
                        k_fn,
                    ),
                    Err(err) => stopped(before, after, r, err@),
                },
        },
        ProtoStateFieldDiffType::Update => match decoded::<VP>(raw.from) {
            None => stopped(before, after, r, undecodable()),
            Some(from) => match decoded::<VP>(raw.to) {
                None => stopped(before, after, r, undecodable()),
                Some(to) => from_unpacked::<KP, VP, K, V, KFn, VFn>(
                    raw.key,
                    from,
                    to,
                    before,
                    after,
                    r,
                    k_fn,
                    v_fn,
                ),
            },
        },
        ProtoStateFieldDiffType::Delete => match decoded::<VP>(raw.from) {
            None => stopped(before, after, r, undecodable()),
            Some(from) => exists|v: Result<V, TryFromProtoError>| #[trigger]
                turned::<VP, V, VFn>(v_fn, from, v) && match v {
                    Ok(from) => key_unpacked::<KP, K, V, KFn>(
                        raw.key,
                        StateFieldValDiff::Delete(from),
                        before,
                        after,
                        r,
                        k_fn,
                    ),
                    Err(err) => stopped(before, after, r, err@),
                },
        },
    }
}

/// What is unpacked is what the contents of messages say, if the functions that turn them into
/// keys and values go by those.
pub proof fn lemma_unpacked<KP: Schema, VP: Schema, K, V, KFn, VFn, A, B>(
    raw: RawDiff,
    before: Seq<StateFieldDiff<K, V>>,
    after: Seq<StateFieldDiff<K, V>>,
    r: Result<(), TryFromProtoError>,
    k_fn: KFn,
    v_fn: VFn,
    key_view: spec_fn(K) -> A,
    value_view: spec_fn(V) -> B,
    key_of: spec_fn(KP::V) -> Result<A, TryFromProtoErrorView>,
    value_of: spec_fn(VP::V) -> Result<B, TryFromProtoErrorView>,
) where
    KFn: Fn(KP) -> Result<K, TryFromProtoError>,
    VFn: Fn(VP) -> Result<V, TryFromProtoError>,

    requires
        unpacked::<KP, VP, K, V, KFn, VFn>(raw, before, after, r, k_fn, v_fn),
        turns_by::<KP, K, KFn, A>(k_fn, key_view, key_of),
        turns_by::<VP, V, VFn, B>(v_fn, value_view, value_of),
    ensures
        match diff_read::<KP, VP, A, B>(raw, key_of, value_of) {
            Ok(diff) => r is Ok && diffs_view(after, key_view, value_view) == diffs_view(
                before,
                key_view,
                value_view,
            ).push(diff),
            Err(err) => stopped(before, after, r, err),
        },
{
    if after.len() == before.len() + 1 && after.drop_last() == before {
        assert(diffs_view(after, key_view, value_view) =~= diffs_view(
            before,
            key_view,
            value_view,
        ).push(diff_view(after.last(), key_view, value_view)));
    }
    if r is Ok {
        assert(after.drop_last() =~= before);
    }
}

fn unpack_key<KP, K, V, KFn>(
    bytes: &[u8],
    val: StateFieldValDiff<V>,
    diffs: &mut Vec<StateFieldDiff<K, V>>,
    k_fn: &KFn,
) -> (r: Result<(), TryFromProtoError>) where
    KP: Message,
    KFn: Fn(KP) -> Result<K, TryFromProtoError>,

    requires
        forall|p: KP| call_requires(*k_fn, (p,)),
    ensures
        key_unpacked::<KP, K, V, KFn>(bytes@, val, old(diffs)@, final(diffs)@, r, *k_fn),
{
    match read_value::<KP, K, KFn>(bytes, k_fn) {
        Ok(key) => {
            diffs.push(StateFieldDiff { key, val });
            Ok(())
        },
        Err(err) => Err(err),
    }
}

/// Unpacks a difference: decodes the messages in it, and turns them into a key and values.
pub fn field_diff_into_rust<KP, VP, K, V, KFn, VFn>(
    proto: ProtoStateFieldDiff<'_>,
    diffs: &mut Vec<StateFieldDiff<K, V>>,
    k_fn: &KFn,
    v_fn: &VFn,
) -> (r: Result<(), TryFromProtoError>) where
    KP: Message,
    VP: Message,
    KFn: Fn(KP) -> Result<K, TryFromProtoError>,
    VFn: Fn(VP) -> Result<V, TryFromProtoError>,

    requires
        forall|p: KP| call_requires(*k_fn, (p,)),
        forall|p: VP| call_requires(*v_fn, (p,)),
    ensures
        unpacked::<KP, VP, K, V, KFn, VFn>(
            proto@,
            old(diffs)@,
            final(diffs)@,
            r,
            *k_fn,
            *v_fn,
        ),
{
    match proto.diff_type {
        ProtoStateFieldDiffType::Insert => match read_value::<VP, V, VFn>(proto.to, v_fn) {
            Ok(to) => {
                assert(decoded::<VP>(proto.to@) is Some);
                unpack_key::<KP, K, V, KFn>(proto.key, StateFieldValDiff::Insert(to), diffs, k_fn)
            },
            Err(err) => Err(err),
        },
        ProtoStateFieldDiffType::Update => {
            let from: VP = match decode::<VP>(proto.from) {
                Ok(from) => from,
                Err(err) => {
                    return Err(TryFromProtoError::InvalidPersistState(err.text()));
                },
            };
            let to: VP = match decode::<VP>(proto.to) {
                Ok(to) => to,
                Err(err) => {
                    return Err(TryFromProtoError::InvalidPersistState(err.text()));
                },
            };
            let from: V = match turn::<VP, V, VFn>(from, v_fn) {
                Ok(from) => from,
                Err(err) => {
                    return Err(err);
                },
            };
            let to: V = match turn::<VP, V, VFn>(to, v_fn) {
                Ok(to) => to,
                Err(err) => {
                    return Err(err);
                },
            };
            unpack_key::<KP, K, V, KFn>(
                proto.key,
                StateFieldValDiff::Update(from, to),
                diffs,
                k_fn,
            )
        },
        ProtoStateFieldDiffType::Delete => match read_value::<VP, V, VFn>(proto.from, v_fn) {
            Ok(from) => {
                unpack_key::<KP, K, V, KFn>(
                    proto.key,
                    StateFieldValDiff::Delete(from),
                    diffs,
                    k_fn,
                )
            },
            Err(err) => Err(err),
        },
    }
}

} // verus!
