use mz_ingest::persist::antichain::{antichain_from_elem, write_antichain, Description};
use mz_ingest::persist::batch::{
    HollowBatch, HollowBatchPart, PartialBatchKey, PartialRollupKey, SeqNo,
};
use mz_ingest::persist::codec::{Codec, Codec64};
use mz_ingest::persist::diff_fields::{
    field_diff_into_proto, field_diff_into_rust, field_diffs_into_proto, StateFieldDiff,
    StateFieldValDiff,
};
use mz_ingest::persist::error::{CodecMismatch, RustType, TryFromProtoError};
use mz_ingest::persist::field_diffs::{Cursor, ProtoStateField, ProtoStateFieldDiffType};
use mz_ingest::persist::handle::{
    CriticalReaderState, HandleDebugState, LeasedReaderState, OpaqueState, PersistConfig,
    WriterState,
};
use mz_ingest::persist::ids::{
    parse_id, CriticalReaderId, IdempotencyToken, LeasedReaderId, ShardId, WriterId,
};
use mz_ingest::persist::ordered::OrderedMap;
use mz_ingest::persist::proto::batch::{
    ProtoHollowBatch, ProtoTrace, ProtoU64Antichain, ProtoU64Description,
};
use mz_ingest::persist::proto::diff::{ProtoStateDiff, ProtoStateFieldDiffs};
use mz_ingest::persist::proto::handle::{
    ProtoCriticalReaderState, ProtoHandleDebugState, ProtoLeasedReaderState, ProtoWriterState,
};
use mz_ingest::persist::proto::rollup::ProtoStateRollup;
use mz_ingest::persist::state::{State, StateError};
use mz_ingest::persist::state_diff::StateDiff;
use mz_ingest::persist::trace::Trace;
use mz_ingest::persist::version::{check_applier_version, read_applier_version, Version};
use mz_ingest::persist::write::{SerdeWriterEnrichedHollowBatch, WriterEnrichedHollowBatch};
use mz_ingest::proto::message::{decode, encode_to_vec};
use timely::progress::Antichain;

type UnitState = State<(), (), u64, i64>;

fn debug() -> HandleDebugState {
    HandleDebugState { hostname: "host".to_owned(), purpose: "purpose".to_owned() }
}

fn description(lower: u64, upper: u64, since: u64) -> Description<u64> {
    Description::new(
        Antichain::from_elem(lower),
        Antichain::from_elem(upper),
        Antichain::from_elem(since),
    )
}

fn hollow_batch() -> HollowBatch<u64> {
    HollowBatch {
        desc: description(1, 2, 3),
        len: 4,
        parts: vec![HollowBatchPart {
            key: PartialBatchKey("a".into()),
            encoded_size_bytes: 5,
        }],
        runs: vec![],
    }
}

fn leased_reader() -> LeasedReaderState<u64> {
    LeasedReaderState {
        seqno: SeqNo(1),
        since: Antichain::from_elem(2u64),
        last_heartbeat_timestamp_ms: 3,
        debug: debug(),
        lease_duration_ms: 4,
    }
}

fn critical_reader() -> CriticalReaderState<u64> {
    CriticalReaderState {
        since: Antichain::from_elem(u64::MAX),
        opaque: OpaqueState([1, 2, 3, 4, 5, 6, 7, 255]),
        opaque_codec: "codec".to_owned(),
        debug: debug(),
    }
}

fn writer() -> WriterState<u64> {
    WriterState {
        last_heartbeat_timestamp_ms: 1,
        lease_duration_ms: 2,
        most_recent_write_token: IdempotencyToken([9; 16]),
        most_recent_write_upper: Antichain::from_elem(7),
        debug: debug(),
    }
}

fn full_state(version: Version, shard_id: ShardId) -> UnitState {
    let mut state = UnitState::new(version, "somewhere".to_owned(), shard_id);
    state.seqno = SeqNo(12);
    state.collections.last_gc_req = SeqNo(3);
    state.collections.rollups.insert(SeqNo(9), PartialRollupKey("nine".into()));
    state.collections.rollups.insert(SeqNo(2), PartialRollupKey("two".into()));
    state.collections.leased_readers.insert(LeasedReaderId([1; 16]), leased_reader());
    state.collections.critical_readers.insert(CriticalReaderId([2; 16]), critical_reader());
    state.collections.writers.insert(WriterId([3; 16]), writer());
    state.collections.trace.downgrade_since(&Antichain::from_elem(3));
    state.collections.trace.push_batch(hollow_batch());
    state
}

#[test]
fn applier_version_state() {
    let v1 = Version::new(1, 0, 0);
    let v2 = Version::new(2, 0, 0);
    let v3 = Version::new(3, 0, 0);

    // Code version v2 evaluates and writes out some State.
    let state = State::<(), (), u64, i64>::new(v2.clone(), "".to_owned(), ShardId::new());
    let mut buf = Vec::new();
    state.encode(&mut buf);

    // We can read it back using persist code v2 and v3.
    assert_eq!(State::decode(&v2, &buf).as_ref(), Ok(&state));
    assert_eq!(State::decode(&v3, &buf).as_ref(), Ok(&state));

    // But we can't read it back using v1 because v1 might corrupt it by
    // losing or misinterpreting something written out by a future version
    // of code.
    let v1_res = State::<(), (), u64, i64>::decode(&v1, &buf);
    assert!(v1_res.is_err());
    assert_eq!(
        v1_res,
        Err(StateError::FromFuture(
            "1.0.0 received persist state from the future 2.0.0".to_owned()
        ))
    );
}

#[test]
fn applier_version_state_diff() {
    let v1 = Version::new(1, 0, 0);
    let v2 = Version::new(2, 0, 0);
    let v3 = Version::new(3, 0, 0);

    // Code version v2 evaluates and writes out some State.
    let diff = StateDiff::<u64>::new(
        v2.clone(),
        SeqNo(0),
        SeqNo(1),
        PartialRollupKey("rollup".into()),
    );
    let mut buf = Vec::new();
    diff.encode(&mut buf);

    // We can read it back using persist code v2 and v3.
    assert_eq!(<StateDiff<u64>>::decode(&v2, &buf).as_ref(), Ok(&diff));
    assert_eq!(<StateDiff<u64>>::decode(&v3, &buf).as_ref(), Ok(&diff));

    // But we can't read it back using v1 because v1 might corrupt it by
    // losing or misinterpreting something written out by a future version
    // of code.
    let v1_res = StateDiff::<u64>::decode(&v1, &buf);
    assert!(v1_res.is_err());
}

#[test]
fn hollow_batch_migration_keys() {
    let x = HollowBatch {
        desc: Description::new(
            Antichain::from_elem(1u64),
            Antichain::from_elem(2u64),
            Antichain::from_elem(3u64),
        ),
        len: 4,
        parts: vec![HollowBatchPart {
            key: PartialBatchKey("a".into()),
            encoded_size_bytes: 5,
        }],
        runs: vec![],
    };
    let mut old = x.into_proto();
    // Old ProtoHollowBatch had keys instead of parts.
    old.deprecated_keys = vec!["b".into()];
    // We don't expect to see a ProtoHollowBatch with keys _and_ parts, only
    // one or the other, but we have a defined output, so may as well test
    // it.
    let mut expected = x;
    // We fill in 0 for encoded_size_bytes when we migrate from keys. This
    // will violate bounded memory usage compaction during the transition
    // (short-term issue), but that's better than creating unnecessary runs
    // (longer-term issue).
    expected.parts.push(HollowBatchPart {
        key: PartialBatchKey("b".into()),
        encoded_size_bytes: 0,
    });
    assert_eq!(<HollowBatch<u64>>::from_proto(old).unwrap(), expected);
}

#[test]
fn reader_state_migration_lease_duration() {
    let x = LeasedReaderState {
        seqno: SeqNo(1),
        since: Antichain::from_elem(2u64),
        last_heartbeat_timestamp_ms: 3,
        debug: HandleDebugState {
            hostname: "host".to_owned(),
            purpose: "purpose".to_owned(),
        },
        // Old ProtoReaderState had no lease_duration_ms field
        lease_duration_ms: 0,
    };
    let old = x.into_proto();
    let mut expected = x;
    // We fill in DEFAULT_READ_LEASE_DURATION for lease_duration_ms when we
    // migrate from unset.
    expected.lease_duration_ms = PersistConfig::DEFAULT_READ_LEASE_DURATION_MS;
    assert_eq!(<LeasedReaderState<u64>>::from_proto(old).unwrap(), expected);
}

#[test]
fn writer_state_migration_most_recent_write() {
    let proto = ProtoWriterState {
        last_heartbeat_timestamp_ms: 1,
        lease_duration_ms: 2,
        // Old ProtoWriterState had no most_recent_write_token or
        // most_recent_write_upper.
        most_recent_write_token: "".into(),
        most_recent_write_upper: None,
        debug: Some(ProtoHandleDebugState {
            hostname: "host".to_owned(),
            purpose: "purpose".to_owned(),
        }),
    };
    let expected = WriterState {
        last_heartbeat_timestamp_ms: proto.last_heartbeat_timestamp_ms,
        lease_duration_ms: proto.lease_duration_ms,
        most_recent_write_token: IdempotencyToken::sentinel(),
        most_recent_write_upper: Antichain::from_elem(0),
        debug: HandleDebugState {
            hostname: "host".to_owned(),
            purpose: "purpose".to_owned(),
        },
    };
    assert_eq!(<WriterState<u64>>::from_proto(proto).unwrap(), expected);
}

#[test]
fn state_is_read_as_it_was_written() {
    let state = full_state(Version::new(0, 27, 3), ShardId::new());
    let mut buf = vec![];
    state.encode(&mut buf);
    assert_eq!(UnitState::decode(&Version::new(0, 27, 3), &buf).as_ref(), Ok(&state));
    assert_eq!(UnitState::decode(&Version::new(0, 28, 0), &buf).as_ref(), Ok(&state));
    assert!(matches!(
        UnitState::decode(&Version::new(0, 27, 2), &buf),
        Err(StateError::FromFuture(_))
    ));
}

#[test]
fn state_is_appended() {
    let state = UnitState::new(Version::new(1, 2, 3), "h".to_owned(), ShardId([4; 16]));
    let mut buf = vec![];
    state.encode(&mut buf);
    let mut longer = vec![1, 2, 3];
    state.encode(&mut longer);
    assert_eq!(longer[..3], [1, 2, 3]);
    assert_eq!(longer[3..], buf[..]);
}

#[test]
fn state_message_has_codecs_and_text() {
    let proto = full_state(Version::new(0, 27, 3), ShardId([0xab; 16])).into_proto();
    assert_eq!(proto.applier_version, "0.27.3");
    assert_eq!(proto.shard_id, "sabababab-abab-abab-abab-abababababab");
    assert_eq!(proto.key_codec, "()");
    assert_eq!(proto.val_codec, "()");
    assert_eq!(proto.ts_codec, "u64");
    assert_eq!(proto.diff_codec, "i64");
    assert_eq!(proto.rollups.len(), 2);
    let bytes = encode_to_vec(&proto);
    let again: ProtoStateRollup = decode(&bytes).unwrap();
    assert_eq!(again, proto);
}

#[test]
fn state_with_other_codecs_is_not_read() {
    let mut proto = UnitState::new(Version::new(1, 0, 0), "".to_owned(), ShardId::new()).into_proto();
    proto.key_codec = "other".to_owned();
    let codecs = |key: &str| {
        (key.to_owned(), "()".to_owned(), "u64".to_owned(), "i64".to_owned())
    };
    let mismatch = CodecMismatch { requested: codecs("()"), actual: codecs("other") };
    let text = "requested codecs (\"()\", \"()\", \"u64\", \"i64\") did not match ones in durable \
                storage (\"other\", \"()\", \"u64\", \"i64\")";
    assert_eq!(mismatch.text(), text);
    let bytes = encode_to_vec(&proto);
    assert_eq!(
        UnitState::decode(&Version::new(1, 0, 0), &bytes),
        Err(StateError::CodecMismatch(mismatch))
    );
    let mut again: ProtoStateRollup = decode(&bytes).unwrap();
    assert_eq!(
        UnitState::from_proto(decode(&bytes).unwrap()),
        Err(TryFromProtoError::CodecMismatch(text.to_owned()))
    );
    again.key_codec = "()".to_owned();
    again.trace = None;
    assert_eq!(
        UnitState::from_proto(again),
        Err(TryFromProtoError::MissingField("trace".to_owned()))
    );
}

#[test]
fn damaged_states_are_not_read() {
    let version = Version::new(1, 0, 0);
    assert_eq!(
        UnitState::decode(&version, &[255]),
        Err(StateError::Invalid("failed to decode Protobuf message".to_owned()))
    );
    let state = UnitState::new(version.clone(), "".to_owned(), ShardId::new());
    let mut proto = state.into_proto();
    proto.applier_version = "one".to_owned();
    assert!(matches!(
        UnitState::from_proto(proto),
        Err(TryFromProtoError::InvalidSemverVersion(message))
            if message.starts_with("invalid applier_version one: ")
    ));
    let mut proto = state.into_proto();
    proto.shard_id = "x".to_owned();
    assert_eq!(
        UnitState::from_proto(proto),
        Err(TryFromProtoError::InvalidShardId("x".to_owned()))
    );
    let mut proto = full_state(version, ShardId::new()).into_proto();
    proto.writers[0].id = "r".to_owned();
    assert_eq!(
        UnitState::from_proto(proto),
        Err(TryFromProtoError::InvalidShardId("r".to_owned()))
    );
}

#[test]
fn maps_are_walked_in_the_order_of_their_keys() {
    let mut map: OrderedMap<SeqNo, PartialRollupKey> = OrderedMap::new();
    for (seqno, key) in [(3, "c"), (1, "a"), (2, "b"), (3, "d")] {
        map.insert(SeqNo(seqno), PartialRollupKey(key.into()));
    }
    assert_eq!(map.len(), 3);
    assert_eq!(map.entry(0), (&SeqNo(1), &PartialRollupKey("a".into())));
    assert_eq!(map.entry(1), (&SeqNo(2), &PartialRollupKey("b".into())));
    assert_eq!(map.entry(2), (&SeqNo(3), &PartialRollupKey("d".into())));

    let mut ids: OrderedMap<WriterId, PartialRollupKey> = OrderedMap::new();
    let mut high = [0; 16];
    high[0] = 1;
    ids.insert(WriterId(high), PartialRollupKey("high".into()));
    ids.insert(WriterId([0; 16]), PartialRollupKey("low".into()));
    assert_eq!(ids.entry(0).0, &WriterId([0; 16]));
    assert!(ids.entry(0).0 < ids.entry(1).0);
}

fn full_diff() -> StateDiff<u64> {
    let mut diff = StateDiff::<u64>::new(
        Version::new(1, 2, 3),
        SeqNo(4),
        SeqNo(5),
        PartialRollupKey("rollup".into()),
    );
    diff.hostname.push(StateFieldDiff {
        key: (),
        val: StateFieldValDiff::Update("a".to_owned(), "b".to_owned()),
    });
    diff.last_gc_req
        .push(StateFieldDiff { key: (), val: StateFieldValDiff::Update(SeqNo(0), SeqNo(300)) });
    diff.rollups.push(StateFieldDiff {
        key: SeqNo(7),
        val: StateFieldValDiff::Insert(PartialRollupKey("seven".into())),
    });
    diff.rollups.push(StateFieldDiff {
        key: SeqNo(6),
        val: StateFieldValDiff::Delete(PartialRollupKey("six".into())),
    });
    diff.leased_readers.push(StateFieldDiff {
        key: LeasedReaderId([1; 16]),
        val: StateFieldValDiff::Insert(leased_reader()),
    });
    diff.critical_readers.push(StateFieldDiff {
        key: CriticalReaderId([2; 16]),
        val: StateFieldValDiff::Delete(critical_reader()),
    });
    diff.writers.push(StateFieldDiff {
        key: WriterId([3; 16]),
        val: StateFieldValDiff::Update(writer(), writer()),
    });
    diff.since.push(StateFieldDiff {
        key: (),
        val: StateFieldValDiff::Update(Antichain::from_elem(1), Antichain::new()),
    });
    diff.spine.push(StateFieldDiff { key: hollow_batch(), val: StateFieldValDiff::Insert(()) });
    diff
}

#[test]
fn state_diff_is_read_as_it_was_written() {
    let diff = full_diff();
    let mut buf = vec![];
    diff.encode(&mut buf);
    assert_eq!(<StateDiff<u64>>::decode(&Version::new(1, 2, 3), &buf).as_ref(), Ok(&diff));
    assert_eq!(<StateDiff<u64> as Codec>::decode(&buf).as_ref(), Ok(&diff));
    assert_eq!(<StateDiff<u64> as Codec>::codec_name(), "proto[StateDiff]");
    assert_eq!(<StateDiff<u64>>::from_proto(diff.into_proto()), Ok(diff));
}

#[test]
fn state_diff_message_holds_fields_in_order() {
    let proto = full_diff().into_proto();
    let field_diffs = proto.field_diffs.unwrap();
    let fields: Vec<Option<ProtoStateField>> =
        field_diffs.fields.iter().map(|field| ProtoStateField::from_i32(*field)).collect();
    assert_eq!(
        fields,
        vec![
            Some(ProtoStateField::Hostname),
            Some(ProtoStateField::LastGcReq),
            Some(ProtoStateField::Rollups),
            Some(ProtoStateField::Rollups),
            Some(ProtoStateField::LeasedReaders),
            Some(ProtoStateField::CriticalReaders),
            Some(ProtoStateField::Writers),
            Some(ProtoStateField::Since),
            Some(ProtoStateField::Spine),
        ]
    );
    // An update has a key and two values, any other difference a key and one value.
    assert_eq!(field_diffs.data_lens.len(), 4 * 3 + 5 * 2);
    assert_eq!(field_diffs.validate(), Ok(()));
}

fn no_diffs() -> ProtoStateDiff {
    ProtoStateDiff {
        applier_version: "".to_owned(),
        seqno_from: 1,
        seqno_to: 2,
        latest_rollup_key: "r".to_owned(),
        field_diffs: None,
    }
}

#[test]
fn state_diff_without_version_is_the_oldest() {
    let diff = <StateDiff<u64>>::from_proto(no_diffs()).unwrap();
    assert_eq!(
        diff,
        StateDiff::new(
            Version::new(0, 0, 0),
            SeqNo(1),
            SeqNo(2),
            PartialRollupKey("r".to_owned())
        )
    );
}

#[test]
fn damaged_state_diffs_are_not_read() {
    let mut field_diffs = ProtoStateFieldDiffs::new();
    field_diffs.fields.push(99);
    field_diffs.diff_types.push(ProtoStateFieldDiffType::Insert.number());
    field_diffs.push_data(vec![]);
    field_diffs.push_data(vec![]);
    let mut proto = no_diffs();
    proto.field_diffs = Some(field_diffs);
    assert_eq!(
        <StateDiff<u64>>::from_proto(proto),
        Err(TryFromProtoError::InvalidPersistState("unknown ProtoStateField 99".to_owned()))
    );

    let mut field_diffs = ProtoStateFieldDiffs::new();
    field_diffs.fields.push(ProtoStateField::Hostname.number());
    assert!(field_diffs.validate().is_err());
    let mut proto = no_diffs();
    proto.field_diffs = Some(field_diffs);
    assert!(matches!(
        <StateDiff<u64>>::from_proto(proto),
        Err(TryFromProtoError::InvalidPersistState(_))
    ));

    let version = Version::new(1, 0, 0);
    assert_eq!(
        <StateDiff<u64>>::decode(&version, &[7]),
        Err(StateError::Invalid("failed to decode Protobuf message".to_owned()))
    );
    let mut proto = no_diffs();
    proto.applier_version = "?".to_owned();
    assert!(matches!(
        <StateDiff<u64>>::from_proto(proto),
        Err(TryFromProtoError::InvalidSemverVersion(_))
    ));
}

#[test]
fn field_diffs_are_packed_and_unpacked() {
    let k_fn = |k: &u64| encode_to_vec(k);
    let v_fn = |v: &String| encode_to_vec(v);
    let diffs = vec![
        StateFieldDiff { key: 1u64, val: StateFieldValDiff::Insert("x".to_owned()) },
        StateFieldDiff {
            key: 2u64,
            val: StateFieldValDiff::Update("y".to_owned(), "z".to_owned()),
        },
    ];
    let last = StateFieldDiff { key: 300u64, val: StateFieldValDiff::Delete("w".to_owned()) };
    let mut proto = ProtoStateFieldDiffs::new();
    field_diffs_into_proto(ProtoStateField::Rollups, &diffs, &mut proto, &k_fn, &v_fn);
    field_diff_into_proto(ProtoStateField::Rollups, &last, &mut proto, &k_fn, &v_fn);
    assert_eq!(proto.data_lens, vec![2, 3, 2, 3, 3, 3, 3]);
    let insert = ProtoStateFieldDiffType::Insert.number();
    let update = ProtoStateFieldDiffType::Update.number();
    let delete = ProtoStateFieldDiffType::Delete.number();
    assert_eq!(proto.diff_types, vec![insert, update, delete]);
    assert_eq!(ProtoStateFieldDiffType::from_i32(update), Some(ProtoStateFieldDiffType::Update));
    assert_eq!(ProtoStateFieldDiffType::from_i32(-1), None);

    let k_fn = |k: u64| Ok(k);
    let v_fn = |v: String| Ok(v);
    let mut read: Vec<StateFieldDiff<u64, String>> = vec![];
    let mut cursor = Cursor { diff: 0, piece: 0, offset: 0 };
    for _ in 0..3 {
        let diff = proto.next_diff(&mut cursor);
        field_diff_into_rust::<u64, String, u64, String, _, _>(diff, &mut read, &k_fn, &v_fn)
            .unwrap();
    }
    let mut expected = diffs;
    expected.push(last);
    assert_eq!(read, expected);
}

#[test]
fn field_diffs_that_cannot_be_decoded_are_refused() {
    let mut proto = ProtoStateFieldDiffs::new();
    proto.fields.push(ProtoStateField::LastGcReq.number());
    proto.diff_types.push(ProtoStateFieldDiffType::Insert.number());
    proto.push_data(vec![]);
    proto.push_data(vec![255]);
    assert_eq!(proto.validate(), Ok(()));
    let mut cursor = Cursor { diff: 0, piece: 0, offset: 0 };
    let diff = proto.next_diff(&mut cursor);
    let mut read: Vec<StateFieldDiff<(), u64>> = vec![];
    let r = field_diff_into_rust::<(), u64, (), u64, _, _>(
        diff,
        &mut read,
        &|k: ()| Ok(k),
        &|v: u64| Ok(v),
    );
    assert_eq!(
        r,
        Err(TryFromProtoError::InvalidPersistState(
            "failed to decode Protobuf message".to_owned()
        ))
    );
    assert_eq!(read, vec![]);
}

#[test]
fn ids_are_a_prefix_and_a_uuid() {
    let text = "s00000000-0000-0000-0000-0000000000ff";
    let mut bytes = [0; 16];
    bytes[15] = 255;
    assert_eq!(ShardId(bytes).to_string(), text);
    assert_eq!(ShardId::from_str(text), Ok(ShardId(bytes)));
    assert_eq!(ShardId(bytes).into_proto(), text);
    assert_eq!(ShardId::from_proto(text.to_owned()), Ok(ShardId(bytes)));
    assert_eq!(parse_id('s', "ShardId", text), Ok(bytes));
    assert_eq!(
        parse_id('r', "ReaderId", text),
        Err(format!("invalid ReaderId {}: incorrect prefix", text))
    );
    assert!(parse_id('s', "ShardId", "s12").unwrap_err().starts_with("invalid ShardId s12: "));
    assert_eq!(
        LeasedReaderId::from_proto("q".to_owned()),
        Err(TryFromProtoError::InvalidShardId("q".to_owned()))
    );
    assert_eq!(LeasedReaderId([0; 16]).to_string(), "r00000000-0000-0000-0000-000000000000");
    assert_eq!(CriticalReaderId([0; 16]).to_string(), "c00000000-0000-0000-0000-000000000000");
    assert_eq!(WriterId([0; 16]).to_string(), "w00000000-0000-0000-0000-000000000000");
    let token = IdempotencyToken([7; 16]);
    assert_eq!(token.to_string(), "i07070707-0707-0707-0707-070707070707");
    assert_eq!(IdempotencyToken::from_str(&token.to_string()), Ok(token));
    let shard_id = ShardId::new();
    assert_ne!(shard_id, ShardId::new());
    assert_eq!(shard_id.0[6] >> 4, 4);
    assert_eq!(shard_id.0[8] >> 6, 2);
    let reader = LeasedReaderId([0x10; 16]);
    assert_eq!(LeasedReaderId::from_str(&reader.into_proto()), Ok(reader));
    let reader = CriticalReaderId([0x20; 16]);
    assert_eq!(CriticalReaderId::from_str(&reader.into_proto()), Ok(reader));
    let writer = WriterId([0x30; 16]);
    assert_eq!(WriterId::from_proto(writer.into_proto()), Ok(writer));
}

#[test]
fn versions_are_ordered_and_read() {
    let version = Version::parse("1.20.3-rc.1+build").unwrap();
    assert_eq!(version.to_string(), "1.20.3-rc.1+build");
    assert!(version.less(&Version::new(1, 20, 3)));
    assert!(!Version::new(1, 20, 3).less(&version));
    assert!(Version::new(1, 9, 0).less(&Version::new(1, 10, 0)));
    assert!(Version::parse("1.2").is_err());
    assert_eq!(read_applier_version(&"".to_owned()), Ok(Version::new(0, 0, 0)));
    assert_eq!(read_applier_version(&"4.5.6".to_owned()), Ok(Version::new(4, 5, 6)));
    assert_eq!(check_applier_version(&Version::new(1, 0, 0), &Version::new(1, 0, 0)), Ok(()));
    assert_eq!(
        check_applier_version(&Version::new(0, 9, 9), &version),
        Err("0.9.9 received persist state from the future 1.20.3-rc.1+build".to_owned())
    );
}

#[test]
fn antichains_keep_the_least_time() {
    let proto = ProtoU64Antichain { elements: vec![5, 3, -1] };
    let antichain = <Antichain<u64>>::from_proto(proto).unwrap();
    assert_eq!(antichain, Antichain::from_elem(3));
    assert_eq!(antichain, antichain_from_elem(3));
    assert_eq!(antichain.into_proto(), ProtoU64Antichain { elements: vec![3] });
    assert_eq!(
        <Antichain<u64>>::from_elem(u64::MAX).into_proto(),
        ProtoU64Antichain { elements: vec![-1] }
    );
    let empty: Antichain<u64> = Antichain::new();
    assert_eq!(<Antichain<u64>>::from_proto(empty.into_proto()), Ok(empty));
    assert_eq!(write_antichain(&Antichain::from_elem(3)), "Antichain { elements: [3] }");
}

#[test]
fn descriptions_need_all_frontiers() {
    let proto = || description(1, 2, 0).into_proto();
    assert_eq!(<Description<u64>>::from_proto(proto()), Ok(description(1, 2, 0)));
    let missing = |field: &str| Err(TryFromProtoError::MissingField(field.to_owned()));
    let mut no_lower: ProtoU64Description = proto();
    no_lower.lower = None;
    assert_eq!(<Description<u64>>::from_proto(no_lower), missing("lower"));
    let mut no_upper = proto();
    no_upper.upper = None;
    assert_eq!(<Description<u64>>::from_proto(no_upper), missing("upper"));
    let mut no_since = proto();
    no_since.since = None;
    assert_eq!(<Description<u64>>::from_proto(no_since), missing("since"));
    let mut empty_lower = proto();
    empty_lower.lower = Some(ProtoU64Antichain { elements: vec![] });
    assert_eq!(<Description<u64>>::from_proto(empty_lower), Err(TryFromProtoError::EmptyLower));
}

#[test]
fn batches_are_read_as_they_were_written() {
    let mut batch = hollow_batch();
    batch.runs = vec![0, 1];
    let bytes = encode_to_vec(&batch.into_proto());
    let proto: ProtoHollowBatch = decode(&bytes).unwrap();
    assert_eq!(<HollowBatch<u64>>::from_proto(proto), Ok(batch));
    let mut proto = hollow_batch().into_proto();
    proto.desc = None;
    assert_eq!(
        <HollowBatch<u64>>::from_proto(proto),
        Err(TryFromProtoError::MissingField("desc".to_owned()))
    );
}

#[test]
fn traces_are_read_as_they_were_written() {
    let mut trace: Trace<u64> = Trace::new();
    assert_eq!(trace.since(), &Antichain::from_elem(0));
    trace.downgrade_since(&Antichain::from_elem(3));
    trace.push_batch(hollow_batch());
    assert_eq!(trace.batches().len(), 1);
    assert_eq!(<Trace<u64>>::from_proto(trace.into_proto()), Ok(trace));
}

#[test]
fn traces_are_not_behind_their_batches() {
    let mut trace: Trace<u64> = Trace::new();
    trace.downgrade_since(&Antichain::from_elem(2));
    trace.push_batch(hollow_batch());
    assert_eq!(
        <Trace<u64>>::from_proto(trace.into_proto()),
        Err(TryFromProtoError::InvalidPersistState(
            "invalid ProtoTrace: the spine's since Antichain { elements: [2] } was less than a \
             batch's since Antichain { elements: [3] }"
                .to_owned()
        ))
    );
    assert_eq!(
        <Trace<u64>>::from_proto(ProtoTrace { since: None, spine: vec![] }),
        Err(TryFromProtoError::MissingField("since".to_owned()))
    );
}

#[test]
fn handles_are_read_as_they_were_written() {
    assert_eq!(<LeasedReaderState<u64>>::from_proto(leased_reader().into_proto()), Ok(leased_reader()));
    let proto = critical_reader().into_proto();
    assert_eq!(proto.opaque, i64::from_le_bytes([1, 2, 3, 4, 5, 6, 7, 255]));
    assert_eq!(<CriticalReaderState<u64>>::from_proto(proto), Ok(critical_reader()));
    assert_eq!(<WriterState<u64>>::from_proto(writer().into_proto()), Ok(writer()));
    assert_eq!(HandleDebugState::from_proto(debug().into_proto()), Ok(debug()));
}

#[test]
fn sentinel_token_is_written_as_nothing() {
    let mut state = writer();
    state.most_recent_write_token = IdempotencyToken::sentinel();
    let proto = state.into_proto();
    assert_eq!(<WriterState<u64>>::from_proto(proto), Ok(state));
}

#[test]
fn handles_need_a_frontier() {
    let proto = ProtoLeasedReaderState {
        seqno: 0,
        since: None,
        last_heartbeat_timestamp_ms: 0,
        lease_duration_ms: 0,
        debug: None,
    };
    assert_eq!(
        <LeasedReaderState<u64>>::from_proto(proto),
        Err(TryFromProtoError::MissingField("ProtoLeasedReaderState::since".to_owned()))
    );
    let proto = ProtoCriticalReaderState {
        since: None,
        opaque: 0,
        opaque_codec: "".to_owned(),
        debug: None,
    };
    assert_eq!(
        <CriticalReaderState<u64>>::from_proto(proto),
        Err(TryFromProtoError::MissingField("ProtoCriticalReaderState::since".to_owned()))
    );
    let proto = ProtoLeasedReaderState {
        seqno: 0,
        since: Some(ProtoU64Antichain { elements: vec![1] }),
        last_heartbeat_timestamp_ms: 0,
        lease_duration_ms: 5,
        debug: None,
    };
    let reader = <LeasedReaderState<u64>>::from_proto(proto).unwrap();
    assert_eq!(reader.lease_duration_ms, 5);
    assert_eq!(reader.debug, HandleDebugState { hostname: "".into(), purpose: "".into() });
}

#[test]
fn sent_batches_are_got_back() {
    let enriched =
        || WriterEnrichedHollowBatch { shard_id: ShardId([8; 16]), batch: hollow_batch() };
    let sent = SerdeWriterEnrichedHollowBatch::from(enriched());
    assert_eq!(sent.shard_id, ShardId([8; 16]));
    assert_eq!(sent.batch, encode_to_vec(&hollow_batch().into_proto()));
    assert_eq!(WriterEnrichedHollowBatch::from(sent), Ok(enriched()));
    let damaged = SerdeWriterEnrichedHollowBatch { shard_id: ShardId([8; 16]), batch: vec![1] };
    assert_eq!(
        WriterEnrichedHollowBatch::from(damaged),
        Err("failed to decode Protobuf message".to_owned())
    );
    let empty = SerdeWriterEnrichedHollowBatch { shard_id: ShardId([8; 16]), batch: vec![] };
    assert_eq!(
        WriterEnrichedHollowBatch::from(empty),
        Err("Missing value for `desc`".to_owned())
    );
}

#[test]
fn codecs_have_names() {
    assert_eq!(<() as Codec>::codec_name(), "()");
    assert_eq!(<u64 as Codec64>::codec_name(), "u64");
    assert_eq!(<i64 as Codec64>::codec_name(), "i64");
    assert_eq!(<() as Codec>::decode(&[]), Ok(()));
    assert_eq!(
        <() as Codec>::decode(&[1, 2]),
        Err("decode expected empty buf got 2 bytes".to_owned())
    );
    let mut buf = vec![3];
    Codec::encode(&(), &mut buf);
    assert_eq!(buf, vec![3]);
}

#[test]
fn errors_say_what_is_wrong() {
    assert_eq!(
        TryFromProtoError::TryFromIntError.text(),
        "out of range integral type conversion attempted"
    );
    assert_eq!(TryFromProtoError::MissingField("f".into()).text(), "Missing value for `f`");
    assert_eq!(
        TryFromProtoError::InvalidShardId("i".into()).text(),
        "Invalid value of ShardId found: `i`"
    );
    assert_eq!(
        TryFromProtoError::EmptyLower.text(),
        "the lower frontier of a batch is empty"
    );
    assert_eq!(TryFromProtoError::CodecMismatch("m".into()).text(), "m");
    assert_eq!(TryFromProtoError::InvalidPersistState("p".into()).text(), "p");
    assert_eq!(TryFromProtoError::InvalidSemverVersion("v".into()).text(), "v");
}
