use mz_ingest::persist::proto::batch::{
    ProtoHollowBatch, ProtoHollowBatchPart, ProtoU64Antichain, ProtoU64Description,
};
use mz_ingest::proto::message::{decode, encode_to_vec};
use mz_ingest::proto::wire::{read_field, read_varint, write_varint, DecodeError, Payload};

#[test]
fn varints_are_read_as_they_were_written() {
    for value in [0, 1, 127, 128, 300, u64::from(u32::MAX), u64::MAX] {
        let mut buf = vec![];
        write_varint(&mut buf, value);
        buf.push(9);
        assert_eq!(read_varint(&buf), Some((value, &[9u8][..])));
    }
    let mut buf = vec![];
    write_varint(&mut buf, 300);
    assert_eq!(buf, vec![0xac, 0x02]);
    assert_eq!(read_varint(&[]), None);
    assert_eq!(read_varint(&[0x80]), None);
    assert_eq!(read_varint(&[0xff; 11]), None);
}

#[test]
fn values_are_messages() {
    assert_eq!(encode_to_vec(&300u64), vec![8, 0xac, 0x02]);
    assert_eq!(decode::<u64>(&[8, 0xac, 0x02]), Ok(300));
    assert_eq!(encode_to_vec(&0u64), Vec::<u8>::new());
    assert_eq!(decode::<u64>(&[]), Ok(0));
    assert_eq!(encode_to_vec(&"hi".to_owned()), vec![10, 2, b'h', b'i']);
    assert_eq!(decode::<String>(&[10, 2, b'h', b'i']), Ok("hi".to_owned()));
    assert_eq!(encode_to_vec(&()), Vec::<u8>::new());
    assert_eq!(decode::<()>(&[]), Ok(()));
}

#[test]
fn the_last_value_counts_and_unknown_fields_are_skipped() {
    assert_eq!(decode::<u64>(&[8, 1, 8, 2]), Ok(2));
    assert_eq!(decode::<u64>(&[8, 1, 0x12, 3, 1, 2, 3]), Ok(1));
    assert_eq!(decode::<()>(&[8, 1]), Ok(()));
    // A field of eight bytes, and one of four.
    assert_eq!(decode::<u64>(&[0x19, 0, 0, 0, 0, 0, 0, 0, 0, 8, 5]), Ok(5));
    assert_eq!(decode::<u64>(&[0x1d, 0, 0, 0, 0, 8, 5]), Ok(5));
    // A group, with a field in it.
    assert_eq!(decode::<u64>(&[0x1b, 8, 9, 0x1c, 8, 5]), Ok(5));
}

#[test]
fn damaged_messages_are_refused() {
    let refused: Result<u64, DecodeError> = Err(DecodeError {});
    assert_eq!(DecodeError {}.text(), "failed to decode Protobuf message");
    // A number that is cut off, a length past the end, and a field without a number.
    assert_eq!(decode::<u64>(&[8]), refused);
    assert_eq!(decode::<u64>(&[0x12, 5, 1]), refused);
    assert_eq!(decode::<u64>(&[0, 1]), refused);
    // A text where a number is expected, a group that does not end, and a wire type that is none.
    assert_eq!(decode::<u64>(&[10, 0]), refused);
    assert_eq!(decode::<u64>(&[0x1b, 8, 9]), refused);
    assert_eq!(decode::<u64>(&[0x0f]), refused);
    // Bytes that are no text.
    assert_eq!(decode::<String>(&[10, 1, 0xff]), Err(DecodeError {}));
}

#[test]
fn fields_are_read_one_by_one() {
    let (tag, payload, rest) = read_field(&[0x12, 2, 7, 8, 9], 100).unwrap();
    assert_eq!(tag, 2);
    assert!(matches!(payload, Payload::Bytes(&[7, 8])));
    assert_eq!(rest, &[9]);
}

#[test]
fn repeated_fields_keep_their_order() {
    let batch = ProtoHollowBatch {
        desc: Some(ProtoU64Description {
            lower: Some(ProtoU64Antichain { elements: vec![-1] }),
            upper: None,
            since: Some(ProtoU64Antichain { elements: vec![] }),
        }),
        len: 3,
        parts: vec![
            ProtoHollowBatchPart { key: "b".to_owned(), encoded_size_bytes: 1 },
            ProtoHollowBatchPart { key: "a".to_owned(), encoded_size_bytes: 0 },
        ],
        deprecated_keys: vec!["z".to_owned(), "".to_owned()],
        runs: vec![5, 4, 300],
    };
    let bytes = encode_to_vec(&batch);
    assert_eq!(decode::<ProtoHollowBatch>(&bytes), Ok(batch));
}

#[test]
fn numbers_are_read_packed_and_one_by_one() {
    let antichain = ProtoU64Antichain { elements: vec![1, 2] };
    assert_eq!(encode_to_vec(&antichain), vec![10, 2, 1, 2]);
    assert_eq!(decode::<ProtoU64Antichain>(&[8, 1, 8, 2]), Ok(antichain));
}
