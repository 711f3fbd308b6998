use mz_ingest::indexed::columnar::{BatchError, ColumnarRecords, KEY_VAL_DATA_MAX_LEN};
use mz_ingest::indexed::encoding::{
    decode_trace_inline_meta, encode_trace_inline_meta, read_desc, BlobTraceBatchPart,
    ProtoBatchFormat,
};
use mz_ingest::indexed::footer::{is_footer_expected, is_too_deep};
use mz_ingest::indexed::pages::{does_column_fit, PageHead, MAX_PAGES};
use mz_ingest::indexed::parquet::{
    assemble_part, decode_trace_parquet, encode_trace_parquet, find_inline, find_pages_error,
    is_schema_expected, INLINE_METADATA_KEY, MAX_EMPTY_GROUPS, MAX_GROUPS, SCHEMA_KEY,
};
use mz_ingest::indexed::proto::ProtoBatchPartInline;
use mz_ingest::persist::antichain::Description;
use mz_ingest::persist::error::RustType;
use mz_ingest::proto::message::encode_to_vec;
use timely::progress::Antichain;

use arrow2::array::{Array, BinaryArray, Int64Array, Utf8Array};
use arrow2::chunk::Chunk;
use arrow2::datatypes::{DataType, Field, Schema, TimeUnit};
use arrow2::error::Error;
use arrow2::io::parquet::read::ParquetError;
use arrow2::io::parquet::write::{
    array_to_page, to_parquet_schema, CompressionOptions, Compressor, DynIter,
    DynStreamingIterator, Encoding, FallibleStreamingIterator, FileWriter, KeyValue, Nested,
    RowGroupIterator, Version, WriteOptions,
};

fn desc(lower: u64, upper: u64, since: u64) -> Description<u64> {
    Description::new(
        Antichain::from_elem(lower),
        Antichain::from_elem(upper),
        Antichain::from_elem(since),
    )
}

fn records(rows: &[(&str, &str, i64, i64)]) -> ColumnarRecords {
    ColumnarRecords::new(
        rows.iter().map(|row| row.0.as_bytes().to_vec()).collect(),
        rows.iter().map(|row| row.1.as_bytes().to_vec()).collect(),
        rows.iter().map(|row| row.2).collect(),
        rows.iter().map(|row| row.3).collect(),
    )
    .unwrap()
}

fn part(desc: Description<u64>, updates: Vec<ColumnarRecords>) -> BlobTraceBatchPart<u64> {
    BlobTraceBatchPart { desc, index: 7, updates }
}

fn error(message: &str) -> BatchError {
    BatchError { message: message.to_owned() }
}

#[test]
fn parts_are_read_as_they_were_written() {
    let batch = part(
        desc(1, 9, 0),
        vec![
            records(&[("k1", "v1", 1, 1), ("k2", "", 8, -1)]),
            records(&[("", "a longer value", 3, 5)]),
        ],
    );
    let mut w = vec![];
    assert_eq!(encode_trace_parquet(&mut w, &batch), Ok(()));
    assert_eq!(&w[..4], b"PAR1");
    assert_eq!(decode_trace_parquet(&w), Ok(batch));
}

#[test]
fn parts_are_appended() {
    let batch = part(desc(0, 2, 0), vec![records(&[("k", "v", 1, 1)])]);
    let mut file = vec![];
    encode_trace_parquet(&mut file, &batch).unwrap();
    let mut w = vec![1, 2, 3];
    encode_trace_parquet(&mut w, &batch).unwrap();
    assert_eq!(&w[..3], &[1, 2, 3]);
    assert_eq!(decode_trace_parquet(&w[3..]), Ok(batch));
    assert_eq!(w[3..], file[..]);
}

#[test]
fn parts_without_updates_are_read_as_they_were_written() {
    let batch = part(desc(0, 2, 0), vec![]);
    let mut w = vec![];
    encode_trace_parquet(&mut w, &batch).unwrap();
    assert_eq!(decode_trace_parquet(&w), Ok(batch));
}

#[test]
fn empty_groups_are_not_read() {
    let batch = part(desc(0, 2, 0), vec![records(&[]), records(&[("k", "v", 1, 1)])]);
    let mut w = vec![];
    encode_trace_parquet(&mut w, &batch).unwrap();
    assert_eq!(
        decode_trace_parquet(&w),
        Ok(part(desc(0, 2, 0), vec![records(&[("k", "v", 1, 1)])]))
    );
}

#[test]
fn invalid_parts_are_not_written() {
    let mut w = vec![5];
    let backwards = part(desc(2, 2, 0), vec![]);
    let text = "Description { lower: Antichain { elements: [2] }, upper: Antichain { elements: \
                [2] }, since: Antichain { elements: [0] } }";
    assert_eq!(
        encode_trace_parquet(&mut w, &backwards),
        Err(error(&format!("invalid desc: {}", text)))
    );
    let early = part(desc(2, 4, 0), vec![records(&[("k", "v", 1, 1)])]);
    let text = "Description { lower: Antichain { elements: [2] }, upper: Antichain { elements: \
                [4] }, since: Antichain { elements: [0] } }";
    assert_eq!(
        encode_trace_parquet(&mut w, &early),
        Err(error(&format!("timestamp 1 is less than the batch lower: {}", text)))
    );
    let late = part(desc(2, 4, 0), vec![records(&[("k", "v", 4, 1)])]);
    assert_eq!(
        late.validate(),
        Err(error(&format!(
            "timestamp 4 is greater than or equal to the batch upper: {}",
            text
        )))
    );
    assert_eq!(w, vec![5]);
    // The times of a batch may have been advanced past its end.
    let advanced = part(desc(2, 4, 5), vec![records(&[("k", "v", 5, 1)])]);
    assert_eq!(advanced.validate(), Ok(()));
}

#[test]
fn bytes_that_are_no_file_are_not_read() {
    assert!(decode_trace_parquet(b"").is_err());
    assert!(decode_trace_parquet(b"not a parquet file").is_err());
}

fn file(
    columns: Vec<(&str, Box<dyn Array>, Encoding)>,
    write_statistics: bool,
    metadata: Option<Vec<KeyValue>>,
) -> Vec<u8> {
    let fields = columns.iter().map(|c| Field::new(c.0, c.1.data_type().clone(), false));
    let schema = Schema::from(fields.collect::<Vec<_>>());
    let options = WriteOptions {
        write_statistics,
        compression: CompressionOptions::Uncompressed,
        version: Version::V2,
    };
    let encodings = columns.iter().map(|c| vec![c.2]).collect();
    let chunk: Chunk<Box<dyn Array>> = Chunk::new(columns.into_iter().map(|c| c.1).collect());
    let groups =
        RowGroupIterator::try_new(vec![Ok(chunk)].into_iter(), &schema, options, encodings)
            .unwrap();
    let mut writer = FileWriter::try_new(vec![], schema, options).unwrap();
    for group in groups {
        writer.write(group.unwrap()).unwrap();
    }
    writer.end(metadata).unwrap();
    writer.into_inner()
}

fn numbers(values: &[i64]) -> Box<dyn Array> {
    Int64Array::from_slice(values).boxed()
}

fn other_file(metadata: Option<Vec<KeyValue>>) -> Vec<u8> {
    file(vec![("n", numbers(&[1]), Encoding::Plain)], false, metadata)
}

fn kvtd_file(encoding: Encoding, metadata: Option<Vec<KeyValue>>) -> Vec<u8> {
    let bytes = |value: &str| BinaryArray::<i32>::from_slice([value.as_bytes()]).boxed();
    file(
        vec![
            ("k", bytes("key"), encoding),
            ("v", bytes("value"), encoding),
            ("t", numbers(&[1]), Encoding::Plain),
            ("d", numbers(&[2]), Encoding::Plain),
        ],
        false,
        metadata,
    )
}

fn kvtd_meta() -> KeyValue {
    let batch = part(desc(0, 2, 0), vec![]);
    let meta = encode_trace_inline_meta(&batch, ProtoBatchFormat::ParquetKvtd);
    KeyValue { key: INLINE_METADATA_KEY.to_owned(), value: Some(meta) }
}

// Replaces the first occurrence of some bytes in the footer of a file.
fn patched(mut file: Vec<u8>, from: &[u8], to: &[u8]) -> Vec<u8> {
    let end = file.len() - 8;
    let len = u32::from_le_bytes([file[end], file[end + 1], file[end + 2], file[end + 3]]) as usize;
    let found = file[end - len..].windows(from.len()).position(|bytes| bytes == from).unwrap();
    let start = end - len + found;
    file[start..start + from.len()].copy_from_slice(to);
    file
}

fn inline(value: Option<String>) -> Option<Vec<KeyValue>> {
    Some(vec![KeyValue { key: INLINE_METADATA_KEY.to_owned(), value }])
}

#[test]
fn files_with_other_metadata_are_not_read() {
    let batch = part(desc(0, 2, 0), vec![]);
    assert_eq!(
        decode_trace_parquet(&other_file(None)),
        Err(error("missing batch metadata"))
    );
    assert_eq!(
        decode_trace_parquet(&other_file(inline(Some("?".to_owned())))),
        Err(error("invalid base64"))
    );
    let unknown = encode_trace_inline_meta(&batch, ProtoBatchFormat::Unknown);
    assert_eq!(
        decode_trace_parquet(&other_file(inline(Some(unknown)))),
        Err(error("unknown format"))
    );
    let arrow = encode_trace_inline_meta(&batch, ProtoBatchFormat::ArrowKvtd);
    assert_eq!(
        decode_trace_parquet(&other_file(inline(Some(arrow)))),
        Err(error("ArrowKVTD format not supported in parquet"))
    );
}

#[test]
fn files_with_other_columns_are_not_read() {
    let batch = part(desc(0, 2, 0), vec![]);
    let meta = encode_trace_inline_meta(&batch, ProtoBatchFormat::ParquetKvtd);
    let field = |name: &str, data_type: &str| {
        format!(
            "Field {{ name: {:?}, data_type: {}, is_nullable: false, metadata: {{}} }}",
            name, data_type
        )
    };
    let expected = format!(
        "expected arrow schema [{}, {}, {}, {}] got: [{}]",
        field("k", "Binary"),
        field("v", "Binary"),
        field("t", "Int64"),
        field("d", "Int64"),
        field("n", "Int64"),
    );
    assert_eq!(
        decode_trace_parquet(&other_file(inline(Some(meta)))),
        Err(error(&expected))
    );
}

#[test]
fn many_groups_are_read_as_they_were_written() {
    let groups = (0..200).map(|i| records(&[("key", "value", i % 9, i)])).collect();
    let batch = part(desc(0, 9, 0), groups);
    let mut w = vec![];
    assert_eq!(encode_trace_parquet(&mut w, &batch), Ok(()));
    assert_eq!(decode_trace_parquet(&w), Ok(batch));
}

#[test]
fn too_many_groups_are_not_written() {
    let groups = (0..MAX_GROUPS + 1).map(|_| records(&[])).collect();
    let batch = part(desc(0, 2, 0), groups);
    let mut w = vec![7];
    assert_eq!(
        encode_trace_parquet(&mut w, &batch),
        Err(error("the footer of a file would be too long"))
    );
    assert_eq!(w, vec![7]);
}

#[test]
fn too_many_empty_groups_are_not_read() {
    let empty = |n: usize| part(desc(0, 2, 0), (0..n).map(|_| records(&[])).collect());
    let mut w = vec![];
    assert_eq!(encode_trace_parquet(&mut w, &empty(MAX_EMPTY_GROUPS)), Ok(()));
    assert_eq!(decode_trace_parquet(&w), Ok(empty(0)));
    let mut w = vec![];
    assert_eq!(encode_trace_parquet(&mut w, &empty(MAX_EMPTY_GROUPS + 1)), Ok(()));
    assert_eq!(
        decode_trace_parquet(&w),
        Err(error("too many groups of a file are empty"))
    );
}

#[test]
fn files_of_all_kinds_have_expected_footers() {
    let texts = Utf8Array::<i32>::from_slice(["a"]).boxed();
    let times = Int64Array::from_slice([1])
        .to(DataType::Timestamp(TimeUnit::Microsecond, Some("UTC".to_owned())))
        .boxed();
    let columns = vec![
        ("a", texts, Encoding::Plain),
        ("b", times, Encoding::Plain),
        ("c", numbers(&[1]), Encoding::Plain),
    ];
    let file = file(columns, true, Some(vec![kvtd_meta()]));
    assert!(is_footer_expected(&file));
    let message = decode_trace_parquet(&file).unwrap_err().message;
    assert!(message.starts_with("expected arrow schema ["));
    assert!(message.contains("got: [Field { name: \"a\", data_type: Utf8"));
}

fn varint(n: usize) -> Vec<u8> {
    if n < 128 {
        vec![n as u8]
    } else {
        let mut digits = vec![(n % 128 + 128) as u8];
        digits.extend(varint(n / 128));
        digits
    }
}

// A file without groups, with a column that is nested in as many elements.
fn nested_file(depth: usize) -> Vec<u8> {
    let mut footer = vec![0x15, 0x04, 0x19, 0xfc];
    footer.extend(varint(depth + 1));
    footer.extend(b"\x48\x04root\x15\x02\x00");
    for _ in 1..depth {
        footer.extend(b"\x35\x00\x18\x01s\x15\x02\x00");
    }
    footer.extend(b"\x15\x04\x25\x00\x18\x01n\x00\x16\x00\x19\x0c\x19\x1c\x18");
    let entry = kvtd_meta();
    for text in [entry.key, entry.value.unwrap()] {
        footer.extend(varint(text.len()));
        footer.extend(text.as_bytes());
        footer.push(0x18);
    }
    footer.pop();
    footer.extend([0, 0]);
    let len = footer.len() as u32;
    vec![b"PAR1".to_vec(), footer, len.to_le_bytes().to_vec(), b"PAR1".to_vec()].concat()
}

#[test]
fn files_with_a_schema_that_is_not_too_deep_are_read_up_to_their_columns() {
    let file = nested_file(200);
    assert!(is_footer_expected(&file));
    let message = decode_trace_parquet(&file).unwrap_err().message;
    assert!(message.starts_with("expected arrow schema ["));
}

#[test]
fn files_with_a_nested_schema_are_not_read() {
    let file = nested_file(201);
    assert!(!is_footer_expected(&file));
    assert_eq!(
        decode_trace_parquet(&file),
        Err(error("the schema of a file is nested too deep"))
    );
    assert!(!is_footer_expected(&with_fields(file, b"\x48\x01x")));
}

// Replaces the end of the footer of a file with more fields.
fn with_fields(mut file: Vec<u8>, fields: &[u8]) -> Vec<u8> {
    let end = file.len() - 8;
    let len = u32::from_le_bytes([file[end], file[end + 1], file[end + 2], file[end + 3]]) as usize;
    file.truncate(end - 1);
    file.extend(fields);
    file.push(0);
    let len = (len + fields.len()) as u32;
    file.extend(len.to_le_bytes());
    file.extend(b"PAR1");
    file
}

// How a file is encrypted, and a field that no file has: a record of a list of flags, of pairs of
// numbers and texts, of eight bytes, and of a flag.
const MORE_FIELDS: [u8; 39] = [
    0x2c, 0x1c, 0x18, 0x01, b'a', 0x00, 0x00, 0x18, 0x01, b'x', 0x0c, 0x50, 0x19, 0x21, 0x01, 0x02,
    0x1b, 0x01, 0x58, 0x02, 0x01, b'y', 0x17, 0, 0, 0, 0, 0, 0, 0, 0, 0x11, 0x18, 0x02, b'z', b'z',
    0x13, 0x07, 0x00,
];

#[test]
fn fields_that_are_not_known_are_skipped() {
    let unknown =
        encode_trace_inline_meta(&part(desc(0, 2, 0), vec![]), ProtoBatchFormat::Unknown);
    let file = with_fields(other_file(inline(Some(unknown))), &MORE_FIELDS);
    assert!(is_footer_expected(&file));
    assert_eq!(decode_trace_parquet(&file), Err(error("unknown format")));
    let file = with_fields(kvtd_file(Encoding::Plain, Some(vec![kvtd_meta()])), &MORE_FIELDS);
    let expected = part(desc(0, 2, 0), vec![records(&[("key", "value", 1, 2)])]);
    assert_eq!(decode_trace_parquet(&file), Ok(expected));
}

#[test]
fn types_of_known_fields_do_not_matter() {
    // The version of the file, with the type of a flag.
    let file = kvtd_file(Encoding::Plain, Some(vec![kvtd_meta()]));
    let expected = decode_trace_parquet(&file);
    assert!(expected.is_ok());
    assert_eq!(decode_trace_parquet(&patched(file, &[0x15, 0x04], &[0x11, 0x04])), expected);
}

#[test]
fn footers_that_cannot_be_read_are_not_read() {
    // The version of the file, as a field that no file has.
    let file = patched(kvtd_file(Encoding::Plain, None), &[0x15, 0x04], &[0xf5, 0x04]);
    assert!(is_footer_expected(&file));
    let message = decode_trace_parquet(&file).unwrap_err().message;
    let expected = "External format error: File out of specification: Invalid thrift: ";
    assert!(message.starts_with(expected));
    let nested: Vec<u8> = [0x19, 0x19].iter().cycle().take(200).copied().collect();
    let file = with_fields(other_file(None), &nested);
    assert!(is_footer_expected(&file));
    assert!(decode_trace_parquet(&file).is_err());
}

#[test]
fn files_with_many_columns_are_read_up_to_their_format() {
    let unknown =
        encode_trace_inline_meta(&part(desc(0, 2, 0), vec![]), ProtoBatchFormat::Unknown);
    let columns = (0..2_000).map(|_| ("n", numbers(&[1]), Encoding::Plain)).collect();
    let file = file(columns, false, inline(Some(unknown)));
    assert!(is_footer_expected(&file));
    assert_eq!(decode_trace_parquet(&file), Err(error("unknown format")));
}

#[test]
fn schemas_are_neither_deep_nor_large() {
    let chain = |depth: usize| vec![vec![1; depth], vec![0]].concat();
    assert!(!is_too_deep(&vec![]));
    assert!(!is_too_deep(&vec![0]));
    assert!(!is_too_deep(&chain(200)));
    assert!(is_too_deep(&chain(201)));
    // An element that is missing, and more elements than there should be.
    assert!(!is_too_deep(&vec![1; 10]));
    assert!(is_too_deep(&vec![vec![0], chain(200)].concat()));
    assert!(!is_too_deep(&vec![vec![0], chain(199)].concat()));
    // A group of two thousand elements, and one more element than that.
    assert!(!is_too_deep(&vec![vec![1, 1_999], vec![0; 1_999]].concat()));
    assert!(is_too_deep(&vec![vec![2, 1_999], vec![0; 2_000]].concat()));
    assert!(!is_too_deep(&vec![vec![100_000], vec![-1; 100_000]].concat()));
}

#[test]
fn files_that_keep_a_short_schema_are_not_read() {
    let entry = |text: &str| KeyValue { key: SCHEMA_KEY.to_owned(), value: Some(text.to_owned()) };
    for text in ["", "AAAA", "AAAAAAAAAA==", "?"] {
        assert_eq!(
            decode_trace_parquet(&kvtd_file(
                Encoding::Plain,
                Some(vec![kvtd_meta(), entry(text)])
            )),
            Err(error("the columns that a file keeps are not laid out as expected"))
        );
    }
    let kept = |value: Option<&str>| {
        Some(vec![(SCHEMA_KEY.to_owned(), value.map(|text| text.to_owned()))])
    };
    assert!(is_schema_expected(&None));
    assert!(is_schema_expected(&kept(None)));
    assert!(is_schema_expected(&kept(Some("AAAAAAAAAAA="))));
    assert!(!is_schema_expected(&kept(Some("AAAAAAAAAA=="))));
    assert!(!is_schema_expected(&kept(Some("AAAA".repeat(129).as_str()))));
    assert!(is_schema_expected(&Some(vec![("other".to_owned(), Some("?".to_owned()))])));
}

#[test]
fn files_with_other_pages_are_not_read() {
    let unexpected = Err(error("a column of a group is not laid out as expected"));
    let file = kvtd_file(Encoding::Plain, Some(vec![kvtd_meta()]));
    let updates = vec![records(&[("key", "value", 1, 2)])];
    assert_eq!(decode_trace_parquet(&file), Ok(part(desc(0, 2, 0), updates)));
    assert_eq!(
        decode_trace_parquet(&kvtd_file(Encoding::DeltaLengthByteArray, Some(vec![kvtd_meta()]))),
        unexpected
    );
    // The number of rows of the group: two, where each column has one value.
    let rows = patched(file.clone(), &[0x16, 0x02, 0x26, 0x08], &[0x16, 0x04, 0x26, 0x08]);
    assert_eq!(decode_trace_parquet(&rows), unexpected);
    // The name of the first column, which the columns that the file keeps do not share.
    let named = patched(file, &[0x18, 0x01, b'k'], &[0x18, 0x01, b'x']);
    assert_eq!(
        decode_trace_parquet(&named),
        Err(error("the columns of a file are not laid out as expected"))
    );
}

#[test]
fn pages_hold_a_value_for_each_row() {
    let texts = vec![1, 0, 0, 0, 7, 0, 0, 0, 0];
    let fit = |pages: Vec<(PageHead, Vec<u8>)>, rows: u64, texts: bool| {
        let heads = pages.iter().map(|page| page.0).collect();
        let buffers = pages.into_iter().map(|page| page.1).collect();
        does_column_fit(&heads, &buffers, rows, texts)
    };
    let two = vec![(PageHead::V1(2, 0), texts.clone())];
    assert!(fit(vec![], 0, true));
    assert!(fit(two.clone(), 2, true));
    let with_empty = vec![(PageHead::V2(2, 0, 0, 0), texts.clone()), (PageHead::V1(0, 0), vec![])];
    assert!(fit(with_empty, 2, true));
    let numbers = vec![(PageHead::V1(1, 0), vec![0; 8]), (PageHead::V1(2, 0), vec![0; 16])];
    assert!(fit(numbers, 3, false));
    assert!(!fit(two, 3, true));
    assert!(!fit(vec![(PageHead::V1(1, 0), texts.clone())], 1, true));
    assert!(!fit(vec![(PageHead::V1(3, 0), texts.clone())], 3, true));
    assert!(!fit(vec![(PageHead::V1(2, 6), texts.clone())], 2, true));
    assert!(!fit(vec![(PageHead::V2(2, 0, 0, 1), texts.clone())], 2, true));
    assert!(!fit(vec![(PageHead::V1(1, 0), vec![0; 7])], 1, false));
    assert!(!fit(vec![(PageHead::V1(-1, 0), vec![]), (PageHead::V1(1, 0), vec![0; 8])], 0, false));
    let with_dictionary =
        vec![(PageHead::Dictionary, vec![]), (PageHead::V1(2, 0), texts.clone())];
    assert!(!fit(with_dictionary, 2, true));
    assert!(!does_column_fit(&vec![], &vec![vec![]], 0, true));
}

// A file with an update in each page.
fn paged_file(count: usize) -> Vec<u8> {
    let bytes = || BinaryArray::<i32>::from_slice(vec![b"x"; count]).boxed();
    let columns = vec![
        ("k", bytes()),
        ("v", bytes()),
        ("t", numbers(&vec![1; count])),
        ("d", numbers(&vec![1; count])),
    ];
    let fields = columns.iter().map(|c| Field::new(c.0, c.1.data_type().clone(), false));
    let schema = Schema::from(fields.collect::<Vec<_>>());
    let options = WriteOptions {
        write_statistics: false,
        compression: CompressionOptions::Uncompressed,
        version: Version::V2,
    };
    let descriptors = to_parquet_schema(&schema).unwrap().columns().to_vec();
    let group = columns.into_iter().zip(descriptors).map(move |((_, array), column)| {
        let page = move |i: usize| {
            let type_ = column.descriptor.primitive_type.clone();
            let nested = [Nested::Primitive(None, false, 1)];
            array_to_page(&*array.slice(i, 1), type_, &nested, options, Encoding::Plain)
                .map_err(|err| ParquetError::OutOfSpec(err.to_string()))
        };
        let pages = DynIter::new((0..count).map(page));
        let pages = Compressor::new(pages, options.compression, vec![]).map_err(Error::from);
        Ok(DynStreamingIterator::new(pages))
    });
    let mut writer = FileWriter::try_new(vec![], schema, options).unwrap();
    writer.write(DynIter::new(group)).unwrap();
    writer.end(Some(vec![kvtd_meta()])).unwrap();
    writer.into_inner()
}

#[test]
fn columns_with_too_many_pages_are_not_read() {
    let rows = vec![("x", "x", 1, 1); MAX_PAGES];
    assert_eq!(
        decode_trace_parquet(&paged_file(MAX_PAGES)),
        Ok(part(desc(0, 2, 0), vec![records(&rows)]))
    );
    assert_eq!(
        decode_trace_parquet(&paged_file(MAX_PAGES + 1)),
        Err(error("a column of a group is not laid out as expected"))
    );
    let heads = |n: usize| vec![PageHead::V1(1, 0); n];
    let buffers = |n: usize| vec![vec![0; 8]; n];
    let most = MAX_PAGES;
    assert!(does_column_fit(&heads(most), &buffers(most), most as u64, false));
    assert!(!does_column_fit(&heads(most + 1), &buffers(most + 1), most as u64 + 1, false));
}

#[test]
fn errors_in_pages_are_found() {
    let failed = |message: &str| Err(message.to_owned());
    let eight = || Ok(vec![vec![0; 8]]);
    let one = || Ok(vec![PageHead::V1(1, 0)]);
    assert_eq!(find_pages_error(one(), eight(), 1, false), None);
    assert_eq!(
        find_pages_error(one(), eight(), 2, false),
        Some("a column of a group is not laid out as expected".to_owned())
    );
    assert_eq!(
        find_pages_error(Err("head".to_owned()), failed("page"), 0, true),
        Some("head".to_owned())
    );
    assert_eq!(find_pages_error(one(), failed("page"), 0, true), Some("page".to_owned()));
}

#[test]
fn the_first_entry_of_the_metadata_counts() {
    let entry = |key: &str, value: Option<&str>| (key.to_owned(), value.map(|v| v.to_owned()));
    assert_eq!(find_inline(&None), None);
    assert_eq!(find_inline(&Some(vec![entry("other", Some("x"))])), None);
    let entries =
        Some(vec![entry("other", None), entry("MZ:inline", Some("a")), entry("MZ:inline", None)]);
    assert_eq!(find_inline(&entries), Some(&"a".to_owned()));
    let entries = Some(vec![entry("MZ:inline", None), entry("MZ:inline", Some("a"))]);
    assert_eq!(find_inline(&entries), None);
}

#[test]
fn parts_are_put_together() {
    let meta = |desc| ProtoBatchPartInline { format: 2, desc, index: 3 };
    let got = assemble_part(
        meta(Some(desc(1, 4, 0).into_proto())),
        vec![records(&[("k", "v", 3, 1)])],
    )
    .unwrap();
    assert_eq!(got.desc, desc(1, 4, 0));
    assert_eq!(got.index, 3);
    // A part without frontiers has the least ones, and is not valid.
    let text = "Description { lower: Antichain { elements: [0] }, upper: Antichain { elements: \
                [0] }, since: Antichain { elements: [0] } }";
    assert_eq!(
        assemble_part(meta(None), vec![]),
        Err(error(&format!("invalid desc: {}", text)))
    );
    let mut empty = desc(1, 4, 0).into_proto();
    empty.lower.as_mut().unwrap().elements.clear();
    assert_eq!(
        assemble_part(meta(Some(empty)), vec![]),
        Err(error("the lower frontier of a batch is empty"))
    );
}

#[test]
fn missing_frontiers_are_the_least() {
    let mut proto = desc(5, 6, 7).into_proto();
    proto.since = None;
    assert_eq!(read_desc(Some(proto)), Some(desc(5, 6, 0)));
    assert_eq!(read_desc(None), Some(desc(0, 0, 0)));
}

#[test]
fn inline_metadata_is_read_as_it_was_written() {
    let batch = part(desc(1, 9, 0), vec![]);
    let text = encode_trace_inline_meta(&batch, ProtoBatchFormat::ParquetKvtd);
    let (format, meta) = decode_trace_inline_meta(Some(&text)).unwrap();
    assert_eq!(format, ProtoBatchFormat::ParquetKvtd);
    assert_eq!(meta.index, 7);
    assert_eq!(meta.desc, Some(desc(1, 9, 0).into_proto()));
    assert_eq!(decode_trace_inline_meta(None), Err(error("missing batch metadata")));
    // The bytes 0xff stand for no message, in base 64.
    assert_eq!(
        decode_trace_inline_meta(Some(&"/w==".to_owned())),
        Err(error("failed to decode Protobuf message"))
    );
}

#[test]
fn unknown_formats_are_refused() {
    let inline = ProtoBatchPartInline { format: -4, desc: None, index: 0 };
    let bytes = encode_to_vec(&inline);
    // The first field, and the number as ten bytes.
    assert_eq!(bytes, vec![8, 252, 255, 255, 255, 255, 255, 255, 255, 255, 1]);
    let text = "CPz//////////wE=".to_owned();
    assert_eq!(decode_trace_inline_meta(Some(&text)), Err(error("unknown format: -4")));
    assert_eq!(ProtoBatchFormat::from_i32(1), Some(ProtoBatchFormat::ArrowKvtd));
    assert_eq!(ProtoBatchFormat::ArrowKvtd.number(), 1);
    assert_eq!(ProtoBatchFormat::from_i32(3), None);
}

#[test]
fn columns_fit_together() {
    assert_eq!(KEY_VAL_DATA_MAX_LEN, i32::MAX as usize);
    assert!(ColumnarRecords::new(vec![vec![]], vec![], vec![1], vec![1]).is_none());
    assert!(ColumnarRecords::new(vec![vec![]], vec![vec![]], vec![], vec![1]).is_none());
    assert!(ColumnarRecords::new(vec![vec![]], vec![vec![]], vec![1], vec![]).is_none());
    let records = records(&[("k", "v", 2, 3)]);
    assert_eq!(records.len(), 1);
    assert_eq!(records.keys(), &vec![b"k".to_vec()]);
    assert_eq!(records.vals(), &vec![b"v".to_vec()]);
    assert_eq!(records.timestamps(), &vec![2]);
    assert_eq!(records.diffs(), &vec![3]);
}
