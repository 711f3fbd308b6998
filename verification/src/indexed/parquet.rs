//! Parts of batches as Parquet files.

use std::io::Cursor;
use std::iter::once;
use std::slice::from_ref;
use std::sync::Arc;

use arrow2::array::{BinaryArray, Int64Array};
use arrow2::chunk::Chunk;
use arrow2::datatypes::{DataType, Field, Schema};
use arrow2::io::parquet::read::{
    decompress, infer_schema, read_columns, read_metadata, DataPageHeader, FileMetaData,
    FileReader, Page, PageReader, ParquetError,
};
use arrow2::io::parquet::write::{
    CompressedPage, CompressionOptions, Encoding, FileWriter, KeyValue, RowGroupIterator, Version,
    WriteOptions,
};
use vstd::prelude::*;

use crate::base64::{base64_bytes, decode_base64};
use crate::indexed::columnar::{
    columns_fit, error, rows, rows_len, BatchError, ColumnarRecords, ColumnarRecordsView,
};
use crate::indexed::encoding::{
    decode_trace_inline_meta, desc_or_least, encode_trace_inline_meta, inline_meta,
    lemma_desc_round_trip, meta_of, part_error, read_desc, BlobTraceBatchPart,
    BlobTraceBatchPartView, ProtoBatchFormat,
};
use crate::indexed::footer::{footer_expected, is_footer_expected};
use crate::indexed::pages::{column_fits, does_column_fit, PageHead, MAX_PAGES};
use crate::indexed::proto::{ProtoBatchPartInline, ProtoBatchPartInlineView};
use crate::persist::antichain::description_valid;
use crate::proto::message::{option_view, views};
use crate::proto::wire::write_all;
use crate::text::same_text;

verus! {

/// The key that what is known of a part without its updates is kept under.
pub const INLINE_METADATA_KEY: &'static str = "MZ:inline";

/// The key that `arrow2` keeps the columns of a file under.
pub const SCHEMA_KEY: &'static str = "ARROW:schema";

/// The fewest bytes that the columns of a file may take, as `arrow2` keeps them.
pub const MIN_SCHEMA_LEN: usize = 8;

/// The most bytes that the columns of a file may take, as `arrow2` keeps them.
pub const MAX_SCHEMA_LEN: usize = 384;

/// The most groups of updates that a file may be written with.
pub const MAX_GROUPS: usize = 1_000_000;

/// The most characters that the value of an entry of metadata may be written with.
pub const MAX_VALUE_LEN: usize = 100_000_000;

/// How many bytes a column of a group has to take to be written as more pages than one.
pub const PAGE_SPLIT_LEN: usize = 0x7e00_0000;

/// The most groups of a file that is read that may be empty.
pub const MAX_EMPTY_GROUPS: usize = 1_024;

/// The columns of a file with updates, in words.
pub open spec fn kvtd_fields() -> Seq<char> {
    "[Field { name: \"k\", data_type: Binary, is_nullable: false, metadata: {} }, Field { name: \"v\", data_type: Binary, is_nullable: false, metadata: {} }, Field { name: \"t\", data_type: Int64, is_nullable: false, metadata: {} }, Field { name: \"d\", data_type: Int64, is_nullable: false, metadata: {} }]"@
}

fn kvtd_text() -> (text: String)
    ensures
        text@ == kvtd_fields(),
{
    "[Field { name: \"k\", data_type: Binary, is_nullable: false, metadata: {} }, Field { name: \"v\", data_type: Binary, is_nullable: false, metadata: {} }, Field { name: \"t\", data_type: Int64, is_nullable: false, metadata: {} }, Field { name: \"d\", data_type: Int64, is_nullable: false, metadata: {} }]".to_owned()
}

/// How the columns of a file with updates are laid out, in words.
pub open spec fn kvtd_columns() -> Seq<char> {
    "[([\"k\"], Descriptor { primitive_type: PrimitiveType { field_info: FieldInfo { name: \"k\", repetition: Required, id: None }, logical_type: None, converted_type: None, physical_type: ByteArray }, max_def_level: 0, max_rep_level: 0 }), ([\"v\"], Descriptor { primitive_type: PrimitiveType { field_info: FieldInfo { name: \"v\", repetition: Required, id: None }, logical_type: None, converted_type: None, physical_type: ByteArray }, max_def_level: 0, max_rep_level: 0 }), ([\"t\"], Descriptor { primitive_type: PrimitiveType { field_info: FieldInfo { name: \"t\", repetition: Required, id: None }, logical_type: None, converted_type: None, physical_type: Int64 }, max_def_level: 0, max_rep_level: 0 }), ([\"d\"], Descriptor { primitive_type: PrimitiveType { field_info: FieldInfo { name: \"d\", repetition: Required, id: None }, logical_type: None, converted_type: None, physical_type: Int64 }, max_def_level: 0, max_rep_level: 0 })]"@
}

fn kvtd_columns_text() -> (text: String)
    ensures
        text@ == kvtd_columns(),
{
    "[([\"k\"], Descriptor { primitive_type: PrimitiveType { field_info: FieldInfo { name: \"k\", repetition: Required, id: None }, logical_type: None, converted_type: None, physical_type: ByteArray }, max_def_level: 0, max_rep_level: 0 }), ([\"v\"], Descriptor { primitive_type: PrimitiveType { field_info: FieldInfo { name: \"v\", repetition: Required, id: None }, logical_type: None, converted_type: None, physical_type: ByteArray }, max_def_level: 0, max_rep_level: 0 }), ([\"t\"], Descriptor { primitive_type: PrimitiveType { field_info: FieldInfo { name: \"t\", repetition: Required, id: None }, logical_type: None, converted_type: None, physical_type: Int64 }, max_def_level: 0, max_rep_level: 0 }), ([\"d\"], Descriptor { primitive_type: PrimitiveType { field_info: FieldInfo { name: \"d\", repetition: Required, id: None }, logical_type: None, converted_type: None, physical_type: Int64 }, max_def_level: 0, max_rep_level: 0 })]".to_owned()
}

/// How a column of a group that is not compressed is compressed, in words.
pub open spec fn plain_codec() -> Seq<char> {
    "Uncompressed"@
}

/// A column of bytes.
type BytesArray = BinaryArray<i32>;

/// An entry of the metadata of a file: a key, and perhaps a value.
pub type Entry = (String, Option<String>);

/// The contents of an [`Entry`].
pub type EntryView = (Seq<char>, Option<Seq<char>>);

/// The contents of the metadata of a file.
pub open spec fn entries_view(entries: Option<Vec<Entry>>) -> Option<Seq<EntryView>> {
    match entries {
        Some(entries) => Some(
            Seq::new(
                entries@.len(),
                |i: int| (entries@[i].0@, option_view(entries@[i].1)),
            ),
        ),
        None => None,
    }
}

/// How a file is laid out: its columns, in words; how many rows each group has; and, of each column
/// of each group, how many bytes it takes, and how it is compressed, in words.
pub struct FileLayout {
    pub columns: String,
    pub groups: Vec<u64>,
    pub chunks: Vec<(u64, String)>,
}

/// The contents of a [`FileLayout`].
#[verifier::ext_equal]
pub struct FileLayoutView {
    pub columns: Seq<char>,
    pub groups: Seq<u64>,
    pub chunks: Seq<(u64, Seq<char>)>,
}

impl View for FileLayout {
    type V = FileLayoutView;

    open spec fn view(&self) -> FileLayoutView {
        FileLayoutView {
            columns: self.columns@,
            groups: self.groups@,
            chunks: Seq::new(
                self.chunks@.len(),
                |i: int| (self.chunks@[i].0, self.chunks@[i].1@),
            ),
        }
    }
}

/// The columns of a group of updates: keys, values, times and diffs.
pub type Columns = (Vec<Vec<u8>>, Vec<Vec<u8>>, Vec<i64>, Vec<i64>);

/// The contents of [`Columns`].
pub open spec fn columns_view(columns: Columns) -> ColumnarRecordsView {
    ColumnarRecordsView {
        keys: rows(columns.0@),
        vals: rows(columns.1@),
        timestamps: columns.2@,
        diffs: columns.3@,
    }
}

/// A group of updates, or what went wrong in its place.
pub type GroupView = Result<ColumnarRecordsView, Seq<char>>;

/// A Parquet file that is being written by `arrow2::io::parquet::write::FileWriter`.
#[verifier::external_body]
pub struct GroupWriter {
    writer: FileWriter<Vec<u8>>,
}

/// The groups of updates that have been written to a file.
pub uninterp spec fn written_groups(writer: GroupWriter) -> Seq<ColumnarRecordsView>;

/// Whether `arrow2` can write a group of updates, or the error in words.
pub uninterp spec fn group_written(group: ColumnarRecordsView) -> Result<(), Seq<char>>;

/// The file that `arrow2` makes of groups of updates, and of an entry of metadata; or the error in
/// words.
pub uninterp spec fn parquet_written(
    groups: Seq<ColumnarRecordsView>,
    key: Seq<char>,
    value: Seq<char>,
) -> Result<Seq<u8>, Seq<char>>;

/// A Parquet file that is being read by `arrow2::io::parquet::read::FileReader`, with its footer.
#[verifier::external_body]
pub struct GroupReader {
    metadata: FileMetaData,
    reader: FileReader<Cursor<Vec<u8>>>,
}

/// The groups of updates that are still to be read from a file, or what goes wrong in their place.
pub uninterp spec fn unread_groups(reader: GroupReader) -> Seq<GroupView>;

/// The columns of a file that is being read, in words.
pub uninterp spec fn reader_fields(reader: GroupReader) -> Seq<char>;

/// The bytes of a file that is being read.
pub uninterp spec fn reader_file(reader: GroupReader) -> Seq<u8>;

/// What `arrow2` makes of the metadata of a file: its entries, if it has any; or the error in
/// words.
pub uninterp spec fn parquet_metadata(bytes: Seq<u8>) -> Result<Option<Seq<EntryView>>, Seq<char>>;

/// What `arrow2` makes of how a file is laid out, if it can be opened.
pub uninterp spec fn parquet_layout(bytes: Seq<u8>) -> FileLayoutView;

/// The bytes of a column of a group of a file that `arrow2` finds, or the error in words.
pub uninterp spec fn parquet_chunk(bytes: Seq<u8>, group: nat, column: nat) -> Result<
    Seq<u8>,
    Seq<char>,
>;

/// What `arrow2` finds out of the pages in the bytes of a column of a group of a file, if no header
/// of a page takes more bytes than a limit, or the error in words.
pub uninterp spec fn parquet_heads(
    bytes: Seq<u8>,
    group: nat,
    column: nat,
    chunk: Seq<u8>,
    limit: nat,
) -> Result<Seq<PageHead>, Seq<char>>;

/// The bytes of each of the pages that `arrow2` finds in the bytes of a column of a group of a
/// file, if no header of a page takes more bytes than a limit, or the error in words.
pub uninterp spec fn parquet_buffers(
    bytes: Seq<u8>,
    group: nat,
    column: nat,
    chunk: Seq<u8>,
    limit: nat,
) -> Result<Seq<Seq<u8>>, Seq<char>>;

/// What `arrow2` makes of a file: its columns in words, and its groups of updates, or what goes
/// wrong in their place; or the error in words.
pub uninterp spec fn parquet_opened(bytes: Seq<u8>) -> Result<
    (Seq<char>, Seq<GroupView>),
    Seq<char>,
>;

/// Whether a group of updates has any.
pub open spec fn not_empty(group: ColumnarRecordsView) -> bool {
    group.keys.len() > 0
}

/// Whether the first entry of the metadata of a file is the given one.
pub open spec fn holds_entry(
    entries: Option<Seq<EntryView>>,
    key: Seq<char>,
    value: Seq<char>,
) -> bool {
    entries matches Some(entries) && entries.len() > 0 && entries[0] == (key, Some(value))
}

/// Whether an entry of the metadata of a file does not keep the columns of the file, or keeps some
/// that are neither too short nor too long.
pub open spec fn entry_expected(entry: EntryView) -> bool {
    entry.0 == SCHEMA_KEY@ ==> match entry.1 {
        Some(text) => base64_bytes(text) matches Some(schema) && MIN_SCHEMA_LEN <= schema.len()
            <= MAX_SCHEMA_LEN,
        None => true,
    }
}

/// Whether no entry of the metadata of a file keeps columns that are too short or too long.
pub open spec fn entries_expected(entries: Seq<EntryView>) -> bool {
    forall|i: int| 0 <= i < entries.len() ==> entry_expected(#[trigger] entries[i])
}

/// Whether the columns of a file that its metadata keeps, if any, are neither too short nor too
/// long.
pub open spec fn schema_expected(entries: Option<Seq<EntryView>>) -> bool {
    entries matches Some(entries) ==> entries_expected(entries)
}

/// Whether no group of updates is empty.
pub open spec fn none_empty(groups: Seq<ColumnarRecordsView>) -> bool {
    forall|i: int| 0 <= i < groups.len() ==> not_empty(#[trigger] groups[i])
}

/// Whether a file has the columns of updates, and holds the given groups.
pub open spec fn holds_groups(
    opened: Result<(Seq<char>, Seq<GroupView>), Seq<char>>,
    groups: Seq<ColumnarRecordsView>,
) -> bool {
    &&& opened matches Ok((fields, read))
    &&& fields == kvtd_fields()
    &&& read == Seq::new(groups.len(), |i: int| Ok::<ColumnarRecordsView, Seq<char>>(groups[i]))
}

/// What is wrong with the pages of a column of a group, if anything, by what is known of each page,
/// and by its bytes.
pub open spec fn pages_error(
    heads: Result<Seq<PageHead>, Seq<char>>,
    buffers: Result<Seq<Seq<u8>>, Seq<char>>,
    count: nat,
    texts: bool,
) -> Option<Seq<char>> {
    match (heads, buffers) {
        (Err(err), _) => Some(err),
        (Ok(_), Err(err)) => Some(err),
        (Ok(heads), Ok(buffers)) => if column_fits(heads, buffers, count, texts) {
            None
        } else {
            Some("a column of a group is not laid out as expected"@)
        },
    }
}

/// What is wrong with a column of a group, if anything. The first two columns hold texts.
pub open spec fn column_error(bytes: Seq<u8>, group: nat, column: nat, count: nat) -> Option<
    Seq<char>,
> {
    match parquet_chunk(bytes, group, column) {
        Ok(chunk) => pages_error(
            parquet_heads(bytes, group, column, chunk, bytes.len()),
            parquet_buffers(bytes, group, column, chunk, bytes.len()),
            count,
            column < 2,
        ),
        Err(err) => Some(err),
    }
}

/// The first thing that is wrong with the first columns of a group, if anything.
pub open spec fn group_error(bytes: Seq<u8>, group: nat, columns: nat, count: nat) -> Option<
    Seq<char>,
>
    decreases columns,
{
    if columns == 0 {
        None
    } else {
        match group_error(bytes, group, (columns - 1) as nat, count) {
            Some(err) => Some(err),
            None => column_error(bytes, group, (columns - 1) as nat, count),
        }
    }
}

/// The first thing that is wrong with groups of a file, if anything.
pub open spec fn groups_error(bytes: Seq<u8>, groups: Seq<u64>) -> Option<Seq<char>>
    decreases groups.len(),
{
    if groups.len() == 0 {
        None
    } else {
        match groups_error(bytes, groups.drop_last()) {
            Some(err) => Some(err),
            None => group_error(bytes, (groups.len() - 1) as nat, 4, groups.last() as nat),
        }
    }
}

/// How many groups are empty.
pub open spec fn empty_groups(groups: Seq<u64>) -> nat
    decreases groups.len(),
{
    if groups.len() == 0 {
        0
    } else if groups.last() == 0 {
        empty_groups(groups.drop_last()) + 1
    } else {
        empty_groups(groups.drop_last())
    }
}

/// Whether the columns of groups of a file are not compressed, and none takes more bytes than the
/// file.
pub open spec fn chunks_expected(bytes: Seq<u8>, chunks: Seq<(u64, Seq<char>)>) -> bool {
    forall|i: int|
        0 <= i < chunks.len() ==> (#[trigger] chunks[i]).0 <= bytes.len() && chunks[i].1
            == plain_codec()
}

/// The first thing that is wrong with how a file with updates is laid out, if anything.
pub open spec fn file_error(bytes: Seq<u8>, layout: FileLayoutView) -> Option<Seq<char>> {
    if layout.columns != kvtd_columns() {
        Some("the columns of a file are not laid out as expected"@)
    } else if !chunks_expected(bytes, layout.chunks) {
        Some("a column of a group is compressed or longer than the file"@)
    } else if empty_groups(layout.groups) > MAX_EMPTY_GROUPS {
        Some("too many groups of a file are empty"@)
    } else {
        groups_error(bytes, layout.groups)
    }
}

/// Whether nothing is wrong with how a file with updates is laid out.
pub open spec fn file_expected(bytes: Seq<u8>) -> bool {
    file_error(bytes, parquet_layout(bytes)) is None
}

/// How many pages `arrow2` finds in a column of a group of a file, if it finds any.
pub open spec fn page_count(bytes: Seq<u8>, group: nat, column: nat) -> nat {
    match parquet_chunk(bytes, group, column) {
        Ok(chunk) => match parquet_heads(bytes, group, column, chunk, bytes.len()) {
            Ok(heads) => heads.len(),
            Err(_) => 0,
        },
        Err(_) => 0,
    }
}

/// Whether no column of the first groups of a file has too many pages.
pub open spec fn few_pages(bytes: Seq<u8>, groups: nat) -> bool {
    forall|group: nat, column: nat|
        group < groups && column < 4 ==> #[trigger] page_count(bytes, group, column) <= MAX_PAGES
}

/// Whether no column of a group of updates takes so many bytes that it is written as more pages
/// than one, or the group has no more updates than a column may have pages. With each text go four
/// bytes, and four more with all of them.
pub open spec fn is_light(group: ColumnarRecordsView) -> bool {
    let count = group.keys.len();
    ||| count <= MAX_PAGES
    ||| rows_len(group.keys) + 4 * count + 4 < PAGE_SPLIT_LEN && rows_len(group.vals) + 4 * count
        + 4 < PAGE_SPLIT_LEN && 8 * count < PAGE_SPLIT_LEN
}

/// Whether no column of groups of updates takes so many bytes that it is written as too many pages.
pub open spec fn all_light(groups: Seq<ColumnarRecordsView>) -> bool {
    forall|i: int| 0 <= i < groups.len() ==> is_light(#[trigger] groups[i])
}

/// Whether a file has an entry of metadata and, if no column has too many pages, holds groups of
/// updates, if none of them is empty, and nothing is wrong with how it is laid out.
pub open spec fn is_file(
    file: Seq<u8>,
    key: Seq<char>,
    value: Seq<char>,
    groups: Seq<ColumnarRecordsView>,
) -> bool {
    &&& footer_expected(file)
    &&& parquet_metadata(file) matches Ok(entries)
    &&& holds_entry(entries, key, value)
    &&& schema_expected(entries)
    &&& all_light(groups) ==> few_pages(file, groups.len())
    &&& none_empty(groups) && few_pages(file, groups.len()) ==> holds_groups(
        parquet_opened(file),
        groups,
    ) && file_expected(file)
}

/// Calls `arrow2::io::parquet::write::FileWriter::try_new` for a file of updates in memory, with
/// four columns that are not compressed. That succeeds, and nothing has been written to the file.
#[verifier::external_body]
fn new_writer() -> (r: Result<GroupWriter, String>)
    ensures
        r is Ok,
        r matches Ok(writer) ==> written_groups(writer).len() == 0,
{
    let schema = Schema::from(vec![
        Field::new("k", DataType::Binary, false),
        Field::new("v", DataType::Binary, false),
        Field::new("t", DataType::Int64, false),
        Field::new("d", DataType::Int64, false),
    ]);
    let compression = CompressionOptions::Uncompressed;
    let options = WriteOptions { write_statistics: false, compression, version: Version::V2 };
    match FileWriter::try_new(Vec::new(), schema, options) {
        Ok(writer) => Ok(GroupWriter { writer }),
        Err(err) => Err(err.to_string()),
    }
}

/// Calls `arrow2::io::parquet::write::FileWriter::write` with a group of updates, by way of
/// `arrow2::io::parquet::write::RowGroupIterator`, and with the plain encoding for each column.
/// Whether that succeeds depends on the group alone. The group is then the last one of those
/// written; a file that it could not be written to is given up.
#[verifier::external_body]
fn write_group(writer: GroupWriter, records: &ColumnarRecords) -> (r: Result<GroupWriter, String>)
    requires
        columns_fit(records@),
    ensures
        match r {
            Ok(next) => group_written(records@) is Ok && written_groups(next) == written_groups(
                writer,
            ).push(records@),
            Err(message) => group_written(records@) matches Err(err) && err == message@,
        },
{
    let chunk = Chunk::try_new(vec![
        BytesArray::from_slice(records.keys()).boxed(),
        BytesArray::from_slice(records.vals()).boxed(),
        Int64Array::from_slice(records.timestamps()).boxed(),
        Int64Array::from_slice(records.diffs()).boxed(),
    ]);
    let mut file = writer.writer;
    let encodings = vec![vec![Encoding::Plain]; 4];
    let groups = RowGroupIterator::try_new(once(chunk), file.schema(), file.options(), encodings);
    let group = groups.and_then(|mut groups| groups.next().unwrap());
    match group.and_then(|group| file.write(group)) {
        Ok(()) => Ok(GroupWriter { writer: file }),
        Err(err) => Err(err.to_string()),
    }
}

/// Calls `arrow2::io::parquet::write::FileWriter::end` with an entry of metadata, and takes the
/// bytes of the file, which depend on the groups that were written and on the entry alone. The
/// length of the footer is written as a number of 32 bits, which the bounds on the entry and on the
/// number of groups keep it within. The footer is one that is read, the entry is read back as the
/// first one, and what `arrow2` adds to the metadata are the four columns of the file. A column is
/// written as no more pages than it has values, and as one page if it takes few bytes. The groups
/// that were written are read back, if none of them is empty and no column has too many pages, and
/// their columns are not compressed and have plain pages.
#[verifier::external_body]
fn end_file(writer: GroupWriter, key: &str, value: &str) -> (r: Result<Vec<u8>, String>)
    requires
        key@ != SCHEMA_KEY@,
        key@.len() <= MAX_VALUE_LEN,
        value@.len() <= MAX_VALUE_LEN,
        written_groups(writer).len() <= MAX_GROUPS,
    ensures
        match r {
            Ok(bytes) => parquet_written(written_groups(writer), key@, value@) matches Ok(file)
                && file == bytes@,
            Err(message) => parquet_written(written_groups(writer), key@, value@) matches Err(err)
                && err == message@,
        },
        r matches Ok(bytes) ==> is_file(bytes@, key@, value@, written_groups(writer)),
{
    let mut file = writer.writer;
    let entry = KeyValue { key: key.to_owned(), value: Some(value.to_owned()) };
    match file.end(Some(vec![entry])) {
        Ok(_) => Ok(file.into_inner()),
        Err(err) => Err(err.to_string()),
    }
}

/// Calls `arrow2::io::parquet::read::read_metadata`, and copies the entries of the metadata. What
/// it returns depends on the bytes alone. A schema that is nested deeper than the stack allows, or
/// so large that the copies of it that are made add up, is left out.
#[verifier::external_body]
fn read_entries(bytes: &[u8]) -> (r: Result<Option<Vec<Entry>>, String>)
    requires
        footer_expected(bytes@),
    ensures
        match r {
            Ok(entries) => parquet_metadata(bytes@) matches Ok(read) && read == entries_view(
                entries,
            ),
            Err(message) => parquet_metadata(bytes@) matches Err(err) && err == message@,
        },
{
    let metadata = read_metadata(&mut Cursor::new(bytes)).map_err(|err| err.to_string())?;
    let entries = metadata.key_value_metadata().as_ref();
    Ok(entries.map(|all| all.iter().map(|x| (x.key.clone(), x.value.clone())).collect()))
}

/// Calls `arrow2::io::parquet::read::read_metadata`, `infer_schema` and `FileReader::new`. What
/// comes of it depends on the bytes alone. A schema that is nested too deep is left out, as are
/// columns that the metadata keeps, and that are too short for what precedes them or long enough to
/// be nested.
#[verifier::external_body]
fn open_file(bytes: &[u8]) -> (r: Result<GroupReader, String>)
    requires
        footer_expected(bytes@),
        parquet_metadata(bytes@) matches Ok(entries) && schema_expected(entries),
    ensures
        match r {
            Ok(reader) => parquet_opened(bytes@) matches Ok((fields, groups)) && fields
                == reader_fields(reader) && groups == unread_groups(reader),
            Err(message) => parquet_opened(bytes@) matches Err(err) && err == message@,
        },
        r matches Ok(reader) ==> reader_file(reader) == bytes@,
{
    let mut file = Cursor::new(bytes.to_vec());
    let metadata = read_metadata(&mut file).map_err(|err| err.to_string())?;
    let schema = infer_schema(&metadata).map_err(|err| err.to_string())?;
    let groups = metadata.row_groups.clone();
    let reader = FileReader::new(file, groups, schema, None, None, None);
    Ok(GroupReader { metadata, reader })
}

/// Copies what `arrow2::io::parquet::read::read_metadata` found out: how the columns of the file
/// are laid out, how many rows each group has, and how many bytes each column of a group takes and
/// how it is compressed. That depends on the bytes of the file alone.
#[verifier::external_body]
fn read_layout(reader: &GroupReader) -> (layout: FileLayout)
    ensures
        layout@ == parquet_layout(reader_file(*reader)),
{
    let columns = reader.metadata.schema().columns().iter();
    let columns = columns.map(|c| (&c.path_in_schema, &c.descriptor)).collect::<Vec<_>>();
    let groups = reader.metadata.row_groups.iter();
    let chunks = reader.metadata.row_groups.iter().flat_map(|g| g.columns());
    FileLayout {
        columns: format!("{:?}", columns),
        groups: groups.map(|g| g.num_rows() as u64).collect(),
        chunks: chunks
            .map(|c| (c.compressed_size() as u64, format!("{:?}", c.compression())))
            .collect(),
    }
}

/// Whether there is such a column in such a group of a file with updates, and no column is
/// compressed or takes more bytes than the file.
pub open spec fn is_column(bytes: Seq<u8>, group: nat, column: nat) -> bool {
    &&& parquet_layout(bytes).columns == kvtd_columns()
    &&& chunks_expected(bytes, parquet_layout(bytes).chunks)
    &&& group < parquet_layout(bytes).groups.len()
    &&& column < 4
}

/// Calls `arrow2::io::parquet::read::read_columns` for a column of a group. What comes of it
/// depends on the bytes of the file, the group and the column alone.
#[verifier::external_body]
fn read_chunk(reader: &GroupReader, bytes: &[u8], group: usize, column: usize) -> (r: Result<
    Vec<u8>,
    String,
>)
    requires
        reader_file(*reader) == bytes@,
        is_column(reader_file(*reader), group as nat, column as nat),
    ensures
        match r {
            Ok(read) => parquet_chunk(
                reader_file(*reader),
                group as nat,
                column as nat,
            ) matches Ok(found) && found == read@,
            Err(message) => parquet_chunk(
                reader_file(*reader),
                group as nat,
                column as nat,
            ) matches Err(err) && err == message@,
        },
{
    let meta = &reader.metadata.row_groups[group].columns()[column];
    let name = &meta.descriptor().path_in_schema[0];
    let chunks = read_columns(&mut Cursor::new(bytes), from_ref(meta), name);
    chunks.map(|mut all| all.remove(0).1).map_err(|err| err.to_string())
}

/// Calls the `Iterator` implementation of `arrow2::io::parquet::read::PageReader` on the bytes of a
/// column of a group, and copies what it finds out of each page. What comes of it depends on the
/// bytes of the file, the group, the column and its bytes, and the limit on the headers of pages
/// alone.
#[verifier::external_body]
fn read_heads(
    reader: &GroupReader,
    group: usize,
    column: usize,
    chunk: &[u8],
    limit: usize,
) -> (r: Result<Vec<PageHead>, String>)
    requires
        is_column(reader_file(*reader), group as nat, column as nat),
    ensures
        match r {
            Ok(read) => parquet_heads(
                reader_file(*reader),
                group as nat,
                column as nat,
                chunk@,
                limit as nat,
            ) matches Ok(found) && found == read@,
            Err(message) => parquet_heads(
                reader_file(*reader),
                group as nat,
                column as nat,
                chunk@,
                limit as nat,
            ) matches Err(err) && err == message@,
        },
{
    let meta = &reader.metadata.row_groups[group].columns()[column];
    let pages = PageReader::new(chunk, meta, Arc::new(|_, _| true), vec![], limit);
    let heads = pages.map(|page| Ok(match page? {
        CompressedPage::Dict(_) => PageHead::Dictionary,
        CompressedPage::Data(page) => match page.header() {
            DataPageHeader::V1(x) => PageHead::V1(x.num_values, x.encoding.0),
            DataPageHeader::V2(x) => PageHead::V2(
                x.num_values,
                x.encoding.0,
                x.repetition_levels_byte_length,
                x.definition_levels_byte_length,
            ),
        },
    }));
    heads.collect::<Result<_, ParquetError>>().map_err(|err| err.to_string())
}

/// Calls the `Iterator` implementation of `arrow2::io::parquet::read::PageReader` on the bytes of a
/// column of a group, and `arrow2::io::parquet::read::decompress` on each page, and copies the
/// bytes of the page. What comes of it depends on the bytes of the file, the group, the column and
/// its bytes, and the limit on the headers of pages alone.
#[verifier::external_body]
fn read_buffers(
    reader: &GroupReader,
    group: usize,
    column: usize,
    chunk: &[u8],
    limit: usize,
) -> (r: Result<Vec<Vec<u8>>, String>)
    requires
        is_column(reader_file(*reader), group as nat, column as nat),
    ensures
        match r {
            Ok(read) => parquet_buffers(
                reader_file(*reader),
                group as nat,
                column as nat,
                chunk@,
                limit as nat,
            ) matches Ok(found) && found == rows(read@),
            Err(message) => parquet_buffers(
                reader_file(*reader),
                group as nat,
                column as nat,
                chunk@,
                limit as nat,
            ) matches Err(err) && err == message@,
        },
{
    let meta = &reader.metadata.row_groups[group].columns()[column];
    let pages = PageReader::new(chunk, meta, Arc::new(|_, _| true), vec![], limit);
    let buffers = pages.map(|page| Ok(match decompress(page?, &mut vec![])? {
        Page::Data(page) => page.buffer().to_vec(),
        Page::Dict(page) => page.buffer,
    }));
    buffers.collect::<Result<_, ParquetError>>().map_err(|err| err.to_string())
}

/// Calls `arrow2::io::parquet::read::FileReader::schema`, and writes the columns in words.
#[verifier::external_body]
fn fields_text(reader: &GroupReader) -> (text: String)
    ensures
        text@ == reader_fields(*reader),
{
    format!("{:?}", reader.reader.schema().fields.as_slice())
}

/// Calls the `Iterator` implementation of `arrow2::io::parquet::read::FileReader`, and copies the
/// columns of the group: the first of those that are still to be read. The groups of a file that is
/// not laid out as expected are left out: a column may be missing, or have fewer values than the
/// group has rows, or more pages than the stack allows, or pages that are not what they say.
#[verifier::external_body]
fn next_group(reader: &mut GroupReader) -> (group: Option<Result<Columns, String>>)
    requires
        reader_fields(*old(reader)) == kvtd_fields(),
        file_expected(reader_file(*old(reader))),
    ensures
        reader_file(*final(reader)) == reader_file(*old(reader)),
        reader_fields(*final(reader)) == reader_fields(*old(reader)),
        group is None <==> unread_groups(*old(reader)).len() == 0,
        group is Some ==> unread_groups(*final(reader)) == unread_groups(*old(reader)).skip(1),
        group matches Some(Ok(columns)) ==> unread_groups(*old(reader))[0] == ok_group(columns),
        group matches Some(Err(err)) ==> unread_groups(*old(reader))[0] == err_group(err@),
{
    let chunk = match reader.reader.next()? {
        Ok(chunk) => chunk,
        Err(err) => return Some(Err(err.to_string())),
    };
    let bytes = |i: usize| {
        let column: &BytesArray = chunk.arrays()[i].as_any().downcast_ref().unwrap();
        column.values_iter().map(|b| b.to_vec()).collect()
    };
    let numbers = |i: usize| {
        let column: &Int64Array = chunk.arrays()[i].as_any().downcast_ref().unwrap();
        column.values().to_vec()
    };
    Some(Ok((bytes(0), bytes(1), numbers(2), numbers(3))))
}

/// A group with the given columns.
pub open spec fn ok_group(columns: Columns) -> GroupView {
    Ok(columns_view(columns))
}

/// A group that could not be read.
pub open spec fn err_group(message: Seq<char>) -> GroupView {
    Err(message)
}

/// Whether groups of updates can be written, or the error of the first one that cannot.
pub open spec fn groups_written(groups: Seq<ColumnarRecordsView>) -> Result<(), Seq<char>>
    decreases groups.len(),
{
    if groups.len() == 0 {
        Ok(())
    } else {
        match groups_written(groups.drop_last()) {
            Ok(()) => group_written(groups.last()),
            Err(err) => Err(err),
        }
    }
}

proof fn lemma_groups_written_prefix(groups: Seq<ColumnarRecordsView>, i: int)
    requires
        0 <= i <= groups.len(),
    ensures
        groups_written(groups.take(i)) matches Err(err) ==> groups_written(groups) == Err::<
            (),
            Seq<char>,
        >(err),
    decreases groups.len(),
{
    if i < groups.len() {
        lemma_groups_written_prefix(groups.drop_last(), i);
        assert(groups.drop_last().take(i) =~= groups.take(i));
    } else {
        assert(groups.take(i) =~= groups);
    }
}

/// The file that updates are written as, with an entry of metadata, or what is wrong with them.
pub open spec fn file_of(updates: Seq<ColumnarRecordsView>, inline: Seq<char>) -> Result<
    Seq<u8>,
    Seq<char>,
> {
    if updates.len() > MAX_GROUPS || inline.len() > MAX_VALUE_LEN {
        Err("the footer of a file would be too long"@)
    } else {
        match groups_written(updates) {
            Ok(()) => parquet_written(updates, INLINE_METADATA_KEY@, inline),
            Err(err) => Err(err),
        }
    }
}

/// Writes updates as a Parquet file, with an entry of metadata. An error leaves nothing behind.
fn encode_parquet_kvtd(
    w: &mut Vec<u8>,
    inline_base64: String,
    updates: &Vec<ColumnarRecords>,
) -> (r: Result<(), BatchError>)
    ensures
        match file_of(views(updates@), inline_base64@) {
            Ok(file) => r is Ok && final(w)@ == old(w)@ + file && is_file(
                file,
                INLINE_METADATA_KEY@,
                inline_base64@,
                views(updates@),
            ) && forall|i: int|
                0 <= i < updates@.len() ==> columns_fit(#[trigger] views(updates@)[i]),
            Err(message) => (r matches Err(err) && err@ == message) && final(w)@ == old(w)@,
        },
{
    let ghost all = views(updates@);
    if updates.len() > MAX_GROUPS || inline_base64.as_str().unicode_len() > MAX_VALUE_LEN {
        return Err(error("the footer of a file would be too long"));
    }
    let mut writer: GroupWriter = match new_writer() {
        Ok(writer) => writer,
        Err(message) => {
            return Err(BatchError { message });
        },
    };
    let mut i: usize = 0;
    assert(written_groups(writer) =~= all.take(0));
    while i < updates.len()
        invariant
            i <= updates.len(),
            all == views(updates@),
            all.len() <= MAX_GROUPS,
            inline_base64@.len() <= MAX_VALUE_LEN,
            written_groups(writer) == all.take(i as int),
            groups_written(all.take(i as int)) is Ok,
            forall|j: int| 0 <= j < i ==> columns_fit(#[trigger] all[j]),
            w@ == old(w)@,
        decreases updates.len() - i,
    {
        let _len: usize = updates[i].len();
        let ghost group = updates@[i as int]@;
        proof {
            assert(all[i as int] == group);
            assert(all.take(i + 1).drop_last() =~= all.take(i as int));
            assert(all.take(i + 1).last() == group);
            lemma_groups_written_prefix(all, i + 1);
        }
        writer = match write_group(writer, &updates[i]) {
            Ok(next) => next,
            Err(message) => {
                return Err(BatchError { message });
            },
        };
        assert(written_groups(writer) =~= all.take(i + 1));
        i = i + 1;
    }
    assert(all.take(i as int) =~= all);
    proof {
        reveal_strlit("MZ:inline");
        reveal_strlit("ARROW:schema");
        assert(INLINE_METADATA_KEY@[0] != SCHEMA_KEY@[0]);
    }
    match end_file(writer, INLINE_METADATA_KEY, inline_base64.as_str()) {
        Ok(bytes) => {
            write_all(w, bytes.as_slice());
            Ok(())
        },
        Err(message) => Err(BatchError { message }),
    }
}

/// The updates of a file, or the first thing that is wrong with them.
pub open spec fn groups_of(groups: Seq<GroupView>) -> Result<Seq<ColumnarRecordsView>, Seq<char>>
    decreases groups.len(),
{
    if groups.len() == 0 {
        Ok(Seq::empty())
    } else {
        match groups_of(groups.drop_last()) {
            Ok(updates) => match groups.last() {
                Ok(group) => if columns_fit(group) {
                    Ok(updates.push(group))
                } else {
                    Err("the columns of a group do not fit together"@)
                },
                Err(err) => Err(err),
            },
            Err(err) => Err(err),
        }
    }
}

/// What is said of a file that has other columns.
pub open spec fn unexpected_fields(fields: Seq<char>) -> Seq<char> {
    "expected arrow schema "@ + kvtd_fields() + " got: "@ + fields
}

/// The updates of a file, by what `arrow2` makes of it, and by what is wrong with how it is laid
/// out.
pub open spec fn updates_of(
    entries: Option<Seq<EntryView>>,
    opened: Result<(Seq<char>, Seq<GroupView>), Seq<char>>,
    file_error: Option<Seq<char>>,
) -> Result<Seq<ColumnarRecordsView>, Seq<char>> {
    if !schema_expected(entries) {
        Err("the columns that a file keeps are not laid out as expected"@)
    } else {
        match opened {
            Ok((fields, groups)) => if fields != kvtd_fields() {
                Err(unexpected_fields(fields))
            } else if file_error is Some {
                Err(file_error->Some_0)
            } else {
                groups_of(groups)
            },
            Err(err) => Err(err),
        }
    }
}

proof fn lemma_groups_prefix(groups: Seq<GroupView>, i: int)
    requires
        0 <= i <= groups.len(),
    ensures
        groups_of(groups.take(i)) matches Err(err) ==> groups_of(groups) == Err::<
            Seq<ColumnarRecordsView>,
            Seq<char>,
        >(err),
    decreases groups.len(),
{
    if i < groups.len() {
        lemma_groups_prefix(groups.drop_last(), i);
        assert(groups.drop_last().take(i) =~= groups.take(i));
    } else {
        assert(groups.take(i) =~= groups);
    }
}

/// Tells whether the columns of a file that its metadata keeps, if any, are neither too short nor
/// too long.
pub fn is_schema_expected(entries: &Option<Vec<Entry>>) -> (expected: bool)
    ensures
        expected == schema_expected(entries_view(*entries)),
{
    match entries {
        Some(list) => {
            let ghost all = entries_view(*entries)->Some_0;
            let mut i: usize = 0;
            while i < list.len()
                invariant
                    i <= list.len(),
                    all.len() == list.len(),
                    *entries == Some(*list),
                    entries_view(*entries) == Some(all),
                    forall|j: int| 0 <= j < i ==> entry_expected(#[trigger] all[j]),
                decreases list.len() - i,
            {
                if same_text(&list[i].0, SCHEMA_KEY) {
                    match &list[i].1 {
                        Some(text) => match decode_base64(text) {
                            Some(schema) => {
                                if schema.len() < MIN_SCHEMA_LEN || schema.len() > MAX_SCHEMA_LEN {
                                    assert(!entry_expected(all[i as int]));
                                    return false;
                                }
                            },
                            None => {
                                assert(!entry_expected(all[i as int]));
                                return false;
                            },
                        },
                        None => {},
                    }
                }
                i = i + 1;
            }
            true
        },
        None => true,
    }
}

/// Finds what is wrong with the pages of a column of a group, if anything.
pub fn find_pages_error(
    heads: Result<Vec<PageHead>, String>,
    buffers: Result<Vec<Vec<u8>>, String>,
    count: u64,
    texts: bool,
) -> (err: Option<String>)
    ensures
        option_view(err) == pages_error(
            match heads {
                Ok(heads) => Ok(heads@),
                Err(message) => Err(message@),
            },
            match buffers {
                Ok(buffers) => Ok(rows(buffers@)),
                Err(message) => Err(message@),
            },
            count as nat,
            texts,
        ),
{
    match (heads, buffers) {
        (Err(message), _) => Some(message),
        (Ok(_), Err(message)) => Some(message),
        (Ok(heads), Ok(buffers)) => if does_column_fit(&heads, &buffers, count, texts) {
            None
        } else {
            Some("a column of a group is not laid out as expected".to_owned())
        },
    }
}

fn find_column_error(
    reader: &GroupReader,
    bytes: &[u8],
    group: usize,
    column: usize,
    count: u64,
) -> (err: Option<String>)
    requires
        reader_file(*reader) == bytes@,
        is_column(bytes@, group as nat, column as nat),
    ensures
        option_view(err) == column_error(bytes@, group as nat, column as nat, count as nat),
{
    match read_chunk(reader, bytes, group, column) {
        Ok(chunk) => {
            let chunk: &[u8] = chunk.as_slice();
            let limit: usize = bytes.len();
            find_pages_error(
                read_heads(reader, group, column, chunk, limit),
                read_buffers(reader, group, column, chunk, limit),
                count,
                column < 2,
            )
        },
        Err(message) => Some(message),
    }
}

proof fn lemma_group_error_prefix(bytes: Seq<u8>, group: nat, columns: nat, count: nat, i: nat)
    requires
        i <= columns,
    ensures
        group_error(bytes, group, i, count) is Some ==> group_error(bytes, group, columns, count)
            == group_error(bytes, group, i, count),
    decreases columns,
{
    if i < columns {
        lemma_group_error_prefix(bytes, group, (columns - 1) as nat, count, i);
    }
}

fn find_group_error(reader: &GroupReader, bytes: &[u8], group: usize, count: u64) -> (err: Option<
    String,
>)
    requires
        reader_file(*reader) == bytes@,
        is_column(bytes@, group as nat, 0),
    ensures
        option_view(err) == group_error(bytes@, group as nat, 4, count as nat),
{
    let mut column: usize = 0;
    while column < 4
        invariant
            column <= 4,
            reader_file(*reader) == bytes@,
            is_column(bytes@, group as nat, 0),
            group_error(bytes@, group as nat, column as nat, count as nat) is None,
        decreases 4 - column,
    {
        let err: Option<String> = find_column_error(
            reader,
            bytes,
            group,
            column,
            count,
        );
        column = column + 1;
        proof {
            lemma_group_error_prefix(bytes@, group as nat, 4, count as nat, column as nat);
        }
        if err.is_some() {
            return err;
        }
    }
    None
}

proof fn lemma_groups_error_prefix(bytes: Seq<u8>, groups: Seq<u64>, i: int)
    requires
        0 <= i <= groups.len(),
    ensures
        groups_error(bytes, groups.take(i)) is Some ==> groups_error(bytes, groups)
            == groups_error(bytes, groups.take(i)),
    decreases groups.len(),
{
    if i < groups.len() {
        lemma_groups_error_prefix(bytes, groups.drop_last(), i);
        assert(groups.drop_last().take(i) =~= groups.take(i));
    } else {
        assert(groups.take(i) =~= groups);
    }
}

fn are_chunks_expected(bytes: &[u8], chunks: &Vec<(u64, String)>) -> (expected: bool)
    ensures
        expected == chunks_expected(
            bytes@,
            Seq::new(chunks@.len(), |i: int| (chunks@[i].0, chunks@[i].1@)),
        ),
{
    let ghost all = Seq::new(chunks@.len(), |i: int| (chunks@[i].0, chunks@[i].1@));
    let mut i: usize = 0;
    while i < chunks.len()
        invariant
            i <= chunks.len(),
            all == Seq::new(chunks@.len(), |i: int| (chunks@[i].0, chunks@[i].1@)),
            forall|j: int|
                0 <= j < i ==> (#[trigger] all[j]).0 <= bytes@.len() && all[j].1 == plain_codec(),
        decreases chunks.len() - i,
    {
        let ghost chunk = all[i as int];
        if chunks[i].0 > bytes.len() as u64 || !same_text(&chunks[i].1, "Uncompressed") {
            assert(chunk.0 > bytes@.len() || chunk.1 != plain_codec());
            return false;
        }
        i = i + 1;
    }
    true
}

fn find_file_error(reader: &GroupReader, bytes: &[u8]) -> (err: Option<String>)
    requires
        reader_file(*reader) == bytes@,
    ensures
        option_view(err) == file_error(bytes@, parquet_layout(bytes@)),
{
    let layout: FileLayout = read_layout(reader);
    if layout.columns != kvtd_columns_text() {
        return Some("the columns of a file are not laid out as expected".to_owned());
    }
    if !are_chunks_expected(bytes, &layout.chunks) {
        return Some("a column of a group is compressed or longer than the file".to_owned());
    }
    let groups: &Vec<u64> = &layout.groups;
    let ghost all = groups@;
    let mut empty: usize = 0;
    let mut i: usize = 0;
    while i < groups.len()
        invariant
            i <= groups.len(),
            all == groups@,
            empty == empty_groups(all.take(i as int)),
            empty <= i,
        decreases groups.len() - i,
    {
        proof {
            assert(all.take(i + 1).drop_last() =~= all.take(i as int));
            assert(all.take(i + 1).last() == all[i as int]);
        }
        if groups[i] == 0 {
            empty = empty + 1;
        }
        i = i + 1;
    }
    assert(all.take(i as int) =~= all);
    if empty > MAX_EMPTY_GROUPS {
        return Some("too many groups of a file are empty".to_owned());
    }
    let mut i: usize = 0;
    while i < groups.len()
        invariant
            i <= groups.len(),
            all == groups@,
            all == layout@.groups,
            reader_file(*reader) == bytes@,
            layout@ == parquet_layout(bytes@),
            layout@.columns == kvtd_columns(),
            chunks_expected(bytes@, layout@.chunks),
            empty_groups(all) <= MAX_EMPTY_GROUPS,
            groups_error(bytes@, all.take(i as int)) is None,
        decreases groups.len() - i,
    {
        proof {
            assert(all.take(i + 1).drop_last() =~= all.take(i as int));
            assert(all.take(i + 1).last() == all[i as int]);
            lemma_groups_error_prefix(bytes@, all, i + 1);
        }
        let err: Option<String> = find_group_error(reader, bytes, i, groups[i]);
        if err.is_some() {
            return err;
        }
        i = i + 1;
    }
    assert(all.take(i as int) =~= all);
    None
}

/// Reads the updates of a Parquet file whose metadata has been read. A file with other columns is
/// not read.
fn decode_parquet_file_kvtd(bytes: &[u8], entries: &Option<Vec<Entry>>) -> (r: Result<
    Vec<ColumnarRecords>,
    BatchError,
>)
    requires
        footer_expected(bytes@),
        parquet_metadata(bytes@) == Ok::<Option<Seq<EntryView>>, Seq<char>>(entries_view(*entries)),
    ensures
        ({
            let updates = updates_of(
                entries_view(*entries),
                parquet_opened(bytes@),
                file_error(bytes@, parquet_layout(bytes@)),
            );
            match r {
                Ok(read) => updates == Ok::<Seq<ColumnarRecordsView>, Seq<char>>(views(read@)),
                Err(err) => updates == Err::<Seq<ColumnarRecordsView>, Seq<char>>(err@),
            }
        }),
{
    if !is_schema_expected(entries) {
        return Err(error("the columns that a file keeps are not laid out as expected"));
    }
    let mut reader: GroupReader = match open_file(bytes) {
        Ok(reader) => reader,
        Err(message) => {
            return Err(BatchError { message });
        },
    };
    let fields: String = fields_text(&reader);
    let expected: String = kvtd_text();
    if fields != expected {
        let mut message: String = "expected arrow schema ".to_owned();
        message.append(expected.as_str());
        message.append(" got: ");
        message.append(fields.as_str());
        return Err(BatchError { message });
    }
    match find_file_error(&reader, bytes) {
        Some(message) => {
            return Err(BatchError { message });
        },
        None => {},
    }
    let ghost all = unread_groups(reader);
    let ghost mut i: int = 0;
    let mut updates: Vec<ColumnarRecords> = Vec::new();
    assert(views(updates@) =~= Seq::empty());
    assert(all.skip(0) =~= all);
    loop
        invariant
            0 <= i <= all.len(),
            reader_fields(reader) == kvtd_fields(),
            file_expected(reader_file(reader)),
            unread_groups(reader) == all.skip(i),
            updates_of(
                entries_view(*entries),
                parquet_opened(bytes@),
                file_error(bytes@, parquet_layout(bytes@)),
            ) == groups_of(all),
            groups_of(all.take(i)) == Ok::<Seq<ColumnarRecordsView>, Seq<char>>(views(updates@)),
        decreases all.len() - i,
    {
        match next_group(&mut reader) {
            None => {
                assert(all.take(i) =~= all);
                return Ok(updates);
            },
            Some(group) => {
                proof {
                    assert(all.skip(i)[0] == all[i]);
                    assert(all.skip(i).skip(1) =~= all.skip(i + 1));
                    assert(all.take(i + 1).drop_last() =~= all.take(i));
                    assert(all.take(i + 1).last() == all[i]);
                    lemma_groups_prefix(all, i + 1);
                    i = i + 1;
                }
                match group {
                    Ok((keys, vals, timestamps, diffs)) => {
                        match ColumnarRecords::new(keys, vals, timestamps, diffs) {
                            Some(records) => {
                                let ghost before = views(updates@);
                                updates.push(records);
                                assert(views(updates@) =~= before.push(records@));
                            },
                            None => {
                                return Err(error("the columns of a group do not fit together"));
                            },
                        }
                    },
                    Err(message) => {
                        return Err(BatchError { message });
                    },
                }
            },
        }
    }
}

/// The value of the first entry with a key, if there is one and it has a value.
pub open spec fn value_of(entries: Seq<EntryView>, key: Seq<char>) -> Option<Seq<char>>
    decreases entries.len(),
{
    if entries.len() == 0 {
        None
    } else if entries[0].0 == key {
        entries[0].1
    } else {
        value_of(entries.skip(1), key)
    }
}

/// What is kept in the metadata of a file of what is known of a part without its updates.
pub open spec fn inline_of(entries: Option<Seq<EntryView>>) -> Option<Seq<char>> {
    match entries {
        Some(entries) => value_of(entries, INLINE_METADATA_KEY@),
        None => None,
    }
}

/// Finds what is kept in the metadata of a file of what is known of a part without its updates.
pub fn find_inline(entries: &Option<Vec<Entry>>) -> (inline: Option<&String>)
    ensures
        match inline {
            Some(text) => inline_of(entries_view(*entries)) == Some(text@),
            None => inline_of(entries_view(*entries)) is None,
        },
{
    match entries {
        Some(list) => {
            let ghost all = entries_view(*entries)->Some_0;
            let mut i: usize = 0;
            assert(all.skip(0) =~= all);
            while i < list.len()
                invariant
                    i <= list.len(),
                    all.len() == list.len(),
                    *entries == Some(*list),
                    entries_view(*entries) == Some(all),
                    value_of(all, INLINE_METADATA_KEY@) == value_of(
                        all.skip(i as int),
                        INLINE_METADATA_KEY@,
                    ),
                decreases list.len() - i,
            {
                assert(all.skip(i as int).skip(1) =~= all.skip(i + 1));
                assert(all.skip(i as int)[0] == all[i as int]);
                if same_text(&list[i].0, INLINE_METADATA_KEY) {
                    return match &list[i].1 {
                        Some(value) => Some(value),
                        None => None,
                    };
                }
                i = i + 1;
            }
            None
        },
        None => None,
    }
}

/// The part that is put together from what is known of it and its updates, or what is wrong with
/// it.
pub open spec fn part_of(
    meta: ProtoBatchPartInlineView,
    updates: Seq<ColumnarRecordsView>,
) -> Result<BlobTraceBatchPartView, Seq<char>> {
    let part = BlobTraceBatchPartView {
        desc: desc_or_least(meta.desc),
        index: meta.index,
        updates,
    };
    if part.desc.lower.len() == 0 {
        Err("the lower frontier of a batch is empty"@)
    } else {
        match part_error(part) {
            Some(message) => Err(message),
            None => Ok(part),
        }
    }
}

/// Puts a part together from what is known of it and its updates.
pub fn assemble_part(meta: ProtoBatchPartInline, updates: Vec<ColumnarRecords>) -> (r: Result<
    BlobTraceBatchPart<u64>,
    BatchError,
>)
    ensures
        match r {
            Ok(part) => part_of(meta@, views(updates@)) == Ok::<BlobTraceBatchPartView, Seq<char>>(
                part@,
            ),
            Err(err) => part_of(meta@, views(updates@)) == Err::<BlobTraceBatchPartView, Seq<char>>(
                err@,
            ),
        },
{
    let index: u64 = meta.index;
    match read_desc(meta.desc) {
        Some(desc) => {
            let part = BlobTraceBatchPart { desc, index, updates };
            match part.validate() {
                Ok(()) => Ok(part),
                Err(err) => Err(err),
            }
        },
        None => Err(error("the lower frontier of a batch is empty")),
    }
}

/// The part that a file holds, by what `arrow2` makes of it, or the first thing that is wrong.
pub open spec fn trace_part_of(file: Seq<u8>) -> Result<BlobTraceBatchPartView, Seq<char>> {
    if !footer_expected(file) {
        Err("the schema of a file is nested too deep"@)
    } else {
        match parquet_metadata(file) {
            Ok(entries) => match meta_of(inline_of(entries)) {
                Ok((format, meta)) => match format {
                    ProtoBatchFormat::Unknown => Err("unknown format"@),
                    ProtoBatchFormat::ArrowKvtd => Err(
                        "ArrowKVTD format not supported in parquet"@,
                    ),
                    ProtoBatchFormat::ParquetKvtd => match updates_of(
                        entries,
                        parquet_opened(file),
                        file_error(file, parquet_layout(file)),
                    ) {
                        Ok(updates) => part_of(meta, updates),
                        Err(err) => Err(err),
                    },
                },
                Err(err) => Err(err),
            },
            Err(err) => Err(err),
        }
    }
}

/// The updates of a file are read as they were written.
proof fn lemma_groups_round_trip(updates: Seq<ColumnarRecordsView>)
    requires
        forall|i: int| 0 <= i < updates.len() ==> columns_fit(#[trigger] updates[i]),
    ensures
        groups_of(
            Seq::new(updates.len(), |i: int| Ok::<ColumnarRecordsView, Seq<char>>(updates[i])),
        ) == Ok::<Seq<ColumnarRecordsView>, Seq<char>>(updates),
    decreases updates.len(),
{
    let groups = Seq::new(updates.len(), |i: int| Ok::<ColumnarRecordsView, Seq<char>>(updates[i]));
    if updates.len() > 0 {
        let front = updates.drop_last();
        lemma_groups_round_trip(front);
        assert(groups.drop_last() =~= Seq::new(
            front.len(),
            |i: int| Ok::<ColumnarRecordsView, Seq<char>>(front[i]),
        ));
        assert(front.push(updates.last()) =~= updates);
    } else {
        assert(updates =~= Seq::empty());
    }
}

/// Whether a part can be read again: its frontiers are ones of a total order, and no group of its
/// updates is empty.
pub open spec fn part_valid(part: BlobTraceBatchPartView) -> bool {
    description_valid(part.desc) && none_empty(part.updates)
}

/// The file that a part is written as, or what is wrong with it.
pub open spec fn part_file(part: BlobTraceBatchPartView) -> Result<Seq<u8>, Seq<char>> {
    match part_error(part) {
        Some(message) => Err(message),
        None => file_of(part.updates, inline_meta(part, ProtoBatchFormat::ParquetKvtd)),
    }
}

/// Whether a file, if the part that it holds can be read again, and no column has too many pages,
/// is read as the part. If no column takes many bytes, none has too many pages.
pub open spec fn holds_part(file: Seq<u8>, part: BlobTraceBatchPartView) -> bool {
    &&& is_file(
        file,
        INLINE_METADATA_KEY@,
        inline_meta(part, ProtoBatchFormat::ParquetKvtd),
        part.updates,
    )
    &&& part_valid(part) && few_pages(file, part.updates.len()) ==> trace_part_of(file) == Ok::<
        BlobTraceBatchPartView,
        Seq<char>,
    >(part)
}

/// Appends a part as a Parquet file. It is better to report an error than to write out an invalid
/// part. What is written is read as the same part, if that can be read again.
pub fn encode_trace_parquet(w: &mut Vec<u8>, batch: &BlobTraceBatchPart<u64>) -> (r: Result<
    (),
    BatchError,
>)
    ensures
        match part_file(batch@) {
            Ok(file) => r is Ok && final(w)@ == old(w)@ + file && holds_part(file, batch@),
            Err(message) => (r matches Err(err) && err@ == message) && final(w)@ == old(w)@,
        },
{
    match batch.validate() {
        Ok(()) => {},
        Err(err) => {
            return Err(err);
        },
    }
    let inline: String = encode_trace_inline_meta(batch, ProtoBatchFormat::ParquetKvtd);
    match encode_parquet_kvtd(w, inline, &batch.updates) {
        Ok(()) => {
            proof {
                if part_valid(batch@) {
                    lemma_desc_round_trip(batch@.desc);
                    lemma_groups_round_trip(batch@.updates);
                }
            }
            Ok(())
        },
        Err(err) => Err(err),
    }
}

/// Reads a part from a Parquet file.
pub fn decode_trace_parquet(r: &[u8]) -> (part: Result<BlobTraceBatchPart<u64>, BatchError>)
    ensures
        match part {
            Ok(part) => trace_part_of(r@) == Ok::<BlobTraceBatchPartView, Seq<char>>(part@),
            Err(err) => trace_part_of(r@) == Err::<BlobTraceBatchPartView, Seq<char>>(err@),
        },
{
    if !is_footer_expected(r) {
        return Err(error("the schema of a file is nested too deep"));
    }
    let entries: Option<Vec<Entry>> = match read_entries(r) {
        Ok(entries) => entries,
        Err(message) => {
            return Err(BatchError { message });
        },
    };
    let (format, meta) = match decode_trace_inline_meta(find_inline(&entries)) {
        Ok(read) => read,
        Err(err) => {
            return Err(err);
        },
    };
    let updates: Vec<ColumnarRecords> = match format {
        ProtoBatchFormat::Unknown => {
            return Err(error("unknown format"));
        },
        ProtoBatchFormat::ArrowKvtd => {
            return Err(error("ArrowKVTD format not supported in parquet"));
        },
        ProtoBatchFormat::ParquetKvtd => match decode_parquet_file_kvtd(r, &entries) {
            Ok(updates) => updates,
            Err(err) => {
                return Err(err);
            },
        },
    };
    assemble_part(meta, updates)
}

} // verus!
