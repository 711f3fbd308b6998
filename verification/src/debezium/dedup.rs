//! Deduplication of Debezium messages.

use vstd::hash_map::StringHashMap;
use vstd::prelude::*;
use vstd::utf8::encode_utf8;

use crate::debezium::coordinates::{
    invalid_lsn, lsn_value, precedes, EnvelopeError, PostgresOpCoordinates, RowCoordinates,
    SqlServerLsn,
};
use crate::debezium::datum::{datums_view, lemma_list_view, list_nth, nth, Datum, DatumView, Row};
use crate::source::types::{GlobalId, MzOffset};
use crate::text::{debug_text, quote, read_unsigned, same_text, unsigned_value};

verus! {

/// Where the fields of a record's source are, by the kind of upstream database.
#[derive(Debug, Clone, Copy, PartialEq, Eq, Structural)]
pub enum DebeziumSourceProjection {
    MySql { file: usize, pos: usize, row: usize },
    Postgres { sequence: usize, lsn: usize },
    SqlServer { change_lsn: usize, event_serial_no: usize },
}

/// Where the fields of transaction metadata are, in the metadata records and in the data records.
#[derive(Debug, PartialEq, Eq)]
pub struct DebeziumTransactionMetadata {
    pub tx_metadata_global_id: GlobalId,
    pub tx_status_idx: usize,
    pub tx_transaction_id_idx: usize,
    pub tx_data_collections_idx: usize,
    pub tx_data_collections_data_collection_idx: usize,
    pub tx_data_collections_event_count_idx: usize,
    pub tx_data_collection_name: String,
    pub data_transaction_idx: usize,
    pub data_transaction_id_idx: usize,
}

impl Clone for DebeziumTransactionMetadata {
    fn clone(&self) -> (copy: Self)
        ensures
            copy == *self,
    {
        DebeziumTransactionMetadata {
            tx_metadata_global_id: self.tx_metadata_global_id,
            tx_status_idx: self.tx_status_idx,
            tx_transaction_id_idx: self.tx_transaction_id_idx,
            tx_data_collections_idx: self.tx_data_collections_idx,
            tx_data_collections_data_collection_idx: self.tx_data_collections_data_collection_idx,
            tx_data_collections_event_count_idx: self.tx_data_collections_event_count_idx,
            tx_data_collection_name: self.tx_data_collection_name.clone(),
            data_transaction_idx: self.data_transaction_idx,
            data_transaction_id_idx: self.data_transaction_id_idx,
        }
    }
}

/// Where the fields that deduplication reads are.
#[derive(Debug, PartialEq, Eq)]
pub struct DebeziumDedupProjection {
    /// The column index of the `op` field.
    pub op_idx: usize,
    /// The column index of the `source` field.
    pub source_idx: usize,
    /// The record index of the `source.snapshot` field.
    pub snapshot_idx: usize,
    /// The upstream database specific fields.
    pub source_projection: DebeziumSourceProjection,
    /// Details about the transaction metadata.
    pub tx_metadata: Option<DebeziumTransactionMetadata>,
}

impl Clone for DebeziumDedupProjection {
    fn clone(&self) -> (copy: Self)
        ensures
            copy == *self,
    {
        DebeziumDedupProjection {
            op_idx: self.op_idx,
            source_idx: self.source_idx,
            snapshot_idx: self.snapshot_idx,
            source_projection: self.source_projection,
            tx_metadata: match &self.tx_metadata {
                Some(metadata) => Some(metadata.clone()),
                None => None,
            },
        }
    }
}

/// How the records of a Debezium source are laid out.
#[derive(Debug, PartialEq, Eq)]
pub struct DebeziumEnvelope {
    /// The column index containing the `before` row.
    pub before_idx: usize,
    /// The column index containing the `after` row.
    pub after_idx: usize,
    /// Details about how to deduplicate the data in the topic.
    pub dedup: DebeziumDedupProjection,
}

impl Clone for DebeziumEnvelope {
    fn clone(&self) -> (copy: Self)
        ensures
            copy == *self,
    {
        DebeziumEnvelope {
            before_idx: self.before_idx,
            after_idx: self.after_idx,
            dedup: self.dedup.clone(),
        }
    }
}

/// An error of `serde_json`.
#[verifier::external_type_specification]
#[verifier::external_body]
pub struct ExSerdeJsonError(serde_json::Error);

/// What `serde_json::from_str` reads from a text as a `Vec<Option<&str>>`: an array of strings
/// and nulls, in order; `None` where it reports an error.
pub uninterp spec fn json_strings(text: Seq<char>) -> Option<Seq<Option<Seq<char>>>>;

/// Calls `serde_json::from_str` for a `Vec<Option<&str>>`.
///
/// Claimed: whether the text is such an array, and what it holds, is a function of the text.
#[verifier::external_body]
fn read_json_strings(text: &str) -> (strings: Result<Vec<Option<String>>, serde_json::Error>)
    ensures
        match strings {
            Ok(strings) => json_strings(text@) == Some(strings.deep_view()),
            Err(_) => json_strings(text@) is None,
        },
{
    let strings: Vec<Option<&str>> = serde_json::from_str(text)?;
    Ok(strings.into_iter().map(|s| s.map(|s| s.to_owned())).collect())
}

/// The message for a sequence that cannot be read.
pub open spec fn invalid_sequence(sequence: Seq<char>) -> Seq<char> {
    "invalid sequence: "@ + debug_text(sequence)
}

/// The position of the last commit that the entries of a sequence give: its first entry, which
/// may be absent. `None` if there is no first entry, or if it is not an unsigned integer.
pub open spec fn commit_of(entries: Seq<Option<Seq<char>>>) -> Option<Option<u64>> {
    if entries.len() == 0 {
        None
    } else {
        match entries[0] {
            Some(text) => match unsigned_value(encode_utf8(text), 10, u64::MAX as nat) {
                Some(commit) => Some(Some(commit as u64)),
                None => None,
            },
            None => Some(None),
        }
    }
}

/// Reads the position of the last commit from the entries of a sequence.
pub fn read_commit(entries: &Vec<Option<String>>) -> (commit: Option<Option<u64>>)
    ensures
        commit == commit_of(entries.deep_view()),
{
    if entries.len() == 0 {
        return None;
    }
    assert(entries.deep_view()[0] == entries@[0].deep_view());
    match &entries[0] {
        Some(text) => match read_unsigned(text.as_str().as_bytes(), 10, u64::MAX) {
            Some(commit) => Some(Some(commit)),
            None => None,
        },
        None => Some(None),
    }
}

/// The operation type that the `op` field of a PostgreSQL record gives.
pub open spec fn op_type_of(op: Seq<char>) -> PostgresOpCoordinates {
    if op == "d"@ {
        PostgresOpCoordinates::Delete
    } else if op == "c"@ {
        PostgresOpCoordinates::Create
    } else {
        PostgresOpCoordinates::Other
    }
}

/// What reading the position of a record gives: the log file names seen so far with their
/// numbers, and the position or the message of an error. A record without a usable position,
/// such as one read from a snapshot, has none.
pub struct Extraction {
    pub filenames: Map<Seq<char>, i64>,
    pub position: Result<Option<RowCoordinates>, Seq<char>>,
}

/// The number of a log file: the one it has, or else the count of those that have one.
pub open spec fn file_number(filenames: Map<Seq<char>, i64>, filename: Seq<char>) -> i64 {
    if filenames.contains_key(filename) {
        filenames[filename]
    } else {
        filenames.len() as i64
    }
}

/// The position of a MySQL record. `None` if a field is missing or of the wrong type.
pub open spec fn mysql_position(
    file: nat,
    pos: nat,
    row: nat,
    filenames: Map<Seq<char>, i64>,
    source: Seq<DatumView>,
) -> Option<Extraction> {
    match nth(source, file) {
        Some(DatumView::Null) => Some(Extraction { filenames, position: Ok(None) }),
        Some(DatumView::String(filename)) => {
            let number = file_number(filenames, filename);
            let filenames = filenames.insert(filename, number);
            match nth(source, pos) {
                Some(DatumView::Null) => Some(Extraction { filenames, position: Ok(None) }),
                Some(DatumView::Int64(pos)) => match nth(source, row) {
                    Some(DatumView::Null) => Some(Extraction { filenames, position: Ok(None) }),
                    Some(DatumView::Int32(row)) => Some(
                        Extraction {
                            filenames,
                            position: Ok(Some(RowCoordinates::MySql { file: number, pos, row })),
                        },
                    ),
                    _ => None,
                },
                _ => None,
            }
        },
        _ => None,
    }
}

/// The position of a PostgreSQL record. `None` if a field is missing or of the wrong type.
///
/// The second entry of the `sequence` field is meant to be the LSN, but due to a bug in Debezium
/// 1.5-1.7 it is actually the same value as the last commit. The top-level `lsn` field is correct
/// even in Debezium 1.5, however, so that one counts.
pub open spec fn postgres_position(
    sequence: nat,
    lsn: nat,
    op: nat,
    filenames: Map<Seq<char>, i64>,
    source: Seq<DatumView>,
    row: Seq<DatumView>,
) -> Option<Extraction> {
    match nth(source, sequence) {
        Some(DatumView::Null) => Some(Extraction { filenames, position: Ok(None) }),
        Some(DatumView::String(sequence)) => {
            let commit = match json_strings(sequence) {
                Some(entries) => commit_of(entries),
                None => None,
            };
            match commit {
                None => Some(
                    Extraction { filenames, position: Err(invalid_sequence(sequence)) },
                ),
                Some(last_commit_lsn) => match nth(source, lsn) {
                    Some(DatumView::Null) => Some(Extraction { filenames, position: Ok(None) }),
                    Some(DatumView::Int64(lsn)) => match nth(row, op) {
                        Some(DatumView::String(op)) => Some(
                            Extraction {
                                filenames,
                                position: Ok(
                                    Some(
                                        RowCoordinates::Postgres {
                                            last_commit_lsn,
                                            lsn,
                                            op_type: op_type_of(op),
                                        },
                                    ),
                                ),
                            },
                        ),
                        _ => None,
                    },
                    _ => None,
                },
            }
        },
        _ => None,
    }
}

/// The position of a SQL Server record. `None` if a field is missing or of the wrong type.
pub open spec fn sql_server_position(
    change_lsn: nat,
    event_serial_no: nat,
    filenames: Map<Seq<char>, i64>,
    source: Seq<DatumView>,
) -> Option<Extraction> {
    match nth(source, change_lsn) {
        Some(DatumView::Null) => Some(Extraction { filenames, position: Ok(None) }),
        Some(DatumView::String(text)) => match lsn_value(encode_utf8(text)) {
            None => Some(Extraction { filenames, position: Err(invalid_lsn(text)) }),
            Some(change_lsn) => match nth(source, event_serial_no) {
                Some(DatumView::Null) => Some(Extraction { filenames, position: Ok(None) }),
                Some(DatumView::Int64(event_serial_no)) => Some(
                    Extraction {
                        filenames,
                        position: Ok(
                            Some(RowCoordinates::SqlServer { change_lsn, event_serial_no }),
                        ),
                    },
                ),
                _ => None,
            },
        },
        _ => None,
    }
}

/// Whether the `snapshot` field says that the record is part of a snapshot.
pub open spec fn in_snapshot(snapshot: DatumView) -> bool {
    match snapshot {
        DatumView::String(s) => s != "false"@,
        DatumView::True => true,
        _ => false,
    }
}

/// The position of a record. `None` if the record is not laid out as the projection says.
pub open spec fn extract(
    projection: DebeziumDedupProjection,
    filenames: Map<Seq<char>, i64>,
    row: Seq<DatumView>,
) -> Option<Extraction> {
    match nth(row, projection.source_idx as nat) {
        Some(DatumView::Null) => Some(Extraction { filenames, position: Ok(None) }),
        Some(DatumView::List(source)) => match nth(source, projection.snapshot_idx as nat) {
            None => None,
            Some(snapshot) => if in_snapshot(snapshot) {
                Some(Extraction { filenames, position: Ok(None) })
            } else {
                match projection.source_projection {
                    DebeziumSourceProjection::MySql { file, pos, row } => mysql_position(
                        file as nat,
                        pos as nat,
                        row as nat,
                        filenames,
                        source,
                    ),
                    DebeziumSourceProjection::Postgres { sequence, lsn } => postgres_position(
                        sequence as nat,
                        lsn as nat,
                        projection.op_idx as nat,
                        filenames,
                        source,
                        row,
                    ),
                    DebeziumSourceProjection::SqlServer {
                        change_lsn,
                        event_serial_no,
                    } => sql_server_position(
                        change_lsn as nat,
                        event_serial_no as nat,
                        filenames,
                        source,
                    ),
                }
            },
        },
        _ => None,
    }
}

/// Track whether or not we should skip a specific debezium message
///
/// The goal of deduplication is to omit sending true duplicates -- the exact same record being
/// sent into materialize twice. That means that we create one deduplicator per timely worker and
/// use use timely key sharding normally. But it also means that no single deduplicator knows the
/// highest-ever seen binlog offset.
pub struct DebeziumDeduplicationState {
    /// Last recorded binlog position.
    ///
    /// Messages that are not ahead of the last recorded position are skipped.
    pub last_position: Option<RowCoordinates>,
    pub messages_processed: MzOffset,
    /// The log files seen so far, numbered in the order of their first appearance.
    pub filenames_to_indices: StringHashMap<i64>,
    pub projection: DebeziumDedupProjection,
}

/// The contents of a [`DebeziumDeduplicationState`], but for its projection.
#[verifier::ext_equal]
pub struct DedupView {
    pub last_position: Option<RowCoordinates>,
    pub messages_processed: u64,
    pub filenames: Map<Seq<char>, i64>,
}

impl View for DebeziumDeduplicationState {
    type V = DedupView;

    open spec fn view(&self) -> DedupView {
        DedupView {
            last_position: self.last_position,
            messages_processed: self.messages_processed.offset,
            filenames: self.filenames_to_indices@,
        }
    }
}

/// The state before any message.
pub open spec fn fresh_dedup() -> DedupView {
    DedupView { last_position: None, messages_processed: 0, filenames: Map::empty() }
}

/// What a message does to the state, and whether it is to be used, or the message of an error.
/// `None` if the record is not laid out as the projection says, or if the count of messages would
/// overflow.
///
/// If in the initial snapshot, binlog position is meaningless for detecting duplicates, since it
/// is always the same: a message without a position is used. One with a position is used if it
/// is the first, or if it is ahead of the last recorded one.
pub open spec fn judge(
    projection: DebeziumDedupProjection,
    dedup: DedupView,
    row: Seq<DatumView>,
) -> Option<(DedupView, Result<bool, Seq<char>>)> {
    match extract(projection, dedup.filenames, row) {
        None => None,
        Some(extraction) => match extraction.position {
            Err(message) => Some(
                (DedupView { filenames: extraction.filenames, ..dedup }, Err(message)),
            ),
            Ok(position) => if dedup.messages_processed == u64::MAX {
                None
            } else {
                let counted = DedupView {
                    filenames: extraction.filenames,
                    messages_processed: (dedup.messages_processed + 1) as u64,
                    ..dedup
                };
                match position {
                    None => Some((counted, Ok(true))),
                    Some(position) => if is_ahead(dedup.last_position, position) {
                        Some((DedupView { last_position: Some(position), ..counted }, Ok(true)))
                    } else {
                        Some((counted, Ok(false)))
                    },
                }
            },
        },
    }
}

/// Whether a position is ahead of the last recorded one, if there is one.
pub open spec fn is_ahead(last: Option<RowCoordinates>, position: RowCoordinates) -> bool {
    match last {
        Some(last) => precedes(last, position),
        None => true,
    }
}

impl DebeziumDeduplicationState {
    /// The state before any message.
    pub fn new(envelope: DebeziumEnvelope) -> (state: Option<DebeziumDeduplicationState>)
        ensures
            state is Some,
            state.unwrap()@ == fresh_dedup(),
            state.unwrap().projection == envelope.dedup,
    {
        Some(
            DebeziumDeduplicationState {
                last_position: None,
                messages_processed: MzOffset { offset: 0 },
                filenames_to_indices: StringHashMap::new(),
                projection: envelope.dedup,
            },
        )
    }

    /// The number of a log file, which it gets if it has none yet.
    fn number_file(&mut self, filename: &String) -> (number: i64)
        ensures
            number == file_number(old(self)@.filenames, filename@),
            final(self)@ == (DedupView {
                filenames: old(self)@.filenames.insert(filename@, number),
                ..old(self)@
            }),
            final(self).projection == old(self).projection,
    {
        let known: Option<i64> = match self.filenames_to_indices.get(filename.as_str()) {
            Some(number) => Some(*number),
            None => None,
        };
        match known {
            Some(number) => {
                assert(self@.filenames =~= self@.filenames.insert(filename@, number));
                number
            },
            None => {
                let next: i64 = self.filenames_to_indices.len() as i64;
                self.filenames_to_indices.insert(filename.clone(), next);
                next
            },
        }
    }

    /// Reads the position of a MySQL record.
    fn mysql_position(&mut self, file: usize, pos: usize, row: usize, source: &Vec<Datum>) -> (r:
        Option<RowCoordinates>)
        requires
            mysql_position(
                file as nat,
                pos as nat,
                row as nat,
                old(self)@.filenames,
                datums_view(source@),
            ) is Some,
        ensures
            mysql_position(
                file as nat,
                pos as nat,
                row as nat,
                old(self)@.filenames,
                datums_view(source@),
            ) == Some(Extraction { filenames: final(self)@.filenames, position: Ok(r) }),
            final(self)@ == (DedupView { filenames: final(self)@.filenames, ..old(self)@ }),
            final(self).projection == old(self).projection,
    {
        let filename = match list_nth(source, file) {
            Some(Datum::String(s)) => s,
            _ => {
                return None;
            },
        };
        let file: i64 = self.number_file(filename);
        let pos: i64 = match list_nth(source, pos) {
            Some(Datum::Int64(i)) => *i,
            _ => {
                return None;
            },
        };
        let row: i32 = match list_nth(source, row) {
            Some(Datum::Int32(i)) => *i,
            _ => {
                return None;
            },
        };
        Some(RowCoordinates::MySql { file, pos, row })
    }

    /// Reads the position of a record.
    pub fn extract_binlog_position(&mut self, value: &Row) -> (position: Result<
        Option<RowCoordinates>,
        EnvelopeError,
    >)
        requires
            extract(old(self).projection, old(self)@.filenames, value@.datums) is Some,
        ensures
            ({
                let extraction = extract(
                    old(self).projection,
                    old(self)@.filenames,
                    value@.datums,
                ).unwrap();
                &&& match position {
                    Ok(position) => extraction.position == Ok::<_, Seq<char>>(position),
                    Err(err) => extraction.position == Err::<Option<RowCoordinates>, _>(err@),
                }
                &&& final(self)@ == (DedupView {
                    filenames: extraction.filenames,
                    ..old(self)@
                })
                &&& final(self).projection == old(self).projection
            }),
    {
        let source = match value.nth(self.projection.source_idx) {
            Some(Datum::List(source)) => {
                proof {
                    lemma_list_view(*source);
                }
                source
            },
            _ => {
                return Ok(None);
            },
        };
        // While reading a snapshot the row coordinates are useless.
        match list_nth(source, self.projection.snapshot_idx) {
            Some(Datum::String(s)) => {
                if !same_text(s, "false") {
                    return Ok(None);
                }
            },
            Some(Datum::True) => {
                return Ok(None);
            },
            _ => {},
        }
        match self.projection.source_projection {
            DebeziumSourceProjection::MySql { file, pos, row } => {
                Ok(self.mysql_position(file, pos, row, source))
            },
            DebeziumSourceProjection::Postgres { sequence, lsn } => {
                postgres_coordinates(
                    sequence,
                    lsn,
                    self.projection.op_idx,
                    source,
                    value,
                ).unwrap()
            },
            DebeziumSourceProjection::SqlServer { change_lsn, event_serial_no } => {
                sql_server_coordinates(change_lsn, event_serial_no, source).unwrap()
            },
        }
    }

    /// Whether a record is to be used: whether it is no duplicate.
    pub fn should_use_record(&mut self, value: &Row) -> (should_use: Result<bool, EnvelopeError>)
        requires
            judge(old(self).projection, old(self)@, value@.datums) is Some,
        ensures
            ({
                let (dedup, verdict) = judge(
                    old(self).projection,
                    old(self)@,
                    value@.datums,
                ).unwrap();
                &&& final(self)@ == dedup
                &&& match should_use {
                    Ok(should_use) => verdict == Ok::<_, Seq<char>>(should_use),
                    Err(err) => verdict == Err::<bool, _>(err@),
                }
                &&& final(self).projection == old(self).projection
            }),
    {
        let binlog_position: Option<RowCoordinates> = match self.extract_binlog_position(value) {
            Ok(position) => position,
            Err(err) => {
                return Err(err);
            },
        };
        self.messages_processed = MzOffset { offset: self.messages_processed.offset + 1 };
        Ok(self.advance(binlog_position))
    }

    /// Whether a position is ahead of the last recorded one, which it then becomes. A message
    /// without a position is ahead of all.
    fn advance(&mut self, position: Option<RowCoordinates>) -> (ahead: bool)
        ensures
            ahead == (position is None || is_ahead(old(self)@.last_position, position.unwrap())),
            final(self)@ == (DedupView {
                last_position: if position is Some && ahead {
                    position
                } else {
                    old(self)@.last_position
                },
                ..old(self)@
            }),
            final(self).projection == old(self).projection,
    {
        match position {
            None => true,
            Some(position) => {
                let ahead: bool = match &self.last_position {
                    Some(last) => position.is_after(last),
                    None => true,
                };
                if ahead {
                    self.last_position = Some(position);
                }
                ahead
            },
        }
    }

    /// Whether a record is to be used; `None` if the record is not laid out as the projection
    /// says, or if the count of messages would overflow.
    pub fn try_should_use_record(&mut self, value: &Row) -> (should_use: Option<
        Result<bool, EnvelopeError>,
    >)
        ensures
            match judge(old(self).projection, old(self)@, value@.datums) {
                Some((dedup, verdict)) => {
                    &&& final(self)@ == dedup
                    &&& match should_use {
                        Some(Ok(should_use)) => verdict == Ok::<_, Seq<char>>(should_use),
                        Some(Err(err)) => verdict == Err::<bool, _>(err@),
                        None => false,
                    }
                },
                None => should_use is None,
            },
            final(self).projection == old(self).projection,
    {
        if !is_laid_out(&self.projection, value) {
            return None;
        }
        if self.messages_processed.offset < u64::MAX {
            return Some(self.should_use_record(value));
        }
        match self.extract_binlog_position(value) {
            Ok(_) => None,
            Err(err) => Some(Err(err)),
        }
    }
}

/// What a position that was read without regard to log files gives.
spec fn extraction_of(
    filenames: Map<Seq<char>, i64>,
    position: Option<Result<Option<RowCoordinates>, EnvelopeError>>,
) -> Option<Extraction> {
    match position {
        Some(Ok(position)) => Some(Extraction { filenames, position: Ok(position) }),
        Some(Err(err)) => Some(Extraction { filenames, position: Err(err@) }),
        None => None,
    }
}

/// Reads the position of a PostgreSQL record.
fn postgres_coordinates(
    sequence: usize,
    lsn: usize,
    op: usize,
    source: &Vec<Datum>,
    value: &Row,
) -> (position: Option<Result<Option<RowCoordinates>, EnvelopeError>>)
    ensures
        forall|filenames: Map<Seq<char>, i64>|
            #[trigger] postgres_position(
                sequence as nat,
                lsn as nat,
                op as nat,
                filenames,
                datums_view(source@),
                value@.datums,
            ) == extraction_of(filenames, position),
{
    let sequence = match list_nth(source, sequence) {
        Some(Datum::String(s)) => s,
        Some(Datum::Null) => {
            return Some(Ok(None));
        },
        _ => {
            return None;
        },
    };
    let commit: Option<Option<u64>> = match read_json_strings(sequence.as_str()) {
        Ok(entries) => read_commit(&entries),
        Err(_) => None,
    };
    let last_commit_lsn: Option<u64> = match commit {
        Some(commit) => commit,
        None => {
            let mut message: String = "invalid sequence: ".to_owned();
            message.append(quote(sequence.as_str()).as_str());
            return Some(Err(EnvelopeError::Debezium(message)));
        },
    };
    let lsn: i64 = match list_nth(source, lsn) {
        Some(Datum::Int64(i)) => *i,
        Some(Datum::Null) => {
            return Some(Ok(None));
        },
        _ => {
            return None;
        },
    };
    let op_type: PostgresOpCoordinates = match value.nth(op) {
        Some(Datum::String(op)) => {
            if same_text(op, "d") {
                PostgresOpCoordinates::Delete
            } else if same_text(op, "c") {
                PostgresOpCoordinates::Create
            } else {
                PostgresOpCoordinates::Other
            }
        },
        _ => {
            return None;
        },
    };
    Some(Ok(Some(RowCoordinates::Postgres { last_commit_lsn, lsn, op_type })))
}

/// Reads the position of a SQL Server record.
fn sql_server_coordinates(change_lsn: usize, event_serial_no: usize, source: &Vec<Datum>) -> (r:
    Option<Result<Option<RowCoordinates>, EnvelopeError>>)
    ensures
        forall|filenames: Map<Seq<char>, i64>|
            #[trigger] sql_server_position(
                change_lsn as nat,
                event_serial_no as nat,
                filenames,
                datums_view(source@),
            ) == extraction_of(filenames, r),
{
    let change_lsn: SqlServerLsn = match list_nth(source, change_lsn) {
        Some(Datum::String(s)) => match SqlServerLsn::from_str(s.as_str()) {
            Ok(lsn) => lsn,
            Err(err) => {
                return Some(Err(err));
            },
        },
        Some(Datum::Null) => {
            return Some(Ok(None));
        },
        _ => {
            return None;
        },
    };
    let event_serial_no: i64 = match list_nth(source, event_serial_no) {
        Some(Datum::Int64(i)) => *i,
        Some(Datum::Null) => {
            return Some(Ok(None));
        },
        _ => {
            return None;
        },
    };
    Some(Ok(Some(RowCoordinates::SqlServer { change_lsn, event_serial_no })))
}

/// Whether the fields of a MySQL record are as they should be.
fn mysql_laid_out(file: usize, pos: usize, row: usize, source: &Vec<Datum>) -> (laid_out: bool)
    ensures
        forall|filenames: Map<Seq<char>, i64>|
            laid_out == (#[trigger] mysql_position(
                file as nat,
                pos as nat,
                row as nat,
                filenames,
                datums_view(source@),
            ) is Some),
{
    match list_nth(source, file) {
        Some(Datum::Null) => true,
        Some(Datum::String(_)) => match list_nth(source, pos) {
            Some(Datum::Null) => true,
            Some(Datum::Int64(_)) => match list_nth(source, row) {
                Some(Datum::Null) => true,
                Some(Datum::Int32(_)) => true,
                _ => false,
            },
            _ => false,
        },
        _ => false,
    }
}

/// Whether a record is laid out as a projection says.
pub fn is_laid_out(projection: &DebeziumDedupProjection, value: &Row) -> (laid_out: bool)
    ensures
        forall|filenames: Map<Seq<char>, i64>|
            laid_out == (#[trigger] extract(*projection, filenames, value@.datums) is Some),
{
    let source = match value.nth(projection.source_idx) {
        Some(Datum::List(source)) => {
            proof {
                lemma_list_view(*source);
            }
            source
        },
        Some(Datum::Null) => {
            return true;
        },
        _ => {
            return false;
        },
    };
    match list_nth(source, projection.snapshot_idx) {
        Some(Datum::String(s)) => {
            if !same_text(s, "false") {
                return true;
            }
        },
        Some(Datum::True) => {
            return true;
        },
        Some(_) => {},
        None => {
            return false;
        },
    }
    match projection.source_projection {
        DebeziumSourceProjection::MySql { file, pos, row } => {
            mysql_laid_out(file, pos, row, source)
        },
        DebeziumSourceProjection::Postgres { sequence, lsn } => {
            postgres_coordinates(sequence, lsn, projection.op_idx, source, value).is_some()
        },
        DebeziumSourceProjection::SqlServer { change_lsn, event_serial_no } => {
            sql_server_coordinates(change_lsn, event_serial_no, source).is_some()
        },
    }
}

/// A message never takes the last recorded position back: it stays, or moves strictly ahead. A
/// message with a position is used exactly if it moves the last recorded position to its own, and
/// one whose envelope cannot be read changes neither the position nor the count.
pub proof fn lemma_position_only_advances(
    projection: DebeziumDedupProjection,
    dedup: DedupView,
    row: Seq<DatumView>,
)
    requires
        judge(projection, dedup, row) is Some,
    ensures
        ({
            let (after, verdict) = judge(projection, dedup, row).unwrap();
            let position = extract(projection, dedup.filenames, row).unwrap().position;
            &&& after.last_position == dedup.last_position || is_ahead(
                dedup.last_position,
                after.last_position.unwrap(),
            )
            &&& position matches Ok(Some(position)) ==> (verdict == Ok::<bool, Seq<char>>(true)
                <==> is_ahead(dedup.last_position, position)) && (verdict == Ok::<bool, Seq<char>>(
                true,
            ) ==> after.last_position == Some(position))
            &&& position is Err ==> verdict is Err && after.last_position == dedup.last_position
                && after.messages_processed == dedup.messages_processed
            &&& position is Ok ==> verdict is Ok && after.messages_processed
                == dedup.messages_processed + 1
        }),
{
}

/// A position that is not ahead of the last recorded one never will be: whatever messages come in
/// between, a record at that position is not used.
pub proof fn lemma_stale_stays_stale(
    projection: DebeziumDedupProjection,
    dedup: DedupView,
    row: Seq<DatumView>,
    position: RowCoordinates,
)
    requires
        judge(projection, dedup, row) is Some,
        !is_ahead(dedup.last_position, position),
    ensures
        !is_ahead(judge(projection, dedup, row).unwrap().0.last_position, position),
{
}

/// The exact same record is not used twice: once a record with a position has been judged, its
/// position is not ahead of the last recorded one, and the record still has that position.
pub proof fn lemma_duplicate_is_skipped(
    projection: DebeziumDedupProjection,
    dedup: DedupView,
    row: Seq<DatumView>,
)
    requires
        judge(projection, dedup, row) is Some,
        extract(projection, dedup.filenames, row).unwrap().position matches Ok(Some(_)),
        dedup.messages_processed + 2 <= u64::MAX,
    ensures
        ({
            let after = judge(projection, dedup, row).unwrap().0;
            let position = extract(projection, dedup.filenames, row).unwrap().position;
            &&& !is_ahead(after.last_position, position->Ok_0.unwrap())
            &&& extract(projection, after.filenames, row).unwrap().position == position
            &&& judge(projection, after, row) is Some
            &&& judge(projection, after, row).unwrap().1 == Ok::<bool, Seq<char>>(false)
            &&& judge(projection, after, row).unwrap().0.last_position == after.last_position
        }),
{
}

/// A log file keeps its number for good.
pub proof fn lemma_file_keeps_number(
    projection: DebeziumDedupProjection,
    dedup: DedupView,
    row: Seq<DatumView>,
    filename: Seq<char>,
)
    requires
        judge(projection, dedup, row) is Some,
        dedup.filenames.contains_key(filename),
    ensures
        judge(projection, dedup, row).unwrap().0.filenames.contains_key(filename),
        judge(projection, dedup, row).unwrap().0.filenames[filename] == dedup.filenames[filename],
{
}

/// Whether a record is laid out as a projection says does not depend on what came before it.
pub proof fn lemma_layout_is_stateless(
    projection: DebeziumDedupProjection,
    a: Map<Seq<char>, i64>,
    b: Map<Seq<char>, i64>,
    row: Seq<DatumView>,
)
    ensures
        extract(projection, a, row) is Some == extract(projection, b, row) is Some,
{
}

} // verus!
