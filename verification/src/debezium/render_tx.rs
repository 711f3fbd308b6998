//! Turning Debezium records into updates, with the help of transaction metadata.

use std::collections::VecDeque;

use vstd::hash_map::StringHashMap;
use vstd::prelude::*;

use crate::debezium::datum::{
    datums_view, lemma_list_view, list_nth, nth, Datum, DatumView, Row,
};
use crate::debezium::dedup::{judge, DebeziumEnvelope, DebeziumTransactionMetadata, DedupView};
use crate::debezium::render::{
    changes, dedup_of, error_update, has_changes,
    lemma_changes_at_time, send_changes, send_error, updates_view, PartitionDedups,
    Update, UpdateView,
};
use crate::debezium::transactions::OpenTransactions;
use crate::hash::{hash_number, hash_text, hash_value, is_number_hash, text_hash};
use crate::source::types::{
    DataflowError, DataflowErrorView, DecodeError, DecodeResult, Diff, PartitionId, RecordView,
    Timestamp,
};
use crate::text::{i64_text, same_text, signed_decimal};

verus! {

/// A row of transaction metadata, as it arrived: with a time, a diff, and a capability, given by
/// its own time.
pub struct TxRow {
    pub cap: Timestamp,
    pub row: Row,
    pub time: Timestamp,
    pub diff: Diff,
}

/// The contents of a [`TxRow`].
pub struct TxRowView {
    pub cap: Timestamp,
    pub row: Seq<DatumView>,
    pub time: Timestamp,
    pub diff: Diff,
}

impl View for TxRow {
    type V = TxRowView;

    open spec fn view(&self) -> TxRowView {
        TxRowView { cap: self.cap, row: self.row@.datums, time: self.time, diff: self.diff }
    }
}

/// A record, as it arrived: with a capability, given by its time.
pub struct DataRecord {
    pub result: DecodeResult,
    pub cap: Timestamp,
}

/// The contents of a [`DataRecord`].
pub struct DataRecordView {
    pub record: RecordView,
    pub cap: Timestamp,
}

impl View for DataRecord {
    type V = DataRecordView;

    open spec fn view(&self) -> DataRecordView {
        DataRecordView { record: self.result@, cap: self.cap }
    }
}

/// The state of the rendering of a Debezium source with transaction metadata.
pub struct RenderTxState {
    pub envelope: DebeziumEnvelope,
    pub metadata: DebeziumTransactionMetadata,
    /// Keep mapping of `transaction_id`s to the timestamp at which that transaction END record
    /// was read from the transaction metadata stream.  That stored timestamp will be the timestamp
    /// for all data records with the corresponding `transaction_id`.  We keep this mapping around
    /// after we've matched `event_count` number of data rows so that we're able to process
    /// duplicates.  Otherwise, we're not able to tell the difference between "we've recieved the
    /// tx metadata and processed everything" and "we're still waiting on the tx metadata".
    pub tx_mapping: StringHashMap<Timestamp>,
    /// Hold onto a capability for each `transaction_id`.  This represents the time at which we'll
    /// emit matched data rows.  This will be dropped when we've matched the indicated number of
    /// events.
    pub open: OpenTransactions,
    /// The records that have not been rendered.
    pub data_buffer: VecDeque<DataRecord>,
    pub dedups: PartitionDedups,
}

/// The contents of a [`RenderTxState`], but for the layout of the records.
#[verifier::ext_equal]
pub struct TxView {
    pub tx_mapping: Map<Seq<char>, Timestamp>,
    pub open: Map<Seq<char>, (Timestamp, i64)>,
    pub data_buffer: Seq<DataRecordView>,
    pub dedups: Map<PartitionId, DedupView>,
}

impl View for RenderTxState {
    type V = TxView;

    open spec fn view(&self) -> TxView {
        TxView {
            tx_mapping: self.tx_mapping@,
            open: self.open@,
            data_buffer: self.data_buffer@.map_values(|r: DataRecord| r@),
            dedups: self.dedups@,
        }
    }
}

/// The message for a row of transaction metadata with a diff other than 1.
pub open spec fn unexpected_diff(diff: Diff) -> Seq<char> {
    "Transaction metadata supplied diff value "@ + signed_decimal(diff as int)
}

/// The event count that the entry of a data collection gives. `None` if it is missing or of the
/// wrong type.
pub open spec fn event_count_of(count: Option<DatumView>) -> Option<i64> {
    match count {
        Some(DatumView::Int16(i)) => Some(i as i64),
        Some(DatumView::Int32(i)) => Some(i as i64),
        Some(DatumView::Int64(i)) => Some(i),
        Some(DatumView::Null) => Some(0),
        _ => None,
    }
}

/// The event count for the data collection that is rendered, looked up among the entries of a
/// transaction from a position on: that of the first entry with its name, and 0 where there is
/// none. `None` if an entry up to that one is not laid out as it should be.
pub open spec fn find_event_count(
    metadata: DebeziumTransactionMetadata,
    collections: Seq<DatumView>,
    from: nat,
) -> Option<i64>
    decreases collections.len() - from,
{
    if from >= collections.len() {
        Some(0)
    } else {
        match collections[from as int] {
            DatumView::List(entry) => match nth(
                entry,
                metadata.tx_data_collections_data_collection_idx as nat,
            ) {
                Some(DatumView::String(name)) => if name == metadata.tx_data_collection_name@ {
                    event_count_of(nth(entry, metadata.tx_data_collections_event_count_idx as nat))
                } else {
                    find_event_count(metadata, collections, from + 1)
                },
                _ => None,
            },
            _ => None,
        }
    }
}

/// What a row of transaction metadata says: that a transaction has ended, with a number of events
/// for the data collection that is rendered; or nothing, where it is not the end of one. `None` if
/// the row is not laid out as it should be.
pub open spec fn ended_transaction(
    metadata: DebeziumTransactionMetadata,
    row: Seq<DatumView>,
) -> Option<Option<(Seq<char>, i64)>> {
    match nth(row, metadata.tx_status_idx as nat) {
        Some(DatumView::String(status)) => if status != "END"@ {
            Some(None)
        } else {
            match (
                nth(row, metadata.tx_transaction_id_idx as nat),
                nth(row, metadata.tx_data_collections_idx as nat),
            ) {
                (Some(DatumView::String(tx_id)), Some(DatumView::List(collections))) => {
                    match find_event_count(metadata, collections, 0) {
                        Some(count) => Some(Some((tx_id, count))),
                        None => None,
                    }
                },
                (Some(DatumView::String(tx_id)), Some(DatumView::Array(collections))) => {
                    match find_event_count(metadata, collections, 0) {
                        Some(count) => Some(Some((tx_id, count))),
                        None => None,
                    }
                },
                _ => None,
            }
        },
        _ => None,
    }
}

/// What a row of transaction metadata does to the state, and the errors it gives. `None` if the
/// row is not laid out as it should be, or if it ends a transaction at another time than an
/// earlier row did.
///
/// It's okay for the event count to equal zero!  This occurs when there is transaction metadata
/// for other collections but not this particular one.
pub open spec fn tx_row(
    metadata: DebeziumTransactionMetadata,
    state: TxView,
    row: TxRowView,
) -> Option<(TxView, Seq<UpdateView>)> {
    let errors = if row.diff != 1 {
        seq![
            error_update(
                row.cap,
                DataflowErrorView::EvalError(unexpected_diff(row.diff)),
                row.time,
            ),
        ]
    } else {
        Seq::empty()
    };
    match ended_transaction(metadata, row.row) {
        None => None,
        Some(None) => Some((state, errors)),
        Some(Some((tx_id, event_count))) => if event_count == 0 {
            Some((state, errors))
        } else if !state.tx_mapping.contains_key(tx_id) {
            Some(
                (
                    TxView {
                        tx_mapping: state.tx_mapping.insert(tx_id, row.time),
                        open: state.open.insert(tx_id, (row.cap, event_count)),
                        ..state
                    },
                    errors,
                ),
            )
        } else if state.tx_mapping[tx_id] == row.time {
            Some((state, errors))
        } else {
            None
        },
    }
}

/// What rows of transaction metadata do, one after the other.
pub open spec fn tx_rows(
    metadata: DebeziumTransactionMetadata,
    state: TxView,
    rows: Seq<TxRowView>,
) -> Option<(TxView, Seq<UpdateView>)>
    decreases rows.len(),
{
    if rows.len() == 0 {
        Some((state, Seq::empty()))
    } else {
        match tx_rows(metadata, state, rows.drop_last()) {
            None => None,
            Some((state, updates)) => match tx_row(metadata, state, rows.last()) {
                None => None,
                Some((state, more)) => Some((state, updates + more)),
            },
        }
    }
}

/// The transaction that a record belongs to. `Some(None)` where it belongs to none: the record
/// was made before transaction metadata production was turned on. `None` if the record is not laid
/// out as it should be.
pub open spec fn transaction_of(
    metadata: DebeziumTransactionMetadata,
    value: Seq<DatumView>,
) -> Option<Option<Seq<char>>> {
    match nth(value, metadata.data_transaction_idx as nat) {
        Some(DatumView::Null) => Some(None),
        Some(DatumView::List(transaction)) => match nth(
            transaction,
            metadata.data_transaction_id_idx as nat,
        ) {
            Some(DatumView::String(tx_id)) => Some(Some(tx_id)),
            _ => None,
        },
        _ => None,
    }
}

/// What a record that belongs to a transaction does when it is used: its updates go out at the
/// time of the transaction, and the transaction has one event less to come. `None` if the
/// transaction is not open.
pub open spec fn use_in_transaction(
    envelope: DebeziumEnvelope,
    state: TxView,
    tx_id: Seq<char>,
    value: Seq<DatumView>,
) -> Option<(TxView, Seq<UpdateView>)> {
    if !state.open.contains_key(tx_id) || !state.tx_mapping.contains_key(tx_id) {
        None
    } else {
        let (cap, event_count) = state.open[tx_id];
        match changes(envelope, cap, state.tx_mapping[tx_id], value) {
            None => None,
            Some(updates) => if event_count == i64::MIN {
                None
            } else {
                let left = (event_count - 1) as i64;
                let open = if left == 0 {
                    state.open.remove(tx_id)
                } else {
                    state.open.insert(tx_id, (cap, left))
                };
                Some((TxView { open, ..state }, updates))
            },
        }
    }
}

/// What becomes of a record.
pub enum Handled {
    /// It belongs to a transaction whose end has not been read, and has to wait.
    Waits,
    /// It has been rendered.
    Done(TxView, Seq<UpdateView>),
}

/// What a record does to the state, and the updates it gives. `None` if the record is not laid
/// out as the envelope says, if it has a diff other than 1, or if it is used and belongs to a
/// transaction that is not open.
pub open spec fn data_record(
    envelope: DebeziumEnvelope,
    metadata: DebeziumTransactionMetadata,
    state: TxView,
    record: DataRecordView,
) -> Option<Handled> {
    match record.record.value {
        None => Some(Handled::Done(state, Seq::empty())),
        Some(Err(err)) => Some(
            Handled::Done(
                state,
                seq![error_update(record.cap, DataflowErrorView::DecodeError(err), record.cap)],
            ),
        ),
        Some(Ok((value, diff))) => if diff != 1 {
            None
        } else {
            match transaction_of(metadata, value) {
                None => None,
                Some(transaction) => if transaction is Some && !state.tx_mapping.contains_key(
                    transaction.unwrap(),
                ) {
                    Some(Handled::Waits)
                } else {
                    match judge(
                        envelope.dedup,
                        dedup_of(state.dedups, record.record.partition),
                        value,
                    ) {
                        None => None,
                        Some((dedup, verdict)) => {
                            let state = TxView {
                                dedups: state.dedups.insert(record.record.partition, dedup),
                                ..state
                            };
                            match verdict {
                                Err(message) => Some(
                                    Handled::Done(
                                        state,
                                        seq![
                                            error_update(
                                                record.cap,
                                                DataflowErrorView::EnvelopeError(message),
                                                record.cap,
                                            ),
                                        ],
                                    ),
                                ),
                                Ok(false) => Some(Handled::Done(state, Seq::empty())),
                                Ok(true) => match transaction {
                                    Some(tx_id) => match use_in_transaction(
                                        envelope,
                                        state,
                                        tx_id,
                                        value,
                                    ) {
                                        None => None,
                                        Some((state, updates)) => Some(
                                            Handled::Done(state, updates),
                                        ),
                                    },
                                    None => match changes(envelope, record.cap, record.cap, value) {
                                        None => None,
                                        Some(updates) => Some(Handled::Done(state, updates)),
                                    },
                                },
                            }
                        },
                    }
                },
            }
        },
    }
}

/// A record does not change which others wait behind it.
pub proof fn lemma_record_keeps_buffer(
    envelope: DebeziumEnvelope,
    metadata: DebeziumTransactionMetadata,
    state: TxView,
    record: DataRecordView,
)
    ensures
        data_record(envelope, metadata, state, record) matches Some(Handled::Done(next, _))
            ==> next.data_buffer == state.data_buffer,
{
}

/// What the records that have not been rendered do, one after the other, up to the first that has
/// to wait.
pub open spec fn drain(
    envelope: DebeziumEnvelope,
    metadata: DebeziumTransactionMetadata,
    state: TxView,
) -> Option<(TxView, Seq<UpdateView>)>
    decreases state.data_buffer.len(),
{
    if state.data_buffer.len() == 0 {
        Some((state, Seq::empty()))
    } else {
        let rest = TxView { data_buffer: state.data_buffer.drop_first(), ..state };
        match data_record(envelope, metadata, rest, state.data_buffer[0]) {
            None => None,
            Some(Handled::Waits) => Some((state, Seq::empty())),
            Some(Handled::Done(next, updates)) => {
                proof {
                    lemma_record_keeps_buffer(envelope, metadata, rest, state.data_buffer[0]);
                }
                match drain(envelope, metadata, next) {
                    None => None,
                    Some((last, more)) => Some((last, updates + more)),
                }
            },
        }
    }
}

/// What an activation does: first the rows of transaction metadata, then the records, behind those
/// that have not been rendered yet.
pub open spec fn activate(
    envelope: DebeziumEnvelope,
    metadata: DebeziumTransactionMetadata,
    state: TxView,
    rows: Seq<TxRowView>,
    records: Seq<DataRecordView>,
) -> Option<(TxView, Seq<UpdateView>)> {
    match tx_rows(metadata, state, rows) {
        None => None,
        Some((state, errors)) => match drain(
            envelope,
            metadata,
            TxView { data_buffer: state.data_buffer + records, ..state },
        ) {
            None => None,
            Some((state, updates)) => Some((state, errors + updates)),
        },
    }
}

/// Rows of transaction metadata that can be handled have prefixes that can be handled.
proof fn lemma_prefix_handled(
    metadata: DebeziumTransactionMetadata,
    state: TxView,
    rows: Seq<TxRowView>,
    n: int,
)
    requires
        0 <= n <= rows.len(),
        tx_rows(metadata, state, rows) is Some,
    ensures
        tx_rows(metadata, state, rows.take(n)) is Some,
    decreases rows.len(),
{
    if n == rows.len() {
        assert(rows.take(n) =~= rows);
    } else {
        assert(rows.drop_last().take(n) =~= rows.take(n));
        lemma_prefix_handled(metadata, state, rows.drop_last(), n);
    }
}

/// Reads the event count of the entry of a data collection.
fn read_event_count(count: Option<&Datum>) -> (r: Option<i64>)
    ensures
        r == event_count_of(match count { Some(datum) => Some(datum@), None => None }),
{
    match count {
        Some(Datum::Int16(i)) => Some(*i as i64),
        Some(Datum::Int32(i)) => Some(*i as i64),
        Some(Datum::Int64(i)) => Some(*i),
        Some(Datum::Null) => Some(0),
        _ => None,
    }
}

/// Looks up the event count for the data collection that is rendered.
fn read_collections(metadata: &DebeziumTransactionMetadata, collections: &Vec<Datum>) -> (r: Option<
    i64,
>)
    ensures
        r == find_event_count(*metadata, datums_view(collections@), 0),
{
    let mut i: usize = 0;
    while i < collections.len()
        invariant
            i <= collections@.len(),
            find_event_count(*metadata, datums_view(collections@), 0) == find_event_count(
                *metadata,
                datums_view(collections@),
                i as nat,
            ),
        decreases collections@.len() - i,
    {
        match &collections[i] {
            Datum::List(entry) => {
                proof {
                    lemma_list_view(*entry);
                }
                match list_nth(entry, metadata.tx_data_collections_data_collection_idx) {
                    Some(Datum::String(name)) => {
                        if same_text(name, metadata.tx_data_collection_name.as_str()) {
                            return read_event_count(
                                list_nth(entry, metadata.tx_data_collections_event_count_idx),
                            );
                        }
                    },
                    _ => {
                        return None;
                    },
                }
            },
            _ => {
                return None;
            },
        }
        i = i + 1;
    }
    Some(0)
}

/// Reads a row of transaction metadata.
pub fn read_tx_row(metadata: &DebeziumTransactionMetadata, row: &Row) -> (r: Option<
    Option<(String, i64)>,
>)
    ensures
        match r {
            Some(Some((tx_id, count))) => ended_transaction(*metadata, row@.datums) == Some(
                Some((tx_id@, count)),
            ),
            Some(None) => ended_transaction(*metadata, row@.datums) == Some(
                None::<(Seq<char>, i64)>,
            ),
            None => ended_transaction(*metadata, row@.datums) is None,
        },
{
    match row.nth(metadata.tx_status_idx) {
        Some(Datum::String(status)) => {
            if !same_text(status, "END") {
                return Some(None);
            }
        },
        _ => {
            return None;
        },
    }
    let tx_id: String = match row.nth(metadata.tx_transaction_id_idx) {
        Some(Datum::String(tx_id)) => tx_id.clone(),
        _ => {
            return None;
        },
    };
    let event_count: Option<i64> = match row.nth(metadata.tx_data_collections_idx) {
        Some(Datum::List(collections)) => {
            proof {
                lemma_list_view(*collections);
            }
            read_collections(metadata, collections)
        },
        Some(Datum::Array(collections)) => {
            proof {
                lemma_list_view(*collections);
            }
            read_collections(metadata, collections)
        },
        _ => {
            return None;
        },
    };
    match event_count {
        Some(event_count) => Some(Some((tx_id, event_count))),
        None => None,
    }
}

/// Reads the transaction that a record belongs to.
pub fn read_transaction<'a>(metadata: &DebeziumTransactionMetadata, value: &'a Row) -> (r: Option<
    Option<&'a String>,
>)
    ensures
        match r {
            Some(Some(tx_id)) => transaction_of(*metadata, value@.datums) == Some(Some(tx_id@)),
            Some(None) => transaction_of(*metadata, value@.datums) == Some(None::<Seq<char>>),
            None => transaction_of(*metadata, value@.datums) is None,
        },
{
    match value.nth(metadata.data_transaction_idx) {
        Some(Datum::Null) => Some(None),
        Some(Datum::List(transaction)) => {
            proof {
                lemma_list_view(*transaction);
            }
            match list_nth(transaction, metadata.data_transaction_id_idx) {
                Some(Datum::String(tx_id)) => Some(Some(tx_id)),
                _ => None,
            }
        },
        _ => None,
    }
}

/// The worker that a row of transaction metadata goes to, up to the number of workers: that of its
/// transaction. A row without one cannot be used; such rows are spread by their time.
pub fn tx_dist(metadata: &DebeziumTransactionMetadata, row: &Row, time: Timestamp) -> (worker: u64)
    ensures
        match nth(row@.datums, metadata.tx_transaction_id_idx as nat) {
            Some(DatumView::String(tx_id)) => worker == text_hash(tx_id),
            _ => is_number_hash(time, worker),
        },
{
    match row.nth(metadata.tx_transaction_id_idx) {
        Some(Datum::String(tx_id)) => hash_text(tx_id.as_str()),
        _ => hash_number(time),
    }
}

/// The worker that a record goes to, up to the number of workers: that of its transaction, so that
/// it meets the metadata of the transaction there. A record without one may go to any worker; such
/// records are spread by their value. `None` if the record is not laid out as the metadata says.
pub fn data_dist(metadata: &DebeziumTransactionMetadata, result: &DecodeResult) -> (worker: Option<
    u64,
>)
    ensures
        match result@.value {
            Some(Ok((value, diff))) => {
                &&& worker is Some <==> diff == 1 && transaction_of(*metadata, value) is Some
                &&& transaction_of(*metadata, value) matches Some(Some(tx_id)) ==> worker is Some
                    ==> worker == Some(text_hash(tx_id))
            },
            _ => worker is Some,
        },
{
    let value: Option<Result<&Row, &DecodeError>> = match &result.value {
        Some(Ok((value, diff))) => {
            if *diff != 1 {
                return None;
            }
            Some(Ok(value))
        },
        Some(Err(err)) => Some(Err(err)),
        None => None,
    };
    let default_hash: u64 = hash_value(&value);
    match value {
        Some(Ok(value)) => match read_transaction(metadata, value) {
            Some(Some(tx_id)) => Some(hash_text(tx_id.as_str())),
            Some(None) => Some(default_hash),
            None => None,
        },
        _ => Some(default_hash),
    }
}

impl RenderTxState {
    /// The parts of the state fit together: the deduplication states read records as the envelope
    /// says, and an open transaction has a time, and events to come.
    pub open spec fn wf(&self) -> bool {
        &&& self.dedups.wf(self.envelope.dedup)
        &&& self.open.wf()
        &&& transactions_fit(self@)
    }

    /// Nothing but the contents of the state has changed.
    pub open spec fn same_layout(&self, other: &RenderTxState) -> bool {
        &&& self.envelope == other.envelope
        &&& self.metadata == other.metadata
    }

    /// The state before any record, for an envelope that comes with transaction metadata.
    pub fn new(envelope: DebeziumEnvelope) -> (state: RenderTxState)
        requires
            envelope.dedup.tx_metadata is Some,
        ensures
            state.wf(),
            state.envelope == envelope,
            state.metadata == envelope.dedup.tx_metadata.unwrap(),
            state@ == (TxView {
                tx_mapping: Map::empty(),
                open: Map::empty(),
                data_buffer: Seq::empty(),
                dedups: Map::empty(),
            }),
    {
        let metadata = envelope.dedup.tx_metadata.as_ref().unwrap().clone();
        let state = RenderTxState {
            envelope,
            metadata,
            tx_mapping: StringHashMap::new(),
            open: OpenTransactions::new(),
            data_buffer: VecDeque::new(),
            dedups: PartitionDedups::new(),
        };
        assert(state@.data_buffer =~= Seq::empty());
        state
    }

    /// Handles a row of transaction metadata. Returns whether it could be handled.
    fn tx_row(&mut self, row: TxRow, updates: &mut Vec<Update>) -> (handled: bool)
        requires
            old(self).wf(),
        ensures
            final(self).wf(),
            final(self).same_layout(old(self)),
            match tx_row(old(self).metadata, old(self)@, row@) {
                Some((state, errors)) => {
                    &&& handled
                    &&& final(self)@ == state
                    &&& updates_view(final(updates)@) == updates_view(old(updates)@) + errors
                },
                None => !handled,
            },
    {
        let ghost sent = updates_view(updates@);
        assert(sent + Seq::empty() =~= sent);
        if row.diff != 1 {
            let mut message: String = "Transaction metadata supplied diff value ".to_owned();
            message.append(i64_text(row.diff).as_str());
            send_error(updates, row.cap, DataflowError::EvalError(message), row.time);
        }
        let (tx_id, event_count) = match read_tx_row(&self.metadata, &row.row) {
            Some(Some(ended)) => ended,
            Some(None) => {
                return true;
            },
            None => {
                return false;
            },
        };
        if event_count == 0 {
            return true;
        }
        match self.tx_mapping.get(tx_id.as_str()) {
            Some(time) => {
                return *time == row.time;
            },
            None => {},
        }
        assert(!self@.open.contains_key(tx_id@));
        self.tx_mapping.insert(tx_id.clone(), row.time);
        self.open.open(tx_id, row.cap, event_count);
        true
    }

    /// Uses a record that belongs to a transaction. Returns whether it could be used.
    fn use_in_transaction(&mut self, tx_id: &String, value: &Row, updates: &mut Vec<Update>) -> (r:
        bool)
        requires
            old(self).wf(),
        ensures
            final(self).wf(),
            final(self).same_layout(old(self)),
            final(self).data_buffer == old(self).data_buffer,
            match use_in_transaction(old(self).envelope, old(self)@, tx_id@, value@.datums) {
                Some((state, more)) => {
                    &&& r
                    &&& final(self)@ == state
                    &&& updates_view(final(updates)@) == updates_view(old(updates)@) + more
                },
                None => !r,
            },
    {
        let time: Timestamp = match self.tx_mapping.get(tx_id.as_str()) {
            Some(time) => *time,
            None => {
                return false;
            },
        };
        let place: usize = match self.open.find(tx_id) {
            Some(place) => place,
            None => {
                return false;
            },
        };
        if !has_changes(&self.envelope, value) || self.open.entries[place].event_count == i64::MIN {
            return false;
        }
        let cap: Timestamp = self.open.entries[place].cap;
        send_changes(updates, &self.envelope, cap, time, value);
        self.open.count_event(place);
        true
    }

    /// Renders a record that need not wait. Returns whether it could be rendered.
    fn render_record(&mut self, record: DataRecord, updates: &mut Vec<Update>) -> (rendered: bool)
        requires
            old(self).wf(),
            !(data_record(
                old(self).envelope,
                old(self).metadata,
                old(self)@,
                record@,
            ) matches Some(Handled::Waits)),
        ensures
            final(self).wf(),
            final(self).same_layout(old(self)),
            final(self).data_buffer == old(self).data_buffer,
            match data_record(old(self).envelope, old(self).metadata, old(self)@, record@) {
                Some(Handled::Done(state, more)) => {
                    &&& rendered
                    &&& final(self)@ == state
                    &&& updates_view(final(updates)@) == updates_view(old(updates)@) + more
                },
                _ => !rendered,
            },
    {
        let ghost sent = updates_view(updates@);
        assert(sent + Seq::empty() =~= sent);
        let cap: Timestamp = record.cap;
        match record.result.value {
            Some(Ok((value, diff))) => {
                if diff != 1 {
                    return false;
                }
                let transaction: Option<&String> = match read_transaction(&self.metadata, &value) {
                    Some(transaction) => transaction,
                    None => {
                        return false;
                    },
                };
                let should_use = self.dedups.should_use_record(
                    &self.envelope,
                    record.result.partition,
                    &value,
                );
                match should_use {
                    Some(Ok(true)) => match transaction {
                        Some(tx_id) => self.use_in_transaction(tx_id, &value, updates),
                        None => {
                            if !has_changes(&self.envelope, &value) {
                                return false;
                            }
                            send_changes(updates, &self.envelope, cap, cap, &value);
                            true
                        },
                    },
                    Some(Ok(false)) => true,
                    Some(Err(err)) => {
                        send_error(updates, cap, DataflowError::EnvelopeError(err), cap);
                        true
                    },
                    None => false,
                }
            },
            Some(Err(err)) => {
                send_error(updates, cap, DataflowError::DecodeError(err), cap);
                true
            },
            None => true,
        }
    }

    /// Whether a record has to wait for the end of its transaction to be read.
    fn waits(&self, record: &DataRecord) -> (waits: bool)
        ensures
            waits == (data_record(self.envelope, self.metadata, self@, record@)
                matches Some(Handled::Waits)),
    {
        match &record.result.value {
            Some(Ok((value, diff))) => *diff == 1 && match read_transaction(&self.metadata, value) {
                Some(Some(tx_id)) => !self.tx_mapping.contains_key(tx_id.as_str()),
                _ => false,
            },
            _ => false,
        }
    }

    /// Whether a capability of a time is still needed: for the events of an open transaction, or
    /// for a record that has not been rendered. Others must be dropped, to allow the output
    /// frontier to progress.
    pub fn needs_capability(&self, cap: Timestamp) -> (needed: bool)
        requires
            self.wf(),
        ensures
            needed == ((exists|tx_id: Seq<char>| #[trigger]
                self@.open.contains_key(tx_id) && self@.open[tx_id].0 == cap) || (exists|i: int|
                0 <= i < self@.data_buffer.len() && (#[trigger] self@.data_buffer[i]).cap == cap)),
    {
        assert(self@.open == self.open@);
        if self.open.holds(cap) {
            proof {
                let tx_id = choose|tx_id: Seq<char>| #[trigger]
                    self.open@.contains_key(tx_id) && self.open@[tx_id].0 == cap;
                assert(self@.open.contains_key(tx_id));
            }
            return true;
        }
        let mut i: usize = 0;
        while i < self.data_buffer.len()
            invariant
                i <= self.data_buffer@.len(),
                forall|j: int| 0 <= j < i ==> (#[trigger] self@.data_buffer[j]).cap != cap,
            decreases self.data_buffer@.len() - i,
        {
            assert(self@.data_buffer[i as int] == self.data_buffer@[i as int]@);
            if self.data_buffer[i].cap == cap {
                return true;
            }
            i = i + 1;
        }
        false
    }
}

/// The open transactions fit the others: each has a time, and events to come.
pub open spec fn transactions_fit(state: TxView) -> bool {
    forall|tx_id: Seq<char>| #[trigger]
        state.open.contains_key(tx_id) ==> state.tx_mapping.contains_key(tx_id)
            && state.open[tx_id].1 != 0
}

/// Renders what arrived at an activation: rows of transaction metadata, and records.
///
/// The records are rendered in the order in which they arrived, up to the first that belongs to a
/// transaction whose end has not been read. The updates of a record that belongs to a transaction
/// go out at the time of that transaction, with the capability that its end came with. A record
/// that belongs to none was made before transaction metadata production was turned on, and goes
/// out at the time of its own capability, as do all errors.
///
/// `None` if a row or a record is not laid out as the envelope says, if a record has a diff other
/// than 1, if a transaction ends at two different times, or if a record is used that belongs to a
/// transaction all of whose events have been seen. The source is then not what it was validated to
/// be, and its rendering cannot go on.
pub fn render_tx(state: &mut RenderTxState, tx_data: Vec<TxRow>, data: Vec<DataRecord>) -> (updates:
    Option<Vec<Update>>)
    requires
        old(state).wf(),
    ensures
        final(state).wf(),
        final(state).same_layout(old(state)),
        match activate(
            old(state).envelope,
            old(state).metadata,
            old(state)@,
            tx_data@.map_values(|r: TxRow| r@),
            data@.map_values(|r: DataRecord| r@),
        ) {
            Some((after, sent)) => {
                &&& updates is Some
                &&& updates_view(updates.unwrap()@) == sent
                &&& final(state)@ == after
            },
            None => updates is None,
        },
{
    let mut updates: Vec<Update> = Vec::new();
    let ghost rows = tx_data@.map_values(|r: TxRow| r@);
    let ghost records = data@.map_values(|r: DataRecord| r@);
    let ghost start = state@;
    proof {
        assert(rows.take(0) =~= Seq::<TxRowView>::empty());
        assert(updates_view(updates@) =~= Seq::<UpdateView>::empty());
    }
    for row in iter: tx_data
        invariant
            iter.seq() == tx_data@,
            rows == tx_data@.map_values(|r: TxRow| r@),
            state.wf(),
            state.same_layout(old(state)),
            start == old(state)@,
            tx_rows(old(state).metadata, start, rows.take(iter.index() as int)) == Some(
                (state@, updates_view(updates@)),
            ),
    {
        proof {
            let n = iter.index() as int;
            if tx_rows(old(state).metadata, start, rows) is Some {
                lemma_prefix_handled(old(state).metadata, start, rows, n + 1);
            }
            assert(rows.take(n + 1).drop_last() =~= rows.take(n));
            assert(rows.take(n + 1).last() == row@);
        }
        if !state.tx_row(row, &mut updates) {
            return None;
        }
    }
    assert(rows.take(rows.len() as int) =~= rows);
    let ghost errors = updates_view(updates@);
    let ghost handled = state@;
    assert(handled.data_buffer + records.take(0) =~= handled.data_buffer);
    for record in iter: data
        invariant
            iter.seq() == data@,
            records == data@.map_values(|r: DataRecord| r@),
            state.wf(),
            state.same_layout(old(state)),
            state@ == (TxView {
                data_buffer: handled.data_buffer + records.take(iter.index() as int),
                ..handled
            }),
    {
        let ghost before = *state;
        state.data_buffer.push_back(record);
        proof {
            let n = iter.index() as int;
            assert(records.take(n + 1) =~= records.take(n).push(record@));
            assert(state@.data_buffer =~= before@.data_buffer.push(record@));
            assert(state@.open == before@.open && state@.tx_mapping == before@.tx_mapping);
            assert(transactions_fit(state@));
            assert(state@.data_buffer =~= handled.data_buffer + records.take(n + 1));
        }
    }
    assert(records.take(records.len() as int) =~= records);
    let ghost drained = drain(old(state).envelope, old(state).metadata, state@);
    loop
        invariant_except_break
            state.wf(),
            state.same_layout(old(state)),
            match drain(old(state).envelope, old(state).metadata, state@) {
                Some((last, more)) => drained is Some && last == drained.unwrap().0
                    && updates_view(updates@) + more == errors + drained.unwrap().1,
                None => drained is None,
            },
        invariant
            activate(old(state).envelope, old(state).metadata, old(state)@, rows, records)
                == match drained {
                Some((last, more)) => Some((last, errors + more)),
                None => None,
            },
            rows == tx_data@.map_values(|r: TxRow| r@),
            records == data@.map_values(|r: DataRecord| r@),
        ensures
            state.wf(),
            state.same_layout(old(state)),
            drained is Some,
            state@ == drained.unwrap().0,
            updates_view(updates@) == errors + drained.unwrap().1,
        decreases state@.data_buffer.len(),
    {
        let ghost before = *state;
        let ghost sent = updates_view(updates@);
        match state.data_buffer.pop_front() {
            None => {
                assert(state@.data_buffer =~= before@.data_buffer);
                assert(updates_view(updates@) + Seq::empty() =~= updates_view(updates@));
                break;
            },
            Some(record) => {
                assert(state@.data_buffer =~= before@.data_buffer.drop_first());
                assert(before@.data_buffer[0] == record@);
                if state.waits(&record) {
                    state.data_buffer.push_front(record);
                    assert(state@.data_buffer =~= before@.data_buffer);
                    assert(updates_view(updates@) + Seq::empty() =~= updates_view(updates@));
                    break;
                }
                if !state.render_record(record, &mut updates) {
                    return None;
                }
                proof {
                    if let Some((_, rest)) = drain(
                        old(state).envelope,
                        old(state).metadata,
                        state@,
                    ) {
                        let more = updates_view(updates@).skip(sent.len() as int);
                        assert(updates_view(updates@) =~= sent + more);
                        assert(sent + (more + rest) =~= (sent + more) + rest);
                    }
                }
            },
        }
    }
    Some(updates)
}

/// A transaction keeps the time at which its end was first read.
pub proof fn lemma_transaction_keeps_time(
    metadata: DebeziumTransactionMetadata,
    state: TxView,
    rows: Seq<TxRowView>,
    tx_id: Seq<char>,
)
    requires
        tx_rows(metadata, state, rows) is Some,
        state.tx_mapping.contains_key(tx_id),
    ensures
        ({
            let after = tx_rows(metadata, state, rows).unwrap().0;
            &&& after.tx_mapping.contains_key(tx_id)
            &&& after.tx_mapping[tx_id] == state.tx_mapping[tx_id]
            &&& after.data_buffer == state.data_buffer
            &&& after.dedups == state.dedups
        }),
    decreases rows.len(),
{
    if rows.len() > 0 {
        lemma_transaction_keeps_time(metadata, state, rows.drop_last(), tx_id);
    }
}

/// The end of a transaction may be read again, at the same time: nothing changes by it.
pub proof fn lemma_end_may_repeat(
    metadata: DebeziumTransactionMetadata,
    state: TxView,
    row: TxRowView,
)
    requires
        tx_row(metadata, state, row) is Some,
    ensures
        ({
            let after = tx_row(metadata, state, row).unwrap().0;
            tx_row(metadata, after, row) is Some && tx_row(metadata, after, row).unwrap().0
                == after
        }),
{
}

/// The records are rendered in the order in which they arrived: those that have not been rendered
/// are the last of those that had not been before. The first of them belongs to a transaction whose
/// end has not been read. No time of a transaction changes.
pub proof fn lemma_rendered_in_order(
    envelope: DebeziumEnvelope,
    metadata: DebeziumTransactionMetadata,
    state: TxView,
)
    requires
        drain(envelope, metadata, state) is Some,
    ensures
        ({
            let after = drain(envelope, metadata, state).unwrap().0;
            let rendered = state.data_buffer.len() - after.data_buffer.len();
            &&& 0 <= rendered
            &&& after.data_buffer == state.data_buffer.skip(rendered)
            &&& after.tx_mapping == state.tx_mapping
            &&& after.data_buffer.len() > 0 ==> {
                &&& after.data_buffer[0].record.value matches Some(Ok((value, _)))
                &&& transaction_of(metadata, value) matches Some(Some(tx_id))
                &&& !after.tx_mapping.contains_key(tx_id)
            }
        }),
    decreases state.data_buffer.len(),
{
    let after = drain(envelope, metadata, state).unwrap().0;
    if state.data_buffer.len() > 0 {
        let rest = TxView { data_buffer: state.data_buffer.drop_first(), ..state };
        match data_record(envelope, metadata, rest, state.data_buffer[0]) {
            Some(Handled::Done(next, _)) => {
                lemma_record_keeps_buffer(envelope, metadata, rest, state.data_buffer[0]);
                lemma_rendered_in_order(envelope, metadata, next);
                let rendered = next.data_buffer.len() - after.data_buffer.len();
                assert(state.data_buffer.skip(rendered + 1) =~= state.data_buffer.drop_first().skip(
                    rendered,
                ));
            },
            _ => {
                assert(state.data_buffer.skip(0) =~= state.data_buffer);
            },
        }
    } else {
        assert(state.data_buffer.skip(0) =~= state.data_buffer);
    }
}

/// The updates of a record that is used in a transaction go out at the time of the transaction,
/// with the capability that its end came with. The transaction stays open, with one event less to
/// come, unless that was the last.
pub proof fn lemma_used_at_transaction_time(
    envelope: DebeziumEnvelope,
    state: TxView,
    tx_id: Seq<char>,
    value: Seq<DatumView>,
)
    requires
        use_in_transaction(envelope, state, tx_id, value) is Some,
    ensures
        ({
            let (after, updates) = use_in_transaction(envelope, state, tx_id, value).unwrap();
            &&& forall|i: int|
                0 <= i < updates.len() ==> (#[trigger] updates[i]).time == state.tx_mapping[tx_id]
                    && updates[i].cap == state.open[tx_id].0
            &&& after.open.contains_key(tx_id) <==> state.open[tx_id].1 != 1
            &&& after.open.contains_key(tx_id) ==> after.open[tx_id] == (
                state.open[tx_id].0,
                (state.open[tx_id].1 - 1) as i64,
            )
            &&& forall|other: Seq<char>| other != tx_id
                ==> (#[trigger] after.open.contains_key(other)
                <==> state.open.contains_key(other))
        }),
{
    lemma_changes_at_time(envelope, state.open[tx_id].0, state.tx_mapping[tx_id], value);
}

} // verus!
