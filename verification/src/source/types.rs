//! Types related to the source ingestion pipeline/framework.

use vstd::prelude::*;

use crate::debezium::coordinates::EnvelopeError;
use crate::debezium::datum::{DatumView, Row};
use crate::hash::{hash_number, hash_numbers, is_number_hash};
use crate::text::{decimal, i64_text, signed_decimal, u64_text};

verus! {

/// The identity of an object of the catalog.
#[derive(Debug, Clone, Copy, PartialEq, Eq, Hash, PartialOrd, Ord, Structural)]
pub enum GlobalId {
    /// System namespace.
    System(u64),
    /// User namespace.
    User(u64),
    /// Transient namespace.
    Transient(u64),
    /// Dummy id for query being explained.
    Explain,
}

/// The identity of an object as text.
pub open spec fn global_id_text(id: GlobalId) -> Seq<char> {
    match id {
        GlobalId::System(id) => "s"@ + decimal(id as nat),
        GlobalId::User(id) => "u"@ + decimal(id as nat),
        GlobalId::Transient(id) => "t"@ + decimal(id as nat),
        GlobalId::Explain => "Explained Query"@,
    }
}

impl GlobalId {
    /// The identity as text.
    pub fn to_string(&self) -> (text: String)
        ensures
            text@ == global_id_text(*self),
    {
        match *self {
            GlobalId::System(id) => prefixed("s", id),
            GlobalId::User(id) => prefixed("u", id),
            GlobalId::Transient(id) => prefixed("t", id),
            GlobalId::Explain => "Explained Query".to_owned(),
        }
    }
}

fn prefixed(prefix: &str, id: u64) -> (text: String)
    ensures
        text@ == prefix@ + decimal(id as nat),
{
    let mut text: String = prefix.to_owned();
    text.append(u64_text(id).as_str());
    text
}

/// A position in a partition of a source.
#[derive(Debug, Clone, Copy, PartialEq, Eq, Hash, PartialOrd, Ord, Structural)]
pub struct MzOffset {
    pub offset: u64,
}

/// A time at which updates take effect.
pub type Timestamp = u64;

/// How many copies of a row an update adds or, where it is negative, takes away.
pub type Diff = i64;

/// The identity of a partition of a source.
#[derive(Debug, Clone, Copy, PartialEq, Eq, Hash, PartialOrd, Ord, Structural)]
pub enum PartitionId {
    /// A partition of a Kafka topic.
    Kafka(i32),
    /// The one partition of a source that has no partitions.
    Whole,
}

/// The identity of a partition as text.
pub open spec fn partition_id_text(id: PartitionId) -> Seq<char> {
    match id {
        PartitionId::Kafka(id) => signed_decimal(id as int),
        PartitionId::Whole => "none"@,
    }
}

impl PartitionId {
    /// The identity as text.
    pub fn to_string(&self) -> (text: String)
        ensures
            text@ == partition_id_text(*self),
    {
        match *self {
            PartitionId::Kafka(id) => i64_text(id as i64),
            PartitionId::Whole => "none".to_owned(),
        }
    }
}

/// What a record could not be decoded as.
#[derive(Debug, PartialEq, Eq, Hash)]
pub enum DecodeErrorKind {
    Text(String),
    Bytes(String),
}

/// A record could not be decoded.
#[derive(Debug, PartialEq, Eq, Hash)]
pub struct DecodeError {
    pub kind: DecodeErrorKind,
    pub raw: Vec<u8>,
}

/// An error in place of a row.
#[derive(Debug, PartialEq, Eq, Hash)]
pub enum DataflowError {
    DecodeError(DecodeError),
    EvalError(String),
    EnvelopeError(EnvelopeError),
}

/// The contents of a [`DataflowError`].
pub enum DataflowErrorView {
    DecodeError(DecodeError),
    EvalError(Seq<char>),
    EnvelopeError(Seq<char>),
}

impl View for DataflowError {
    type V = DataflowErrorView;

    open spec fn view(&self) -> DataflowErrorView {
        match self {
            DataflowError::DecodeError(err) => DataflowErrorView::DecodeError(*err),
            DataflowError::EvalError(message) => DataflowErrorView::EvalError(message@),
            DataflowError::EnvelopeError(err) => DataflowErrorView::EnvelopeError(err@),
        }
    }
}

/// The output of the decoding operator
#[derive(Debug, PartialEq, Eq, Hash)]
pub struct DecodeResult {
    /// The decoded key
    pub key: Option<Result<Row, DecodeError>>,
    /// The decoded value, as well as the the differential `diff` value for this value, if the
    /// value is present and not and error.
    pub value: Option<Result<(Row, Diff), DecodeError>>,
    /// The index of the decoded value in the stream
    pub position: MzOffset,
    /// The time the record was created in the upstream system, as milliseconds since the epoch
    pub upstream_time_millis: Option<i64>,
    /// The partition this record came from
    pub partition: PartitionId,
    /// If this is a Kafka stream, the appropriate metadata
    pub metadata: Row,
}

/// What the rendering of a [`DecodeResult`] depends on: its value, and its partition.
pub struct RecordView {
    pub value: Option<Result<(Seq<DatumView>, Diff), DecodeError>>,
    pub partition: PartitionId,
}

impl View for DecodeResult {
    type V = RecordView;

    open spec fn view(&self) -> RecordView {
        RecordView {
            value: match self.value {
                Some(Ok((row, diff))) => Some(Ok((row@.datums, diff))),
                Some(Err(err)) => Some(Err(err)),
                None => None,
            },
            partition: self.partition,
        }
    }
}

/// The headers of a message: names, and values that may be missing.
pub type Headers = Vec<(String, Option<Vec<u8>>)>;

/// Source-agnostic wrapper for messages. Each source must implement a conversion to Message.
#[derive(Debug)]
pub struct SourceMessage<Key, Value> {
    /// The output stream this message belongs to. Later in the pipeline the stream is partitioned
    /// based on this value and is fed to the appropriate source exports
    pub output: usize,
    /// The time that an external system first observed the message
    ///
    /// Milliseconds since the unix epoch
    pub upstream_time_millis: Option<i64>,
    /// The message key
    pub key: Key,
    /// The message value
    pub value: Value,
    /// Headers, if the source is configured to pass them along. If it is, but there are none, it
    /// passes `Some([])`
    pub headers: Option<Headers>,
}

/// How a source does.
#[derive(Debug, PartialEq, Eq)]
pub enum HealthStatus {
    Starting,
    Running,
    Stalled(String),
}

/// What went wrong in a source.
#[derive(Debug, PartialEq, Eq)]
pub enum SourceErrorDetails {
    Initialization(String),
    FileIO(String),
    Persistence(String),
    Other(String),
}

/// A structured error for readers of sources.
#[derive(Debug, PartialEq, Eq)]
pub struct SourceReaderError {
    pub inner: SourceErrorDetails,
}

impl SourceReaderError {
    /// This is an unclassified but definite error, by what it says. This is typically only
    /// appropriate when the error is permanently fatal for the source... some critical invariant
    /// is violated or data is corrupted, for example.
    pub fn other_definite(e: &str) -> (err: SourceReaderError)
        ensures
            err.inner matches SourceErrorDetails::Other(message) && message@ == e@,
    {
        SourceReaderError { inner: SourceErrorDetails::Other(e.to_owned()) }
    }
}

/// A wrapper around [`SourceMessage`] that allows readers of sources to communicate additional
/// "maintenance" messages.
#[derive(Debug)]
pub enum SourceMessageType<Key, Value, D> {
    /// Communicate that this [`SourceMessage`] is the final message its its offset.
    Finalized(Result<SourceMessage<Key, Value>, SourceReaderError>, (PartitionId, MzOffset), D),
    /// Communicate that more [`SourceMessage`]'s will come later at the same offset as this one.
    InProgress(Result<SourceMessage<Key, Value>, SourceReaderError>, (PartitionId, MzOffset), D),
    /// Information about the source status
    SourceStatus(HealthStatus),
    /// Signals that this reader will never emit messages/updates for a given partition anymore.
    /// This is similar enough to a timely operator dropping a capability, hence the naming.
    ///
    /// We need these to compute a "global" source upper, when determining completeness of a
    /// timestamp.
    DropPartitionCapabilities(Vec<PartitionId>),
}

/// What a reader has to say when it is asked for a message.
pub enum NextMessage<Key, Value, D> {
    Ready(SourceMessageType<Key, Value, D>),
    Pending,
    TransientDelay,
    Finished,
}

/// A span of time: seconds, and nanoseconds.
#[derive(Debug, Clone, Copy, PartialEq, Eq, Structural)]
pub struct Delay {
    pub secs: u64,
    pub nanos: u32,
}

/// One millisecond.
pub open spec fn one_milli() -> Delay {
    Delay { secs: 0, nanos: 1_000_000 }
}

/// What is done after a reader was asked for a message.
pub enum NextStep<Key, Value, D> {
    /// The message is handed on.
    Emit(SourceMessageType<Key, Value, D>),
    /// The reader is asked again, after a while.
    Sleep(Delay),
    /// There are no more messages.
    Stop,
}

/// What is done after a reader was asked for a message: a hiccup is waited out for a millisecond,
/// and where there is no message, it is asked again after the granularity of timestamps.
pub open spec fn step_of<Key, Value, D>(
    reply: NextMessage<Key, Value, D>,
    timestamp_granularity: Delay,
) -> NextStep<Key, Value, D> {
    match reply {
        NextMessage::Ready(msg) => NextStep::Emit(msg),
        NextMessage::TransientDelay => NextStep::Sleep(one_milli()),
        NextMessage::Pending => NextStep::Sleep(timestamp_granularity),
        NextMessage::Finished => NextStep::Stop,
    }
}

/// Decides what is done after a reader was asked for a message.
pub fn next_step<Key, Value, D>(
    reply: NextMessage<Key, Value, D>,
    timestamp_granularity: Delay,
) -> (step: NextStep<Key, Value, D>)
    ensures
        step == step_of(reply, timestamp_granularity),
{
    match reply {
        NextMessage::Ready(msg) => NextStep::Emit(msg),
        // There was a temporary hiccup in getting messages, check again asap.
        NextMessage::TransientDelay => NextStep::Sleep(Delay { secs: 0, nanos: 1_000_000 }),
        // There were no new messages, check again after a delay
        NextMessage::Pending => NextStep::Sleep(timestamp_granularity),
        NextMessage::Finished => NextStep::Stop,
    }
}

/// The messages that come of asking a reader again and again, by what it has to say each time.
pub open spec fn emitted<Key, Value, D>(
    replies: Seq<NextMessage<Key, Value, D>>,
    timestamp_granularity: Delay,
) -> Seq<SourceMessageType<Key, Value, D>>
    decreases replies.len(),
{
    if replies.len() == 0 {
        Seq::empty()
    } else {
        match step_of(replies[0], timestamp_granularity) {
            NextStep::Emit(msg) => seq![msg] + emitted(replies.skip(1), timestamp_granularity),
            NextStep::Sleep(_) => emitted(replies.skip(1), timestamp_granularity),
            NextStep::Stop => Seq::empty(),
        }
    }
}

/// Where a reader has no message, nothing is lost and nothing is added.
pub proof fn lemma_delay_is_skipped<Key, Value, D>(
    before: Seq<NextMessage<Key, Value, D>>,
    delay: NextMessage<Key, Value, D>,
    after: Seq<NextMessage<Key, Value, D>>,
    timestamp_granularity: Delay,
)
    requires
        delay is Pending || delay is TransientDelay,
    ensures
        emitted(before + seq![delay] + after, timestamp_granularity) == emitted(
            before + after,
            timestamp_granularity,
        ),
    decreases before.len(),
{
    let with = before + seq![delay] + after;
    if before.len() == 0 {
        assert(with.skip(1) =~= before + after);
    } else {
        lemma_delay_is_skipped(before.skip(1), delay, after, timestamp_granularity);
        assert(with.skip(1) =~= before.skip(1) + seq![delay] + after);
        assert((before + after).skip(1) =~= before.skip(1) + after);
    }
}

/// A reader that has finished is not asked again: what it would have to say is not heard.
pub proof fn lemma_finished_is_last<Key, Value, D>(
    before: Seq<NextMessage<Key, Value, D>>,
    after: Seq<NextMessage<Key, Value, D>>,
    timestamp_granularity: Delay,
)
    ensures
        emitted(
            before + seq![NextMessage::<Key, Value, D>::Finished] + after,
            timestamp_granularity,
        ) == emitted(before, timestamp_granularity),
    decreases before.len(),
{
    let with = before + seq![NextMessage::<Key, Value, D>::Finished] + after;
    if before.len() > 0 {
        lemma_finished_is_last(before.skip(1), after, timestamp_granularity);
        assert(with.skip(1) =~= before.skip(1) + seq![NextMessage::<Key, Value, D>::Finished]
            + after);
    }
}

/// A record produced by a source
#[derive(Debug)]
pub struct SourceOutput<K, V, D> {
    /// The record's key (or some empty/default value for sources without the concept of key)
    pub key: K,
    /// The record's value
    pub value: V,
    /// The position in the partition described by the `partition` in the source (e.g., Kafka
    /// offset, file line number, monotonic increasing number, etc.)
    pub position: MzOffset,
    /// The time the record was created in the upstream system, as milliseconds since the epoch
    pub upstream_time_millis: Option<i64>,
    /// The partition of this message, present iff the partition comes from Kafka
    pub partition: PartitionId,
    /// Headers, if the source is configured to pass them along. If it is, but there are none, it
    /// passes `Some([])`
    pub headers: Option<Headers>,
    /// Indicator for what the differential `diff` value for this decoded message should be
    pub diff: D,
}

impl<K, V, D> SourceOutput<K, V, D> {
    /// Build a new SourceOutput
    pub fn new(
        key: K,
        value: V,
        position: MzOffset,
        upstream_time_millis: Option<i64>,
        partition: PartitionId,
        headers: Option<Headers>,
        diff: D,
    ) -> (output: SourceOutput<K, V, D>)
        ensures
            output.key == key,
            output.value == value,
            output.position == position,
            output.upstream_time_millis == upstream_time_millis,
            output.partition == partition,
            output.headers == headers,
            output.diff == diff,
    {
        SourceOutput { key, value, position, upstream_time_millis, partition, headers, diff }
    }

    /// The integer by which records are spread over workers: a hash of the position. Values can be
    /// just as skewed as keys, whereas positions are generally known to be unique or close to
    /// unique in a source. It depends on the position, and on the order in which the machine keeps
    /// the bytes of a number, alone.
    pub fn position_hash(&self) -> (hash: u64)
        ensures
            is_number_hash(self.position.offset, hash),
    {
        hash_number(self.position.offset)
    }

    /// The integers by which records are spread over workers. Records at the same position go to
    /// the same worker, whatever else they hold.
    pub fn position_hashes(outputs: &Vec<SourceOutput<K, V, D>>) -> (hashes: Vec<u64>)
        ensures
            hashes@.len() == outputs@.len(),
            forall|i: int|
                0 <= i < outputs@.len() ==> is_number_hash(
                    (#[trigger] outputs@[i]).position.offset,
                    hashes@[i],
                ),
            forall|i: int, j: int|
                0 <= i < outputs@.len() && 0 <= j < outputs@.len() && (
                #[trigger] outputs@[i]).position == (#[trigger] outputs@[j]).position ==> hashes@[i]
                    == hashes@[j],
    {
        let mut positions: Vec<u64> = Vec::new();
        let mut i: usize = 0;
        while i < outputs.len()
            invariant
                i <= outputs.len(),
                positions@.len() == i,
                forall|j: int|
                    0 <= j < i ==> #[trigger] positions@[j] == outputs@[j].position.offset,
            decreases outputs.len() - i,
        {
            positions.push(outputs[i].position.offset);
            i = i + 1;
        }
        let hashes: Vec<u64> = hash_numbers(positions.as_slice());
        assert forall|i: int, j: int|
            0 <= i < outputs@.len() && 0 <= j < outputs@.len() && (
            #[trigger] outputs@[i]).position == (
            #[trigger] outputs@[j]).position implies hashes@[i] == hashes@[j] by {
            assert(positions@[i] == positions@[j]);
        }
        assert forall|i: int| 0 <= i < outputs@.len() implies is_number_hash(
            (#[trigger] outputs@[i]).position.offset,
            hashes@[i],
        ) by {
            assert(positions@[i] == outputs@[i].position.offset);
        }
        hashes
    }
}

/// Types that implement this trait expose a length function
pub trait MaybeLength {
    /// The size of the object, if it is known.
    spec fn length(&self) -> Option<usize>;

    /// Returns the size of the object
    fn len(&self) -> (len: Option<usize>)
        ensures
            len == self.length(),
    ;
}

impl MaybeLength for () {
    open spec fn length(&self) -> Option<usize> {
        None
    }

    fn len(&self) -> Option<usize> {
        None
    }
}

impl MaybeLength for Vec<u8> {
    open spec fn length(&self) -> Option<usize> {
        Some(self@.len() as usize)
    }

    fn len(&self) -> Option<usize> {
        Some(self.len())
    }
}

impl MaybeLength for Row {
    open spec fn length(&self) -> Option<usize> {
        Some(self@.data.len() as usize)
    }

    fn len(&self) -> Option<usize> {
        Some(self.data.len())
    }
}

/// An Avro value, in its encoded form.
#[derive(Debug, PartialEq, Eq)]
pub struct Value {
    pub data: Vec<u8>,
}

impl MaybeLength for Value {
    open spec fn length(&self) -> Option<usize> {
        None
    }

    // Not possible to compute a size in bytes without recursively traversing the entire tree.
    fn len(&self) -> Option<usize> {
        None
    }
}

impl<T: MaybeLength> MaybeLength for Option<T> {
    open spec fn length(&self) -> Option<usize> {
        match self {
            Some(value) => value.length(),
            None => None,
        }
    }

    fn len(&self) -> Option<usize> {
        match self {
            Some(value) => value.len(),
            None => None,
        }
    }
}

} // verus!
