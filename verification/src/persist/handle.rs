//! The readers and writers of a shard.

use timely::progress::Antichain;
use vstd::prelude::*;

use crate::bytes::{le_bytes, le_value, lemma_le_bytes, lemma_le_value_bound, read_le, write_le};
use crate::persist::antichain::{
    antichain_elements, antichain_from_elem, antichain_if_some, antichain_of, antichain_proto,
    lemma_antichain_round_trip,
};
use crate::persist::batch::SeqNo;
use crate::persist::error::{
    result_view, RustType, TryFromProtoError, TryFromProtoErrorView,
};
use crate::persist::ids::{id_of, id_text, sentinel_bytes, IdempotencyToken};
use crate::persist::proto::handle::{
    ProtoCriticalReaderState, ProtoCriticalReaderStateView, ProtoHandleDebugState,
    ProtoHandleDebugStateView, ProtoLeasedReaderState, ProtoLeasedReaderStateView,
    ProtoWriterState, ProtoWriterStateView,
};
use crate::text::is_empty_text;

verus! {

/// How a shard is used.
pub struct PersistConfig {}

impl PersistConfig {
    /// How long a reader may go without renewing its lease, in milliseconds: fifteen minutes.
    pub const DEFAULT_READ_LEASE_DURATION_MS: u64 = 900_000;
}

/// Who holds a handle, for debugging.
#[derive(Debug, PartialEq, Eq)]
pub struct HandleDebugState {
    /// Where the handle is held.
    pub hostname: String,
    /// What the handle is for.
    pub purpose: String,
}

/// The contents of a [`HandleDebugState`].
#[verifier::ext_equal]
pub struct HandleDebugStateView {
    pub hostname: Seq<char>,
    pub purpose: Seq<char>,
}

impl View for HandleDebugState {
    type V = HandleDebugStateView;

    open spec fn view(&self) -> HandleDebugStateView {
        HandleDebugStateView { hostname: self.hostname@, purpose: self.purpose@ }
    }
}

/// The message that who holds a handle is written as.
pub open spec fn debug_proto(debug: HandleDebugStateView) -> ProtoHandleDebugStateView {
    ProtoHandleDebugStateView { hostname: debug.hostname, purpose: debug.purpose }
}

/// Who holds a handle, by a message.
pub open spec fn debug_of(proto: ProtoHandleDebugStateView) -> HandleDebugStateView {
    HandleDebugStateView { hostname: proto.hostname, purpose: proto.purpose }
}

/// Who holds a handle, by a message that may not say so.
pub open spec fn debug_if_some(proto: Option<ProtoHandleDebugStateView>) -> HandleDebugStateView {
    match proto {
        Some(proto) => debug_of(proto),
        None => HandleDebugStateView { hostname: Seq::empty(), purpose: Seq::empty() },
    }
}

impl RustType<ProtoHandleDebugState> for HandleDebugState {
    fn into_proto(&self) -> (proto: ProtoHandleDebugState)
        ensures
            proto@ == debug_proto(self@),
    {
        ProtoHandleDebugState { hostname: self.hostname.clone(), purpose: self.purpose.clone() }
    }

    fn from_proto(proto: ProtoHandleDebugState) -> (r: Result<HandleDebugState, TryFromProtoError>)
        ensures
            r matches Ok(debug) && debug@ == debug_of(proto@),
    {
        Ok(HandleDebugState { hostname: proto.hostname, purpose: proto.purpose })
    }
}

fn read_debug(proto: Option<ProtoHandleDebugState>) -> (debug: HandleDebugState)
    ensures
        debug@ == debug_if_some(
            match proto {
                Some(proto) => Some(proto@),
                None => None,
            },
        ),
{
    match proto {
        Some(proto) => HandleDebugState { hostname: proto.hostname, purpose: proto.purpose },
        None => HandleDebugState { hostname: String::new(), purpose: String::new() },
    }
}

/// A reader that has to renew its lease.
#[derive(Debug, PartialEq, Eq)]
#[verifier::reject_recursive_types(T)]
pub struct LeasedReaderState<T> {
    /// The state that the reader holds on to.
    pub seqno: SeqNo,
    /// The frontier that the reader holds times back to.
    pub since: Antichain<T>,
    /// When the reader renewed its lease last.
    pub last_heartbeat_timestamp_ms: u64,
    /// How long the reader may go without renewing its lease.
    pub lease_duration_ms: u64,
    /// Who holds the reader.
    pub debug: HandleDebugState,
}

/// The contents of a [`LeasedReaderState`].
#[verifier::ext_equal]
pub struct LeasedReaderStateView {
    pub seqno: u64,
    pub since: Seq<u64>,
    pub last_heartbeat_timestamp_ms: u64,
    pub lease_duration_ms: u64,
    pub debug: HandleDebugStateView,
}

impl View for LeasedReaderState<u64> {
    type V = LeasedReaderStateView;

    open spec fn view(&self) -> LeasedReaderStateView {
        LeasedReaderStateView {
            seqno: self.seqno.0,
            since: antichain_elements(self.since),
            last_heartbeat_timestamp_ms: self.last_heartbeat_timestamp_ms,
            lease_duration_ms: self.lease_duration_ms,
            debug: self.debug@,
        }
    }
}

/// The message that a reader is written as.
pub open spec fn leased_reader_proto(reader: LeasedReaderStateView) -> ProtoLeasedReaderStateView {
    ProtoLeasedReaderStateView {
        seqno: reader.seqno,
        since: Some(antichain_proto(reader.since)),
        last_heartbeat_timestamp_ms: reader.last_heartbeat_timestamp_ms,
        lease_duration_ms: reader.lease_duration_ms,
        debug: Some(debug_proto(reader.debug)),
    }
}

/// The reader that a message stands for. A message that was written before readers had a lease, or
/// before they said who holds them, gets a default.
pub open spec fn leased_reader_of(proto: ProtoLeasedReaderStateView) -> Result<
    LeasedReaderStateView,
    TryFromProtoErrorView,
> {
    match proto.since {
        Some(since) => Ok(
            LeasedReaderStateView {
                seqno: proto.seqno,
                since: antichain_of(since),
                last_heartbeat_timestamp_ms: proto.last_heartbeat_timestamp_ms,
                lease_duration_ms: if proto.lease_duration_ms == 0 {
                    PersistConfig::DEFAULT_READ_LEASE_DURATION_MS
                } else {
                    proto.lease_duration_ms
                },
                debug: debug_if_some(proto.debug),
            },
        ),
        None => Err(TryFromProtoErrorView::MissingField("ProtoLeasedReaderState::since"@)),
    }
}

/// Whether a reader can be read again: its frontier is one of a total order, and its lease lasts.
pub open spec fn leased_reader_valid(reader: LeasedReaderStateView) -> bool {
    reader.since.len() <= 1 && reader.lease_duration_ms != 0
}

/// A reader is read as it was written.
pub proof fn lemma_leased_reader_round_trip(reader: LeasedReaderStateView)
    requires
        leased_reader_valid(reader),
    ensures
        leased_reader_of(leased_reader_proto(reader)) == Ok::<
            LeasedReaderStateView,
            TryFromProtoErrorView,
        >(reader),
{
    lemma_antichain_round_trip(reader.since);
}

impl RustType<ProtoLeasedReaderState> for LeasedReaderState<u64> {
    fn into_proto(&self) -> (proto: ProtoLeasedReaderState)
        ensures
            proto@ == leased_reader_proto(self@),
    {
        ProtoLeasedReaderState {
            seqno: self.seqno.into_proto(),
            since: Some(self.since.into_proto()),
            last_heartbeat_timestamp_ms: self.last_heartbeat_timestamp_ms,
            lease_duration_ms: self.lease_duration_ms,
            debug: Some(self.debug.into_proto()),
        }
    }

    fn from_proto(proto: ProtoLeasedReaderState) -> (r: Result<
        LeasedReaderState<u64>,
        TryFromProtoError,
    >)
        ensures
            result_view(r) == leased_reader_of(proto@),
    {
        let mut lease_duration_ms: u64 = proto.lease_duration_ms;
        // A reader that was written before readers had a lease gets the default one.
        if lease_duration_ms == 0 {
            lease_duration_ms = PersistConfig::DEFAULT_READ_LEASE_DURATION_MS;
        }
        let debug: HandleDebugState = read_debug(proto.debug);
        match antichain_if_some(proto.since, "ProtoLeasedReaderState::since") {
            Ok(since) => Ok(
                LeasedReaderState {
                    seqno: SeqNo(proto.seqno),
                    since,
                    last_heartbeat_timestamp_ms: proto.last_heartbeat_timestamp_ms,
                    lease_duration_ms,
                    debug,
                },
            ),
            Err(err) => Err(err),
        }
    }
}

/// What the holder of a critical reader keeps with it.
#[derive(Debug, Clone, Copy, PartialEq, Eq)]
pub struct OpaqueState(pub [u8; 8]);

/// A reader that holds back compaction until it says otherwise.
#[derive(Debug, PartialEq, Eq)]
#[verifier::reject_recursive_types(T)]
pub struct CriticalReaderState<T> {
    /// The frontier that the reader holds times back to.
    pub since: Antichain<T>,
    /// What the holder keeps with the reader.
    pub opaque: OpaqueState,
    /// How the holder encodes what it keeps with the reader.
    pub opaque_codec: String,
    /// Who holds the reader.
    pub debug: HandleDebugState,
}

/// The contents of a [`CriticalReaderState`].
#[verifier::ext_equal]
pub struct CriticalReaderStateView {
    pub since: Seq<u64>,
    pub opaque: Seq<u8>,
    pub opaque_codec: Seq<char>,
    pub debug: HandleDebugStateView,
}

impl View for CriticalReaderState<u64> {
    type V = CriticalReaderStateView;

    open spec fn view(&self) -> CriticalReaderStateView {
        CriticalReaderStateView {
            since: antichain_elements(self.since),
            opaque: self.opaque.0@,
            opaque_codec: self.opaque_codec@,
            debug: self.debug@,
        }
    }
}

/// The message that a critical reader is written as. What its holder keeps with it is a signed
/// number, the least significant byte first.
pub open spec fn critical_reader_proto(
    reader: CriticalReaderStateView,
) -> ProtoCriticalReaderStateView {
    ProtoCriticalReaderStateView {
        since: Some(antichain_proto(reader.since)),
        opaque: (le_value(reader.opaque) as u64) as i64,
        opaque_codec: reader.opaque_codec,
        debug: Some(debug_proto(reader.debug)),
    }
}

/// The critical reader that a message stands for.
pub open spec fn critical_reader_of(proto: ProtoCriticalReaderStateView) -> Result<
    CriticalReaderStateView,
    TryFromProtoErrorView,
> {
    match proto.since {
        Some(since) => Ok(
            CriticalReaderStateView {
                since: antichain_of(since),
                opaque: le_bytes(proto.opaque as u64 as nat, 8),
                opaque_codec: proto.opaque_codec,
                debug: debug_if_some(proto.debug),
            },
        ),
        None => Err(TryFromProtoErrorView::MissingField("ProtoCriticalReaderState::since"@)),
    }
}

/// Whether a critical reader can be read again: its frontier is one of a total order.
pub open spec fn critical_reader_valid(reader: CriticalReaderStateView) -> bool {
    reader.since.len() <= 1 && reader.opaque.len() == 8
}

/// A critical reader is read as it was written.
pub proof fn lemma_critical_reader_round_trip(reader: CriticalReaderStateView)
    requires
        critical_reader_valid(reader),
    ensures
        critical_reader_of(critical_reader_proto(reader)) == Ok::<
            CriticalReaderStateView,
            TryFromProtoErrorView,
        >(reader),
{
    lemma_antichain_round_trip(reader.since);
    lemma_le_bytes(reader.opaque);
    lemma_le_value_bound(reader.opaque);
    let n = le_value(reader.opaque) as u64;
    assert((n as i64) as u64 == n) by (bit_vector);
}

impl RustType<ProtoCriticalReaderState> for CriticalReaderState<u64> {
    fn into_proto(&self) -> (proto: ProtoCriticalReaderState)
        ensures
            proto@ == critical_reader_proto(self@),
    {
        let opaque: u64 = read_le(&self.opaque.0);
        ProtoCriticalReaderState {
            since: Some(self.since.into_proto()),
            opaque: #[verifier::truncate] (opaque as i64),
            opaque_codec: self.opaque_codec.clone(),
            debug: Some(self.debug.into_proto()),
        }
    }

    fn from_proto(proto: ProtoCriticalReaderState) -> (r: Result<
        CriticalReaderState<u64>,
        TryFromProtoError,
    >)
        ensures
            result_view(r) == critical_reader_of(proto@),
    {
        let debug: HandleDebugState = read_debug(proto.debug);
        let opaque: u64 = #[verifier::truncate] (proto.opaque as u64);
        match antichain_if_some(proto.since, "ProtoCriticalReaderState::since") {
            Ok(since) => Ok(
                CriticalReaderState {
                    since,
                    opaque: OpaqueState(write_le(opaque)),
                    opaque_codec: proto.opaque_codec,
                    debug,
                },
            ),
            Err(err) => Err(err),
        }
    }
}

/// A writer.
#[derive(Debug, PartialEq, Eq)]
#[verifier::reject_recursive_types(T)]
pub struct WriterState<T> {
    /// When the writer renewed its lease last.
    pub last_heartbeat_timestamp_ms: u64,
    /// How long the writer may go without renewing its lease.
    pub lease_duration_ms: u64,
    /// The token of the last write.
    pub most_recent_write_token: IdempotencyToken,
    /// The frontier that the last write went up to.
    pub most_recent_write_upper: Antichain<T>,
    /// Who holds the writer.
    pub debug: HandleDebugState,
}

/// The contents of a [`WriterState`].
#[verifier::ext_equal]
pub struct WriterStateView {
    pub last_heartbeat_timestamp_ms: u64,
    pub lease_duration_ms: u64,
    pub most_recent_write_token: Seq<u8>,
    pub most_recent_write_upper: Seq<u64>,
    pub debug: HandleDebugStateView,
}

impl View for WriterState<u64> {
    type V = WriterStateView;

    open spec fn view(&self) -> WriterStateView {
        WriterStateView {
            last_heartbeat_timestamp_ms: self.last_heartbeat_timestamp_ms,
            lease_duration_ms: self.lease_duration_ms,
            most_recent_write_token: self.most_recent_write_token@,
            most_recent_write_upper: antichain_elements(self.most_recent_write_upper),
            debug: self.debug@,
        }
    }
}

/// The message that a writer is written as.
pub open spec fn writer_proto(writer: WriterStateView) -> ProtoWriterStateView {
    ProtoWriterStateView {
        last_heartbeat_timestamp_ms: writer.last_heartbeat_timestamp_ms,
        lease_duration_ms: writer.lease_duration_ms,
        most_recent_write_token: id_text('i', writer.most_recent_write_token),
        most_recent_write_upper: Some(antichain_proto(writer.most_recent_write_upper)),
        debug: Some(debug_proto(writer.debug)),
    }
}

/// The writer that a message stands for. A message that was written before writers had a last
/// write gets one that no write to come is taken for.
pub open spec fn writer_of(proto: ProtoWriterStateView) -> Result<
    WriterStateView,
    TryFromProtoErrorView,
> {
    let token = if proto.most_recent_write_token.len() == 0 {
        Ok(sentinel_bytes())
    } else {
        id_of('i', proto.most_recent_write_token)
    };
    match token {
        Ok(most_recent_write_token) => Ok(
            WriterStateView {
                last_heartbeat_timestamp_ms: proto.last_heartbeat_timestamp_ms,
                lease_duration_ms: proto.lease_duration_ms,
                most_recent_write_token,
                most_recent_write_upper: match proto.most_recent_write_upper {
                    Some(upper) => antichain_of(upper),
                    None => seq![0u64],
                },
                debug: debug_if_some(proto.debug),
            },
        ),
        Err(err) => Err(err),
    }
}

/// Whether a writer can be read again: its frontier is one of a total order.
pub open spec fn writer_valid(writer: WriterStateView) -> bool {
    writer.most_recent_write_upper.len() <= 1
}

impl RustType<ProtoWriterState> for WriterState<u64> {
    /// A writer is read as it was written.
    fn into_proto(&self) -> (proto: ProtoWriterState)
        ensures
            proto@ == writer_proto(self@),
            writer_valid(self@) ==> writer_of(proto@) == Ok::<
                WriterStateView,
                TryFromProtoErrorView,
            >(self@),
    {
        proof {
            if writer_valid(self@) {
                lemma_antichain_round_trip(self@.most_recent_write_upper);
            }
        }
        ProtoWriterState {
            last_heartbeat_timestamp_ms: self.last_heartbeat_timestamp_ms,
            lease_duration_ms: self.lease_duration_ms,
            most_recent_write_token: self.most_recent_write_token.into_proto(),
            most_recent_write_upper: Some(self.most_recent_write_upper.into_proto()),
            debug: Some(self.debug.into_proto()),
        }
    }

    fn from_proto(proto: ProtoWriterState) -> (r: Result<WriterState<u64>, TryFromProtoError>)
        ensures
            result_view(r) == writer_of(proto@),
    {
        // A writer that was written before writers had a last write gets values that are not going
        // to match those of a write to come by accident.
        let most_recent_write_token: IdempotencyToken = if is_empty_text(
            &proto.most_recent_write_token,
        ) {
            IdempotencyToken::sentinel()
        } else {
            match IdempotencyToken::from_proto(proto.most_recent_write_token) {
                Ok(token) => token,
                Err(err) => {
                    return Err(err);
                },
            }
        };
        let most_recent_write_upper: Antichain<u64> = match proto.most_recent_write_upper {
            Some(upper) => match <Antichain<u64>>::from_proto(upper) {
                Ok(upper) => upper,
                Err(err) => {
                    return Err(err);
                },
            },
            None => antichain_from_elem(0),
        };
        let debug: HandleDebugState = read_debug(proto.debug);
        Ok(
            WriterState {
                last_heartbeat_timestamp_ms: proto.last_heartbeat_timestamp_ms,
                lease_duration_ms: proto.lease_duration_ms,
                most_recent_write_token,
                most_recent_write_upper,
                debug,
            },
        )
    }
}

} // verus!
