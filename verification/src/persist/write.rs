//! Batches on their way from one process to another.

use vstd::prelude::*;

use crate::persist::batch::{
    hollow_batch_of, hollow_batch_proto, hollow_batch_valid, lemma_hollow_batch_round_trip,
    HollowBatch, HollowBatchView,
};
use crate::persist::error::{error_text, RustType};
use crate::persist::ids::ShardId;
use crate::persist::proto::batch::ProtoHollowBatch;
use crate::proto::message::{decode, decoded, encode_to_vec, encoded, lemma_round_trip};
use crate::proto::wire::decode_error_text;

verus! {

/// A batch, and the shard that it was written for.
#[derive(Debug, PartialEq, Eq)]
#[verifier::reject_recursive_types(T)]
pub struct WriterEnrichedHollowBatch<T> {
    pub shard_id: ShardId,
    pub batch: HollowBatch<T>,
}

/// A batch in a form that can be sent, and the shard that it was written for.
#[derive(Debug, PartialEq, Eq)]
pub struct SerdeWriterEnrichedHollowBatch {
    pub shard_id: ShardId,
    pub batch: Vec<u8>,
}

/// The batch that bytes stand for, or what is wrong with them.
pub open spec fn sent_batch(bytes: Seq<u8>) -> Result<HollowBatchView, Seq<char>> {
    match decoded::<ProtoHollowBatch>(bytes) {
        Some(proto) => match hollow_batch_of(proto) {
            Ok(batch) => Ok(batch),
            Err(err) => Err(error_text(err)),
        },
        None => Err(decode_error_text()),
    }
}

impl SerdeWriterEnrichedHollowBatch {
    /// Puts a batch in a form that can be sent. The same batch is got back from it.
    pub fn from(x: WriterEnrichedHollowBatch<u64>) -> (sent: SerdeWriterEnrichedHollowBatch)
        ensures
            sent.shard_id == x.shard_id,
            sent.batch@ == encoded::<ProtoHollowBatch>(hollow_batch_proto(x.batch@)),
            hollow_batch_valid(x.batch@) ==> sent_batch(sent.batch@) == Ok::<
                HollowBatchView,
                Seq<char>,
            >(x.batch@),
    {
        let proto: ProtoHollowBatch = x.batch.into_proto();
        let batch: Vec<u8> = encode_to_vec(&proto);
        proof {
            assert(batch@.len() == batch.len());
            lemma_round_trip::<ProtoHollowBatch>(proto@);
            if hollow_batch_valid(x.batch@) {
                lemma_hollow_batch_round_trip(x.batch@);
            }
        }
        SerdeWriterEnrichedHollowBatch { shard_id: x.shard_id, batch }
    }
}

impl WriterEnrichedHollowBatch<u64> {
    /// Gets a batch back from the form in which it was sent. An error says what is wrong with it.
    pub fn from(x: SerdeWriterEnrichedHollowBatch) -> (r: Result<
        WriterEnrichedHollowBatch<u64>,
        String,
    >)
        ensures
            match r {
                Ok(got) => got.shard_id == x.shard_id && sent_batch(x.batch@) == Ok::<
                    HollowBatchView,
                    Seq<char>,
                >(got.batch@),
                Err(message) => sent_batch(x.batch@) == Err::<HollowBatchView, Seq<char>>(
                    message@,
                ),
            },
    {
        let proto: ProtoHollowBatch = match decode(x.batch.as_slice()) {
            Ok(proto) => proto,
            Err(err) => {
                return Err(err.text());
            },
        };
        match <HollowBatch<u64>>::from_proto(proto) {
            Ok(batch) => Ok(WriterEnrichedHollowBatch { shard_id: x.shard_id, batch }),
            Err(err) => Err(err.text()),
        }
    }
}

} // verus!
