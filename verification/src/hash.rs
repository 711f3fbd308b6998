//! How data is spread over workers.

use differential_dataflow::Hashable;
use vstd::prelude::*;

verus! {

/// The integer that `differential_dataflow` derives from a text to spread texts over workers: the
/// FNV hash of its UTF-8 bytes and a closing byte.
pub uninterp spec fn text_hash(text: Seq<char>) -> u64;

/// Calls `differential_dataflow::Hashable::hashed` on a text. The integer depends on the text
/// alone.
#[verifier::external_body]
pub(crate) fn hash_text(text: &str) -> (hash: u64)
    ensures
        hash == text_hash(text@),
{
    text.hashed()
}

/// The integer that `differential_dataflow` derives from a number to spread numbers over workers,
/// on a machine that keeps the least significant byte of a number first, or last: the FNV hash of
/// its bytes.
pub uninterp spec fn number_hash(number: u64, least_first: bool) -> u64;

/// Whether an integer is the one that is derived from a number on some machine.
pub open spec fn is_number_hash(number: u64, hash: u64) -> bool {
    hash == number_hash(number, true) || hash == number_hash(number, false)
}

/// Calls `differential_dataflow::Hashable::hashed` on each of some numbers. The integers depend on
/// the numbers, and on the order in which the machine keeps the bytes of a number, alone. Which
/// order that is, is not said, but it is the same for all of them.
#[verifier::external_body]
pub(crate) fn hash_numbers(numbers: &[u64]) -> (hashes: Vec<u64>)
    ensures
        hashes@.len() == numbers@.len(),
        (forall|i: int|
            0 <= i < hashes@.len() ==> #[trigger] hashes@[i] == number_hash(numbers@[i], true)) || (
        forall|i: int|
            0 <= i < hashes@.len() ==> #[trigger] hashes@[i] == number_hash(numbers@[i], false)),
{
    numbers.iter().map(|number| number.hashed()).collect()
}

/// The integer by which a number is spread over workers.
pub fn hash_number(number: u64) -> (hash: u64)
    ensures
        is_number_hash(number, hash),
{
    let numbers: Vec<u64> = vec![number];
    let hashes: Vec<u64> = hash_numbers(numbers.as_slice());
    assert(numbers@[0] == number);
    hashes[0]
}

/// Calls `differential_dataflow::Hashable::hashed` on a value. Nothing is said of the integer: it
/// depends on the value, but also on the order in which the machine keeps the bytes of a number.
#[verifier::external_body]
pub(crate) fn hash_value<T: std::hash::Hash>(value: &T) -> (hash: u64) {
    value.hashed()
}

} // verus!
