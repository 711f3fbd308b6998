//! Bytes as text, in base 64.

use vstd::prelude::*;
use vstd::utf8::{decode_utf8, encode_utf8, is_ascii_chars, valid_utf8};

use crate::proto::message::from_utf8;

verus! {

/// A digit in base 64, as the code of its character.
pub open spec fn base64_code(d: nat) -> u8 {
    if d < 26 {
        (d + 65) as u8
    } else if d < 52 {
        (d + 71) as u8
    } else if d < 62 {
        (d - 4) as u8
    } else if d == 62 {
        43
    } else {
        47
    }
}

/// Bytes in base 64, as the codes of characters: four for three bytes, the last four filled up
/// with `=` where there are fewer than three bytes left.
pub open spec fn base64_codes(bytes: Seq<u8>) -> Seq<u8>
    decreases bytes.len(),
{
    if bytes.len() == 0 {
        Seq::empty()
    } else if bytes.len() == 1 {
        let a = bytes[0] as nat;
        seq![base64_code(a / 4), base64_code(a % 4 * 16), 61, 61]
    } else if bytes.len() == 2 {
        let a = bytes[0] as nat;
        let b = bytes[1] as nat;
        seq![
            base64_code(a / 4),
            base64_code(a % 4 * 16 + b / 16),
            base64_code(b % 16 * 4),
            61,
        ]
    } else {
        let a = bytes[0] as nat;
        let b = bytes[1] as nat;
        let c = bytes[2] as nat;
        seq![
            base64_code(a / 4),
            base64_code(a % 4 * 16 + b / 16),
            base64_code(b % 16 * 4 + c / 64),
            base64_code(c % 64),
        ] + base64_codes(bytes.skip(3))
    }
}

/// Bytes in base 64.
pub open spec fn base64(bytes: Seq<u8>) -> Seq<char> {
    let codes = base64_codes(bytes);
    Seq::new(codes.len(), |i: int| codes[i] as char)
}

/// The bytes that a text stands for in base 64, if it does.
pub open spec fn base64_bytes(text: Seq<char>) -> Option<Seq<u8>> {
    if exists|bytes: Seq<u8>| #[trigger] base64(bytes) == text {
        Some(choose|bytes: Seq<u8>| #[trigger] base64(bytes) == text)
    } else {
        None
    }
}

/// The digit that a code stands for, or something else.
spec fn base64_digit(code: u8) -> nat {
    if 65 <= code < 91 {
        (code - 65) as nat
    } else if 97 <= code < 123 {
        (code - 71) as nat
    } else if 48 <= code < 58 {
        (code + 4) as nat
    } else if code == 43 {
        62
    } else {
        63
    }
}

/// The bytes that codes in base 64 are made from. Of other codes nothing is said.
spec fn unbase64(codes: Seq<u8>) -> Seq<u8>
    decreases codes.len(),
{
    if codes.len() < 4 {
        Seq::empty()
    } else {
        let d0 = base64_digit(codes[0]);
        let d1 = base64_digit(codes[1]);
        let d2 = base64_digit(codes[2]);
        let d3 = base64_digit(codes[3]);
        let a = (d0 * 4 + d1 / 16) as u8;
        let b = (d1 % 16 * 16 + d2 / 4) as u8;
        let c = (d2 % 4 * 64 + d3) as u8;
        if codes[2] == 61 {
            seq![a]
        } else if codes[3] == 61 {
            seq![a, b]
        } else {
            seq![a, b, c] + unbase64(codes.skip(4))
        }
    }
}

proof fn lemma_unbase64(bytes: Seq<u8>)
    ensures
        unbase64(base64_codes(bytes)) == bytes,
        forall|i: int|
            0 <= i < base64_codes(bytes).len() ==> (#[trigger] base64_codes(bytes)[i]) < 128,
    decreases bytes.len(),
{
    let codes = base64_codes(bytes);
    if bytes.len() == 0 {
        assert(bytes =~= Seq::empty());
    } else if bytes.len() == 1 {
        assert(unbase64(codes) =~= bytes);
    } else if bytes.len() == 2 {
        assert(unbase64(codes) =~= bytes);
    } else {
        let rest = bytes.skip(3);
        lemma_unbase64(rest);
        assert(codes.skip(4) =~= base64_codes(rest));
        assert(seq![bytes[0], bytes[1], bytes[2]] + rest =~= bytes);
        let b = bytes[1] as nat;
        let c = bytes[2] as nat;
        assert(base64_code(b % 16 * 4 + c / 64) != 61);
        assert(base64_code(c % 64) != 61);
        assert(unbase64(codes) =~= seq![bytes[0], bytes[1], bytes[2]] + unbase64(codes.skip(4)));
        assert forall|i: int| 0 <= i < codes.len() implies (#[trigger] codes[i]) < 128 by {
            if i >= 4 {
                assert(codes[i] == base64_codes(rest)[i - 4]);
            }
        }
    }
}

proof fn lemma_base64_utf8(bytes: Seq<u8>)
    ensures
        encode_utf8(base64(bytes)) == base64_codes(bytes),
        valid_utf8(base64_codes(bytes)),
        decode_utf8(base64_codes(bytes)) == base64(bytes),
{
    broadcast use vstd::utf8::encode_utf8_valid_utf8, vstd::utf8::encode_utf8_decode_utf8;

    lemma_unbase64(bytes);
    let text = base64(bytes);
    let codes = base64_codes(bytes);
    assert(is_ascii_chars(text));
    vstd::utf8::is_ascii_chars_encode_utf8(text);
    assert(encode_utf8(text) =~= codes);
}

/// What was written in base 64 is read as the same bytes.
pub proof fn lemma_base64_round_trip(bytes: Seq<u8>)
    ensures
        base64_bytes(base64(bytes)) == Some(bytes),
{
    let text = base64(bytes);
    let read = choose|read: Seq<u8>| #[trigger] base64(read) == text;
    assert(base64(read) == text);
    lemma_base64_utf8(bytes);
    lemma_base64_utf8(read);
    lemma_unbase64(bytes);
    lemma_unbase64(read);
}

fn code(d: u8) -> (c: u8)
    requires
        d < 64,
    ensures
        c == base64_code(d as nat),
{
    if d < 26 {
        d + 65
    } else if d < 52 {
        d + 71
    } else if d < 62 {
        d - 4
    } else if d == 62 {
        43
    } else {
        47
    }
}

fn digit(c: u8) -> (d: u8)
    ensures
        d == base64_digit(c),
        d < 64,
{
    if 65 <= c && c < 91 {
        c - 65
    } else if 97 <= c && c < 123 {
        c - 71
    } else if 48 <= c && c < 58 {
        c + 4
    } else if c == 43 {
        62
    } else {
        63
    }
}

fn write_codes(bytes: &Vec<u8>) -> (codes: Vec<u8>)
    ensures
        codes@ == base64_codes(bytes@),
{
    let mut codes: Vec<u8> = Vec::new();
    let mut i: usize = 0;
    assert(bytes@.skip(0) =~= bytes@);
    while bytes.len() - i >= 3
        invariant
            i <= bytes.len(),
            codes@ + base64_codes(bytes@.skip(i as int)) == base64_codes(bytes@),
        decreases bytes.len() - i,
    {
        let a: u8 = bytes[i];
        let b: u8 = bytes[i + 1];
        let c: u8 = bytes[i + 2];
        let ghost before = codes@;
        codes.push(code(a / 4));
        codes.push(code(a % 4 * 16 + b / 16));
        codes.push(code(b % 16 * 4 + c / 64));
        codes.push(code(c % 64));
        proof {
            let rest = bytes@.skip(i as int);
            assert(rest.skip(3) =~= bytes@.skip(i + 3));
            let four = codes@.skip(before.len() as int);
            assert(codes@ =~= before + four);
            assert(base64_codes(rest) =~= four + base64_codes(rest.skip(3)));
            assert(codes@ + base64_codes(rest.skip(3)) =~= before + base64_codes(rest));
        }
        i = i + 3;
    }
    let ghost rest = bytes@.skip(i as int);
    let ghost before = codes@;
    if bytes.len() - i == 1 {
        let a: u8 = bytes[i];
        codes.push(code(a / 4));
        codes.push(code(a % 4 * 16));
        codes.push(61);
        codes.push(61);
    } else if bytes.len() - i == 2 {
        let a: u8 = bytes[i];
        let b: u8 = bytes[i + 1];
        codes.push(code(a / 4));
        codes.push(code(a % 4 * 16 + b / 16));
        codes.push(code(b % 16 * 4));
        codes.push(61);
    }
    assert(codes@ =~= before + base64_codes(rest));
    codes
}

fn read_codes(codes: &[u8]) -> (bytes: Vec<u8>)
    ensures
        bytes@ == unbase64(codes@),
{
    let mut bytes: Vec<u8> = Vec::new();
    let mut i: usize = 0;
    assert(codes@.skip(0) =~= codes@);
    while codes.len() - i >= 4
        invariant
            i <= codes.len(),
            bytes@ + unbase64(codes@.skip(i as int)) == unbase64(codes@),
        decreases codes.len() - i,
    {
        let d0: u8 = digit(codes[i]);
        let d1: u8 = digit(codes[i + 1]);
        let d2: u8 = digit(codes[i + 2]);
        let d3: u8 = digit(codes[i + 3]);
        let ghost before = bytes@;
        let ghost rest = codes@.skip(i as int);
        assert(rest.skip(4) =~= codes@.skip(i + 4));
        bytes.push(d0 * 4 + d1 / 16);
        if codes[i + 2] == 61 {
            assert(bytes@ =~= before + unbase64(rest));
            return bytes;
        }
        bytes.push(d1 % 16 * 16 + d2 / 4);
        if codes[i + 3] == 61 {
            assert(bytes@ =~= before + unbase64(rest));
            return bytes;
        }
        bytes.push(d2 % 4 * 64 + d3);
        assert(bytes@ + unbase64(rest.skip(4)) =~= before + unbase64(rest));
        i = i + 4;
    }
    assert(bytes@ + Seq::<u8>::empty() =~= bytes@);
    bytes
}

/// Writes bytes in base 64.
pub fn encode_base64(bytes: &Vec<u8>) -> (text: String)
    ensures
        text@ == base64(bytes@),
{
    let codes: Vec<u8> = write_codes(bytes);
    proof {
        lemma_base64_utf8(bytes@);
    }
    match from_utf8(codes.as_slice()) {
        Some(text) => text,
        None => String::new(),
    }
}

/// Reads bytes in base 64.
pub fn decode_base64(text: &String) -> (bytes: Option<Vec<u8>>)
    ensures
        match bytes {
            Some(bytes) => base64_bytes(text@) == Some(bytes@),
            None => base64_bytes(text@) is None,
        },
{
    let bytes: Vec<u8> = read_codes(text.as_str().as_bytes());
    let again: String = encode_base64(&bytes);
    proof {
        if base64_bytes(text@) is Some {
            let read = choose|read: Seq<u8>| #[trigger] base64(read) == text@;
            lemma_base64_utf8(read);
            lemma_unbase64(read);
        }
        if again@ == text@ {
            lemma_base64_round_trip(bytes@);
        }
    }
    if again == *text {
        Some(bytes)
    } else {
        None
    }
}

} // verus!
