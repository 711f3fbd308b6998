//! How the keys, values, times and diffs of a shard are encoded.

use vstd::prelude::*;

use crate::text::{decimal, u64_text};

verus! {

/// Values that can be stored.
pub trait Codec: View + Sized {
    /// The name of the encoding.
    spec fn name() -> Seq<char>;

    /// A value as bytes.
    spec fn bytes(value: Self::V) -> Seq<u8>;

    /// The value that bytes stand for, or what is wrong with them.
    spec fn value_of(buf: Seq<u8>) -> Result<Self::V, Seq<char>>;

    /// The name of the encoding. A shard that was written under one name is not read under another.
    fn codec_name() -> (name: String)
        ensures
            name@ == Self::name(),
    ;

    /// Appends an encoded value.
    fn encode(&self, buf: &mut Vec<u8>)
        ensures
            final(buf)@ == old(buf)@ + Self::bytes(self@),
    ;

    /// Decodes a value.
    fn decode(buf: &[u8]) -> (r: Result<Self, String>)
        ensures
            match r {
                Ok(value) => Self::value_of(buf@) == Ok::<Self::V, Seq<char>>(value@),
                Err(message) => Self::value_of(buf@) == Err::<Self::V, Seq<char>>(message@),
            },
    ;
}

/// Values that are stored in eight bytes.
pub trait Codec64: Sized {
    /// The name of the encoding.
    spec fn name() -> Seq<char>;

    /// The name of the encoding. A shard that was written under one name is not read under another.
    fn codec_name() -> (name: String)
        ensures
            name@ == Self::name(),
    ;
}

impl Codec for () {
    open spec fn name() -> Seq<char> {
        "()"@
    }

    open spec fn bytes(value: ()) -> Seq<u8> {
        Seq::empty()
    }

    open spec fn value_of(buf: Seq<u8>) -> Result<(), Seq<char>> {
        if buf.len() == 0 {
            Ok(())
        } else {
            Err("decode expected empty buf got "@ + decimal(buf.len()) + " bytes"@)
        }
    }

    fn codec_name() -> String {
        "()".to_owned()
    }

    fn encode(&self, buf: &mut Vec<u8>) {
        assert(buf@ =~= old(buf)@ + Seq::<u8>::empty());
    }

    fn decode(buf: &[u8]) -> Result<(), String> {
        if buf.len() == 0 {
            Ok(())
        } else {
            let mut message: String = "decode expected empty buf got ".to_owned();
            message.append(u64_text(buf.len() as u64).as_str());
            message.append(" bytes");
            Err(message)
        }
    }
}

impl Codec64 for u64 {
    open spec fn name() -> Seq<char> {
        "u64"@
    }

    fn codec_name() -> String {
        "u64".to_owned()
    }
}

impl Codec64 for i64 {
    open spec fn name() -> Seq<char> {
        "i64"@
    }

    fn codec_name() -> String {
        "i64".to_owned()
    }
}

} // verus!
