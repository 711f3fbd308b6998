//! The ids of shards, readers, writers and writes.

use uuid::Uuid;
use vstd::prelude::*;

use crate::persist::error::{result_view, RustType, TryFromProtoError, TryFromProtoErrorView};

verus! {

/// A hexadecimal digit.
pub open spec fn hex_digit(d: nat) -> char {
    if d < 10 {
        (d + 48) as char
    } else {
        (d + 87) as char
    }
}

/// A byte as two hexadecimal digits.
pub open spec fn hex_byte(b: u8) -> Seq<char> {
    seq![hex_digit((b / 16) as nat), hex_digit((b % 16) as nat)]
}

/// Bytes as hexadecimal digits.
pub open spec fn hex(bytes: Seq<u8>) -> Seq<char>
    decreases bytes.len(),
{
    if bytes.len() == 0 {
        Seq::empty()
    } else {
        hex(bytes.drop_last()) + hex_byte(bytes.last())
    }
}

/// A UUID as text: its bytes as hexadecimal digits, in five groups.
pub open spec fn hyphenated(bytes: Seq<u8>) -> Seq<char> {
    hex(bytes.subrange(0, 4)) + seq!['-'] + hex(bytes.subrange(4, 6)) + seq!['-'] + hex(
        bytes.subrange(6, 8),
    ) + seq!['-'] + hex(bytes.subrange(8, 10)) + seq!['-'] + hex(bytes.subrange(10, 16))
}

/// What `uuid` reads a text as: the bytes of a UUID, or the error in words.
pub uninterp spec fn uuid_parsed(text: Seq<char>) -> Result<Seq<u8>, Seq<char>>;

/// Whether a text was read as the given UUID.
pub open spec fn is_uuid(parsed: Result<Seq<u8>, Seq<char>>, bytes: Seq<u8>) -> bool {
    parsed matches Ok(read) && read == bytes
}

/// Calls `uuid::Uuid::parse_str`. What it returns depends on the text alone.
#[verifier::external_body]
fn parse_uuid(text: &str) -> (r: Result<[u8; 16], String>)
    ensures
        match r {
            Ok(bytes) => uuid_parsed(text@) == Ok::<Seq<u8>, Seq<char>>(bytes@),
            Err(message) => uuid_parsed(text@) == Err::<Seq<u8>, Seq<char>>(message@),
        },
{
    match Uuid::parse_str(text) {
        Ok(uuid) => Ok(*uuid.as_bytes()),
        Err(err) => Err(err.to_string()),
    }
}

/// Calls the `Display` implementation of `uuid::Uuid`, which writes the hyphenated form with small
/// letters. `uuid` reads that form as the same UUID.
#[verifier::external_body]
fn write_uuid(bytes: &[u8; 16]) -> (text: String)
    ensures
        text@ == hyphenated(bytes@),
        is_uuid(uuid_parsed(text@), bytes@),
{
    Uuid::from_bytes(*bytes).to_string()
}

/// Whether bytes are those of a random UUID: of version 4, and of the variant that all versions
/// share. The other bits may be any.
pub open spec fn is_random_uuid(bytes: Seq<u8>) -> bool {
    &&& bytes.len() == 16
    &&& bytes[6] / 16 == 4
    &&& bytes[8] / 64 == 2
}

/// Calls `uuid::Uuid::new_v4`, which sets the bits for the version and the variant. Nothing is said
/// of the other bits: they are random.
#[verifier::external_body]
fn random_uuid() -> (bytes: [u8; 16])
    ensures
        is_random_uuid(bytes@),
{
    *Uuid::new_v4().as_bytes()
}

/// Calls `str::strip_prefix` with a character.
#[verifier::external_body]
fn strip_prefix(text: &str, prefix: char) -> (rest: Option<&str>)
    ensures
        match rest {
            Some(rest) => text@.len() > 0 && text@[0] == prefix && rest@ == text@.skip(1),
            None => text@.len() == 0 || text@[0] != prefix,
        },
{
    text.strip_prefix(prefix)
}

/// An id as text: a prefix, and a UUID.
pub open spec fn id_text(prefix: char, bytes: Seq<u8>) -> Seq<char> {
    seq![prefix] + hyphenated(bytes)
}

/// The id that a text stands for, or what is wrong with the text.
pub open spec fn parsed_id(id_prefix: char, id_type: Seq<char>, encoded: Seq<char>) -> Result<
    Seq<u8>,
    Seq<char>,
> {
    if encoded.len() == 0 || encoded[0] != id_prefix {
        Err("invalid "@ + id_type + " "@ + encoded + ": incorrect prefix"@)
    } else {
        match uuid_parsed(encoded.skip(1)) {
            Ok(bytes) => Ok(bytes),
            Err(err) => Err("invalid "@ + id_type + " "@ + encoded + ": "@ + err),
        }
    }
}

/// The id that a text in a message stands for.
pub open spec fn id_of(id_prefix: char, proto: Seq<char>) -> Result<
    Seq<u8>,
    TryFromProtoErrorView,
> {
    match parsed_id(id_prefix, Seq::empty(), proto) {
        Ok(bytes) => Ok(bytes),
        Err(_) => Err(TryFromProtoErrorView::InvalidShardId(proto)),
    }
}

/// Reads an id: a prefix, and a UUID.
pub fn parse_id(id_prefix: char, id_type: &str, encoded: &str) -> (r: Result<[u8; 16], String>)
    ensures
        match r {
            Ok(bytes) => parsed_id(id_prefix, id_type@, encoded@) == Ok::<Seq<u8>, Seq<char>>(
                bytes@,
            ),
            Err(message) => parsed_id(id_prefix, id_type@, encoded@) == Err::<Seq<u8>, Seq<char>>(
                message@,
            ),
        },
{
    let uuid_encoded: &str = match strip_prefix(encoded, id_prefix) {
        Some(rest) => rest,
        None => {
            let mut message: String = "invalid ".to_owned();
            message.append(id_type);
            message.append(" ");
            message.append(encoded);
            message.append(": incorrect prefix");
            return Err(message);
        },
    };
    match parse_uuid(uuid_encoded) {
        Ok(bytes) => Ok(bytes),
        Err(err) => {
            let mut message: String = "invalid ".to_owned();
            message.append(id_type);
            message.append(" ");
            message.append(encoded);
            message.append(": ");
            message.append(err.as_str());
            Err(message)
        },
    }
}

/// Writes an id. It is read as the same id.
fn write_id(id_prefix: &str, bytes: &[u8; 16]) -> (text: String)
    requires
        id_prefix@.len() == 1,
    ensures
        text@ == id_text(id_prefix@[0], bytes@),
        id_of(id_prefix@[0], text@) == Ok::<Seq<u8>, TryFromProtoErrorView>(bytes@),
{
    let mut text: String = id_prefix.to_owned();
    let uuid: String = write_uuid(bytes);
    text.append(uuid.as_str());
    assert(text@ =~= id_text(id_prefix@[0], bytes@));
    assert(text@.skip(1) =~= uuid@);
    text
}

/// The id of a shard.
#[derive(Debug, Clone, Copy, PartialEq, Eq, PartialOrd, Ord, Hash)]
pub struct ShardId(pub [u8; 16]);

impl View for ShardId {
    type V = Seq<u8>;

    open spec fn view(&self) -> Seq<u8> {
        self.0@
    }
}

impl ShardId {
    /// A new id, at random.
    pub fn new() -> (id: ShardId)
        ensures
            is_random_uuid(id@),
    {
        ShardId(random_uuid())
    }

    /// The id as text.
    pub fn to_string(&self) -> (text: String)
        ensures
            text@ == id_text('s', self@),
            id_of('s', text@) == Ok::<Seq<u8>, TryFromProtoErrorView>(self@),
    {
        proof {
            reveal_strlit("s");
        }
        write_id("s", &self.0)
    }

    /// Reads an id from text.
    pub fn from_str(encoded: &str) -> (r: Result<ShardId, String>)
        ensures
            match r {
                Ok(id) => parsed_id('s', "ShardId"@, encoded@) == Ok::<Seq<u8>, Seq<char>>(id@),
                Err(message) => parsed_id('s', "ShardId"@, encoded@) == Err::<Seq<u8>, Seq<char>>(
                    message@,
                ),
            },
    {
        match parse_id('s', "ShardId", encoded) {
            Ok(bytes) => Ok(ShardId(bytes)),
            Err(message) => Err(message),
        }
    }
}

impl RustType<String> for ShardId {
    fn into_proto(&self) -> (proto: String)
        ensures
            proto@ == id_text('s', self@),
            id_of('s', proto@) == Ok::<Seq<u8>, TryFromProtoErrorView>(self@),
    {
        self.to_string()
    }

    fn from_proto(proto: String) -> (r: Result<ShardId, TryFromProtoError>)
        ensures
            result_view(r) == id_of('s', proto@),
    {
        match ShardId::from_str(proto.as_str()) {
            Ok(id) => Ok(id),
            Err(_) => Err(TryFromProtoError::InvalidShardId(proto)),
        }
    }
}

/// The id of a reader that has to renew its lease.
#[derive(Debug, Clone, Copy, PartialEq, Eq, PartialOrd, Ord, Hash)]
pub struct LeasedReaderId(pub [u8; 16]);

impl View for LeasedReaderId {
    type V = Seq<u8>;

    open spec fn view(&self) -> Seq<u8> {
        self.0@
    }
}

impl LeasedReaderId {
    /// The id as text.
    pub fn to_string(&self) -> (text: String)
        ensures
            text@ == id_text('r', self@),
            id_of('r', text@) == Ok::<Seq<u8>, TryFromProtoErrorView>(self@),
    {
        proof {
            reveal_strlit("r");
        }
        write_id("r", &self.0)
    }

    /// Reads an id from text.
    pub fn from_str(encoded: &str) -> (r: Result<LeasedReaderId, String>)
        ensures
            match r {
                Ok(id) => parsed_id(
                    'r',
                    "LeasedReaderId"@,
                    encoded@,
                ) == Ok::<Seq<u8>, Seq<char>>(id@),
                Err(message) => parsed_id(
                    'r',
                    "LeasedReaderId"@,
                    encoded@,
                ) == Err::<Seq<u8>, Seq<char>>(
                    message@,
                ),
            },
    {
        match parse_id('r', "LeasedReaderId", encoded) {
            Ok(bytes) => Ok(LeasedReaderId(bytes)),
            Err(message) => Err(message),
        }
    }
}

impl RustType<String> for LeasedReaderId {
    fn into_proto(&self) -> (proto: String)
        ensures
            proto@ == id_text('r', self@),
            id_of('r', proto@) == Ok::<Seq<u8>, TryFromProtoErrorView>(self@),
    {
        self.to_string()
    }

    fn from_proto(proto: String) -> (r: Result<LeasedReaderId, TryFromProtoError>)
        ensures
            result_view(r) == id_of('r', proto@),
    {
        match LeasedReaderId::from_str(proto.as_str()) {
            Ok(id) => Ok(id),
            Err(_) => Err(TryFromProtoError::InvalidShardId(proto)),
        }
    }
}

/// The id of a reader that holds back compaction until it says otherwise.
#[derive(Debug, Clone, Copy, PartialEq, Eq, PartialOrd, Ord, Hash)]
pub struct CriticalReaderId(pub [u8; 16]);

impl View for CriticalReaderId {
    type V = Seq<u8>;

    open spec fn view(&self) -> Seq<u8> {
        self.0@
    }
}

impl CriticalReaderId {
    /// The id as text.
    pub fn to_string(&self) -> (text: String)
        ensures
            text@ == id_text('c', self@),
            id_of('c', text@) == Ok::<Seq<u8>, TryFromProtoErrorView>(self@),
    {
        proof {
            reveal_strlit("c");
        }
        write_id("c", &self.0)
    }

    /// Reads an id from text.
    pub fn from_str(encoded: &str) -> (r: Result<CriticalReaderId, String>)
        ensures
            match r {
                Ok(id) => parsed_id(
                    'c',
                    "CriticalReaderId"@,
                    encoded@,
                ) == Ok::<Seq<u8>, Seq<char>>(id@),
                Err(message) => parsed_id(
                    'c',
                    "CriticalReaderId"@,
                    encoded@,
                ) == Err::<Seq<u8>, Seq<char>>(
                    message@,
                ),
            },
    {
        match parse_id('c', "CriticalReaderId", encoded) {
            Ok(bytes) => Ok(CriticalReaderId(bytes)),
            Err(message) => Err(message),
        }
    }
}

impl RustType<String> for CriticalReaderId {
    fn into_proto(&self) -> (proto: String)
        ensures
            proto@ == id_text('c', self@),
            id_of('c', proto@) == Ok::<Seq<u8>, TryFromProtoErrorView>(self@),
    {
        self.to_string()
    }

    fn from_proto(proto: String) -> (r: Result<CriticalReaderId, TryFromProtoError>)
        ensures
            result_view(r) == id_of('c', proto@),
    {
        match CriticalReaderId::from_str(proto.as_str()) {
            Ok(id) => Ok(id),
            Err(_) => Err(TryFromProtoError::InvalidShardId(proto)),
        }
    }
}

/// The id of a writer.
#[derive(Debug, Clone, Copy, PartialEq, Eq, PartialOrd, Ord, Hash)]
pub struct WriterId(pub [u8; 16]);

impl View for WriterId {
    type V = Seq<u8>;

    open spec fn view(&self) -> Seq<u8> {
        self.0@
    }
}

impl WriterId {
    /// The id as text.
    pub fn to_string(&self) -> (text: String)
        ensures
            text@ == id_text('w', self@),
            id_of('w', text@) == Ok::<Seq<u8>, TryFromProtoErrorView>(self@),
    {
        proof {
            reveal_strlit("w");
        }
        write_id("w", &self.0)
    }

    /// Reads an id from text.
    pub fn from_str(encoded: &str) -> (r: Result<WriterId, String>)
        ensures
            match r {
                Ok(id) => parsed_id('w', "WriterId"@, encoded@) == Ok::<Seq<u8>, Seq<char>>(id@),
                Err(message) => parsed_id('w', "WriterId"@, encoded@) == Err::<Seq<u8>, Seq<char>>(
                    message@,
                ),
            },
    {
        match parse_id('w', "WriterId", encoded) {
            Ok(bytes) => Ok(WriterId(bytes)),
            Err(message) => Err(message),
        }
    }
}

impl RustType<String> for WriterId {
    fn into_proto(&self) -> (proto: String)
        ensures
            proto@ == id_text('w', self@),
            id_of('w', proto@) == Ok::<Seq<u8>, TryFromProtoErrorView>(self@),
    {
        self.to_string()
    }

    fn from_proto(proto: String) -> (r: Result<WriterId, TryFromProtoError>)
        ensures
            result_view(r) == id_of('w', proto@),
    {
        match WriterId::from_str(proto.as_str()) {
            Ok(id) => Ok(id),
            Err(_) => Err(TryFromProtoError::InvalidShardId(proto)),
        }
    }
}

/// The bytes of the token that no write has.
pub open spec fn sentinel_bytes() -> Seq<u8> {
    Seq::new(16, |i: int| 17u8)
}

/// The id of a write, by which a writer recognizes it.
#[derive(Debug, Clone, Copy, PartialEq, Eq, PartialOrd, Ord, Hash)]
pub struct IdempotencyToken(pub [u8; 16]);

impl View for IdempotencyToken {
    type V = Seq<u8>;

    open spec fn view(&self) -> Seq<u8> {
        self.0@
    }
}

impl IdempotencyToken {
    /// A token that no write has: the one of a writer before its first write.
    pub fn sentinel() -> (token: IdempotencyToken)
        ensures
            token@ == sentinel_bytes(),
    {
        let token = IdempotencyToken([17u8; 16]);
        assert(token@ =~= sentinel_bytes());
        token
    }

    /// The id as text.
    pub fn to_string(&self) -> (text: String)
        ensures
            text@ == id_text('i', self@),
            id_of('i', text@) == Ok::<Seq<u8>, TryFromProtoErrorView>(self@),
    {
        proof {
            reveal_strlit("i");
        }
        write_id("i", &self.0)
    }

    /// Reads an id from text.
    pub fn from_str(encoded: &str) -> (r: Result<IdempotencyToken, String>)
        ensures
            match r {
                Ok(id) => parsed_id(
                    'i',
                    "IdempotencyToken"@,
                    encoded@,
                ) == Ok::<Seq<u8>, Seq<char>>(id@),
                Err(message) => parsed_id(
                    'i',
                    "IdempotencyToken"@,
                    encoded@,
                ) == Err::<Seq<u8>, Seq<char>>(
                    message@,
                ),
            },
    {
        match parse_id('i', "IdempotencyToken", encoded) {
            Ok(bytes) => Ok(IdempotencyToken(bytes)),
            Err(message) => Err(message),
        }
    }
}

impl RustType<String> for IdempotencyToken {
    fn into_proto(&self) -> (proto: String)
        ensures
            proto@ == id_text('i', self@),
            id_of('i', proto@) == Ok::<Seq<u8>, TryFromProtoErrorView>(self@),
    {
        self.to_string()
    }

    fn from_proto(proto: String) -> (r: Result<IdempotencyToken, TryFromProtoError>)
        ensures
            result_view(r) == id_of('i', proto@),
    {
        match IdempotencyToken::from_str(proto.as_str()) {
            Ok(id) => Ok(id),
            Err(_) => Err(TryFromProtoError::InvalidShardId(proto)),
        }
    }
}

} // verus!
