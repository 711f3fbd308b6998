//! The errors of reading persisted state.

use vstd::prelude::*;

use crate::text::{debug_text, quote};

verus! {

/// A message does not stand for a value.
#[derive(Debug, PartialEq, Eq)]
pub enum TryFromProtoError {
    /// A number is out of the range of a `usize`.
    TryFromIntError,
    /// A field that has to be there is missing.
    MissingField(String),
    /// A text is not an id.
    InvalidShardId(String),
    /// The codecs of a state are not the ones asked for.
    CodecMismatch(String),
    /// The lower frontier of a batch has no element.
    EmptyLower,
    /// Something else is wrong with the state.
    InvalidPersistState(String),
    /// A text is not a version.
    InvalidSemverVersion(String),
}

/// The contents of a [`TryFromProtoError`].
pub enum TryFromProtoErrorView {
    TryFromIntError,
    MissingField(Seq<char>),
    InvalidShardId(Seq<char>),
    CodecMismatch(Seq<char>),
    EmptyLower,
    InvalidPersistState(Seq<char>),
    InvalidSemverVersion(Seq<char>),
}

impl View for TryFromProtoError {
    type V = TryFromProtoErrorView;

    open spec fn view(&self) -> TryFromProtoErrorView {
        match self {
            TryFromProtoError::TryFromIntError => TryFromProtoErrorView::TryFromIntError,
            TryFromProtoError::MissingField(field) => TryFromProtoErrorView::MissingField(field@),
            TryFromProtoError::InvalidShardId(id) => TryFromProtoErrorView::InvalidShardId(id@),
            TryFromProtoError::CodecMismatch(message) => TryFromProtoErrorView::CodecMismatch(
                message@,
            ),
            TryFromProtoError::EmptyLower => TryFromProtoErrorView::EmptyLower,
            TryFromProtoError::InvalidPersistState(
                message,
            ) => TryFromProtoErrorView::InvalidPersistState(message@),
            TryFromProtoError::InvalidSemverVersion(
                message,
            ) => TryFromProtoErrorView::InvalidSemverVersion(message@),
        }
    }
}

/// An error in words.
pub open spec fn error_text(error: TryFromProtoErrorView) -> Seq<char> {
    match error {
        TryFromProtoErrorView::TryFromIntError =>
        "out of range integral type conversion attempted"@,
        TryFromProtoErrorView::MissingField(field) => "Missing value for `"@ + field + "`"@,
        TryFromProtoErrorView::InvalidShardId(id) => "Invalid value of ShardId found: `"@ + id
            + "`"@,
        TryFromProtoErrorView::CodecMismatch(message) => message,
        TryFromProtoErrorView::EmptyLower => "the lower frontier of a batch is empty"@,
        TryFromProtoErrorView::InvalidPersistState(message) => message,
        TryFromProtoErrorView::InvalidSemverVersion(message) => message,
    }
}

impl TryFromProtoError {
    /// The error in words.
    pub fn text(&self) -> (text: String)
        ensures
            text@ == error_text(self@),
    {
        match self {
            TryFromProtoError::TryFromIntError =>
            "out of range integral type conversion attempted".to_owned(),
            TryFromProtoError::MissingField(field) => {
                let mut text: String = "Missing value for `".to_owned();
                text.append(field.as_str());
                text.append("`");
                text
            },
            TryFromProtoError::InvalidShardId(id) => {
                let mut text: String = "Invalid value of ShardId found: `".to_owned();
                text.append(id.as_str());
                text.append("`");
                text
            },
            TryFromProtoError::CodecMismatch(message) => message.clone(),
            TryFromProtoError::EmptyLower => "the lower frontier of a batch is empty".to_owned(),
            TryFromProtoError::InvalidPersistState(message) => message.clone(),
            TryFromProtoError::InvalidSemverVersion(message) => message.clone(),
        }
    }
}

/// The codecs of the keys, values, times and diffs of a shard.
pub type Codecs = (String, String, String, String);

/// The names of codecs.
pub type CodecsView = (Seq<char>, Seq<char>, Seq<char>, Seq<char>);

/// The contents of [`Codecs`].
pub open spec fn codecs_view(codecs: Codecs) -> CodecsView {
    (codecs.0@, codecs.1@, codecs.2@, codecs.3@)
}

/// A shard was written with other codecs than the ones asked for.
#[derive(Debug, PartialEq, Eq)]
pub struct CodecMismatch {
    /// The codecs asked for.
    pub requested: Codecs,
    /// The codecs that the shard was written with.
    pub actual: Codecs,
}

/// The contents of a [`CodecMismatch`].
pub struct CodecMismatchView {
    pub requested: CodecsView,
    pub actual: CodecsView,
}

impl View for CodecMismatch {
    type V = CodecMismatchView;

    open spec fn view(&self) -> CodecMismatchView {
        CodecMismatchView {
            requested: codecs_view(self.requested),
            actual: codecs_view(self.actual),
        }
    }
}

/// Codecs in words.
pub open spec fn codecs_text(codecs: CodecsView) -> Seq<char> {
    "("@ + debug_text(codecs.0) + ", "@ + debug_text(codecs.1) + ", "@ + debug_text(codecs.2)
        + ", "@ + debug_text(codecs.3) + ")"@
}

/// A mismatch in words.
pub open spec fn mismatch_text(mismatch: CodecMismatchView) -> Seq<char> {
    "requested codecs "@ + codecs_text(mismatch.requested)
        + " did not match ones in durable storage "@ + codecs_text(mismatch.actual)
}

fn write_codecs(codecs: &Codecs) -> (text: String)
    ensures
        text@ == codecs_text(codecs_view(*codecs)),
{
    let mut text: String = "(".to_owned();
    text.append(quote(codecs.0.as_str()).as_str());
    text.append(", ");
    text.append(quote(codecs.1.as_str()).as_str());
    text.append(", ");
    text.append(quote(codecs.2.as_str()).as_str());
    text.append(", ");
    text.append(quote(codecs.3.as_str()).as_str());
    text.append(")");
    text
}

impl CodecMismatch {
    /// The mismatch in words.
    pub fn text(&self) -> (text: String)
        ensures
            text@ == mismatch_text(self@),
    {
        let mut text: String = "requested codecs ".to_owned();
        text.append(write_codecs(&self.requested).as_str());
        text.append(" did not match ones in durable storage ");
        text.append(write_codecs(&self.actual).as_str());
        text
    }
}

/// The contents of a result.
pub open spec fn result_view<T: View>(result: Result<T, TryFromProtoError>) -> Result<
    T::V,
    TryFromProtoErrorView,
> {
    match result {
        Ok(value) => Ok(value@),
        Err(err) => Err(err@),
    }
}

/// Values that are written as a message, and read from one.
pub trait RustType<Proto>: Sized {
    fn into_proto(&self) -> Proto;

    fn from_proto(proto: Proto) -> Result<Self, TryFromProtoError>;
}

} // verus!
