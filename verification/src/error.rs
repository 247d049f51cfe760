//! What can go wrong.

use vstd::prelude::*;

verus! {

/// Why a STUN message could not be read or checked.
#[derive(Debug)]
pub enum StunError {
    /// The message has no attribute of the type looked for.
    AttributeNotFound,
    /// An attribute's value ends too early.
    UnexpectedEof,
    /// The message ends inside its header.
    UnexpectedHeaderEof,
    /// An attribute's value is too long.
    AttributeSizeOverflow,
    /// The integrity attribute does not match the message and the key.
    IntegrityMismatch,
    /// A text attribute holds these bytes, which are not UTF-8.
    Utf8(Vec<u8>),
    Other(String),
}

#[derive(Debug)]
pub enum Error {
    /// No port of the range can be listened on.
    ErrPort,
    Stun(StunError),
    /// The network underneath failed; the text says how.
    Util(String),
    Other(String),
}

/// A [`StunError`] with its contents as sequences.
pub enum StunErrorView {
    AttributeNotFound,
    UnexpectedEof,
    UnexpectedHeaderEof,
    AttributeSizeOverflow,
    IntegrityMismatch,
    Utf8(Seq<u8>),
    Other(Seq<char>),
}

/// An [`Error`] with its contents as sequences.
pub enum ErrorView {
    ErrPort,
    Stun(StunErrorView),
    Util(Seq<char>),
    Other(Seq<char>),
}

impl View for StunError {
    type V = StunErrorView;

    open spec fn view(&self) -> StunErrorView {
        match self {
            StunError::AttributeNotFound => StunErrorView::AttributeNotFound,
            StunError::UnexpectedEof => StunErrorView::UnexpectedEof,
            StunError::UnexpectedHeaderEof => StunErrorView::UnexpectedHeaderEof,
            StunError::AttributeSizeOverflow => StunErrorView::AttributeSizeOverflow,
            StunError::IntegrityMismatch => StunErrorView::IntegrityMismatch,
            StunError::Utf8(bytes) => StunErrorView::Utf8(bytes@),
            StunError::Other(text) => StunErrorView::Other(text@),
        }
    }
}

impl View for Error {
    type V = ErrorView;

    open spec fn view(&self) -> ErrorView {
        match self {
            Error::ErrPort => ErrorView::ErrPort,
            Error::Stun(e) => ErrorView::Stun(e@),
            Error::Util(text) => ErrorView::Util(text@),
            Error::Other(text) => ErrorView::Other(text@),
        }
    }
}

/// The outcome of a STUN step as an outcome of the library.
pub fn stun_result<T>(r: Result<T, StunError>) -> (out: Result<T, Error>)
    ensures
        out == match r {
            Ok(v) => Ok::<T, Error>(v),
            Err(e) => Err::<T, Error>(Error::Stun(e)),
        },
{
    match r {
        Ok(v) => Ok(v),
        Err(e) => Err(Error::Stun(e)),
    }
}

} // verus!
