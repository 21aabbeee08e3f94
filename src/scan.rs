//! The token-level scanner: jiter, reached through one wrapper per call.
//!
//! Each wrapper scans a fresh jiter over the bytes that remain of the input,
//! so the result is a function of those bytes alone. The number of bytes a
//! successful scan consumed comes back with its token.
use jiter::{Jiter, JiterErrorType, JsonErrorType};
use vstd::prelude::*;

verus! {

/// The class of a scanner failure.
#[derive(Debug, Clone, Copy, PartialEq, Eq)]
pub enum ScanFault {
    /// Well-formed input, but not the kind of value that was asked for.
    WrongType,
    /// A number literal too long for the scanner to read.
    OutOfRange,
    /// Input that is not valid JSON.
    Syntax,
}

/// A scanner failure: its class, the scanner's description, and the byte
/// index, relative to where the scan started, at which it was detected.
#[derive(Debug, Clone, PartialEq, Eq)]
pub struct ScanError {
    pub kind: ScanFault,
    pub message: String,
    pub index: usize,
}

/// What jiter's `next_str` makes of the bytes: the decoded string and the
/// number of bytes consumed.
pub uninterp spec fn string_token(rest: Seq<u8>) -> Result<(Seq<char>, nat), ScanError>;

/// What jiter's `next_number_bytes` makes of the bytes: the text of the
/// number literal and the number of bytes consumed.
pub uninterp spec fn number_token(rest: Seq<u8>) -> Result<(Seq<u8>, nat), ScanError>;

/// What jiter's `next_object` makes of the bytes: the first key, or none for
/// an empty object, and the number of bytes consumed.
pub uninterp spec fn object_open(rest: Seq<u8>) -> Result<(Option<Seq<char>>, nat), ScanError>;

/// What jiter's `next_key` makes of the bytes: the next key, or none at the
/// end of the object, and the number of bytes consumed.
pub uninterp spec fn object_step(rest: Seq<u8>) -> Result<(Option<Seq<char>>, nat), ScanError>;

/// What jiter's `next_skip` makes of the bytes: the number of bytes that the
/// skipped value took.
pub uninterp spec fn value_skip(rest: Seq<u8>) -> Result<nat, ScanError>;

pub open spec fn consumed_in(n: usize, rest: Seq<u8>) -> bool {
    0 < n <= rest.len()
}

pub open spec fn string_view(r: Result<(String, usize), ScanError>) -> Result<(Seq<char>, nat), ScanError> {
    match r {
        Ok((s, n)) => Ok((s@, n as nat)),
        Err(e) => Err(e),
    }
}

pub open spec fn number_view(r: Result<(Vec<u8>, usize), ScanError>) -> Result<(Seq<u8>, nat), ScanError> {
    match r {
        Ok((lit, n)) => Ok((lit@, n as nat)),
        Err(e) => Err(e),
    }
}

pub open spec fn key_view(r: Result<(Option<String>, usize), ScanError>) -> Result<(Option<Seq<char>>, nat), ScanError> {
    match r {
        Ok((Some(k), n)) => Ok((Some(k@), n as nat)),
        Ok((None, n)) => Ok((None, n as nat)),
        Err(e) => Err(e),
    }
}

pub open spec fn skip_view(r: Result<usize, ScanError>) -> Result<nat, ScanError> {
    match r {
        Ok(n) => Ok(n as nat),
        Err(e) => Err(e),
    }
}

/// Relies on `jiter::Jiter::next_str`: the string token that starts the
/// bytes (after whitespace); a success consumes at least its two quotes.
#[verifier::external_body]
pub(crate) fn next_string(rest: &[u8]) -> (r: Result<(String, usize), ScanError>)
    ensures
        string_view(r) == string_token(rest@),
        r matches Ok((_, n)) ==> consumed_in(n, rest@),
{
    let mut jiter = Jiter::new(rest);
    match jiter.next_str() {
        Ok(s) => Ok((s.to_string(), jiter.current_index())),
        Err(e) => Err(ScanError {
            kind: match &e.error_type {
                JiterErrorType::WrongType { .. } => ScanFault::WrongType,
                JiterErrorType::JsonError(JsonErrorType::NumberOutOfRange) => ScanFault::OutOfRange,
                JiterErrorType::JsonError(_) => ScanFault::Syntax,
            },
            message: e.error_type.to_string(),
            index: e.index,
        }),
    }
}

/// Relies on `jiter::Jiter::next_number_bytes`: the bytes of the number
/// literal that starts the bytes (after whitespace), of any magnitude; a
/// success consumes at least the literal's first character.
#[verifier::external_body]
pub(crate) fn next_number(rest: &[u8]) -> (r: Result<(Vec<u8>, usize), ScanError>)
    ensures
        number_view(r) == number_token(rest@),
        r matches Ok((_, n)) ==> consumed_in(n, rest@),
{
    let mut jiter = Jiter::new(rest);
    match jiter.next_number_bytes() {
        Ok(lit) => Ok((lit.to_vec(), jiter.current_index())),
        Err(e) => Err(ScanError {
            kind: match &e.error_type {
                JiterErrorType::WrongType { .. } => ScanFault::WrongType,
                JiterErrorType::JsonError(JsonErrorType::NumberOutOfRange) => ScanFault::OutOfRange,
                JiterErrorType::JsonError(_) => ScanFault::Syntax,
            },
            message: e.error_type.to_string(),
            index: e.index,
        }),
    }
}

/// Relies on `jiter::Jiter::next_object`: opens the object that starts the
/// bytes and reads its first key; a success consumes at least the `{`.
#[verifier::external_body]
pub(crate) fn open_object(rest: &[u8]) -> (r: Result<(Option<String>, usize), ScanError>)
    ensures
        key_view(r) == object_open(rest@),
        r matches Ok((_, n)) ==> consumed_in(n, rest@),
{
    let mut jiter = Jiter::new(rest);
    match jiter.next_object() {
        Ok(k) => Ok((k.map(|k| k.to_string()), jiter.current_index())),
        Err(e) => Err(ScanError {
            kind: match &e.error_type {
                JiterErrorType::WrongType { .. } => ScanFault::WrongType,
                JiterErrorType::JsonError(JsonErrorType::NumberOutOfRange) => ScanFault::OutOfRange,
                JiterErrorType::JsonError(_) => ScanFault::Syntax,
            },
            message: e.error_type.to_string(),
            index: e.index,
        }),
    }
}

/// Relies on `jiter::Jiter::next_key`: reads past the `,` or `}` that
/// follows an object member, and the key after a `,`; a success consumes at
/// least that `,` or `}`.
#[verifier::external_body]
pub(crate) fn next_key(rest: &[u8]) -> (r: Result<(Option<String>, usize), ScanError>)
    ensures
        key_view(r) == object_step(rest@),
        r matches Ok((_, n)) ==> consumed_in(n, rest@),
{
    let mut jiter = Jiter::new(rest);
    match jiter.next_key() {
        Ok(k) => Ok((k.map(|k| k.to_string()), jiter.current_index())),
        Err(e) => Err(ScanError {
            kind: match &e.error_type {
                JiterErrorType::WrongType { .. } => ScanFault::WrongType,
                JiterErrorType::JsonError(JsonErrorType::NumberOutOfRange) => ScanFault::OutOfRange,
                JiterErrorType::JsonError(_) => ScanFault::Syntax,
            },
            message: e.error_type.to_string(),
            index: e.index,
        }),
    }
}

/// Relies on `jiter::Jiter::next_skip`: reads past the whole value that
/// starts the bytes, nested objects and arrays included; a success consumes
/// at least one byte of it.
#[verifier::external_body]
pub(crate) fn skip_value(rest: &[u8]) -> (r: Result<usize, ScanError>)
    ensures
        skip_view(r) == value_skip(rest@),
        r matches Ok(n) ==> consumed_in(n, rest@),
{
    let mut jiter = Jiter::new(rest);
    match jiter.next_skip() {
        Ok(()) => Ok(jiter.current_index()),
        Err(e) => Err(ScanError {
            kind: match &e.error_type {
                JiterErrorType::WrongType { .. } => ScanFault::WrongType,
                JiterErrorType::JsonError(JsonErrorType::NumberOutOfRange) => ScanFault::OutOfRange,
                JiterErrorType::JsonError(_) => ScanFault::Syntax,
            },
            message: e.error_type.to_string(),
            index: e.index,
        }),
    }
}

} // verus!
