//! The layered error model shared by all combinators.
//!
//! A failure is classified by a [`Reason`]: `Eof` when the input ran out,
//! `Error` for a recoverable mismatch that a choice combinator may retry
//! from the same position, and `Failure` for a mismatch that must abort the
//! whole parse instead of being masked by backtracking.

use vstd::prelude::*;

verus! {

/// Result type for outputs `O`, inputs `I`, and error contexts `C`.
pub type PResult<O, I, C> = Result<(O, I), ParseErrors<I, C>>;

pub type ParseErrors<I, C> = Vec<ParseError<I, C>>;

#[derive(Debug, PartialEq)]
pub struct ParseError<I, C> {
    pub reason: Reason,
    pub input: I,
    pub context: Option<C>,
}

/// The three failure severities, ordered from "input exhausted" over
/// "recoverable mismatch" to "unrecoverable abort".
#[derive(Debug, PartialEq)]
pub enum Reason {
    Error,
    Failure,
    Eof,
}

impl<I, C> ParseError<I, C> {
    pub fn new(reason: Reason, input: I, context: Option<C>) -> (r: Self)
        ensures
            r == (ParseError { reason, input, context }),
    {
        Self { reason, input, context }
    }

    /// A single recoverable mismatch at `input`, described by `context`.
    pub fn error<O>(input: I, context: C) -> (r: PResult<O, I, C>)
        ensures
            (r matches Err(e) && e@ =~= seq![
                ParseError { reason: Reason::Error, input, context: Some(context) },
            ]),
    {
        Err(vec![ParseError::new(Reason::Error, input, Some(context))])
    }

    /// A single unrecoverable failure at `input`, described by `context`.
    pub fn failure<O>(input: I, context: C) -> (r: PResult<O, I, C>)
        ensures
            (r matches Err(e) && e@ =~= seq![
                ParseError { reason: Reason::Failure, input, context: Some(context) },
            ]),
    {
        Err(vec![ParseError::new(Reason::Failure, input, Some(context))])
    }

    /// Exhausted input at `input`; there is nothing further to describe.
    pub fn eof<O>(input: I) -> (r: PResult<O, I, C>)
        ensures
            (r matches Err(e) && e@ =~= seq![
                ParseError { reason: Reason::Eof, input, context: None },
            ]),
    {
        Err(vec![ParseError::new(Reason::Eof, input, None)])
    }
}

} // verus!
