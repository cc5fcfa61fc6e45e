//! What can go wrong while expanding.

use vstd::prelude::*;
use crate::token::Span;

verus! {

/// What went wrong while expanding.
#[derive(Clone, Copy, Debug, PartialEq, Eq, Structural)]
pub enum ErrorKind {
    /// `env!` not followed by a parenthesized argument.
    ExpectedParen,
    /// The argument of `env!` is missing or is not a string literal.
    ExpectedStringLiteral,
    /// More than one token inside the parentheses of `env!`.
    UnexpectedTokenInEnv,
    /// A literal that is neither a string nor an integer.
    UnsupportedLiteral,
    /// A `:` not followed by an identifier.
    ExpectedIdentAfterColon,
    /// A punctuation character that has no meaning inside a region.
    UnexpectedPunct,
    /// A delimited group, or a leftover token, where a segment was expected.
    UnexpectedToken,
    /// A region without its opening `<`, closing `>`, or with tokens after it.
    InvalidInput,
    /// A second `'` in one region.
    UnexpectedLifetime,
    /// A named environment variable that is not set.
    NoSuchEnvVar,
    /// A case modifier with no fragment before it.
    UnexpectedModifier,
    /// A case modifier other than lower, upper, snake and camel.
    UnsupportedModifier,
    /// A token stream that does not have the shape the encoder produces.
    CodecMismatch,
}

/// The message for each kind of error.
pub open spec fn message_text(kind: ErrorKind) -> Seq<char> {
    match kind {
        ErrorKind::ExpectedParen => "expected `(`"@,
        ErrorKind::ExpectedStringLiteral => "expected string literal"@,
        ErrorKind::UnexpectedTokenInEnv => "unexpected token in env! macro"@,
        ErrorKind::UnsupportedLiteral => "unsupported literal"@,
        ErrorKind::ExpectedIdentAfterColon => "expected identifier after `:`"@,
        ErrorKind::UnexpectedPunct => "unexpected punct"@,
        ErrorKind::UnexpectedToken => "unexpected token"@,
        ErrorKind::InvalidInput => "invalid input"@,
        ErrorKind::UnexpectedLifetime => "unexpected lifetime"@,
        ErrorKind::NoSuchEnvVar => "no such env var"@,
        ErrorKind::UnexpectedModifier => "unexpected modifier"@,
        ErrorKind::UnsupportedModifier => "unsupported modifier"@,
        ErrorKind::CodecMismatch => "unexpected token stream shape"@,
    }
}

/// An error with the position it refers to.
#[derive(Clone, Copy, Debug, PartialEq, Eq, Structural)]
pub struct Error {
    pub kind: ErrorKind,
    pub span: Span,
}

impl Error {
    pub fn new(kind: ErrorKind, span: Span) -> (r: Error)
        ensures
            r == (Error { kind, span }),
    {
        Error { kind, span }
    }

    /// A short human-readable description.
    pub fn message(&self) -> (r: &'static str)
        ensures
            r@ == message_text(self.kind),
    {
        match self.kind {
            ErrorKind::ExpectedParen => "expected `(`",
            ErrorKind::ExpectedStringLiteral => "expected string literal",
            ErrorKind::UnexpectedTokenInEnv => "unexpected token in env! macro",
            ErrorKind::UnsupportedLiteral => "unsupported literal",
            ErrorKind::ExpectedIdentAfterColon => "expected identifier after `:`",
            ErrorKind::UnexpectedPunct => "unexpected punct",
            ErrorKind::UnexpectedToken => "unexpected token",
            ErrorKind::InvalidInput => "invalid input",
            ErrorKind::UnexpectedLifetime => "unexpected lifetime",
            ErrorKind::NoSuchEnvVar => "no such env var",
            ErrorKind::UnexpectedModifier => "unexpected modifier",
            ErrorKind::UnsupportedModifier => "unsupported modifier",
            ErrorKind::CodecMismatch => "unexpected token stream shape",
        }
    }
}

} // verus!
