use vstd::prelude::*;

verus! {

/// What went wrong while reading the markup.
#[derive(Debug, Clone, Copy, PartialEq, Eq, Structural)]
pub enum ParseErrorKind {
    /// The input ended where the given character was expected.
    UnexpectedEnd { expected: char },
    /// Another character stood where the given one was expected.
    Unexpected { expected: char, found: char },
    /// `@name` names no directive; the error's text is the name.
    UnknownDirective,
    /// A heading level that is not an unsigned integer; the text is the argument.
    InvalidHeadingLevel,
    /// A metric trend that is not a number; the text is the argument.
    InvalidTrend,
    /// A trace duration that is not an unsigned integer; the text is the argument.
    InvalidDuration,
    /// An `@output` body whose braces never close.
    UnclosedOutput,
    /// An `@frame` body whose braces never close.
    UnclosedFrame,
}

/// A fatal error of the parser, with the place where it was found.
///
/// Line and column count from 1 and are those of the document being parsed;
/// inside an `@output` or `@frame` body they restart at that body.
#[derive(Debug, Clone)]
pub struct ParseError {
    pub kind: ParseErrorKind,
    pub text: String,
    pub line: usize,
    pub column: usize,
}

/// The errors of this library.
#[derive(Debug, Clone)]
pub enum Error {
    Io(String),
    ConfigError(String),
    Parse(ParseError),
    TemplateError(String),
    SchedulerError(String),
    GenerationError(String),
    SerializationError(String),
    Unknown(String),
}

} // verus!
