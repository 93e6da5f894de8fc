//! Error values produced by tokenizing, binding and validation.
//!
//! Lexical and resolution failures (`TokenError`, `UnknownArgument`) stop a
//! parse at once; the structural and validation kinds are aggregated so the
//! caller sees every problem of one invocation together.

use vstd::prelude::*;

verus! {

/// Why a raw bound value was rejected by its argument's value kind.
#[derive(Clone, Copy, Debug, PartialEq, Eq, Structural)]
pub enum InvalidReason {
    /// The value is not a non-empty string of decimal digits.
    NotInteger,
    /// The value contains no `=`.
    NotKeyValue,
    /// The value is not a member of the closed value set.
    NotInChoice,
}

/// One failure detected while parsing an argument vector.
#[derive(Clone, Debug, PartialEq, Eq)]
pub enum ParseError {
    /// A malformed lexical unit, e.g. a short-flag cluster with an unknown
    /// letter; carries the offending argument string.
    TokenError { text: String },
    /// A flag token naming no declared argument of the active command.
    UnknownArgument { name: String },
    /// A flag or positional received fewer value tokens than its arity asks.
    ArityError { name: String, expected: usize, got: usize },
    /// A positional token no declared positional argument accepts.
    UnexpectedArgument { text: String },
    /// A required argument, or required group (listed by its members), that
    /// no input token bound.
    MissingRequired { names: Vec<String> },
    /// More than one member of a mutual-exclusion group was bound; carries
    /// the offending members.
    ConflictingArguments { names: Vec<String> },
    /// A raw bound value its argument's value kind rejects.
    InvalidValue { name: String, value: String, reason: InvalidReason },
}

/// The mathematical model of a [`ParseError`], over character sequences.
#[verifier::ext_equal]
pub ghost enum ErrModel {
    TokenError { text: Seq<char> },
    UnknownArgument { name: Seq<char> },
    ArityError { name: Seq<char>, expected: nat, got: nat },
    UnexpectedArgument { text: Seq<char> },
    MissingRequired { names: Seq<Seq<char>> },
    ConflictingArguments { names: Seq<Seq<char>> },
    InvalidValue { name: Seq<char>, value: Seq<char>, reason: InvalidReason },
}

impl View for ParseError {
    type V = ErrModel;

    open spec fn view(&self) -> ErrModel {
        match self {
            ParseError::TokenError { text } => ErrModel::TokenError { text: text@ },
            ParseError::UnknownArgument { name } => ErrModel::UnknownArgument { name: name@ },
            ParseError::ArityError { name, expected, got } => ErrModel::ArityError {
                name: name@,
                expected: *expected as nat,
                got: *got as nat,
            },
            ParseError::UnexpectedArgument { text } => ErrModel::UnexpectedArgument {
                text: text@,
            },
            ParseError::MissingRequired { names } => ErrModel::MissingRequired {
                names: names.deep_view(),
            },
            ParseError::ConflictingArguments { names } => ErrModel::ConflictingArguments {
                names: names.deep_view(),
            },
            ParseError::InvalidValue { name, value, reason } => ErrModel::InvalidValue {
                name: name@,
                value: value@,
                reason: *reason,
            },
        }
    }
}

impl DeepView for ParseError {
    type V = ErrModel;

    open spec fn deep_view(&self) -> ErrModel {
        self.view()
    }
}

} // verus!
