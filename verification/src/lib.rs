//! A declarative command-line argument parsing engine.
//!
//! A schema of commands, flags and positional arguments is built once with
//! the types in [`schema`]; [`parse::parse`] then takes a raw argument
//! vector through the tokenizer ([`token`]), the matcher/binder ([`bind`])
//! and the validator ([`validate`]) to a [`parse::ParseResult`], or to the
//! aggregated [`errors::ParseError`] values of the invocation. [`report`]
//! renders usage text and error messages for the caller to emit, and
//! [`render`] turns a result back into canonical argument strings.
//!
//! Every stage is specified by a mathematical model of its own ([`token::
//! tokenize_from`], [`bind::bind_flags`], [`parse::parse_spec`], ...), and
//! [`laws`] states and proves the engine-wide properties over those
//! models. [`demo`] builds an example schema with three subcommands.

pub mod schema;
pub mod errors;
pub mod token;
pub mod bind;
pub mod validate;
pub mod parse;
pub mod render;
pub mod report;
pub mod laws;
pub mod demo;
