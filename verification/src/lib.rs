//! Terms of the simply typed lambda calculus in de Bruijn notation.
//!
//! A term is parsed from text ([`LambdaTerm::from_str`]), reduced to weak
//! head normal form ([`LambdaTerm::beta_reduce`],
//! [`LambdaTerm::beta_reduce_within`]), type-checked
//! ([`LambdaTerm::get_type`]) and shown as text, with indices
//! ([`LambdaTerm::to_string`]) or in the grammar again
//! ([`LambdaTerm::to_source`]).
//!
//! Every function states what it returns over the mathematical value of its
//! arguments: [`term::SpecTerm`] for a term, [`term::SpecType`] for a type,
//! [`pairs::SpecPair`] for a node of the parse tree. The modules [`laws`],
//! [`parse`] and [`round_trip`] prove what holds of these functions on
//! every input.

pub mod equality;
pub mod error;
pub mod grammar;
pub mod laws;
pub mod pairs;
pub mod parse;
pub mod parser;
pub mod reduce;
pub mod render;
pub mod round_trip;
pub mod source;
pub mod term;
pub mod type_check;

pub use error::ParseError;
pub use pairs::{Pair, Rule, Span};
pub use parser::KombiParser;
pub use reduce::Outcome;
pub use term::{LambdaTerm, Type};
pub use type_check::TypeError;
