//! Why a source text is not a term.

use vstd::prelude::*;
use crate::pairs::Span;

verus! {

/// Why a source text is not a term.
#[derive(Debug)]
pub enum ParseError {
    /// The text does not follow the grammar; `span` is where it stops doing so.
    SyntaxError { span: Span },
    /// A variable occurs outside every abstraction that binds its name.
    UnboundVariableError { identifier: String, span: Span },
}

/// The mathematical value of a [`ParseError`].
pub enum SpecParseError {
    SyntaxError { span: Span },
    UnboundVariableError { identifier: Seq<char>, span: Span },
}

impl View for ParseError {
    type V = SpecParseError;

    open spec fn view(&self) -> SpecParseError {
        match self {
            ParseError::SyntaxError { span } => SpecParseError::SyntaxError { span: *span },
            ParseError::UnboundVariableError { identifier, span } => {
                SpecParseError::UnboundVariableError { identifier: identifier@, span: *span }
            },
        }
    }
}

} // verus!
