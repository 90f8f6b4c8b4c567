//! The parse tree: what the grammar recognises in a source text, before
//! names are resolved.

use vstd::prelude::*;
use crate::grammar::is_identifier;

verus! {

/// A half-open range of character offsets into a source text.
#[derive(Clone, Copy, Debug, PartialEq, Eq, Structural)]
pub struct Span {
    pub start: usize,
    pub end: usize,
}

/// The grammar rule that a node of the parse tree was recognised by.
#[derive(Clone, Copy, Debug, PartialEq, Eq, Structural)]
pub enum Rule {
    Variable,
    Abstraction,
    Application,
    BaseType,
    FunctionType,
}

/// A node of the parse tree.
///
/// `text` is the identifier of a `Variable` or `BaseType` node; the parser
/// leaves it empty for the other rules, and nothing reads it there. `inner`
/// holds the nodes recognised inside this one, in source order:
///
/// * `Variable`, `BaseType`: none;
/// * `Abstraction`: the bound variable, then the annotated type if there is
///   one, then the body;
/// * `Application`: two or more terms;
/// * `FunctionType`: the argument type, then the result type.
#[derive(Debug)]
pub struct Pair {
    pub rule: Rule,
    pub text: String,
    pub span: Span,
    pub inner: Vec<Pair>,
}

/// The mathematical value of a [`Pair`].
pub struct SpecPair {
    pub rule: Rule,
    pub text: Seq<char>,
    pub span: Span,
    pub inner: Seq<SpecPair>,
}

impl Pair {
    /// The mathematical value of the node.
    pub open spec fn model(self) -> SpecPair
        decreases self,
    {
        SpecPair {
            rule: self.rule,
            text: self.text@,
            span: self.span,
            inner: Seq::new(
                self.inner@.len(),
                |i: int|
                    if 0 <= i < self.inner@.len() {
                        self.inner@[i].model()
                    } else {
                        arbitrary()
                    },
            ),
        }
    }
}

impl View for Pair {
    type V = SpecPair;

    open spec fn view(&self) -> SpecPair {
        self.model()
    }
}

impl SpecPair {
    /// The node has the shape of a type: a base type named by an identifier,
    /// without inner nodes, or a function type made of two types.
    pub open spec fn is_type(self) -> bool
        decreases self,
    {
        match self.rule {
            Rule::BaseType => self.inner.len() == 0 && is_identifier(self.text),
            Rule::FunctionType => {
                &&& self.inner.len() == 2
                &&& self.inner[0].is_type()
                &&& self.inner[1].is_type()
            },
            _ => false,
        }
    }

    /// The node is a variable without inner nodes.
    pub open spec fn is_name(self) -> bool {
        self.rule == Rule::Variable && self.inner.len() == 0
    }

    /// The node has the shape of a term, all the way down.
    pub open spec fn is_term(self) -> bool
        decreases self,
    {
        match self.rule {
            Rule::Variable => self.inner.len() == 0,
            Rule::Abstraction => {
                ||| {
                    &&& self.inner.len() == 2
                    &&& self.inner[0].is_name()
                    &&& self.inner[1].is_term()
                }
                ||| {
                    &&& self.inner.len() == 3
                    &&& self.inner[0].is_name()
                    &&& self.inner[1].is_type()
                    &&& self.inner[2].is_term()
                }
            },
            Rule::Application => {
                &&& self.inner.len() >= 2
                &&& forall|i: int| 0 <= i < self.inner.len() ==> (#[trigger] self.inner[i]).is_term()
            },
            _ => false,
        }
    }
}

} // verus!
