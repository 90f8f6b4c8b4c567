//! The term tree and its types, each with the mathematical value that
//! contracts speak of.

use vstd::prelude::*;

verus! {

/// The mathematical value of a [`Type`].
pub enum SpecType {
    Base(Seq<char>),
    Function(Box<SpecType>, Box<SpecType>),
}

/// The mathematical value of a [`LambdaTerm`]: a term in de Bruijn notation
/// whose indices are unbounded naturals.
pub enum SpecTerm {
    Variable { idx: nat },
    Abstraction { argument_type: Option<SpecType>, body: Box<SpecTerm> },
    Application { function: Box<SpecTerm>, argument: Box<SpecTerm> },
}

impl SpecTerm {
    /// Every variable of the term is bound by an abstraction of the term
    /// itself or by one of `depth` abstractions around it.
    pub open spec fn closed_at(self, depth: nat) -> bool
        decreases self,
    {
        match self {
            SpecTerm::Variable { idx } => idx < depth,
            SpecTerm::Abstraction { body, .. } => body.closed_at(depth + 1),
            SpecTerm::Application { function, argument } => {
                function.closed_at(depth) && argument.closed_at(depth)
            },
        }
    }

    /// The term has no free variable.
    pub open spec fn is_closed(self) -> bool {
        self.closed_at(0)
    }

    /// Every abstraction of the term says what type its argument has.
    pub open spec fn is_annotated(self) -> bool
        decreases self,
    {
        match self {
            SpecTerm::Variable { .. } => true,
            SpecTerm::Abstraction { argument_type, body } => {
                argument_type is Some && body.is_annotated()
            },
            SpecTerm::Application { function, argument } => {
                function.is_annotated() && argument.is_annotated()
            },
        }
    }
}

/// A simple type: an atomic type known by its name, or a function type.
#[derive(Debug)]
pub enum Type {
    BaseType(String),
    FunctionType(Box<Type>, Box<Type>),
}

/// A representation of an arbitrary expression in the lambda calculus.
///
/// Variables are de Bruijn indices: `idx` counts the abstractions between an
/// occurrence and its binder, 0 being the innermost one.
#[derive(Debug)]
pub enum LambdaTerm {
    Variable { idx: u64 },
    Abstraction { argument_type: Option<Type>, body: Box<LambdaTerm> },
    Application { function: Box<LambdaTerm>, argument: Box<LambdaTerm> },
}

impl Type {
    /// The mathematical value of the type.
    pub open spec fn model(self) -> SpecType
        decreases self,
    {
        match self {
            Type::BaseType(name) => SpecType::Base(name@),
            Type::FunctionType(argument, result) => SpecType::Function(
                Box::new(argument.model()),
                Box::new(result.model()),
            ),
        }
    }
}

impl View for Type {
    type V = SpecType;

    open spec fn view(&self) -> SpecType {
        self.model()
    }
}

/// The value of an optional annotation.
pub open spec fn annotation_view(annotation: Option<Type>) -> Option<SpecType> {
    match annotation {
        Some(ty) => Some(ty.model()),
        None => None,
    }
}

impl LambdaTerm {
    /// The mathematical value of the term.
    pub open spec fn model(self) -> SpecTerm
        decreases self,
    {
        match self {
            LambdaTerm::Variable { idx } => SpecTerm::Variable { idx: idx as nat },
            LambdaTerm::Abstraction { argument_type, body } => SpecTerm::Abstraction {
                argument_type: annotation_view(argument_type),
                body: Box::new(body.model()),
            },
            LambdaTerm::Application { function, argument } => SpecTerm::Application {
                function: Box::new(function.model()),
                argument: Box::new(argument.model()),
            },
        }
    }
}

impl View for LambdaTerm {
    type V = SpecTerm;

    open spec fn view(&self) -> SpecTerm {
        self.model()
    }
}

/// The indices of a term in memory are machine integers, so a depth beyond
/// their range closes every such term.
pub proof fn lemma_closed_beyond_u64(term: LambdaTerm, depth: nat)
    requires
        depth > u64::MAX,
    ensures
        term@.closed_at(depth),
    decreases term,
{
    match term {
        LambdaTerm::Variable { .. } => {},
        LambdaTerm::Abstraction { body, .. } => {
            lemma_closed_beyond_u64(*body, depth + 1);
        },
        LambdaTerm::Application { function, argument } => {
            lemma_closed_beyond_u64(*function, depth);
            lemma_closed_beyond_u64(*argument, depth);
        },
    }
}

impl LambdaTerm {
    /// Whether every variable is bound inside the term or by one of `depth`
    /// abstractions around it.
    pub fn closed_at(&self, depth: u64) -> (closed: bool)
        ensures
            closed == self@.closed_at(depth as nat),
        decreases self,
    {
        match self {
            LambdaTerm::Variable { idx } => *idx < depth,
            LambdaTerm::Abstraction { body, .. } => {
                if depth == u64::MAX {
                    proof {
                        lemma_closed_beyond_u64(**body, depth as nat + 1);
                    }
                    true
                } else {
                    body.closed_at(depth + 1)
                }
            },
            LambdaTerm::Application { function, argument } => {
                function.closed_at(depth) && argument.closed_at(depth)
            },
        }
    }

    /// Whether the term has no free variable.
    pub fn is_closed(&self) -> (closed: bool)
        ensures
            closed == self@.is_closed(),
    {
        self.closed_at(0)
    }

    /// Whether every abstraction carries the type of its argument.
    pub fn is_annotated(&self) -> (annotated: bool)
        ensures
            annotated == self@.is_annotated(),
        decreases self,
    {
        match self {
            LambdaTerm::Variable { .. } => true,
            LambdaTerm::Abstraction { argument_type, body } => {
                argument_type.is_some() && body.is_annotated()
            },
            LambdaTerm::Application { function, argument } => {
                function.is_annotated() && argument.is_annotated()
            },
        }
    }
}

impl Clone for Type {
    fn clone(&self) -> (copy: Self)
        ensures
            copy@ == self@,
        decreases self,
    {
        match self {
            Type::BaseType(name) => Type::BaseType(name.clone()),
            Type::FunctionType(argument, result) => Type::FunctionType(
                Box::new((**argument).clone()),
                Box::new((**result).clone()),
            ),
        }
    }
}

impl Clone for LambdaTerm {
    fn clone(&self) -> (copy: Self)
        ensures
            copy@ == self@,
        decreases self,
    {
        match self {
            LambdaTerm::Variable { idx } => LambdaTerm::Variable { idx: *idx },
            LambdaTerm::Abstraction { argument_type, body } => {
                let annotation = match argument_type {
                    Some(ty) => Some(ty.clone()),
                    None => None,
                };
                LambdaTerm::Abstraction { argument_type: annotation, body: Box::new((**body).clone()) }
            },
            LambdaTerm::Application { function, argument } => LambdaTerm::Application {
                function: Box::new((**function).clone()),
                argument: Box::new((**argument).clone()),
            },
        }
    }
}

} // verus!
