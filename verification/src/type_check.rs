//! The type of a term under the types of the abstractions around it.

use vstd::pervasive::unreached;
use vstd::prelude::*;
use crate::term::{LambdaTerm, SpecTerm, SpecType, Type};

verus! {

// NOTE: For now, the only error which the type checker may encounter is an attempt to apply a
// function which does not take a term of type T as an argument to a term of type T. This is left
// as an enum in case future expansion of the type system leads to more possible errors.
/// Why a term has no type.
#[derive(Debug)]
pub enum TypeError {
    /// `function`, of type `function_type`, cannot be applied to `argument`,
    /// of type `argument_type`.
    InvalidApplication {
        function: LambdaTerm,
        function_type: Type,
        argument: LambdaTerm,
        argument_type: Type,
    },
}

/// The mathematical value of a [`TypeError`].
pub enum SpecTypeError {
    InvalidApplication {
        function: SpecTerm,
        function_type: SpecType,
        argument: SpecTerm,
        argument_type: SpecType,
    },
}

impl View for TypeError {
    type V = SpecTypeError;

    open spec fn view(&self) -> SpecTypeError {
        match self {
            TypeError::InvalidApplication { function, function_type, argument, argument_type } => {
                SpecTypeError::InvalidApplication {
                    function: function@,
                    function_type: function_type@,
                    argument: argument@,
                    argument_type: argument_type@,
                }
            },
        }
    }
}

/// The values of the types of a typing context.
pub open spec fn context_view(ctx: Seq<Type>) -> Seq<SpecType> {
    Seq::new(ctx.len(), |i: int| ctx[i]@)
}

impl SpecTerm {
    /// The type of the term where `ctx` holds the types of the abstractions
    /// around it, the innermost last; `None` where it has none.
    ///
    /// A variable has the type that lies `idx` places before the end of
    /// `ctx`. An abstraction with an annotation is a function from the
    /// annotated type to the type of its body, found with the annotation
    /// appended to `ctx`. An application has the result type of its
    /// function, which must have a function type whose argument type is the
    /// very type of the argument.
    pub open spec fn type_in(self, ctx: Seq<SpecType>) -> Option<SpecType>
        decreases self,
    {
        match self {
            SpecTerm::Variable { idx } => {
                if idx < ctx.len() {
                    Some(ctx[ctx.len() - 1 - idx])
                } else {
                    None
                }
            },
            SpecTerm::Abstraction { argument_type: Some(argument_type), body } => {
                match body.type_in(ctx.push(argument_type)) {
                    Some(result) => Some(
                        SpecType::Function(Box::new(argument_type), Box::new(result)),
                    ),
                    None => None,
                }
            },
            SpecTerm::Abstraction { argument_type: None, .. } => None,
            SpecTerm::Application { function, argument } => {
                match (function.type_in(ctx), argument.type_in(ctx)) {
                    (Some(SpecType::Function(expected, result)), Some(found)) => {
                        if *expected == found {
                            Some(*result)
                        } else {
                            None
                        }
                    },
                    _ => None,
                }
            },
        }
    }

    /// The type of a closed term.
    pub open spec fn type_of(self) -> Option<SpecType> {
        self.type_in(Seq::empty())
    }

    /// The application on which typing fails, for a term without free
    /// variables or missing annotations that has no type: the first one, going
    /// into the function before the argument and into both before the
    /// application itself, whose function and argument have types that do
    /// not fit.
    pub open spec fn type_error_in(self, ctx: Seq<SpecType>) -> SpecTypeError
        decreases self,
    {
        match self {
            SpecTerm::Abstraction { argument_type: Some(argument_type), body } => {
                body.type_error_in(ctx.push(argument_type))
            },
            SpecTerm::Application { function, argument } => {
                if function.type_in(ctx) is None {
                    function.type_error_in(ctx)
                } else if argument.type_in(ctx) is None {
                    argument.type_error_in(ctx)
                } else {
                    SpecTypeError::InvalidApplication {
                        function: *function,
                        function_type: function.type_in(ctx)->0,
                        argument: *argument,
                        argument_type: argument.type_in(ctx)->0,
                    }
                }
            },
            _ => arbitrary(),
        }
    }
}

/// What a check returned, against the type or the error that the term has
/// under `ctx`.
pub open spec fn checked_as(
    checked: Result<Type, TypeError>,
    term: SpecTerm,
    ctx: Seq<SpecType>,
) -> bool {
    match checked {
        Ok(ty) => term.type_in(ctx) == Some(ty@),
        Err(error) => term.type_in(ctx) is None && error@ == term.type_error_in(ctx),
    }
}

/// A copy of a typing context.
fn copied(ctx: &Vec<Type>) -> (copy: Vec<Type>)
    ensures
        copy.len() == ctx.len(),
        context_view(copy@) == context_view(ctx@),
{
    let mut copy: Vec<Type> = Vec::new();
    let mut i: usize = 0;
    while i < ctx.len()
        invariant
            i <= ctx.len(),
            copy.len() == i,
            forall|j: int| 0 <= j < i ==> copy[j]@ == ctx[j]@,
        decreases ctx.len() - i,
    {
        copy.push(ctx[i].clone());
        i = i + 1;
    }
    assert(context_view(copy@) =~= context_view(ctx@));
    copy
}

impl LambdaTerm {
    /// Return the `Type` of the `LambdaTerm` if it is well-typed, or an appropriate `TypeError`
    /// if it is not.
    pub fn get_type(&self) -> (checked: Result<Type, TypeError>)
        requires
            self@.is_closed(),
            self@.is_annotated(),
        ensures
            checked_as(checked, self@, Seq::empty()),
    {
        let ctx: Vec<Type> = Vec::new();
        assert(context_view(ctx@) =~= Seq::empty());
        self.get_type_in_context(ctx)
    }

    /// The type of the term where `ctx` holds the types of the abstractions
    /// around it, the innermost last, or the first application in it whose
    /// function does not take what the argument is.
    pub fn get_type_in_context(&self, ctx: Vec<Type>) -> (checked: Result<Type, TypeError>)
        requires
            self@.closed_at(ctx.len() as nat),
            self@.is_annotated(),
        ensures
            checked_as(checked, self@, context_view(ctx@)),
        decreases self,
    {
        let mut ctx = ctx;
        let ghost types = context_view(ctx@);
        match self {
            LambdaTerm::Variable { idx } => {
                let position = ctx.len() - 1 - (*idx as usize);
                Ok(ctx.swap_remove(position))
            },
            LambdaTerm::Abstraction { argument_type, body } => {
                match argument_type {
                    Some(argument_type) => {
                        ctx.push(argument_type.clone());
                        assert(context_view(ctx@) =~= types.push(argument_type@));
                        match body.get_type_in_context(ctx) {
                            Ok(return_type) => Ok(
                                Type::FunctionType(
                                    Box::new(argument_type.clone()),
                                    Box::new(return_type),
                                ),
                            ),
                            Err(error) => Err(error),
                        }
                    },
                    None => unreached(),
                }
            },
            LambdaTerm::Application { function, argument } => {
                let function_type = match function.get_type_in_context(copied(&ctx)) {
                    Ok(ty) => ty,
                    Err(error) => {
                        return Err(error);
                    },
                };
                let argument_type = match argument.get_type_in_context(ctx) {
                    Ok(ty) => ty,
                    Err(error) => {
                        return Err(error);
                    },
                };
                match function_type {
                    Type::FunctionType(function_argument_type, return_type) => {
                        if *function_argument_type == argument_type {
                            Ok(*return_type)
                        } else {
                            Err(
                                TypeError::InvalidApplication {
                                    function: (**function).clone(),
                                    function_type: Type::FunctionType(
                                        function_argument_type,
                                        return_type,
                                    ),
                                    argument: (**argument).clone(),
                                    argument_type,
                                },
                            )
                        }
                    },
                    Type::BaseType(name) => Err(
                        TypeError::InvalidApplication {
                            function: (**function).clone(),
                            function_type: Type::BaseType(name),
                            argument: (**argument).clone(),
                            argument_type,
                        },
                    ),
                }
            },
        }
    }
}

} // verus!
