//! What holds of reduction and typing on every term.

use vstd::prelude::*;
use crate::reduce::SpecOutcome;
use crate::term::{SpecTerm, SpecType};

verus! {

/// The application of `function` to `argument`.
pub open spec fn apply(function: SpecTerm, argument: SpecTerm) -> SpecTerm {
    SpecTerm::Application { function: Box::new(function), argument: Box::new(argument) }
}

/// The abstraction of `body`.
pub open spec fn lambda(argument_type: Option<SpecType>, body: SpecTerm) -> SpecTerm {
    SpecTerm::Abstraction { argument_type, body: Box::new(body) }
}

/// The function that returns its argument.
pub open spec fn identity(argument_type: Option<SpecType>) -> SpecTerm {
    lambda(argument_type, SpecTerm::Variable { idx: 0 })
}

/// The function that takes two arguments in turn and returns the first.
pub open spec fn constant(first_type: Option<SpecType>, second_type: Option<SpecType>) -> SpecTerm {
    lambda(first_type, lambda(second_type, SpecTerm::Variable { idx: 1 }))
}

/// A term closed under some binders is closed under more.
pub proof fn lemma_closed_deeper(term: SpecTerm, depth: nat, deeper: nat)
    requires
        term.closed_at(depth),
        depth <= deeper,
    ensures
        term.closed_at(deeper),
    decreases term,
{
    match term {
        SpecTerm::Variable { .. } => {},
        SpecTerm::Abstraction { body, .. } => {
            lemma_closed_deeper(*body, depth + 1, deeper + 1);
        },
        SpecTerm::Application { function, argument } => {
            lemma_closed_deeper(*function, depth, deeper);
            lemma_closed_deeper(*argument, depth, deeper);
        },
    }
}

/// Substituting for a binder that no variable of the term refers to leaves
/// the term as it is.
pub proof fn lemma_substitute_closed(term: SpecTerm, depth: nat, index: nat, replacement: SpecTerm)
    requires
        term.closed_at(depth),
        depth <= index,
    ensures
        term.substitute(index, replacement) == term,
    decreases term,
{
    match term {
        SpecTerm::Variable { .. } => {},
        SpecTerm::Abstraction { body, .. } => {
            lemma_substitute_closed(*body, depth + 1, index + 1, replacement);
        },
        SpecTerm::Application { function, argument } => {
            lemma_substitute_closed(*function, depth, index, replacement);
            lemma_substitute_closed(*argument, depth, index, replacement);
        },
    }
}

/// Substituting a closed term for the outermost free variable of a term
/// leaves a term with one free variable less.
pub proof fn lemma_substitute_closes(term: SpecTerm, index: nat, replacement: SpecTerm)
    requires
        term.closed_at(index + 1),
        replacement.is_closed(),
    ensures
        term.substitute(index, replacement).closed_at(index),
    decreases term,
{
    match term {
        SpecTerm::Variable { idx } => {
            if idx == index {
                lemma_closed_deeper(replacement, 0, index);
            }
        },
        SpecTerm::Abstraction { body, .. } => {
            lemma_substitute_closes(*body, index + 1, replacement);
        },
        SpecTerm::Application { function, argument } => {
            lemma_substitute_closes(*function, index, replacement);
            lemma_substitute_closes(*argument, index, replacement);
        },
    }
}

/// A head step of a closed application is there to take, and leaves a
/// closed term.
pub proof fn lemma_closed_steps(term: SpecTerm)
    requires
        term.is_closed(),
        term is Application,
    ensures
        term.head_step() is Some,
        term.head_step()->0.is_closed(),
    decreases term,
{
    let function = *term->function;
    let argument = *term->argument;
    assert(function.closed_at(0) && argument.closed_at(0));
    match function {
        SpecTerm::Abstraction { body, .. } => {
            lemma_substitute_closes(*body, 0, argument);
        },
        SpecTerm::Application { .. } => {
            lemma_closed_steps(function);
        },
        SpecTerm::Variable { .. } => {},
    }
}

/// Reduction of a closed term never gets stuck: it ends in a closed normal
/// form, or the steps run out.
pub proof fn law_closed_never_stuck(term: SpecTerm, budget: nat)
    requires
        term.is_closed(),
    ensures
        !(term.evaluate(budget) is Stuck),
        term.evaluate(budget) matches SpecOutcome::Normal(normal) ==> normal.is_closed()
            && normal is Abstraction,
    decreases budget,
{
    if term is Application {
        lemma_closed_steps(term);
        if budget > 0 {
            law_closed_never_stuck(term.head_step()->0, (budget - 1) as nat);
        }
    }
}

/// Applying the identity function to a term takes one step and then goes on
/// as the term itself does. So for a term that is in normal form already,
/// the application reduces to that very term.
pub proof fn law_identity_application(argument_type: Option<SpecType>, term: SpecTerm, budget: nat)
    ensures
        apply(identity(argument_type), term).evaluate(budget + 1) == term.evaluate(budget),
        term.is_normal() ==> apply(identity(argument_type), term).evaluate(budget + 1)
            == SpecOutcome::Normal(term),
{
    let whole = apply(identity(argument_type), term);
    assert(whole.head_step() == Some(term));
    assert(whole.run(budget + 1) == term.run(budget));
}

/// Applying the constant function to a closed term and then to any second
/// term takes two steps and then goes on as the first term does: the
/// substitution for the outer variable passes the inner binder, and the
/// second argument is dropped. So for a closed first term in normal form,
/// the application reduces to that very term.
pub proof fn law_constant_application(
    first_type: Option<SpecType>,
    second_type: Option<SpecType>,
    first: SpecTerm,
    second: SpecTerm,
    budget: nat,
)
    requires
        first.is_closed(),
    ensures
        apply(apply(constant(first_type, second_type), first), second).evaluate(budget + 2)
            == first.evaluate(budget),
        first.is_normal() ==> apply(
            apply(constant(first_type, second_type), first),
            second,
        ).evaluate(budget + 2) == SpecOutcome::Normal(first),
{
    let partial = apply(constant(first_type, second_type), first);
    let whole = apply(partial, second);
    let once = apply(lambda(second_type, first), second);
    let variable = SpecTerm::Variable { idx: 1 };
    assert(variable.substitute(1, first) == first);
    assert(lambda(second_type, variable).substitute(0, first) == lambda(second_type, first));
    assert(partial.head_step() == Some(lambda(second_type, first)));
    assert(whole.head_step() == Some(once));
    lemma_substitute_closed(first, 0, 0, second);
    assert(once.head_step() == Some(first));
    assert(once.run(budget + 1) == first.run(budget));
    assert(whole.run(budget + 2) == once.run((budget + 1) as nat));
}

/// A term that has a type under some types has no variable beyond them and
/// no abstraction without an annotation: only such terms are worth checking.
pub proof fn law_typed_is_scoped(term: SpecTerm, ctx: Seq<SpecType>)
    requires
        term.type_in(ctx) is Some,
    ensures
        term.closed_at(ctx.len()),
        term.is_annotated(),
    decreases term,
{
    match term {
        SpecTerm::Variable { .. } => {},
        SpecTerm::Abstraction { argument_type, body } => {
            law_typed_is_scoped(*body, ctx.push(argument_type->0));
        },
        SpecTerm::Application { function, argument } => {
            law_typed_is_scoped(*function, ctx);
            law_typed_is_scoped(*argument, ctx);
        },
    }
}

/// The type of a term does not change when types are put around its
/// context: only the innermost ones are looked at.
pub proof fn lemma_type_in_wider(term: SpecTerm, outer: Seq<SpecType>, ctx: Seq<SpecType>)
    requires
        term.type_in(ctx) is Some,
    ensures
        term.type_in(outer + ctx) == term.type_in(ctx),
    decreases term,
{
    match term {
        SpecTerm::Variable { .. } => {},
        SpecTerm::Abstraction { argument_type, body } => {
            let annotation = argument_type->0;
            lemma_type_in_wider(*body, outer, ctx.push(annotation));
            assert((outer + ctx).push(annotation) =~= outer + ctx.push(annotation));
        },
        SpecTerm::Application { function, argument } => {
            lemma_type_in_wider(*function, outer, ctx);
            lemma_type_in_wider(*argument, outer, ctx);
        },
    }
}

/// Substituting a closed term of the type that the outermost variable has
/// keeps the type of a term, which then needs that variable's type no more.
pub proof fn lemma_substitute_keeps_type(
    term: SpecTerm,
    replacement: SpecTerm,
    replaced: SpecType,
    ctx: Seq<SpecType>,
)
    requires
        replacement.type_of() == Some(replaced),
        term.type_in(seq![replaced] + ctx) is Some,
    ensures
        term.substitute(ctx.len(), replacement).type_in(ctx) == term.type_in(seq![replaced] + ctx),
    decreases term,
{
    let wide = seq![replaced] + ctx;
    match term {
        SpecTerm::Variable { idx } => {
            if idx == ctx.len() {
                lemma_type_in_wider(replacement, ctx, Seq::empty());
                assert(ctx + Seq::<SpecType>::empty() =~= ctx);
            }
        },
        SpecTerm::Abstraction { argument_type, body } => {
            let annotation = argument_type->0;
            assert(wide.push(annotation) =~= seq![replaced] + ctx.push(annotation));
            lemma_substitute_keeps_type(*body, replacement, replaced, ctx.push(annotation));
        },
        SpecTerm::Application { function, argument } => {
            lemma_substitute_keeps_type(*function, replacement, replaced, ctx);
            lemma_substitute_keeps_type(*argument, replacement, replaced, ctx);
        },
    }
}

/// A head step keeps the type of a closed term.
pub proof fn lemma_step_keeps_type(term: SpecTerm)
    requires
        term.type_of() is Some,
        term.head_step() is Some,
    ensures
        term.head_step()->0.type_of() == term.type_of(),
    decreases term,
{
    let function = *term->function;
    let argument = *term->argument;
    match function {
        SpecTerm::Abstraction { argument_type, body } => {
            let annotation = argument_type->0;
            assert(Seq::<SpecType>::empty().push(annotation) =~= seq![annotation] + Seq::empty());
            lemma_substitute_keeps_type(*body, argument, annotation, Seq::empty());
        },
        SpecTerm::Application { .. } => {
            lemma_step_keeps_type(function);
        },
        SpecTerm::Variable { .. } => {},
    }
}

/// Reduction preserves types: a well-typed term that reduces to a normal
/// form within some number of steps has the type of that normal form.
pub proof fn law_type_preservation(term: SpecTerm, budget: nat)
    requires
        term.type_of() is Some,
        term.evaluate(budget) is Normal,
    ensures
        term.evaluate(budget)->Normal_0.type_of() == term.type_of(),
    decreases budget,
{
    if !term.is_normal() {
        lemma_step_keeps_type(term);
        law_type_preservation(term.head_step()->0, (budget - 1) as nat);
    }
}

} // verus!
