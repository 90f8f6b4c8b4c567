//! Substitution and β-reduction to weak head normal form.

use vstd::pervasive::unreached;
use vstd::prelude::*;
use crate::term::{annotation_view, LambdaTerm, SpecTerm, Type};

verus! {

/// How a reduction ended.
#[derive(Debug)]
pub enum Outcome {
    /// The term reduced to this normal form.
    Normal(LambdaTerm),
    /// The head of the term came to be a variable applied to an argument, so
    /// that no rule applies. A closed term never ends so.
    Stuck,
    /// The steps allowed were used up before a normal form was reached.
    OutOfSteps,
}

/// The mathematical value of an [`Outcome`].
pub enum SpecOutcome {
    Normal(SpecTerm),
    Stuck,
    OutOfSteps,
}

impl View for Outcome {
    type V = SpecOutcome;

    open spec fn view(&self) -> SpecOutcome {
        match self {
            Outcome::Normal(term) => SpecOutcome::Normal(term@),
            Outcome::Stuck => SpecOutcome::Stuck,
            Outcome::OutOfSteps => SpecOutcome::OutOfSteps,
        }
    }
}

impl SpecTerm {
    /// The term with `replacement` in place of every variable that refers to
    /// the binder `index` levels outside the term. Under an abstraction that
    /// binder is one level further away; the replacement is put in as it is.
    pub open spec fn substitute(self, index: nat, replacement: SpecTerm) -> SpecTerm
        decreases self,
    {
        match self {
            SpecTerm::Variable { idx } => {
                if idx == index {
                    replacement
                } else {
                    self
                }
            },
            SpecTerm::Abstraction { argument_type, body } => SpecTerm::Abstraction {
                argument_type,
                body: Box::new(body.substitute(index + 1, replacement)),
            },
            SpecTerm::Application { function, argument } => SpecTerm::Application {
                function: Box::new(function.substitute(index, replacement)),
                argument: Box::new(argument.substitute(index, replacement)),
            },
        }
    }

    /// The term is in weak head normal form: a variable or an abstraction.
    pub open spec fn is_normal(self) -> bool {
        !(self is Application)
    }

    /// One step of normal-order reduction at the head of an application:
    /// where the function is an abstraction, its body with the argument,
    /// unreduced, in place of its variable; where the function is an
    /// application itself, the step is taken there. `None` where the head is
    /// a variable, and for a term in normal form.
    pub open spec fn head_step(self) -> Option<SpecTerm>
        decreases self,
    {
        match self {
            SpecTerm::Application { function, argument } => match *function {
                SpecTerm::Abstraction { body, .. } => Some(body.substitute(0, *argument)),
                SpecTerm::Application { .. } => match function.head_step() {
                    Some(next) => Some(SpecTerm::Application { function: Box::new(next), argument }),
                    None => None,
                },
                SpecTerm::Variable { .. } => None,
            },
            _ => None,
        }
    }

    /// Reduction by head steps, at most `budget` of them, with the number of
    /// steps that were left when it ended.
    pub open spec fn run(self, budget: nat) -> (SpecOutcome, nat)
        decreases budget,
    {
        if self.is_normal() {
            (SpecOutcome::Normal(self), budget)
        } else {
            match self.head_step() {
                None => (SpecOutcome::Stuck, budget),
                Some(next) => {
                    if budget == 0 {
                        (SpecOutcome::OutOfSteps, 0)
                    } else {
                        next.run((budget - 1) as nat)
                    }
                },
            }
        }
    }

    /// How reduction by at most `budget` head steps ends.
    pub open spec fn evaluate(self, budget: nat) -> SpecOutcome {
        self.run(budget).0
    }

    /// Some number of head steps takes the term to a normal form.
    pub open spec fn normalizes(self) -> bool {
        exists|budget: nat| (#[trigger] self.evaluate(budget)) is Normal
    }
}

/// A term in memory has no variable beyond the machine integers, so
/// substituting for such an index changes nothing.
proof fn lemma_substitute_beyond_u64(term: LambdaTerm, index: nat, replacement: SpecTerm)
    requires
        index > u64::MAX,
    ensures
        term@.substitute(index, replacement) == term@,
    decreases term,
{
    match term {
        LambdaTerm::Variable { .. } => {},
        LambdaTerm::Abstraction { body, .. } => {
            lemma_substitute_beyond_u64(*body, index + 1, replacement);
        },
        LambdaTerm::Application { function, argument } => {
            lemma_substitute_beyond_u64(*function, index, replacement);
            lemma_substitute_beyond_u64(*argument, index, replacement);
        },
    }
}

/// A run ends with no more steps left than it began with, and a normal
/// outcome is a term in normal form.
pub proof fn lemma_run_bounds(term: SpecTerm, budget: nat)
    ensures
        term.run(budget).1 <= budget,
        term.run(budget).0 matches SpecOutcome::Normal(normal) ==> normal.is_normal(),
    decreases budget,
{
    if !term.is_normal() && term.head_step() is Some && budget > 0 {
        lemma_run_bounds(term.head_step()->0, (budget - 1) as nat);
    }
}

/// An application runs as its function does until that is in normal form,
/// and goes on from there with the steps that are left; it stops where its
/// function stops.
pub proof fn lemma_run_application(function: SpecTerm, argument: SpecTerm, budget: nat)
    ensures
        ({
            let whole = SpecTerm::Application {
                function: Box::new(function),
                argument: Box::new(argument),
            };
            match function.run(budget) {
                (SpecOutcome::Normal(normal), left) => whole.run(budget) == (SpecTerm::Application {
                    function: Box::new(normal),
                    argument: Box::new(argument),
                }).run(left),
                stopped => whole.run(budget) == stopped,
            }
        }),
    decreases budget,
{
    if !function.is_normal() && function.head_step() is Some && budget > 0 {
        lemma_run_application(function.head_step()->0, argument, (budget - 1) as nat);
    }
}

/// More steps than a term needs to reach its normal form change neither the
/// normal form nor the number of steps taken.
pub proof fn lemma_run_more(term: SpecTerm, budget: nat, more: nat)
    requires
        term.evaluate(budget) is Normal,
    ensures
        term.run(budget + more) == (term.run(budget).0, term.run(budget).1 + more),
    decreases budget,
{
    if !term.is_normal() {
        lemma_run_more(term.head_step()->0, (budget - 1) as nat, more);
    }
}

/// The normal form of a term does not depend on the steps allowed, once
/// they suffice.
pub proof fn lemma_normal_form_unique(term: SpecTerm, first: nat, second: nat)
    requires
        term.evaluate(first) is Normal,
        term.evaluate(second) is Normal,
    ensures
        term.evaluate(first) == term.evaluate(second),
{
    if first <= second {
        lemma_run_more(term, first, (second - first) as nat);
    } else {
        lemma_run_more(term, second, (first - second) as nat);
    }
}

/// A copy of an annotation.
fn copied(annotation: &Option<Type>) -> (copy: Option<Type>)
    ensures
        annotation_view(copy) == annotation_view(*annotation),
{
    match annotation {
        Some(ty) => Some(ty.clone()),
        None => None,
    }
}

impl LambdaTerm {
    /// Replace every instance of the variable with de Bruijn index `replacement_idx` in the
    /// current scope with a `LambdaTerm`.
    pub fn replace_idx(&self, new: LambdaTerm, replacement_idx: u64) -> (replaced: LambdaTerm)
        ensures
            replaced@ == self@.substitute(replacement_idx as nat, new@),
        decreases self,
    {
        match self {
            LambdaTerm::Variable { idx } => {
                if *idx == replacement_idx {
                    new
                } else {
                    self.clone()
                }
            },
            LambdaTerm::Abstraction { argument_type, body } => {
                let inner = if replacement_idx == u64::MAX {
                    proof {
                        lemma_substitute_beyond_u64(**body, replacement_idx as nat + 1, new@);
                    }
                    (**body).clone()
                } else {
                    body.replace_idx(new, replacement_idx + 1)
                };
                LambdaTerm::Abstraction { argument_type: copied(argument_type), body: Box::new(inner) }
            },
            LambdaTerm::Application { function, argument } => LambdaTerm::Application {
                function: Box::new(function.replace_idx(new.clone(), replacement_idx)),
                argument: Box::new(argument.replace_idx(new, replacement_idx)),
            },
        }
    }

    /// Reduction with the steps counted: the outcome and the steps left.
    fn run(&self, budget: u64) -> (ended: (Outcome, u64))
        ensures
            (ended.0@, ended.1 as nat) == self@.run(budget as nat),
        decreases budget, self,
    {
        match self {
            LambdaTerm::Application { function, argument } => {
                let (reduced, left) = function.run(budget);
                proof {
                    lemma_run_application(function@, argument@, budget as nat);
                    lemma_run_bounds(function@, budget as nat);
                }
                match reduced {
                    Outcome::Normal(LambdaTerm::Abstraction { body, .. }) => {
                        if left == 0 {
                            (Outcome::OutOfSteps, 0)
                        } else {
                            body.replace_idx((**argument).clone(), 0).run(left - 1)
                        }
                    },
                    Outcome::Normal(_) => (Outcome::Stuck, left),
                    Outcome::Stuck => (Outcome::Stuck, left),
                    Outcome::OutOfSteps => (Outcome::OutOfSteps, left),
                }
            },
            _ => (Outcome::Normal(self.clone()), budget),
        }
    }

    /// Apply β-reduction to the term, taking at most `max_steps` steps.
    ///
    /// The function of an application is reduced first; the argument is put
    /// into the body of the resulting abstraction unreduced, and the result
    /// is reduced in turn. Nothing under an abstraction is reduced.
    pub fn beta_reduce_within(&self, max_steps: u64) -> (outcome: Outcome)
        ensures
            outcome@ == self@.evaluate(max_steps as nat),
    {
        self.run(max_steps).0
    }

    /// Reduction of a term that `budget` steps take to a normal form.
    fn reduce(&self, Ghost(budget): Ghost<nat>) -> (normal: LambdaTerm)
        requires
            self@.evaluate(budget) is Normal,
        ensures
            self@.evaluate(budget) == SpecOutcome::Normal(normal@),
        decreases budget, self,
    {
        match self {
            LambdaTerm::Application { function, argument } => {
                proof {
                    lemma_run_application(function@, argument@, budget);
                    lemma_run_bounds(function@, budget);
                }
                let ghost left = function@.run(budget).1;
                match function.reduce(Ghost(budget)) {
                    LambdaTerm::Abstraction { body, .. } => {
                        body.replace_idx((**argument).clone(), 0).reduce(Ghost((left - 1) as nat))
                    },
                    _ => unreached(),
                }
            },
            _ => self.clone(),
        }
    }

    /// Apply β-reduction to a given expression in the lambda calculus.
    ///
    /// The term must have a normal form that reduction reaches; the result
    /// is that normal form, whatever number of steps it takes.
    pub fn beta_reduce(&self) -> (normal: LambdaTerm)
        requires
            self@.normalizes(),
        ensures
            normal@.is_normal(),
            forall|budget: nat| (#[trigger] self@.evaluate(budget)) is Normal ==> self@.evaluate(budget)
                == SpecOutcome::Normal(normal@),
    {
        let ghost enough = choose|budget: nat| (#[trigger] self@.evaluate(budget)) is Normal;
        let normal = self.reduce(Ghost(enough));
        proof {
            lemma_run_bounds(self@, enough);
            assert forall|budget: nat| (#[trigger] self@.evaluate(budget)) is Normal implies self@.evaluate(
                budget,
            ) == SpecOutcome::Normal(normal@) by {
                lemma_normal_form_unique(self@, budget, enough);
            }
        }
        normal
    }
}

} // verus!
