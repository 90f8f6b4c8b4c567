//! Structural equality of types and terms, decided on the trees and stated
//! over their values.

use vstd::prelude::*;
use vstd::std_specs::cmp::PartialEqSpecImpl;
use crate::term::{LambdaTerm, Type};

verus! {

impl Type {
    /// Whether two types are structurally equal: the same base name, or
    /// function types whose argument and result types are equal in turn.
    pub fn same_as(&self, other: &Type) -> (same: bool)
        ensures
            same == (self@ == other@),
        decreases self,
    {
        match (self, other) {
            (Type::BaseType(a), Type::BaseType(b)) => *a == *b,
            (Type::FunctionType(a1, r1), Type::FunctionType(a2, r2)) => {
                a1.same_as(a2) && r1.same_as(r2)
            },
            _ => false,
        }
    }
}

impl PartialEq for Type {
    fn eq(&self, other: &Type) -> (same: bool) {
        self.same_as(other)
    }
}

impl PartialEqSpecImpl for Type {
    open spec fn obeys_eq_spec() -> bool {
        true
    }

    open spec fn eq_spec(&self, other: &Type) -> bool {
        self@ == other@
    }
}

impl LambdaTerm {
    /// Whether two terms are the same tree: equal indices, equal annotations
    /// and equal subterms.
    pub fn same_as(&self, other: &LambdaTerm) -> (same: bool)
        ensures
            same == (self@ == other@),
        decreases self,
    {
        match (self, other) {
            (LambdaTerm::Variable { idx: i }, LambdaTerm::Variable { idx: j }) => *i == *j,
            (
                LambdaTerm::Abstraction { argument_type: t1, body: b1 },
                LambdaTerm::Abstraction { argument_type: t2, body: b2 },
            ) => {
                let same_annotation = match (t1, t2) {
                    (Some(x), Some(y)) => x.same_as(y),
                    (None, None) => true,
                    _ => false,
                };
                same_annotation && b1.same_as(b2)
            },
            (
                LambdaTerm::Application { function: f1, argument: a1 },
                LambdaTerm::Application { function: f2, argument: a2 },
            ) => f1.same_as(f2) && a1.same_as(a2),
            _ => false,
        }
    }
}

impl PartialEq for LambdaTerm {
    fn eq(&self, other: &LambdaTerm) -> (same: bool) {
        self.same_as(other)
    }
}

impl PartialEqSpecImpl for LambdaTerm {
    open spec fn obeys_eq_spec() -> bool {
        true
    }

    open spec fn eq_spec(&self, other: &LambdaTerm) -> bool {
        self@ == other@
    }
}

} // verus!
