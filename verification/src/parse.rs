//! From the parse tree to the term: names are resolved to de Bruijn indices
//! and applications of several terms are nested to the left.

use vstd::prelude::*;
use crate::error::{ParseError, SpecParseError};
use crate::grammar::{lemma_parse_program_sound, parse_program};
use crate::pairs::{Pair, Rule, SpecPair};
use crate::parser::KombiParser;
use crate::term::{LambdaTerm, SpecTerm, SpecType, Type};

verus! {

/// The value of what building a term returns.
pub open spec fn built_view(built: Result<LambdaTerm, ParseError>) -> Result<
    SpecTerm,
    SpecParseError,
> {
    match built {
        Ok(term) => Ok(term@),
        Err(error) => Err(error@),
    }
}

/// The de Bruijn index that `name` has under the binders `ctx`, listed from
/// the outermost to the innermost: the number of binders between the
/// innermost binder of that name and the end of the list. Entering an
/// abstraction appends its name, which moves every other name one further
/// away and lets the new name hide an equal one.
pub open spec fn binding_index(ctx: Seq<Seq<char>>, name: Seq<char>) -> Option<nat>
    decreases ctx.len(),
{
    if ctx.len() == 0 {
        None
    } else if ctx.last() == name {
        Some(0nat)
    } else {
        match binding_index(ctx.drop_last(), name) {
            Some(idx) => Some(idx + 1),
            None => None,
        }
    }
}

impl SpecPair {
    /// The type that a type node stands for.
    pub open spec fn as_type(self) -> SpecType
        recommends
            self.is_type(),
        decreases self,
        when self.is_type()
    {
        match self.rule {
            Rule::FunctionType => SpecType::Function(
                Box::new(self.inner[0].as_type()),
                Box::new(self.inner[1].as_type()),
            ),
            _ => SpecType::Base(self.text),
        }
    }

    /// The annotation of an abstraction node: the type of its second inner
    /// node where it has three.
    pub open spec fn annotation(self) -> Option<SpecType> {
        if self.inner.len() == 3 {
            Some(self.inner[1].as_type())
        } else {
            None
        }
    }

    /// The term that a term node stands for under the binders `ctx`, or the
    /// first variable, in source order, that none of them binds.
    pub open spec fn resolve(self, ctx: Seq<Seq<char>>) -> Result<SpecTerm, SpecParseError>
        recommends
            self.is_term(),
        decreases self, 0nat,
        when self.is_term()
    {
        match self.rule {
            Rule::Abstraction => {
                match self.inner.last().resolve(ctx.push(self.inner[0].text)) {
                    Ok(body) => Ok(
                        SpecTerm::Abstraction {
                            argument_type: self.annotation(),
                            body: Box::new(body),
                        },
                    ),
                    Err(error) => Err(error),
                }
            },
            Rule::Application => resolve_application(self.inner, ctx, self.inner.len()),
            // What is left of the terms is the variable.
            _ => match binding_index(ctx, self.text) {
                Some(idx) => Ok(SpecTerm::Variable { idx }),
                None => Err(
                    SpecParseError::UnboundVariableError { identifier: self.text, span: self.span },
                ),
            },
        }
    }
}

/// The first `count` of `terms` applied from left to right: the first to the
/// second, the result to the third, and so on. With several unbound
/// variables the leftmost is reported.
pub open spec fn resolve_application(terms: Seq<SpecPair>, ctx: Seq<Seq<char>>, count: nat) -> Result<
    SpecTerm,
    SpecParseError,
>
    recommends
        1 <= count <= terms.len(),
    decreases terms, count,
    when 1 <= count <= terms.len()
{
    if count == 1 {
        terms[0].resolve(ctx)
    } else {
        match resolve_application(terms, ctx, (count - 1) as nat) {
            Ok(function) => match terms[count - 1].resolve(ctx) {
                Ok(argument) => Ok(
                    SpecTerm::Application {
                        function: Box::new(function),
                        argument: Box::new(argument),
                    },
                ),
                Err(error) => Err(error),
            },
            Err(error) => Err(error),
        }
    }
}

/// Looking `name` up under the first `len` binders of `ctx`, when none of
/// the later ones has that name, finds the binder that the whole list gives,
/// further away by the number of binders passed over.
proof fn lemma_binding_index_skips(ctx: Seq<Seq<char>>, name: Seq<char>, len: int)
    requires
        0 <= len <= ctx.len(),
        forall|j: int| len <= j < ctx.len() ==> ctx[j] != name,
    ensures
        binding_index(ctx, name) == match binding_index(ctx.take(len), name) {
            Some(idx) => Some((idx + ctx.len() - len) as nat),
            None => None,
        },
    decreases ctx.len() - len,
{
    if len == ctx.len() {
        assert(ctx.take(len) == ctx);
    } else {
        assert(ctx.last() != name);
        assert(ctx.drop_last().take(len) == ctx.take(len));
        lemma_binding_index_skips(ctx.drop_last(), name, len);
    }
}

/// The index under which `name` is bound by `ctx`, whose last entry is the
/// innermost binder.
pub fn lookup(ctx: &Vec<String>, name: &String) -> (found: Option<u64>)
    ensures
        match found {
            Some(idx) => binding_index(ctx.deep_view(), name@) == Some(idx as nat),
            None => binding_index(ctx.deep_view(), name@) is None,
        },
{
    let ghost names = ctx.deep_view();
    let mut i: usize = ctx.len();
    while i > 0
        invariant
            i <= ctx.len(),
            names == ctx.deep_view(),
            names.len() == ctx.len(),
            forall|j: int| i <= j < names.len() ==> names[j] != name@,
        decreases i,
    {
        i = i - 1;
        if ctx[i] == *name {
            proof {
                assert(names[i as int] == ctx[i as int]@);
                lemma_binding_index_skips(names, name@, i + 1);
                assert(names.take(i + 1).last() == name@);
            }
            return Some((ctx.len() - 1 - i) as u64);
        }
        proof {
            assert(names[i as int] == ctx[i as int]@);
        }
    }
    proof {
        lemma_binding_index_skips(names, name@, 0);
        assert(names.take(0).len() == 0);
    }
    None
}

/// A copy of the binders with one more, innermost, binder.
fn extended(ctx: &Vec<String>, name: &String) -> (inner: Vec<String>)
    ensures
        inner.deep_view() == ctx.deep_view().push(name@),
{
    let mut inner: Vec<String> = Vec::new();
    let mut i: usize = 0;
    while i < ctx.len()
        invariant
            i <= ctx.len(),
            inner.len() == i,
            forall|j: int| 0 <= j < i ==> inner[j]@ == ctx[j]@,
        decreases ctx.len() - i,
    {
        inner.push(ctx[i].clone());
        i = i + 1;
    }
    inner.push(name.clone());
    assert(inner.deep_view() =~= ctx.deep_view().push(name@));
    inner
}

impl Type {
    /// The type that a type node of the parse tree stands for.
    pub fn from_pair(pair: &Pair) -> (ty: Type)
        requires
            pair@.is_type(),
        ensures
            ty@ == pair@.as_type(),
        decreases pair,
    {
        match pair.rule {
            Rule::FunctionType => {
                let argument = Type::from_pair(&pair.inner[0]);
                let result = Type::from_pair(&pair.inner[1]);
                Type::FunctionType(Box::new(argument), Box::new(result))
            },
            _ => Type::BaseType(pair.text.clone()),
        }
    }
}

impl LambdaTerm {
    /// The term that a term node of the parse tree stands for, where `ctx`
    /// names the abstractions around it from the outermost to the innermost.
    ///
    /// A variable becomes the index of the innermost binder of its name; an
    /// abstraction is built in the context extended by its own name, which
    /// the terms beside it never see; an application of several terms is
    /// nested to the left. The leftmost variable that no binder names is the
    /// error.
    pub fn from_pair(pair: &Pair, ctx: &Vec<String>) -> (built: Result<LambdaTerm, ParseError>)
        requires
            pair@.is_term(),
        ensures
            built_view(built) == pair@.resolve(ctx.deep_view()),
        decreases pair,
    {
        match pair.rule {
            Rule::Abstraction => {
                let count = pair.inner.len();
                let argument_type = if count == 3 {
                    Some(Type::from_pair(&pair.inner[1]))
                } else {
                    None
                };
                let inner_ctx = extended(ctx, &pair.inner[0].text);
                match LambdaTerm::from_pair(&pair.inner[count - 1], &inner_ctx) {
                    Ok(body) => Ok(LambdaTerm::Abstraction { argument_type, body: Box::new(body) }),
                    Err(error) => Err(error),
                }
            },
            Rule::Application => {
                let ghost terms = pair@.inner;
                let ghost names = ctx.deep_view();
                let mut applied = match LambdaTerm::from_pair(&pair.inner[0], ctx) {
                    Ok(function) => function,
                    Err(error) => {
                        proof {
                            lemma_application_fails(terms, names, 1, terms.len());
                        }
                        return Err(error);
                    },
                };
                let mut i: usize = 1;
                while i < pair.inner.len()
                    invariant
                        1 <= i <= pair.inner.len(),
                        terms == pair@.inner,
                        terms.len() == pair.inner.len(),
                        names == ctx.deep_view(),
                        pair@.is_term(),
                        pair.rule == Rule::Application,
                        resolve_application(terms, names, i as nat) == Ok::<SpecTerm, SpecParseError>(
                            applied@,
                        ),
                    ensures
                        i == pair.inner.len(),
                        resolve_application(terms, names, i as nat) == Ok::<SpecTerm, SpecParseError>(
                            applied@,
                        ),
                    decreases pair.inner.len() - i,
                {
                    assert(terms[i as int] == pair.inner[i as int]@);
                    match LambdaTerm::from_pair(&pair.inner[i], ctx) {
                        Ok(argument) => {
                            applied = LambdaTerm::Application {
                                function: Box::new(applied),
                                argument: Box::new(argument),
                            };
                        },
                        Err(error) => {
                            proof {
                                lemma_application_fails(terms, names, i as nat + 1, terms.len());
                            }
                            return Err(error);
                        },
                    }
                    i = i + 1;
                }
                Ok(applied)
            },
            _ => match lookup(ctx, &pair.text) {
                Some(idx) => Ok(LambdaTerm::Variable { idx }),
                None => Err(
                    ParseError::UnboundVariableError {
                        identifier: pair.text.clone(),
                        span: pair.span,
                    },
                ),
            },
        }
    }
}

/// Once the first `failed` terms do not resolve, no longer run of them does,
/// and the error stays the same.
proof fn lemma_application_fails(terms: Seq<SpecPair>, ctx: Seq<Seq<char>>, failed: nat, count: nat)
    requires
        1 <= failed <= count <= terms.len(),
        resolve_application(terms, ctx, failed) is Err,
    ensures
        resolve_application(terms, ctx, count) == resolve_application(terms, ctx, failed),
    decreases count,
{
    if failed < count {
        lemma_application_fails(terms, ctx, failed, (count - 1) as nat);
    }
}

/// A name that is bound is bound by one of the binders.
proof fn lemma_binding_index_bound(ctx: Seq<Seq<char>>, name: Seq<char>)
    ensures
        binding_index(ctx, name) matches Some(idx) ==> idx < ctx.len(),
    decreases ctx.len(),
{
    if ctx.len() > 0 && ctx.last() != name {
        lemma_binding_index_bound(ctx.drop_last(), name);
    }
}

/// The term built from a parse tree has no variable beyond the binders it
/// was built under.
pub proof fn lemma_resolve_closed(pair: SpecPair, ctx: Seq<Seq<char>>)
    requires
        pair.is_term(),
    ensures
        pair.resolve(ctx) matches Ok(term) ==> term.closed_at(ctx.len()),
    decreases pair, 0nat,
{
    match pair.rule {
        Rule::Abstraction => {
            lemma_resolve_closed(pair.inner.last(), ctx.push(pair.inner[0].text));
        },
        Rule::Application => {
            lemma_resolve_application_closed(pair.inner, ctx, pair.inner.len());
        },
        _ => {
            lemma_binding_index_bound(ctx, pair.text);
        },
    }
}

/// The application built from parse trees has no variable beyond the
/// binders it was built under.
pub proof fn lemma_resolve_application_closed(terms: Seq<SpecPair>, ctx: Seq<Seq<char>>, count: nat)
    requires
        1 <= count <= terms.len(),
        forall|i: int| 0 <= i < terms.len() ==> (#[trigger] terms[i]).is_term(),
    ensures
        resolve_application(terms, ctx, count) matches Ok(term) ==> term.closed_at(ctx.len()),
    decreases terms, count,
{
    if count == 1 {
        lemma_resolve_closed(terms[0], ctx);
    } else {
        lemma_resolve_application_closed(terms, ctx, (count - 1) as nat);
        lemma_resolve_closed(terms[count - 1], ctx);
    }
}

/// Applying the first `count` terms asks for nothing of the later ones.
proof fn lemma_resolve_application_prefix(
    terms: Seq<SpecPair>,
    others: Seq<SpecPair>,
    ctx: Seq<Seq<char>>,
    count: nat,
)
    requires
        1 <= count <= terms.len(),
        count <= others.len(),
        forall|i: int| 0 <= i < count ==> terms[i] == others[i],
    ensures
        resolve_application(terms, ctx, count) == resolve_application(others, ctx, count),
    decreases count,
{
    if count > 1 {
        lemma_resolve_application_prefix(terms, others, ctx, (count - 1) as nat);
    }
}

/// Left fold: an application node of three or more terms stands for the
/// same term as the node that applies an application of all but the last
/// of them to the last.
pub proof fn law_application_nests_left(flat: SpecPair, nested: SpecPair, ctx: Seq<Seq<char>>)
    requires
        flat.is_term(),
        flat.rule == Rule::Application,
        flat.inner.len() >= 3,
        nested.rule == Rule::Application,
        nested.inner.len() == 2,
        nested.inner[0].rule == Rule::Application,
        nested.inner[0].inner == flat.inner.drop_last(),
        nested.inner[1] == flat.inner.last(),
    ensures
        nested.is_term(),
        nested.resolve(ctx) == flat.resolve(ctx),
{
    let terms = flat.inner;
    let leading = nested.inner[0];
    let count = terms.len();
    assert forall|i: int| 0 <= i < leading.inner.len() implies (#[trigger] leading.inner[i]).is_term() by {
        assert(leading.inner[i] == terms[i]);
    }
    assert(leading.is_term());
    assert(terms[count - 1].is_term());
    assert forall|i: int| 0 <= i < nested.inner.len() implies (#[trigger] nested.inner[i]).is_term() by {
        if i == 0 {
        } else {
            assert(nested.inner[1] == terms[count - 1]);
        }
    }
    assert(nested.is_term());
    lemma_resolve_application_prefix(leading.inner, terms, ctx, (count - 1) as nat);
    assert(leading.resolve(ctx) == resolve_application(leading.inner, ctx, (count - 1) as nat));
    assert(resolve_application(nested.inner, ctx, 1) == leading.resolve(ctx));
    assert(nested.resolve(ctx) == resolve_application(nested.inner, ctx, 2));
    assert(flat.resolve(ctx) == resolve_application(terms, ctx, count));
}

/// The type of a type node names its base types by identifiers.
pub proof fn lemma_as_type_well_named(pair: SpecPair)
    requires
        pair.is_type(),
    ensures
        pair.as_type().is_well_named(),
    decreases pair,
{
    if pair.rule == Rule::FunctionType {
        lemma_as_type_well_named(pair.inner[0]);
        lemma_as_type_well_named(pair.inner[1]);
    }
}

/// The term built from a parse tree names its base types by identifiers.
pub proof fn lemma_resolve_well_named(pair: SpecPair, ctx: Seq<Seq<char>>)
    requires
        pair.is_term(),
    ensures
        pair.resolve(ctx) matches Ok(term) ==> term.is_well_named(),
    decreases pair, 0nat,
{
    match pair.rule {
        Rule::Abstraction => {
            if pair.inner.len() == 3 {
                lemma_as_type_well_named(pair.inner[1]);
            }
            lemma_resolve_well_named(pair.inner.last(), ctx.push(pair.inner[0].text));
        },
        Rule::Application => {
            lemma_resolve_application_well_named(pair.inner, ctx, pair.inner.len());
        },
        _ => {},
    }
}

/// The application built from parse trees names its base types by
/// identifiers.
pub proof fn lemma_resolve_application_well_named(
    terms: Seq<SpecPair>,
    ctx: Seq<Seq<char>>,
    count: nat,
)
    requires
        1 <= count <= terms.len(),
        forall|i: int| 0 <= i < terms.len() ==> (#[trigger] terms[i]).is_term(),
    ensures
        resolve_application(terms, ctx, count) matches Ok(term) ==> term.is_well_named(),
    decreases terms, count,
{
    if count == 1 {
        lemma_resolve_well_named(terms[0], ctx);
    } else {
        lemma_resolve_application_well_named(terms, ctx, (count - 1) as nat);
        lemma_resolve_well_named(terms[count - 1], ctx);
    }
}

/// What a text parses to can be written back: it has no free variable, and
/// its base types are named by identifiers.
pub proof fn law_parsed_is_closed(s: Seq<char>)
    ensures
        parse(s) matches Ok(term) ==> term.is_closed() && term.is_well_named(),
{
    lemma_parse_program_sound(s);
    if let Ok(pair) = parse_program(s) {
        lemma_resolve_closed(pair, Seq::empty());
        lemma_resolve_well_named(pair, Seq::empty());
    }
}

/// The term that a source text denotes: its parse tree, resolved under no
/// binder. A text that does not follow the grammar gives the syntax error,
/// whatever its variables; one that does gives its leftmost unbound
/// variable, if it has any.
pub open spec fn parse(s: Seq<char>) -> Result<SpecTerm, SpecParseError> {
    match parse_program(s) {
        Ok(pair) => pair.resolve(Seq::empty()),
        Err(error) => Err(error),
    }
}

impl LambdaTerm {
    /// Create a new `LambdaTerm` from the given string, according to our grammar.
    pub fn from_str(string: &str) -> (built: Result<LambdaTerm, ParseError>)
        ensures
            built_view(built) == parse(string@),
            built matches Ok(term) ==> term@.is_closed() && term@.is_well_named(),
    {
        let parsed = match KombiParser::parse(string) {
            Ok(pair) => pair,
            Err(error) => {
                return Err(error);
            },
        };
        let ctx: Vec<String> = Vec::new();
        proof {
            assert(ctx.deep_view() =~= Seq::empty());
            law_parsed_is_closed(string@);
        }
        LambdaTerm::from_pair(&parsed, &ctx)
    }
}

} // verus!
