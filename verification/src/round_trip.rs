//! What is written in the grammar parses to the term it was written from.

use vstd::prelude::*;
use crate::error::SpecParseError;
use crate::grammar::{
    char_at, identifier, identifier_end, is_identifier, is_letter, lemma_parse_term_sound,
    lemma_parse_type_sound, letter_at, node, parse_abstraction, parse_arguments, parse_body,
    parse_term, parse_type, skip_whitespace,
};
use crate::laws::{apply, lambda};
use crate::pairs::{Rule, SpecPair};
use crate::parse::{binding_index, parse, resolve_application};
use crate::source::{
    binder_name, binder_names, lemma_binder_name_injective, lemma_binder_name_is_identifier,
};
use crate::term::{SpecTerm, SpecType};

verus! {

/// `piece` stands in `s` from `pos` on.
pub open spec fn text_at(s: Seq<char>, pos: nat, piece: Seq<char>) -> bool {
    &&& pos + piece.len() <= s.len()
    &&& forall|i: int| 0 <= i < piece.len() ==> s[pos + i] == #[trigger] piece[i]
}

/// No letter stands at `end`, so that an identifier before it ends there.
pub open spec fn word_ends(s: Seq<char>, end: nat) -> bool {
    end >= s.len() || !is_letter(s[end as int])
}

/// `piece` begins as a term or a type does: with a letter or an opening
/// parenthesis.
pub open spec fn opens(piece: Seq<char>) -> bool {
    piece.len() > 0 && (is_letter(piece[0]) || piece[0] == '(')
}

/// Where two pieces stand one after the other, each stands in its place.
pub proof fn lemma_text_at_parts(s: Seq<char>, pos: nat, left: Seq<char>, right: Seq<char>)
    requires
        text_at(s, pos, left + right),
    ensures
        text_at(s, pos, left),
        text_at(s, pos + left.len(), right),
{
    let whole = left + right;
    assert forall|i: int| 0 <= i < left.len() implies s[pos + i] == #[trigger] left[i] by {
        assert(whole[i] == left[i]);
    }
    assert forall|i: int| 0 <= i < right.len() implies s[pos + left.len() + i]
        == #[trigger] right[i] by {
        assert(whole[left.len() + i] == right[i]);
    }
}

/// Nothing is skipped before what begins a term or a type.
pub proof fn lemma_skip_nothing(s: Seq<char>, pos: nat, piece: Seq<char>)
    requires
        text_at(s, pos, piece),
        opens(piece),
    ensures
        skip_whitespace(s, pos) == pos,
        pos < s.len(),
        s[pos as int] == piece[0],
{
}

/// An identifier that stands in the text, with no letter after it, is read
/// whole.
pub proof fn lemma_identifier_read(s: Seq<char>, pos: nat, name: Seq<char>, read: nat)
    requires
        is_identifier(name),
        text_at(s, pos, name),
        word_ends(s, pos + name.len()),
        read <= name.len(),
    ensures
        identifier_end(s, pos + read) == pos + name.len(),
    decreases name.len() - read,
{
    if read < name.len() {
        assert(s[pos + (read as int)] == name[read as int]);
        lemma_identifier_read(s, pos, name, read + 1);
    }
}

/// An identifier that stands in the text, with no letter after it, gives the
/// node of that identifier.
pub proof fn lemma_identifier_node(rule: Rule, s: Seq<char>, pos: nat, name: Seq<char>)
    requires
        is_identifier(name),
        text_at(s, pos, name),
        word_ends(s, pos + name.len()),
    ensures
        letter_at(s, pos),
        identifier_end(s, pos) == pos + name.len(),
        identifier(rule, s, pos).text == name,
        identifier(rule, s, pos).rule == rule,
        identifier(rule, s, pos).inner.len() == 0,
{
    lemma_identifier_read(s, pos, name, 0);
    assert(s[pos + 0int] == name[0]);
    assert(s.subrange(pos as int, (pos + name.len()) as int) =~= name);
}

/// A type is written beginning with a letter or an opening parenthesis.
pub proof fn lemma_type_source_opens(ty: SpecType)
    requires
        ty.is_well_named(),
    ensures
        opens(ty.source()),
{
    match ty {
        SpecType::Base(name) => {},
        SpecType::Function(argument, result) => {
            let written = seq!['('] + argument.source() + seq![')', '→'] + result.source();
            assert(written[0] == '(');
        },
    }
}

/// A term is written beginning with a letter or an opening parenthesis.
pub proof fn lemma_term_source_opens(term: SpecTerm, depth: nat)
    ensures
        opens(term.source(depth)),
{
    match term {
        SpecTerm::Variable { idx } => {
            lemma_binder_name_is_identifier((depth - 1 - idx) as nat);
        },
        SpecTerm::Abstraction { argument_type: Some(annotation), body } => {
            let written = seq!['(', 'λ'] + binder_name(depth) + seq![':'] + annotation.source()
                + seq!['.'] + body.source(depth + 1) + seq![')'];
            assert(written[0] == '(');
        },
        SpecTerm::Abstraction { argument_type: None, body } => {
            let written = seq!['(', 'λ'] + binder_name(depth) + seq!['.'] + body.source(depth + 1)
                + seq![')'];
            assert(written[0] == '(');
        },
        SpecTerm::Application { function, argument } => {
            let written = seq!['('] + function.source(depth) + seq![' '] + argument.source(depth)
                + seq![')'];
            assert(written[0] == '(');
        },
    }
}

/// Under the made-up names, the name of the binder at depth `binder` is
/// bound with the index that counts the binders after it.
pub proof fn lemma_made_up_name_bound(depth: nat, binder: nat)
    requires
        binder < depth,
    ensures
        binding_index(binder_names(depth), binder_name(binder)) == Some((depth - 1 - binder) as nat),
    decreases depth,
{
    let names = binder_names(depth);
    assert(names.last() == binder_name((depth - 1) as nat));
    if binder + 1 < depth {
        if names.last() == binder_name(binder) {
            lemma_binder_name_injective((depth - 1) as nat, binder);
        }
        assert(names.drop_last() =~= binder_names((depth - 1) as nat));
        lemma_made_up_name_bound((depth - 1) as nat, binder);
    }
}

/// A type that stands written in the text, with no letter after it, parses
/// to a node of that type which ends where the writing ends.
pub proof fn lemma_type_parses(ty: SpecType, s: Seq<char>, pos: nat)
    requires
        ty.is_well_named(),
        text_at(s, pos, ty.source()),
        word_ends(s, pos + ty.source().len()),
    ensures
        parse_type(s, pos) matches Ok((pair, end)) && end == pos + ty.source().len()
            && pair.is_type() && pair.as_type() == ty,
    decreases ty,
{
    lemma_parse_type_sound(s, pos);
    match ty {
        SpecType::Base(name) => {
            lemma_identifier_node(Rule::BaseType, s, pos, name);
        },
        SpecType::Function(argument, result) => {
            let open = seq!['('];
            let mid = seq![')', '→'];
            let a = argument.source();
            let r = result.source();
            lemma_type_source_opens(*argument);
            lemma_type_source_opens(*result);
            lemma_text_at_parts(s, pos, open + a + mid, r);
            lemma_text_at_parts(s, pos, open + a, mid);
            lemma_text_at_parts(s, pos, open, a);
            assert(s[pos + 0int] == open[0]);
            let argument_at = pos + 1;
            lemma_skip_nothing(s, argument_at, a);
            let close_at = argument_at + a.len();
            assert(s[close_at + 0int] == mid[0]);
            assert(s[close_at + 1int] == mid[1]);
            lemma_type_parses(*argument, s, argument_at);
            let result_at = close_at + 2;
            lemma_skip_nothing(s, result_at, r);
            assert(skip_whitespace(s, close_at) == close_at);
            assert(skip_whitespace(s, close_at + 1) == close_at + 1);
            lemma_type_parses(*result, s, result_at);
            let argument_pair = parse_type(s, argument_at)->Ok_0.0;
            let result_pair = parse_type(s, result_at)->Ok_0.0;
            let pair = parse_type(s, pos)->Ok_0.0;
            assert(pair.inner =~= seq![argument_pair, result_pair]);
            assert(pair.inner[0] == argument_pair);
            assert(pair.inner[1] == result_pair);
        },
    }
}

/// A term node at `pos` that ends at `end` and resolves, under the made-up
/// names of `depth` binders, to `term`.
pub open spec fn parses_to(s: Seq<char>, pos: nat, end: nat, depth: nat, term: SpecTerm) -> bool {
    parse_term(s, pos) matches Ok((pair, reached)) && reached == end && pair.is_term()
        && pair.resolve(binder_names(depth)) == Ok::<SpecTerm, SpecParseError>(term)
}

/// Where the parts of an abstraction without annotation stand in the text.
pub proof fn lemma_plain_abstraction_layout(body: SpecTerm, depth: nat, s: Seq<char>, pos: nat)
    requires
        text_at(s, pos, lambda(None, body).source(depth)),
    ensures
        ({
            let name = binder_name(depth);
            let b = body.source(depth + 1);
            &&& char_at(s, pos, '(')
            &&& char_at(s, pos + 1, 'λ')
            &&& text_at(s, pos + 2, name)
            &&& char_at(s, pos + 2 + name.len(), '.')
            &&& text_at(s, pos + 3 + name.len(), b)
            &&& char_at(s, pos + 3 + name.len() + b.len(), ')')
            &&& lambda(None, body).source(depth).len() == 4 + name.len() + b.len()
        }),
{
    let head = seq!['(', 'λ'];
    let name = binder_name(depth);
    let dot = seq!['.'];
    let b = body.source(depth + 1);
    let close = seq![')'];
    lemma_text_at_parts(s, pos, head + name + dot + b, close);
    lemma_text_at_parts(s, pos, head + name + dot, b);
    lemma_text_at_parts(s, pos, head + name, dot);
    lemma_text_at_parts(s, pos, head, name);
    assert(s[pos + 0int] == head[0]);
    assert(s[pos + 1int] == head[1]);
    assert(s[pos + 2 + name.len() + 0int] == dot[0]);
    assert(s[pos + 3 + name.len() + b.len() + 0int] == close[0]);
}

/// Where the parts of an annotated abstraction stand in the text.
pub proof fn lemma_typed_abstraction_layout(
    annotation: SpecType,
    body: SpecTerm,
    depth: nat,
    s: Seq<char>,
    pos: nat,
)
    requires
        text_at(s, pos, lambda(Some(annotation), body).source(depth)),
    ensures
        ({
            let name = binder_name(depth);
            let t = annotation.source();
            let b = body.source(depth + 1);
            &&& char_at(s, pos, '(')
            &&& char_at(s, pos + 1, 'λ')
            &&& text_at(s, pos + 2, name)
            &&& char_at(s, pos + 2 + name.len(), ':')
            &&& text_at(s, pos + 3 + name.len(), t)
            &&& char_at(s, pos + 3 + name.len() + t.len(), '.')
            &&& text_at(s, pos + 4 + name.len() + t.len(), b)
            &&& char_at(s, pos + 4 + name.len() + t.len() + b.len(), ')')
            &&& lambda(Some(annotation), body).source(depth).len() == 5 + name.len() + t.len()
                + b.len()
        }),
{
    let head = seq!['(', 'λ'];
    let name = binder_name(depth);
    let colon = seq![':'];
    let t = annotation.source();
    let dot = seq!['.'];
    let b = body.source(depth + 1);
    let close = seq![')'];
    lemma_text_at_parts(s, pos, head + name + colon + t + dot + b, close);
    lemma_text_at_parts(s, pos, head + name + colon + t + dot, b);
    lemma_text_at_parts(s, pos, head + name + colon + t, dot);
    lemma_text_at_parts(s, pos, head + name + colon, t);
    lemma_text_at_parts(s, pos, head + name, colon);
    lemma_text_at_parts(s, pos, head, name);
    assert(s[pos + 0int] == head[0]);
    assert(s[pos + 1int] == head[1]);
    assert(s[pos + 2 + name.len() + 0int] == colon[0]);
    assert(s[pos + 3 + name.len() + t.len() + 0int] == dot[0]);
    assert(s[pos + 4 + name.len() + t.len() + b.len() + 0int] == close[0]);
}

/// Where the parts of an application stand in the text.
pub proof fn lemma_application_layout(
    function: SpecTerm,
    argument: SpecTerm,
    depth: nat,
    s: Seq<char>,
    pos: nat,
)
    requires
        text_at(s, pos, apply(function, argument).source(depth)),
    ensures
        ({
            let f = function.source(depth);
            let a = argument.source(depth);
            &&& char_at(s, pos, '(')
            &&& text_at(s, pos + 1, f)
            &&& char_at(s, pos + 1 + f.len(), ' ')
            &&& text_at(s, pos + 2 + f.len(), a)
            &&& char_at(s, pos + 2 + f.len() + a.len(), ')')
            &&& apply(function, argument).source(depth).len() == 3 + f.len() + a.len()
        }),
{
    let open = seq!['('];
    let f = function.source(depth);
    let space = seq![' '];
    let a = argument.source(depth);
    let close = seq![')'];
    lemma_text_at_parts(s, pos, open + f + space + a, close);
    lemma_text_at_parts(s, pos, open + f + space, a);
    lemma_text_at_parts(s, pos, open + f, space);
    lemma_text_at_parts(s, pos, open, f);
    assert(s[pos + 0int] == open[0]);
    assert(s[pos + 1 + f.len() + 0int] == space[0]);
    assert(s[pos + 2 + f.len() + a.len() + 0int] == close[0]);
}

/// A variable that stands written in the text parses to itself.
pub proof fn lemma_variable_parses(idx: nat, depth: nat, s: Seq<char>, pos: nat)
    requires
        idx < depth,
        text_at(s, pos, binder_name((depth - 1 - idx) as nat)),
        word_ends(s, pos + binder_name((depth - 1 - idx) as nat).len()),
    ensures
        parses_to(
            s,
            pos,
            pos + binder_name((depth - 1 - idx) as nat).len(),
            depth,
            SpecTerm::Variable { idx },
        ),
{
    let binder = (depth - 1 - idx) as nat;
    lemma_parse_term_sound(s, pos);
    lemma_binder_name_is_identifier(binder);
    lemma_identifier_node(Rule::Variable, s, pos, binder_name(binder));
    lemma_made_up_name_bound(depth, binder);
}

/// An abstraction without annotation that stands written in the text
/// parses to itself, where its body does.
pub proof fn lemma_plain_abstraction_parses(body: SpecTerm, depth: nat, s: Seq<char>, pos: nat)
    requires
        text_at(s, pos, lambda(None, body).source(depth)),
        parses_to(
            s,
            pos + 3 + binder_name(depth).len(),
            pos + 3 + binder_name(depth).len() + body.source(depth + 1).len(),
            depth + 1,
            body,
        ),
    ensures
        parses_to(
            s,
            pos,
            pos + lambda(None, body).source(depth).len(),
            depth,
            lambda(None, body),
        ),
{
    let name = binder_name(depth);
    let b = body.source(depth + 1);
    let name_at = pos + 2;
    let mark_at = name_at + name.len();
    let body_at = mark_at + 1;
    let close_at = body_at + b.len();
    lemma_parse_term_sound(s, pos);
    lemma_plain_abstraction_layout(body, depth, s, pos);
    lemma_binder_name_is_identifier(depth);
    lemma_term_source_opens(body, depth + 1);
    assert(s[name_at + 0int] == name[0]);
    assert(skip_whitespace(s, pos + 1) == pos + 1);
    assert(skip_whitespace(s, name_at) == name_at);
    lemma_identifier_node(Rule::Variable, s, name_at, name);
    assert(skip_whitespace(s, mark_at) == mark_at);
    lemma_skip_nothing(s, body_at, b);
    assert(skip_whitespace(s, close_at) == close_at);
    let name_pair = identifier(Rule::Variable, s, name_at);
    let body_pair = parse_term(s, body_at)->Ok_0.0;
    let parsed = parse_body(s, pos, body_at, seq![name_pair]);
    assert(parsed == parse_abstraction(s, pos, name_at));
    assert(parsed == parse_term(s, pos));
    let pair = parsed->Ok_0.0;
    assert(pair.inner =~= seq![name_pair, body_pair]);
    assert(pair.inner[0] == name_pair);
    assert(pair.inner.last() == body_pair);
    assert(binder_names(depth).push(name) =~= binder_names(depth + 1));
}

/// An annotated abstraction that stands written in the text parses to
/// itself, where its body does.
pub proof fn lemma_typed_abstraction_parses(
    annotation: SpecType,
    body: SpecTerm,
    depth: nat,
    s: Seq<char>,
    pos: nat,
)
    requires
        annotation.is_well_named(),
        text_at(s, pos, lambda(Some(annotation), body).source(depth)),
        parses_to(
            s,
            pos + 4 + binder_name(depth).len() + annotation.source().len(),
            pos + 4 + binder_name(depth).len() + annotation.source().len() + body.source(
                depth + 1,
            ).len(),
            depth + 1,
            body,
        ),
    ensures
        parses_to(
            s,
            pos,
            pos + lambda(Some(annotation), body).source(depth).len(),
            depth,
            lambda(Some(annotation), body),
        ),
{
    let name = binder_name(depth);
    let t = annotation.source();
    let b = body.source(depth + 1);
    let name_at = pos + 2;
    let mark_at = name_at + name.len();
    let type_at = mark_at + 1;
    let dot_at = type_at + t.len();
    let body_at = dot_at + 1;
    let close_at = body_at + b.len();
    lemma_parse_term_sound(s, pos);
    lemma_typed_abstraction_layout(annotation, body, depth, s, pos);
    lemma_binder_name_is_identifier(depth);
    lemma_type_source_opens(annotation);
    lemma_term_source_opens(body, depth + 1);
    assert(s[name_at + 0int] == name[0]);
    assert(skip_whitespace(s, pos + 1) == pos + 1);
    assert(skip_whitespace(s, name_at) == name_at);
    lemma_identifier_node(Rule::Variable, s, name_at, name);
    assert(skip_whitespace(s, mark_at) == mark_at);
    lemma_skip_nothing(s, type_at, t);
    lemma_type_parses(annotation, s, type_at);
    assert(skip_whitespace(s, dot_at) == dot_at);
    lemma_skip_nothing(s, body_at, b);
    assert(skip_whitespace(s, close_at) == close_at);
    let name_pair = identifier(Rule::Variable, s, name_at);
    let type_pair = parse_type(s, type_at)->Ok_0.0;
    let body_pair = parse_term(s, body_at)->Ok_0.0;
    let parsed = parse_body(s, pos, body_at, seq![name_pair, type_pair]);
    assert(parsed == parse_abstraction(s, pos, name_at));
    assert(parsed == parse_term(s, pos));
    let pair = parsed->Ok_0.0;
    assert(pair.inner =~= seq![name_pair, type_pair, body_pair]);
    assert(pair.inner[0] == name_pair);
    assert(pair.inner[1] == type_pair);
    assert(pair.inner.last() == body_pair);
    assert(binder_names(depth).push(name) =~= binder_names(depth + 1));
}

/// An application that stands written in the text parses to itself, where
/// its function and its argument do.
pub proof fn lemma_application_parses(
    function: SpecTerm,
    argument: SpecTerm,
    depth: nat,
    s: Seq<char>,
    pos: nat,
)
    requires
        text_at(s, pos, apply(function, argument).source(depth)),
        parses_to(s, pos + 1, pos + 1 + function.source(depth).len(), depth, function),
        parses_to(
            s,
            pos + 2 + function.source(depth).len(),
            pos + 2 + function.source(depth).len() + argument.source(depth).len(),
            depth,
            argument,
        ),
    ensures
        parses_to(
            s,
            pos,
            pos + apply(function, argument).source(depth).len(),
            depth,
            apply(function, argument),
        ),
{
    let names = binder_names(depth);
    let f = function.source(depth);
    let a = argument.source(depth);
    let function_at = pos + 1;
    let space_at = function_at + f.len();
    let argument_at = space_at + 1;
    let close_at = argument_at + a.len();
    lemma_parse_term_sound(s, pos);
    lemma_application_layout(function, argument, depth, s, pos);
    lemma_term_source_opens(function, depth);
    lemma_term_source_opens(argument, depth);
    lemma_skip_nothing(s, function_at, f);
    lemma_skip_nothing(s, argument_at, a);
    assert(skip_whitespace(s, space_at) == skip_whitespace(s, argument_at));
    assert(skip_whitespace(s, close_at) == close_at);
    let function_pair = parse_term(s, function_at)->Ok_0.0;
    let argument_pair = parse_term(s, argument_at)->Ok_0.0;
    let none = Seq::<SpecPair>::empty();
    let one = none.push(function_pair);
    let two = one.push(argument_pair);
    assert(parse_arguments(s, close_at, two) == Ok::<(Seq<SpecPair>, nat), SpecParseError>(
        (two, close_at + 1),
    ));
    assert(parse_arguments(s, space_at, one) == parse_arguments(s, close_at, two));
    assert(parse_arguments(s, function_at, none) == parse_arguments(s, space_at, one));
    let pair = parse_term(s, pos)->Ok_0.0;
    assert(pair == node(Rule::Application, pos, close_at + 1, two));
    assert(resolve_application(two, names, 1) == function_pair.resolve(names));
    assert(resolve_application(two, names, 2) == Ok::<SpecTerm, SpecParseError>(
        apply(function, argument),
    ));
}

/// A closed term that stands written in the text, with no letter after it,
/// parses to a node which ends where the writing ends and which resolves,
/// under the made-up names, to that term.
pub proof fn lemma_term_parses(term: SpecTerm, depth: nat, s: Seq<char>, pos: nat)
    requires
        term.closed_at(depth),
        term.is_well_named(),
        text_at(s, pos, term.source(depth)),
        word_ends(s, pos + term.source(depth).len()),
    ensures
        parses_to(s, pos, pos + term.source(depth).len(), depth, term),
    decreases term,
{
    match term {
        SpecTerm::Variable { idx } => {
            lemma_variable_parses(idx, depth, s, pos);
        },
        SpecTerm::Abstraction { argument_type: None, body } => {
            lemma_plain_abstraction_layout(*body, depth, s, pos);
            lemma_term_parses(*body, depth + 1, s, pos + 3 + binder_name(depth).len());
            lemma_plain_abstraction_parses(*body, depth, s, pos);
        },
        SpecTerm::Abstraction { argument_type: Some(annotation), body } => {
            lemma_typed_abstraction_layout(annotation, *body, depth, s, pos);
            lemma_term_parses(
                *body,
                depth + 1,
                s,
                pos + 4 + binder_name(depth).len() + annotation.source().len(),
            );
            lemma_typed_abstraction_parses(annotation, *body, depth, s, pos);
        },
        SpecTerm::Application { function, argument } => {
            lemma_application_layout(*function, *argument, depth, s, pos);
            lemma_term_parses(*function, depth, s, pos + 1);
            lemma_term_parses(*argument, depth, s, pos + 2 + function.source(depth).len());
            lemma_application_parses(*function, *argument, depth, s, pos);
        },
    }
}

/// Round trip: a term without free variables, whose base types are named
/// by identifiers, parses from its own writing in the grammar to itself.
pub proof fn law_source_round_trip(term: SpecTerm)
    requires
        term.is_closed(),
        term.is_well_named(),
    ensures
        parse(term.source(0)) == Ok::<SpecTerm, SpecParseError>(term),
{
    let s = term.source(0);
    lemma_term_source_opens(term, 0);
    lemma_term_parses(term, 0, s, 0);
    assert(binder_names(0) =~= Seq::empty());
    assert(skip_whitespace(s, 0) == 0);
    assert(skip_whitespace(s, s.len()) == s.len());
}

/// Three terms written in one pair of parentheses.
pub open spec fn flat_application_source(
    first: SpecTerm,
    second: SpecTerm,
    third: SpecTerm,
    depth: nat,
) -> Seq<char> {
    seq!['('] + first.source(depth) + seq![' '] + second.source(depth) + seq![' '] + third.source(
        depth,
    ) + seq![')']
}

/// Where the parts of an application of three terms stand in the text.
pub proof fn lemma_flat_application_layout(
    first: SpecTerm,
    second: SpecTerm,
    third: SpecTerm,
    depth: nat,
    s: Seq<char>,
    pos: nat,
)
    requires
        text_at(s, pos, flat_application_source(first, second, third, depth)),
    ensures
        ({
            let f = first.source(depth);
            let a = second.source(depth);
            let b = third.source(depth);
            &&& char_at(s, pos, '(')
            &&& text_at(s, pos + 1, f)
            &&& char_at(s, pos + 1 + f.len(), ' ')
            &&& text_at(s, pos + 2 + f.len(), a)
            &&& char_at(s, pos + 2 + f.len() + a.len(), ' ')
            &&& text_at(s, pos + 3 + f.len() + a.len(), b)
            &&& char_at(s, pos + 3 + f.len() + a.len() + b.len(), ')')
            &&& flat_application_source(first, second, third, depth).len() == 4 + f.len() + a.len()
                + b.len()
        }),
{
    let open = seq!['('];
    let f = first.source(depth);
    let space = seq![' '];
    let a = second.source(depth);
    let b = third.source(depth);
    let close = seq![')'];
    lemma_text_at_parts(s, pos, open + f + space + a + space + b, close);
    lemma_text_at_parts(s, pos, open + f + space + a + space, b);
    lemma_text_at_parts(s, pos, open + f + space + a, space);
    lemma_text_at_parts(s, pos, open + f + space, a);
    lemma_text_at_parts(s, pos, open + f, space);
    lemma_text_at_parts(s, pos, open, f);
    assert(s[pos + 0int] == open[0]);
    assert(s[pos + 1 + f.len() + 0int] == space[0]);
    assert(s[pos + 2 + f.len() + a.len() + 0int] == space[0]);
    assert(s[pos + 3 + f.len() + a.len() + b.len() + 0int] == close[0]);
}

/// Three terms written in one pair of parentheses parse to the first
/// applied to the second, and that applied to the third.
pub proof fn lemma_flat_application_parses(
    first: SpecTerm,
    second: SpecTerm,
    third: SpecTerm,
    depth: nat,
    s: Seq<char>,
    pos: nat,
)
    requires
        text_at(s, pos, flat_application_source(first, second, third, depth)),
        parses_to(s, pos + 1, pos + 1 + first.source(depth).len(), depth, first),
        parses_to(
            s,
            pos + 2 + first.source(depth).len(),
            pos + 2 + first.source(depth).len() + second.source(depth).len(),
            depth,
            second,
        ),
        parses_to(
            s,
            pos + 3 + first.source(depth).len() + second.source(depth).len(),
            pos + 3 + first.source(depth).len() + second.source(depth).len() + third.source(
                depth,
            ).len(),
            depth,
            third,
        ),
    ensures
        parses_to(
            s,
            pos,
            pos + flat_application_source(first, second, third, depth).len(),
            depth,
            apply(apply(first, second), third),
        ),
{
    let names = binder_names(depth);
    let f = first.source(depth);
    let a = second.source(depth);
    let b = third.source(depth);
    let first_at = pos + 1;
    let space_at = first_at + f.len();
    let second_at = space_at + 1;
    let gap_at = second_at + a.len();
    let third_at = gap_at + 1;
    let close_at = third_at + b.len();
    lemma_parse_term_sound(s, pos);
    lemma_flat_application_layout(first, second, third, depth, s, pos);
    lemma_term_source_opens(first, depth);
    lemma_term_source_opens(second, depth);
    lemma_term_source_opens(third, depth);
    lemma_skip_nothing(s, first_at, f);
    lemma_skip_nothing(s, second_at, a);
    lemma_skip_nothing(s, third_at, b);
    assert(skip_whitespace(s, space_at) == skip_whitespace(s, second_at));
    assert(skip_whitespace(s, gap_at) == skip_whitespace(s, third_at));
    assert(skip_whitespace(s, close_at) == close_at);
    let first_pair = parse_term(s, first_at)->Ok_0.0;
    let second_pair = parse_term(s, second_at)->Ok_0.0;
    let third_pair = parse_term(s, third_at)->Ok_0.0;
    let none = Seq::<SpecPair>::empty();
    let one = none.push(first_pair);
    let two = one.push(second_pair);
    let three = two.push(third_pair);
    assert(parse_arguments(s, close_at, three) == Ok::<(Seq<SpecPair>, nat), SpecParseError>(
        (three, close_at + 1),
    ));
    assert(parse_arguments(s, gap_at, two) == parse_arguments(s, close_at, three));
    assert(parse_arguments(s, space_at, one) == parse_arguments(s, gap_at, two));
    assert(parse_arguments(s, first_at, none) == parse_arguments(s, space_at, one));
    let pair = parse_term(s, pos)->Ok_0.0;
    assert(pair == node(Rule::Application, pos, close_at + 1, three));
    assert(resolve_application(three, names, 1) == first_pair.resolve(names));
    assert(resolve_application(three, names, 2) == Ok::<SpecTerm, SpecParseError>(
        apply(first, second),
    ));
    assert(three[2] == third_pair);
    assert(resolve_application(three, names, 3) == Ok::<SpecTerm, SpecParseError>(
        apply(apply(first, second), third),
    ));
}

/// Left fold: three closed terms written in one pair of parentheses parse
/// to the same term as the first two written in parentheses of their own
/// and applied to the third.
pub proof fn law_application_folds_left(first: SpecTerm, second: SpecTerm, third: SpecTerm)
    requires
        first.is_closed() && first.is_well_named(),
        second.is_closed() && second.is_well_named(),
        third.is_closed() && third.is_well_named(),
    ensures
        parse(flat_application_source(first, second, third, 0)) == parse(
            apply(apply(first, second), third).source(0),
        ),
        parse(flat_application_source(first, second, third, 0)) == Ok::<SpecTerm, SpecParseError>(
            apply(apply(first, second), third),
        ),
{
    let nested = apply(apply(first, second), third);
    let leading = apply(first, second);
    assert(leading.closed_at(0) && leading.is_well_named());
    assert(nested.closed_at(0) && nested.is_well_named());
    law_source_round_trip(nested);
    let s = flat_application_source(first, second, third, 0);
    lemma_flat_application_layout(first, second, third, 0, s, 0);
    lemma_term_parses(first, 0, s, 1);
    lemma_term_parses(second, 0, s, 2 + first.source(0).len());
    lemma_term_parses(third, 0, s, 3 + first.source(0).len() + second.source(0).len());
    lemma_flat_application_parses(first, second, third, 0, s, 0);
    assert(binder_names(0) =~= Seq::empty());
    assert(skip_whitespace(s, 0) == 0);
    assert(skip_whitespace(s, s.len()) == s.len());
}

} // verus!
