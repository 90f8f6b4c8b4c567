//! The grammar of the source text, stated as the function from a text to
//! its parse tree.
//!
//! ```text
//! program     := term
//! term        := variable | abstraction | application
//! variable    := identifier
//! abstraction := "(" lambda identifier [ "." | ":" type "." ] term ")"
//! application := "(" term term { term } ")"
//! lambda      := "λ" | "\"
//! type        := identifier | "(" type ")" "→" type
//! identifier  := letter { letter }
//! ```
//!
//! A letter is one of `a` to `z` and `A` to `Z`. Spaces, tabs and line ends
//! may stand between any two tokens and around the program; an identifier
//! takes all the letters that follow one another. Positions count
//! characters, not bytes.

use vstd::prelude::*;
use crate::error::SpecParseError;
use crate::pairs::{Rule, Span, SpecPair};

verus! {

/// A node of the parse tree with the position that follows it, or the
/// syntax error that stopped the parser.
pub type SpecParsed = Result<(SpecPair, nat), SpecParseError>;

/// The inner nodes of an application with the position that follows its
/// closing parenthesis, or the syntax error that stopped the parser.
pub type SpecParsedList = Result<(Seq<SpecPair>, nat), SpecParseError>;

/// A space, a tab or a line end.
pub open spec fn is_whitespace(c: char) -> bool {
    c == ' ' || c == '\t' || c == '\n' || c == '\r'
}

/// One of `a` to `z` and `A` to `Z`.
pub open spec fn is_letter(c: char) -> bool {
    ('a' <= c && c <= 'z') || ('A' <= c && c <= 'Z')
}

/// The mark of an abstraction.
pub open spec fn is_lambda(c: char) -> bool {
    c == 'λ' || c == '\\'
}

/// A non-empty run of letters.
pub open spec fn is_identifier(name: Seq<char>) -> bool {
    name.len() > 0 && forall|i: int| 0 <= i < name.len() ==> is_letter(#[trigger] name[i])
}

/// The characters from `start` up to `end`.
pub open spec fn span_of(start: nat, end: nat) -> Span {
    Span { start: start as usize, end: end as usize }
}

/// The syntax error for what stands at `pos`: it spans that one character,
/// or nothing at the end of the text.
pub open spec fn syntax_error(s: Seq<char>, pos: nat) -> SpecParseError {
    SpecParseError::SyntaxError {
        span: span_of(
            pos,
            if pos < s.len() {
                pos + 1
            } else {
                pos
            },
        ),
    }
}

/// The first position from `pos` on that holds no whitespace.
pub open spec fn skip_whitespace(s: Seq<char>, pos: nat) -> nat
    decreases s.len() - pos,
{
    if pos < s.len() && is_whitespace(s[pos as int]) {
        skip_whitespace(s, pos + 1)
    } else {
        pos
    }
}

/// The first position from `pos` on that holds no letter.
pub open spec fn identifier_end(s: Seq<char>, pos: nat) -> nat
    decreases s.len() - pos,
{
    if pos < s.len() && is_letter(s[pos as int]) {
        identifier_end(s, pos + 1)
    } else {
        pos
    }
}

/// `c` stands at `pos`.
pub open spec fn char_at(s: Seq<char>, pos: nat, c: char) -> bool {
    pos < s.len() && s[pos as int] == c
}

/// A letter stands at `pos`.
pub open spec fn letter_at(s: Seq<char>, pos: nat) -> bool {
    pos < s.len() && is_letter(s[pos as int])
}

/// The node of the identifier that begins at `pos`.
pub open spec fn identifier(rule: Rule, s: Seq<char>, pos: nat) -> SpecPair {
    let end = identifier_end(s, pos);
    SpecPair {
        rule,
        text: s.subrange(pos as int, end as int),
        span: span_of(pos, end),
        inner: Seq::empty(),
    }
}

/// A node that is made of others.
pub open spec fn node(rule: Rule, start: nat, end: nat, inner: Seq<SpecPair>) -> SpecPair {
    SpecPair { rule, text: Seq::empty(), span: span_of(start, end), inner }
}

/// Skipping whitespace stays within the text, passes over whitespace only
/// and stops before what is none.
pub proof fn lemma_skip_whitespace(s: Seq<char>, pos: nat)
    requires
        pos <= s.len(),
    ensures
        pos <= skip_whitespace(s, pos) <= s.len(),
        forall|i: int| pos <= i < skip_whitespace(s, pos) ==> is_whitespace(#[trigger] s[i]),
        skip_whitespace(s, pos) < s.len() ==> !is_whitespace(s[skip_whitespace(s, pos) as int]),
    decreases s.len() - pos,
{
    if pos < s.len() && is_whitespace(s[pos as int]) {
        lemma_skip_whitespace(s, pos + 1);
    }
}

/// An identifier ends within the text, is made of letters and stops before
/// what is none.
pub proof fn lemma_identifier_end(s: Seq<char>, pos: nat)
    requires
        pos <= s.len(),
    ensures
        pos <= identifier_end(s, pos) <= s.len(),
        letter_at(s, pos) ==> pos < identifier_end(s, pos),
        forall|i: int| pos <= i < identifier_end(s, pos) ==> is_letter(#[trigger] s[i]),
        identifier_end(s, pos) < s.len() ==> !is_letter(s[identifier_end(s, pos) as int]),
    decreases s.len() - pos,
{
    if pos < s.len() && is_letter(s[pos as int]) {
        lemma_identifier_end(s, pos + 1);
    }
}

/// The type that begins at `pos`, which holds no whitespace.
///
/// The test that a type ends after its start holds of every type; it is
/// what makes the definition well founded.
pub open spec fn parse_type(s: Seq<char>, pos: nat) -> SpecParsed
    decreases s.len() - pos,
{
    if letter_at(s, pos) {
        Ok((identifier(Rule::BaseType, s, pos), identifier_end(s, pos)))
    } else if char_at(s, pos, '(') {
        let argument_at = skip_whitespace(s, pos + 1);
        proof {
            lemma_skip_whitespace(s, pos + 1);
        }
        match parse_type(s, argument_at) {
            Ok((argument, argument_end)) => {
                let close_at = skip_whitespace(s, argument_end);
                let arrow_at = skip_whitespace(s, close_at + 1);
                let result_at = skip_whitespace(s, arrow_at + 1);
                if !(argument_at < argument_end <= s.len()) {
                    Err(syntax_error(s, argument_at))
                } else if !char_at(s, close_at, ')') {
                    Err(syntax_error(s, close_at))
                } else if !char_at(s, arrow_at, '→') {
                    Err(syntax_error(s, arrow_at))
                } else {
                    proof {
                        lemma_skip_whitespace(s, argument_end);
                        lemma_skip_whitespace(s, close_at + 1);
                        lemma_skip_whitespace(s, arrow_at + 1);
                    }
                    match parse_type(s, result_at) {
                        Ok((result, end)) => Ok(
                            (node(Rule::FunctionType, pos, end, seq![argument, result]), end),
                        ),
                        Err(error) => Err(error),
                    }
                }
            },
            Err(error) => Err(error),
        }
    } else {
        Err(syntax_error(s, pos))
    }
}

/// The term that begins at `pos`, which holds no whitespace.
///
/// The test that a body ends after its start holds of every term; it is
/// what makes the definition well founded.
pub open spec fn parse_term(s: Seq<char>, pos: nat) -> SpecParsed
    decreases s.len() - pos, 3nat,
{
    if letter_at(s, pos) {
        Ok((identifier(Rule::Variable, s, pos), identifier_end(s, pos)))
    } else if char_at(s, pos, '(') {
        let head_at = skip_whitespace(s, pos + 1);
        proof {
            lemma_skip_whitespace(s, pos + 1);
        }
        if head_at < s.len() && is_lambda(s[head_at as int]) {
            parse_abstraction(s, pos, skip_whitespace(s, head_at + 1))
        } else {
            match parse_arguments(s, head_at, Seq::empty()) {
                Ok((terms, end)) => Ok((node(Rule::Application, pos, end, terms), end)),
                Err(error) => Err(error),
            }
        }
    } else {
        Err(syntax_error(s, pos))
    }
}

/// The abstraction whose parenthesis opens at `start` and whose bound
/// variable is expected at `name_at`. After the variable comes a dot, or a
/// colon with the type of the argument and a dot, or the body at once.
pub open spec fn parse_abstraction(s: Seq<char>, start: nat, name_at: nat) -> SpecParsed
    decreases s.len() - start, 2nat,
    when start < name_at <= s.len()
{
    if !letter_at(s, name_at) {
        Err(syntax_error(s, name_at))
    } else {
        let name = identifier(Rule::Variable, s, name_at);
        let mark_at = skip_whitespace(s, identifier_end(s, name_at));
        proof {
            lemma_identifier_end(s, name_at);
            lemma_skip_whitespace(s, identifier_end(s, name_at));
        }
        if char_at(s, mark_at, '.') {
            let body_at = skip_whitespace(s, mark_at + 1);
            proof {
                lemma_skip_whitespace(s, mark_at + 1);
            }
            parse_body(s, start, body_at, seq![name])
        } else if char_at(s, mark_at, ':') {
            let type_at = skip_whitespace(s, mark_at + 1);
            match parse_type(s, type_at) {
                Ok((annotation, type_end)) => {
                    let dot_at = skip_whitespace(s, type_end);
                    let body_at = skip_whitespace(s, dot_at + 1);
                    if !(type_at < type_end <= s.len()) {
                        Err(syntax_error(s, type_at))
                    } else if !char_at(s, dot_at, '.') {
                        Err(syntax_error(s, dot_at))
                    } else {
                        proof {
                            lemma_skip_whitespace(s, mark_at + 1);
                            lemma_skip_whitespace(s, type_end);
                            lemma_skip_whitespace(s, dot_at + 1);
                        }
                        parse_body(s, start, body_at, seq![name, annotation])
                    }
                },
                Err(error) => Err(error),
            }
        } else {
            parse_body(s, start, mark_at, seq![name])
        }
    }
}

/// The body of the abstraction that opens at `start`, with its closing
/// parenthesis; `head` holds the nodes of the bound variable and of the
/// annotation.
pub open spec fn parse_body(s: Seq<char>, start: nat, body_at: nat, head: Seq<SpecPair>) -> SpecParsed
    decreases s.len() - start, 1nat,
    when start < body_at <= s.len()
{
    match parse_term(s, body_at) {
        Ok((body, body_end)) => {
            let close_at = skip_whitespace(s, body_end);
            if char_at(s, close_at, ')') {
                Ok((node(Rule::Abstraction, start, close_at + 1, head.push(body)), close_at + 1))
            } else {
                Err(syntax_error(s, close_at))
            }
        },
        Err(error) => Err(error),
    }
}

/// The terms of an application from `pos` up to its closing parenthesis,
/// after `terms`. There must be two terms at least.
pub open spec fn parse_arguments(s: Seq<char>, pos: nat, terms: Seq<SpecPair>) -> SpecParsedList
    decreases s.len() - pos, 4nat,
{
    let term_at = skip_whitespace(s, pos);
    if pos > s.len() {
        Err(syntax_error(s, pos))
    } else if char_at(s, term_at, ')') {
        if terms.len() >= 2 {
            Ok((terms, term_at + 1))
        } else {
            Err(syntax_error(s, term_at))
        }
    } else {
        proof {
            lemma_skip_whitespace(s, pos);
        }
        match parse_term(s, term_at) {
            Ok((term, term_end)) => {
                if term_at < term_end <= s.len() {
                    parse_arguments(s, term_end, terms.push(term))
                } else {
                    Err(syntax_error(s, term_at))
                }
            },
            Err(error) => Err(error),
        }
    }
}

/// The parse tree of a whole text: one term, with nothing but whitespace
/// around it.
pub open spec fn parse_program(s: Seq<char>) -> Result<SpecPair, SpecParseError> {
    match parse_term(s, skip_whitespace(s, 0)) {
        Ok((term, end)) => {
            if skip_whitespace(s, end) >= s.len() {
                Ok(term)
            } else {
                Err(syntax_error(s, skip_whitespace(s, end)))
            }
        },
        Err(error) => Err(error),
    }
}

} // verus!

verus! {

/// A node is confined to the text: it ends after its start and within it.
pub open spec fn within(s: Seq<char>, pos: nat, parsed: SpecParsed) -> bool {
    parsed matches Ok((_, end)) ==> pos < end <= s.len()
}

/// An identifier node is a leaf whose text is a run of letters.
pub proof fn lemma_identifier(rule: Rule, s: Seq<char>, pos: nat)
    requires
        letter_at(s, pos),
    ensures
        is_identifier(identifier(rule, s, pos).text),
        identifier(rule, s, pos).inner.len() == 0,
        pos < identifier_end(s, pos) <= s.len(),
{
    lemma_identifier_end(s, pos);
}

/// What parses as a type is a type node that lies within the text.
pub proof fn lemma_parse_type_sound(s: Seq<char>, pos: nat)
    ensures
        within(s, pos, parse_type(s, pos)),
        parse_type(s, pos) matches Ok((ty, _)) ==> ty.is_type(),
    decreases s.len() - pos,
{
    if letter_at(s, pos) {
        lemma_identifier(Rule::BaseType, s, pos);
    } else if char_at(s, pos, '(') {
        let argument_at = skip_whitespace(s, pos + 1);
        lemma_skip_whitespace(s, pos + 1);
        lemma_parse_type_sound(s, argument_at);
        if let Ok((argument, argument_end)) = parse_type(s, argument_at) {
            let close_at = skip_whitespace(s, argument_end);
            let arrow_at = skip_whitespace(s, close_at + 1);
            let result_at = skip_whitespace(s, arrow_at + 1);
            if char_at(s, close_at, ')') && char_at(s, arrow_at, '→') {
                lemma_skip_whitespace(s, argument_end);
                lemma_skip_whitespace(s, close_at + 1);
                lemma_skip_whitespace(s, arrow_at + 1);
                lemma_parse_type_sound(s, result_at);
            }
        }
    }
}

/// What parses as a term is a term node that lies within the text.
pub proof fn lemma_parse_term_sound(s: Seq<char>, pos: nat)
    ensures
        within(s, pos, parse_term(s, pos)),
        parse_term(s, pos) matches Ok((term, _)) ==> term.is_term(),
    decreases s.len() - pos, 3nat,
{
    if letter_at(s, pos) {
        lemma_identifier(Rule::Variable, s, pos);
    } else if char_at(s, pos, '(') {
        let head_at = skip_whitespace(s, pos + 1);
        lemma_skip_whitespace(s, pos + 1);
        if head_at < s.len() && is_lambda(s[head_at as int]) {
            lemma_skip_whitespace(s, head_at + 1);
            lemma_parse_abstraction_sound(s, pos, skip_whitespace(s, head_at + 1));
        } else {
            lemma_parse_arguments_sound(s, head_at, Seq::empty());
        }
    }
}

/// What parses as an abstraction is an abstraction node that ends within
/// the text.
pub proof fn lemma_parse_abstraction_sound(s: Seq<char>, start: nat, name_at: nat)
    requires
        start < name_at <= s.len(),
    ensures
        within(s, start, parse_abstraction(s, start, name_at)),
        parse_abstraction(s, start, name_at) matches Ok((term, _)) ==> term.is_term(),
    decreases s.len() - start, 2nat,
{
    if letter_at(s, name_at) {
        let name = identifier(Rule::Variable, s, name_at);
        let mark_at = skip_whitespace(s, identifier_end(s, name_at));
        lemma_identifier(Rule::Variable, s, name_at);
        lemma_skip_whitespace(s, identifier_end(s, name_at));
        if char_at(s, mark_at, '.') {
            lemma_skip_whitespace(s, mark_at + 1);
            lemma_parse_body_sound(s, start, skip_whitespace(s, mark_at + 1), seq![name]);
        } else if char_at(s, mark_at, ':') {
            let type_at = skip_whitespace(s, mark_at + 1);
            lemma_skip_whitespace(s, mark_at + 1);
            lemma_parse_type_sound(s, type_at);
            if let Ok((annotation, type_end)) = parse_type(s, type_at) {
                let dot_at = skip_whitespace(s, type_end);
                if char_at(s, dot_at, '.') {
                    lemma_skip_whitespace(s, type_end);
                    lemma_skip_whitespace(s, dot_at + 1);
                    lemma_parse_body_sound(
                        s,
                        start,
                        skip_whitespace(s, dot_at + 1),
                        seq![name, annotation],
                    );
                }
            }
        } else {
            lemma_parse_body_sound(s, start, mark_at, seq![name]);
        }
    }
}

/// With the head of an abstraction, what parses as its body completes an
/// abstraction node.
pub proof fn lemma_parse_body_sound(s: Seq<char>, start: nat, body_at: nat, head: Seq<SpecPair>)
    requires
        start < body_at <= s.len(),
        head.len() == 1 || head.len() == 2,
        head[0].is_name(),
        head.len() == 2 ==> head[1].is_type(),
    ensures
        within(s, start, parse_body(s, start, body_at, head)),
        parse_body(s, start, body_at, head) matches Ok((term, _)) ==> term.is_term(),
    decreases s.len() - start, 1nat,
{
    lemma_parse_term_sound(s, body_at);
    if let Ok((body, body_end)) = parse_term(s, body_at) {
        lemma_skip_whitespace(s, body_end);
    }
}

/// After term nodes, what parses as the rest of an application gives two
/// or more term nodes and ends within the text.
pub proof fn lemma_parse_arguments_sound(s: Seq<char>, pos: nat, terms: Seq<SpecPair>)
    requires
        forall|i: int| 0 <= i < terms.len() ==> (#[trigger] terms[i]).is_term(),
    ensures
        parse_arguments(s, pos, terms) matches Ok((all, end)) ==> {
            &&& pos < end <= s.len()
            &&& all.len() >= 2
            &&& forall|i: int| 0 <= i < all.len() ==> (#[trigger] all[i]).is_term()
        },
    decreases s.len() - pos, 4nat,
{
    let term_at = skip_whitespace(s, pos);
    if pos <= s.len() {
        lemma_skip_whitespace(s, pos);
        if !char_at(s, term_at, ')') {
            lemma_parse_term_sound(s, term_at);
            if let Ok((term, term_end)) = parse_term(s, term_at) {
                if term_at < term_end <= s.len() {
                    lemma_parse_arguments_sound(s, term_end, terms.push(term));
                }
            }
        }
    }
}

/// The parse tree of a text is a term node.
pub proof fn lemma_parse_program_sound(s: Seq<char>)
    ensures
        parse_program(s) matches Ok(term) ==> term.is_term(),
{
    lemma_parse_term_sound(s, skip_whitespace(s, 0));
}

} // verus!
