//! The parser: from a source text to its parse tree.

use vstd::prelude::*;
use vstd::string::{StrSliceExecFns, StringExecFns};
use crate::grammar::{
    char_at, identifier, identifier_end, is_lambda, is_whitespace, lemma_identifier_end,
    lemma_parse_program_sound, lemma_parse_term_sound, lemma_parse_type_sound, letter_at, node,
    parse_abstraction, parse_arguments, parse_body, parse_program, parse_term, parse_type,
    skip_whitespace, syntax_error, SpecParsed,
};
use crate::error::{ParseError, SpecParseError};
use crate::pairs::{Pair, Rule, Span, SpecPair};

verus! {

/// The parser of the grammar.
pub struct KombiParser;

/// What lies at `pos` of a source text.
pub type Parsed = Result<(Pair, usize), ParseError>;

/// The value of what a step of the parser returns.
pub open spec fn parsed_view(parsed: Parsed) -> SpecParsed {
    match parsed {
        Ok((pair, end)) => Ok((pair@, end as nat)),
        Err(error) => Err(error@),
    }
}

/// The values of the nodes of a list.
pub open spec fn pairs_view(pairs: Seq<Pair>) -> Seq<SpecPair> {
    Seq::new(pairs.len(), |i: int| pairs[i]@)
}

/// A source text, held both as it came and as its characters.
struct Source<'a> {
    text: &'a str,
    chars: Vec<char>,
}

impl<'a> Source<'a> {
    /// The characters are those of the text, and can be counted.
    spec fn well_formed(&self) -> bool {
        self.chars@ == self.text@ && self.chars@.len() <= usize::MAX
    }

    /// The characters of the text.
    spec fn view(&self) -> Seq<char> {
        self.chars@
    }

    fn new(text: &'a str) -> (source: Source<'a>)
        ensures
            source.well_formed(),
            source.view() == text@,
    {
        let mut chars: Vec<char> = Vec::new();
        for c in it: text.chars()
            invariant
                chars@ == it.seq().take(it.index() as int),
                it.seq() == text@,
        {
            chars.push(c);
        }
        assert(chars@ == text@);
        assert(chars.len() <= usize::MAX);
        Source { text, chars }
    }

    fn whitespace_at(&self, pos: usize) -> (found: bool)
        ensures
            found == (pos < self.view().len() && is_whitespace(self.view()[pos as int])),
    {
        pos < self.chars.len() && (self.chars[pos] == ' ' || self.chars[pos] == '\t'
            || self.chars[pos] == '\n' || self.chars[pos] == '\r')
    }

    fn letter_at(&self, pos: usize) -> (found: bool)
        ensures
            found == letter_at(self.view(), pos as nat),
    {
        pos < self.chars.len() && (('a' <= self.chars[pos] && self.chars[pos] <= 'z') || ('A'
            <= self.chars[pos] && self.chars[pos] <= 'Z'))
    }

    fn lambda_at(&self, pos: usize) -> (found: bool)
        ensures
            found == (pos < self.view().len() && is_lambda(self.view()[pos as int])),
    {
        pos < self.chars.len() && (self.chars[pos] == 'λ' || self.chars[pos] == '\\')
    }

    fn char_at(&self, pos: usize, c: char) -> (found: bool)
        ensures
            found == char_at(self.view(), pos as nat, c),
    {
        pos < self.chars.len() && self.chars[pos] == c
    }

    fn skip_whitespace(&self, pos: usize) -> (next: usize)
        requires
            self.well_formed(),
            pos <= self.view().len(),
        ensures
            next == skip_whitespace(self.view(), pos as nat),
            pos <= next <= self.view().len(),
    {
        let mut next = pos;
        while self.whitespace_at(next)
            invariant
                self.well_formed(),
                pos <= next <= self.view().len(),
                skip_whitespace(self.view(), pos as nat) == skip_whitespace(self.view(), next as nat),
            decreases self.view().len() - next,
        {
            next = next + 1;
        }
        next
    }

    fn identifier_end(&self, pos: usize) -> (end: usize)
        requires
            self.well_formed(),
            pos <= self.view().len(),
        ensures
            end == identifier_end(self.view(), pos as nat),
            pos <= end <= self.view().len(),
    {
        let mut end = pos;
        while self.letter_at(end)
            invariant
                self.well_formed(),
                pos <= end <= self.view().len(),
                identifier_end(self.view(), pos as nat) == identifier_end(self.view(), end as nat),
            decreases self.view().len() - end,
        {
            end = end + 1;
        }
        end
    }

    fn syntax_error(&self, pos: usize) -> (error: ParseError)
        requires
            self.well_formed(),
            pos <= self.view().len(),
        ensures
            error@ == syntax_error(self.view(), pos as nat),
    {
        let end = if pos < self.chars.len() {
            pos + 1
        } else {
            pos
        };
        ParseError::SyntaxError { span: Span { start: pos, end } }
    }

    /// The node of the identifier that begins at `pos`.
    fn identifier(&self, rule: Rule, pos: usize) -> (found: (Pair, usize))
        requires
            self.well_formed(),
            letter_at(self.view(), pos as nat),
        ensures
            found.0@ == identifier(rule, self.view(), pos as nat),
            found.1 == identifier_end(self.view(), pos as nat),
    {
        let end = self.identifier_end(pos);
        let pair = Pair {
            rule,
            text: String::from_str(self.text.substring_char(pos, end)),
            span: Span { start: pos, end },
            inner: Vec::new(),
        };
        assert(pair@.inner =~= Seq::empty());
        (pair, end)
    }

    /// The type that begins at `pos`.
    fn parse_type(&self, pos: usize) -> (parsed: Parsed)
        requires
            self.well_formed(),
            pos <= self.view().len(),
        ensures
            parsed_view(parsed) == parse_type(self.view(), pos as nat),
            parsed matches Ok((pair, end)) ==> pos < end <= self.view().len() && pair@.is_type(),
        decreases self.view().len() - pos,
    {
        proof {
            lemma_parse_type_sound(self.view(), pos as nat);
        }
        if self.letter_at(pos) {
            Ok(self.identifier(Rule::BaseType, pos))
        } else if self.char_at(pos, '(') {
            let argument_at = self.skip_whitespace(pos + 1);
            let (argument, argument_end) = match self.parse_type(argument_at) {
                Ok(found) => found,
                Err(error) => {
                    return Err(error);
                },
            };
            let close_at = self.skip_whitespace(argument_end);
            if !self.char_at(close_at, ')') {
                return Err(self.syntax_error(close_at));
            }
            let arrow_at = self.skip_whitespace(close_at + 1);
            if !self.char_at(arrow_at, '→') {
                return Err(self.syntax_error(arrow_at));
            }
            let result_at = self.skip_whitespace(arrow_at + 1);
            let (result, end) = match self.parse_type(result_at) {
                Ok(found) => found,
                Err(error) => {
                    return Err(error);
                },
            };
            let mut inner: Vec<Pair> = Vec::new();
            inner.push(argument);
            inner.push(result);
            let pair = Pair {
                rule: Rule::FunctionType,
                text: String::new(),
                span: Span { start: pos, end },
                inner,
            };
            assert(pair@.inner =~= seq![argument@, result@]);
            Ok((pair, end))
        } else {
            Err(self.syntax_error(pos))
        }
    }

    /// The term that begins at `pos`.
    fn parse_term(&self, pos: usize) -> (parsed: Parsed)
        requires
            self.well_formed(),
            pos <= self.view().len(),
        ensures
            parsed_view(parsed) == parse_term(self.view(), pos as nat),
            parsed matches Ok((pair, end)) ==> pos < end <= self.view().len() && pair@.is_term(),
        decreases self.view().len() - pos, 3nat,
    {
        proof {
            lemma_parse_term_sound(self.view(), pos as nat);
        }
        if self.letter_at(pos) {
            Ok(self.identifier(Rule::Variable, pos))
        } else if self.char_at(pos, '(') {
            let head_at = self.skip_whitespace(pos + 1);
            if self.lambda_at(head_at) {
                let name_at = self.skip_whitespace(head_at + 1);
                self.parse_abstraction(pos, name_at)
            } else {
                self.parse_application(pos, head_at)
            }
        } else {
            Err(self.syntax_error(pos))
        }
    }

    /// The abstraction whose parenthesis opens at `start` and whose bound
    /// variable is expected at `name_at`.
    fn parse_abstraction(&self, start: usize, name_at: usize) -> (parsed: Parsed)
        requires
            self.well_formed(),
            start < name_at <= self.view().len(),
        ensures
            parsed_view(parsed) == parse_abstraction(self.view(), start as nat, name_at as nat),
        decreases self.view().len() - start, 2nat,
    {
        if !self.letter_at(name_at) {
            return Err(self.syntax_error(name_at));
        }
        let (name, name_end) = self.identifier(Rule::Variable, name_at);
        proof {
            lemma_identifier_end(self.view(), name_at as nat);
        }
        let mark_at = self.skip_whitespace(name_end);
        let mut head: Vec<Pair> = Vec::new();
        head.push(name);
        if self.char_at(mark_at, '.') {
            let body_at = self.skip_whitespace(mark_at + 1);
            assert(pairs_view(head@) =~= seq![name@]);
            self.parse_body(start, body_at, head)
        } else if self.char_at(mark_at, ':') {
            let type_at = self.skip_whitespace(mark_at + 1);
            let (annotation, type_end) = match self.parse_type(type_at) {
                Ok(found) => found,
                Err(error) => {
                    return Err(error);
                },
            };
            let dot_at = self.skip_whitespace(type_end);
            if !self.char_at(dot_at, '.') {
                return Err(self.syntax_error(dot_at));
            }
            let body_at = self.skip_whitespace(dot_at + 1);
            head.push(annotation);
            assert(pairs_view(head@) =~= seq![name@, annotation@]);
            self.parse_body(start, body_at, head)
        } else {
            assert(pairs_view(head@) =~= seq![name@]);
            self.parse_body(start, mark_at, head)
        }
    }

    /// The body of the abstraction that opens at `start`, with its closing
    /// parenthesis, after the nodes of its head.
    fn parse_body(&self, start: usize, body_at: usize, head: Vec<Pair>) -> (parsed: Parsed)
        requires
            self.well_formed(),
            start < body_at <= self.view().len(),
        ensures
            parsed_view(parsed) == parse_body(
                self.view(),
                start as nat,
                body_at as nat,
                pairs_view(head@),
            ),
        decreases self.view().len() - start, 1nat,
    {
        let (body, body_end) = match self.parse_term(body_at) {
            Ok(found) => found,
            Err(error) => {
                return Err(error);
            },
        };
        let close_at = self.skip_whitespace(body_end);
        if !self.char_at(close_at, ')') {
            return Err(self.syntax_error(close_at));
        }
        let mut inner = head;
        inner.push(body);
        let pair = Pair {
            rule: Rule::Abstraction,
            text: String::new(),
            span: Span { start, end: close_at + 1 },
            inner,
        };
        assert(pair@.inner =~= pairs_view(head@).push(body@));
        Ok((pair, close_at + 1))
    }

    /// The application whose parenthesis opens at `start` and whose first
    /// term is expected at `head_at`.
    fn parse_application(&self, start: usize, head_at: usize) -> (parsed: Parsed)
        requires
            self.well_formed(),
            start < head_at <= self.view().len(),
        ensures
            parsed_view(parsed) == match parse_arguments(self.view(), head_at as nat, Seq::empty()) {
                Ok((terms, end)) => Ok((node(Rule::Application, start as nat, end, terms), end)),
                Err(error) => Err(error),
            },
        decreases self.view().len() - start, 2nat,
    {
        let ghost s = self.view();
        let mut terms: Vec<Pair> = Vec::new();
        let mut pos = head_at;
        assert(pairs_view(terms@) =~= Seq::empty());
        loop
            invariant
                self.well_formed(),
                s == self.view(),
                start < head_at <= pos <= s.len(),
                parse_arguments(s, head_at as nat, Seq::empty()) == parse_arguments(
                    s,
                    pos as nat,
                    pairs_view(terms@),
                ),
            decreases s.len() - pos,
        {
            let term_at = self.skip_whitespace(pos);
            if self.char_at(term_at, ')') {
                if terms.len() >= 2 {
                    let end = term_at + 1;
                    let pair = Pair {
                        rule: Rule::Application,
                        text: String::new(),
                        span: Span { start, end },
                        inner: terms,
                    };
                    assert(pair@.inner =~= pairs_view(terms@));
                    return Ok((pair, end));
                } else {
                    return Err(self.syntax_error(term_at));
                }
            }
            let (term, term_end) = match self.parse_term(term_at) {
                Ok(found) => found,
                Err(error) => {
                    return Err(error);
                },
            };
            let ghost before = pairs_view(terms@);
            terms.push(term);
            assert(pairs_view(terms@) =~= before.push(term@));
            pos = term_end;
        }
    }
}

impl KombiParser {
    /// The parse tree of a source text, or the place where the text stops
    /// following the grammar.
    pub fn parse(input: &str) -> (parsed: Result<Pair, ParseError>)
        ensures
            match parsed {
                Ok(pair) => parse_program(input@) == Ok::<SpecPair, SpecParseError>(pair@),
                Err(error) => parse_program(input@) == Err::<SpecPair, SpecParseError>(error@),
            },
            parsed matches Ok(pair) ==> pair@.is_term(),
    {
        let source = Source::new(input);
        proof {
            lemma_parse_program_sound(input@);
        }
        let start = source.skip_whitespace(0);
        let (term, end) = match source.parse_term(start) {
            Ok(found) => found,
            Err(error) => {
                return Err(error);
            },
        };
        let rest = source.skip_whitespace(end);
        if rest >= source.chars.len() {
            Ok(term)
        } else {
            Err(source.syntax_error(rest))
        }
    }
}

} // verus!
