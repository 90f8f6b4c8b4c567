//! Closed terms written back in the grammar, with names made up for their
//! binders, so that what is written parses to the term it was written from.

use vstd::prelude::*;
use vstd::string::{StrSliceExecFns, StringExecFns};
use crate::grammar::{is_identifier, is_letter};
use crate::term::{LambdaTerm, SpecTerm, SpecType, Type};

verus! {

/// The lower-case letters in their order.
pub open spec fn letter(i: nat) -> char
    recommends
        i < 26,
{
    "abcdefghijklmnopqrstuvwxyz"@[i as int]
}

/// The name made up for the binder under `depth` others: `a` to `z` for the
/// first twenty-six, then `aa`, `ab` and so on, as the columns of a
/// spreadsheet are named.
pub open spec fn binder_name(depth: nat) -> Seq<char>
    decreases depth,
{
    if depth < 26 {
        seq![letter(depth)]
    } else {
        binder_name((depth / 26 - 1) as nat).push(letter(depth % 26))
    }
}

/// The names of the binders around a term that lies under `depth` of them.
pub open spec fn binder_names(depth: nat) -> Seq<Seq<char>> {
    Seq::new(depth, |i: int| binder_name(i as nat))
}

impl SpecType {
    /// Every base type is named by an identifier.
    pub open spec fn is_well_named(self) -> bool
        decreases self,
    {
        match self {
            SpecType::Base(name) => is_identifier(name),
            SpecType::Function(argument, result) => {
                argument.is_well_named() && result.is_well_named()
            },
        }
    }

    /// The type in the grammar: a base type is its name, a function type is
    /// its argument type in parentheses, an arrow and its result type.
    pub open spec fn source(self) -> Seq<char>
        decreases self,
    {
        match self {
            SpecType::Base(name) => name,
            SpecType::Function(argument, result) => {
                seq!['('] + argument.source() + seq![')', '→'] + result.source()
            },
        }
    }
}

impl SpecTerm {
    /// Every base type in an annotation is named by an identifier.
    pub open spec fn is_well_named(self) -> bool
        decreases self,
    {
        match self {
            SpecTerm::Variable { .. } => true,
            SpecTerm::Abstraction { argument_type, body } => {
                &&& argument_type matches Some(annotation) ==> annotation.is_well_named()
                &&& body.is_well_named()
            },
            SpecTerm::Application { function, argument } => {
                function.is_well_named() && argument.is_well_named()
            },
        }
    }

    /// The term in the grammar, where it lies under `depth` binders that
    /// have the names made up for them. A variable is the name of its
    /// binder; an abstraction names its own binder after its depth; an
    /// application is written with its two terms.
    pub open spec fn source(self, depth: nat) -> Seq<char>
        recommends
            self.closed_at(depth),
        decreases self,
    {
        match self {
            SpecTerm::Variable { idx } => binder_name((depth - 1 - idx) as nat),
            SpecTerm::Abstraction { argument_type: Some(annotation), body } => {
                seq!['(', 'λ'] + binder_name(depth) + seq![':'] + annotation.source() + seq!['.']
                    + body.source(depth + 1) + seq![')']
            },
            SpecTerm::Abstraction { argument_type: None, body } => {
                seq!['(', 'λ'] + binder_name(depth) + seq!['.'] + body.source(depth + 1) + seq![')']
            },
            SpecTerm::Application { function, argument } => {
                seq!['('] + function.source(depth) + seq![' '] + argument.source(depth) + seq![')']
            },
        }
    }
}

/// The letters are letters.
pub proof fn lemma_letter(i: nat)
    requires
        i < 26,
    ensures
        is_letter(letter(i)),
        letter(i) == (('a' as u8) + i) as u8 as char,
{
    reveal_strlit("abcdefghijklmnopqrstuvwxyz");
    let s = "abcdefghijklmnopqrstuvwxyz"@;
    assert(s[0] == 'a' && s[1] == 'b' && s[2] == 'c' && s[3] == 'd' && s[4] == 'e' && s[5] == 'f'
        && s[6] == 'g' && s[7] == 'h' && s[8] == 'i' && s[9] == 'j' && s[10] == 'k' && s[11] == 'l'
        && s[12] == 'm');
    assert(s[13] == 'n' && s[14] == 'o' && s[15] == 'p' && s[16] == 'q' && s[17] == 'r' && s[18]
        == 's' && s[19] == 't' && s[20] == 'u' && s[21] == 'v' && s[22] == 'w' && s[23] == 'x'
        && s[24] == 'y' && s[25] == 'z');
    assert(i == 0 || i == 1 || i == 2 || i == 3 || i == 4 || i == 5 || i == 6 || i == 7 || i == 8
        || i == 9 || i == 10 || i == 11 || i == 12 || i == 13 || i == 14 || i == 15 || i == 16 || i
        == 17 || i == 18 || i == 19 || i == 20 || i == 21 || i == 22 || i == 23 || i == 24 || i
        == 25);
}

/// A made-up name is an identifier.
pub proof fn lemma_binder_name_is_identifier(depth: nat)
    ensures
        is_identifier(binder_name(depth)),
    decreases depth,
{
    lemma_letter(depth % 26);
    if depth >= 26 {
        lemma_binder_name_is_identifier((depth / 26 - 1) as nat);
    }
}

/// Binders at different depths get different names.
pub proof fn lemma_binder_name_injective(first: nat, second: nat)
    requires
        binder_name(first) == binder_name(second),
    ensures
        first == second,
    decreases first,
{
    lemma_letter(first % 26);
    lemma_letter(second % 26);
    lemma_binder_name_is_identifier((first / 26) as nat);
    lemma_binder_name_is_identifier((second / 26) as nat);
    if first >= 26 {
        lemma_binder_name_is_identifier((first / 26 - 1) as nat);
    }
    if second >= 26 {
        lemma_binder_name_is_identifier((second / 26 - 1) as nat);
    }
    if first < 26 && second < 26 {
        assert(seq![letter(first)][0] == letter(first));
        assert(seq![letter(second)][0] == letter(second));
        assert(letter(first) == letter(second));
        assert(letter(first) as u8 == letter(second) as u8);
        assert(first == second);
    } else if first >= 26 && second >= 26 {
        let a = binder_name((first / 26 - 1) as nat);
        let b = binder_name((second / 26 - 1) as nat);
        assert(a.push(letter(first % 26)).last() == b.push(letter(second % 26)).last());
        assert(a.push(letter(first % 26)).drop_last() =~= a);
        assert(b.push(letter(second % 26)).drop_last() =~= b);
        lemma_binder_name_injective((first / 26 - 1) as nat, (second / 26 - 1) as nat);
        assert(letter(first % 26) as u8 == letter(second % 26) as u8);
        assert(first % 26 == second % 26);
        assert(first / 26 == second / 26);
        assert(first == second);
    } else if first < 26 {
        let b = binder_name((second / 26 - 1) as nat);
        assert(binder_name(first).len() == 1);
        assert(binder_name(second) == b.push(letter(second % 26)));
        assert(b.len() > 0);
    } else {
        let a = binder_name((first / 26 - 1) as nat);
        assert(binder_name(second).len() == 1);
        assert(binder_name(first) == a.push(letter(first % 26)));
        assert(a.len() > 0);
    }
}

/// The text of one lower-case letter.
fn letter_text(i: usize) -> (text: &'static str)
    requires
        i < 26,
    ensures
        text@ == seq![letter(i as nat)],
{
    proof {
        reveal_strlit("abcdefghijklmnopqrstuvwxyz");
    }
    let text = "abcdefghijklmnopqrstuvwxyz".substring_char(i, i + 1);
    assert(text@ =~= seq![letter(i as nat)]);
    text
}

/// Appends the name made up for the binder under `depth` others.
fn write_binder_name(depth: usize, out: &mut String)
    ensures
        final(out)@ == old(out)@ + binder_name(depth as nat),
    decreases depth,
{
    if depth >= 26 {
        write_binder_name(depth / 26 - 1, out);
    }
    out.append(letter_text(depth % 26));
    assert(final(out)@ =~= old(out)@ + binder_name(depth as nat));
}

/// Whether a name is a non-empty run of letters.
fn is_identifier_text(name: &str) -> (valid: bool)
    ensures
        valid == is_identifier(name@),
{
    let mut valid = true;
    let mut empty = true;
    for c in it: name.chars()
        invariant
            it.seq() == name@,
            empty == (it.index() == 0),
            valid == (forall|i: int| 0 <= i < it.index() ==> is_letter(#[trigger] name@[i])),
    {
        if !(('a' <= c && c <= 'z') || ('A' <= c && c <= 'Z')) {
            valid = false;
        }
        empty = false;
    }
    valid && !empty
}

impl Type {
    /// Whether every base type in the type is named by an identifier.
    pub fn is_well_named(&self) -> (valid: bool)
        ensures
            valid == self@.is_well_named(),
        decreases self,
    {
        match self {
            Type::BaseType(name) => is_identifier_text(name.as_str()),
            Type::FunctionType(argument_type, return_type) => {
                argument_type.is_well_named() && return_type.is_well_named()
            },
        }
    }

    /// Appends the type as it is written in the grammar.
    fn write_source(&self, out: &mut String)
        ensures
            final(out)@ == old(out)@ + self@.source(),
        decreases self,
    {
        match self {
            Type::BaseType(name) => {
                out.append(name.as_str());
            },
            Type::FunctionType(argument_type, return_type) => {
                proof {
                    reveal_strlit("(");
                    reveal_strlit(")→");
                }
                out.append("(");
                argument_type.write_source(out);
                out.append(")→");
                return_type.write_source(out);
                assert(final(out)@ =~= old(out)@ + self@.source());
            },
        }
    }
}

impl LambdaTerm {
    /// Whether every base type in an annotation of the term is named by an
    /// identifier.
    pub fn is_well_named(&self) -> (valid: bool)
        ensures
            valid == self@.is_well_named(),
        decreases self,
    {
        match self {
            LambdaTerm::Variable { .. } => true,
            LambdaTerm::Abstraction { argument_type, body } => {
                let annotated = match argument_type {
                    Some(annotation) => annotation.is_well_named(),
                    None => true,
                };
                annotated && body.is_well_named()
            },
            LambdaTerm::Application { function, argument } => {
                function.is_well_named() && argument.is_well_named()
            },
        }
    }

    /// Appends the term as it is written in the grammar under the binders
    /// named by `names`, which are left as they were.
    fn write_source(&self, names: &mut Vec<String>, out: &mut String)
        requires
            self@.closed_at(old(names).len() as nat),
            old(names).deep_view() == binder_names(old(names).len() as nat),
        ensures
            final(names).deep_view() == old(names).deep_view(),
            final(names).len() == old(names).len(),
            final(out)@ == old(out)@ + self@.source(old(names).len() as nat),
        decreases self,
    {
        proof {
            reveal_strlit("(λ");
            reveal_strlit(":");
            reveal_strlit(".");
            reveal_strlit(")");
            reveal_strlit("(");
            reveal_strlit(" ");
        }
        let ghost depth = names.len() as nat;
        let ghost before = names.deep_view();
        let ghost stack = names@;
        assert(forall|i: int| 0 <= i < depth ==> #[trigger] before[i] == stack[i]@);
        match self {
            LambdaTerm::Variable { idx } => {
                let position = names.len() - 1 - (*idx as usize);
                assert(names[position as int]@ == before[position as int]);
                out.append(names[position].as_str());
            },
            LambdaTerm::Abstraction { argument_type, body } => {
                let mut name = String::new();
                write_binder_name(names.len(), &mut name);
                assert(name@ =~= binder_name(depth));
                out.append("(λ");
                out.append(name.as_str());
                match argument_type {
                    Some(annotation) => {
                        out.append(":");
                        annotation.write_source(out);
                    },
                    None => {},
                }
                out.append(".");
                names.push(name);
                assert(names@ == stack.push(name));
                assert(names.deep_view() =~= before.push(name@));
                assert(names.deep_view() =~= binder_names(depth + 1));
                body.write_source(names, out);
                let ghost inner = names@;
                let ghost inner_names = names.deep_view();
                assert(forall|i: int| 0 <= i <= depth ==> #[trigger] inner_names[i] == inner[i]@);
                names.pop();
                assert(names@ == inner.drop_last());
                assert forall|i: int| 0 <= i < depth implies #[trigger] names.deep_view()[i]
                    == before[i] by {
                    assert(names.deep_view()[i] == names@[i]@);
                    assert(inner_names[i] == inner[i]@);
                }
                assert(names.deep_view() =~= before);
                out.append(")");
                assert(final(out)@ =~= old(out)@ + self@.source(depth));
            },
            LambdaTerm::Application { function, argument } => {
                out.append("(");
                function.write_source(names, out);
                out.append(" ");
                argument.write_source(names, out);
                out.append(")");
                assert(final(out)@ =~= old(out)@ + self@.source(depth));
            },
        }
    }

    /// The term written in the grammar, with names made up for its binders,
    /// where it can be written so: where it has no free variable and every
    /// base type in it is named by an identifier.
    pub fn to_source(&self) -> (written: Option<String>)
        ensures
            match written {
                Some(text) => {
                    &&& self@.is_closed()
                    &&& self@.is_well_named()
                    &&& text@ == self@.source(0)
                },
                None => !(self@.is_closed() && self@.is_well_named()),
            },
    {
        if self.is_closed() && self.is_well_named() {
            let mut names: Vec<String> = Vec::new();
            let mut text = String::new();
            assert(names.deep_view() =~= binder_names(0));
            self.write_source(&mut names, &mut text);
            assert(text@ =~= self@.source(0));
            Some(text)
        } else {
            None
        }
    }
}

} // verus!
