//! Terms, types and type errors as text.

use vstd::prelude::*;
use vstd::string::StringExecFns;
use crate::term::{LambdaTerm, SpecTerm, SpecType, Type};
use crate::type_check::{SpecTypeError, TypeError};

verus! {

/// The character of a decimal digit.
pub open spec fn digit(d: nat) -> char
    recommends
        d < 10,
{
    if d == 0 {
        '0'
    } else if d == 1 {
        '1'
    } else if d == 2 {
        '2'
    } else if d == 3 {
        '3'
    } else if d == 4 {
        '4'
    } else if d == 5 {
        '5'
    } else if d == 6 {
        '6'
    } else if d == 7 {
        '7'
    } else if d == 8 {
        '8'
    } else {
        '9'
    }
}

/// A number in decimal notation, without leading zeros.
pub open spec fn decimal(n: nat) -> Seq<char>
    decreases n,
{
    if n < 10 {
        seq![digit(n)]
    } else {
        decimal(n / 10).push(digit(n % 10))
    }
}

impl SpecType {
    /// The type as text: a base type is its name; a function type is its
    /// argument type, in parentheses where that is a function type itself,
    /// then an arrow and the result type.
    pub open spec fn render(self) -> Seq<char>
        decreases self,
    {
        match self {
            SpecType::Base(name) => name,
            SpecType::Function(argument, result) => {
                if *argument is Function {
                    seq!['('] + argument.render() + seq![')', '→'] + result.render()
                } else {
                    argument.render() + seq!['→'] + result.render()
                }
            },
        }
    }
}

impl SpecTerm {
    /// The term as text, variables written as their indices.
    ///
    /// An abstraction is `λ`, then a colon and the argument type where it
    /// has one, a space and the body. An application is function, space,
    /// argument; the function stands in parentheses where it is an
    /// abstraction, and otherwise the argument does where it is an
    /// application.
    pub open spec fn render(self) -> Seq<char>
        decreases self,
    {
        match self {
            SpecTerm::Variable { idx } => decimal(idx),
            SpecTerm::Abstraction { argument_type: Some(argument_type), body } => {
                seq!['λ', ':'] + argument_type.render() + seq![' '] + body.render()
            },
            SpecTerm::Abstraction { argument_type: None, body } => seq!['λ', ' '] + body.render(),
            SpecTerm::Application { function, argument } => {
                if *function is Abstraction {
                    seq!['('] + function.render() + seq![')', ' '] + argument.render()
                } else if *argument is Application {
                    function.render() + seq![' ', '('] + argument.render() + seq![')']
                } else {
                    function.render() + seq![' '] + argument.render()
                }
            },
        }
    }
}

impl SpecTypeError {
    /// The error as a sentence that shows both terms with their types.
    pub open spec fn render(self) -> Seq<char> {
        match self {
            SpecTypeError::InvalidApplication { function, function_type, argument, argument_type } => {
                "attempted to apply term ("@ + function.render() + "):"@ + function_type.render()
                    + " to term ("@ + argument.render() + "):"@ + argument_type.render()
            },
        }
    }
}

/// The text of one decimal digit.
fn digit_text(d: u64) -> (text: &'static str)
    requires
        d < 10,
    ensures
        text@ == seq![digit(d as nat)],
{
    proof {
        reveal_strlit("0");
        reveal_strlit("1");
        reveal_strlit("2");
        reveal_strlit("3");
        reveal_strlit("4");
        reveal_strlit("5");
        reveal_strlit("6");
        reveal_strlit("7");
        reveal_strlit("8");
        reveal_strlit("9");
    }
    let text = if d == 0 {
        "0"
    } else if d == 1 {
        "1"
    } else if d == 2 {
        "2"
    } else if d == 3 {
        "3"
    } else if d == 4 {
        "4"
    } else if d == 5 {
        "5"
    } else if d == 6 {
        "6"
    } else if d == 7 {
        "7"
    } else if d == 8 {
        "8"
    } else {
        "9"
    };
    assert(text@ =~= seq![digit(d as nat)]);
    text
}

/// Appends `n` in decimal notation.
fn write_decimal(n: u64, out: &mut String)
    ensures
        final(out)@ == old(out)@ + decimal(n as nat),
    decreases n,
{
    if n >= 10 {
        write_decimal(n / 10, out);
    }
    out.append(digit_text(n % 10));
    assert(final(out)@ =~= old(out)@ + decimal(n as nat));
}

impl Type {
    /// Appends the type as text.
    fn write(&self, out: &mut String)
        ensures
            final(out)@ == old(out)@ + self@.render(),
        decreases self,
    {
        match self {
            Type::BaseType(name) => {
                out.append(name.as_str());
            },
            Type::FunctionType(argument_type, return_type) => {
                proof {
                    reveal_strlit("(");
                    reveal_strlit(")→");
                    reveal_strlit("→");
                }
                match **argument_type {
                    Type::BaseType(_) => {
                        argument_type.write(out);
                        out.append("→");
                    },
                    Type::FunctionType(..) => {
                        out.append("(");
                        argument_type.write(out);
                        out.append(")→");
                    },
                }
                return_type.write(out);
                assert(final(out)@ =~= old(out)@ + self@.render());
            },
        }
    }

    /// The type as text.
    pub fn to_string(&self) -> (text: String)
        ensures
            text@ == self@.render(),
    {
        let mut text = String::new();
        self.write(&mut text);
        assert(text@ =~= self@.render());
        text
    }
}

impl LambdaTerm {
    /// Appends the term as text.
    fn write(&self, out: &mut String)
        ensures
            final(out)@ == old(out)@ + self@.render(),
        decreases self,
    {
        proof {
            reveal_strlit("λ:");
            reveal_strlit("λ ");
            reveal_strlit(" ");
            reveal_strlit("(");
            reveal_strlit(") ");
            reveal_strlit(" (");
            reveal_strlit(")");
        }
        match self {
            LambdaTerm::Variable { idx } => {
                write_decimal(*idx, out);
            },
            LambdaTerm::Abstraction { argument_type, body } => {
                match argument_type {
                    Some(argument_type) => {
                        out.append("λ:");
                        argument_type.write(out);
                        out.append(" ");
                    },
                    None => {
                        out.append("λ ");
                    },
                }
                body.write(out);
                assert(final(out)@ =~= old(out)@ + self@.render());
            },
            LambdaTerm::Application { function, argument } => {
                if let LambdaTerm::Abstraction { .. } = **function {
                    out.append("(");
                    function.write(out);
                    out.append(") ");
                    argument.write(out);
                } else if let LambdaTerm::Application { .. } = **argument {
                    function.write(out);
                    out.append(" (");
                    argument.write(out);
                    out.append(")");
                } else {
                    function.write(out);
                    out.append(" ");
                    argument.write(out);
                }
                assert(final(out)@ =~= old(out)@ + self@.render());
            },
        }
    }

    /// The term as text, variables written as their indices.
    pub fn to_string(&self) -> (text: String)
        ensures
            text@ == self@.render(),
    {
        let mut text = String::new();
        self.write(&mut text);
        assert(text@ =~= self@.render());
        text
    }
}

impl TypeError {
    /// The error as a sentence that shows both terms with their types.
    pub fn to_string(&self) -> (text: String)
        ensures
            text@ == self@.render(),
    {
        match self {
            TypeError::InvalidApplication { function, function_type, argument, argument_type } => {
                let mut text = String::new();
                text.append("attempted to apply term (");
                function.write(&mut text);
                text.append("):");
                function_type.write(&mut text);
                text.append(" to term (");
                argument.write(&mut text);
                text.append("):");
                argument_type.write(&mut text);
                assert(text@ =~= self@.render());
                text
            },
        }
    }
}

} // verus!
