//! Expressions written out with every grouping shown.

use vstd::prelude::*;
use crate::expr::{Expr, Value};
use crate::number::Number;
use crate::text::texts;

verus! {

/// The parts, each after a space.
pub open spec fn spaced(parts: Seq<Seq<char>>) -> Seq<char>
    decreases parts.len(),
{
    if parts.len() == 0 {
        Seq::empty()
    } else {
        spaced(parts.drop_last()) + " "@ + parts.last()
    }
}

/// `(`, the name, the parts, each after a space, and `)`.
pub open spec fn parenthesized(name: Seq<char>, parts: Seq<Seq<char>>) -> Seq<char> {
    "("@ + name + spaced(parts) + ")"@
}

/// A name and one operand in parentheses.
pub open spec fn around_one(name: Seq<char>, inner: Seq<char>) -> Seq<char> {
    parenthesized(name, seq![inner])
}

/// A name and two operands in parentheses.
pub open spec fn around_two(name: Seq<char>, first: Seq<char>, second: Seq<char>) -> Seq<char> {
    parenthesized(name, seq![first, second])
}

/// `text` is the expression written out: a literal as its value's text, a
/// variable as its name, and every other node in parentheses, its operator
/// first and its operands after it. A grouping goes by the name `group`, an
/// assignment by `=` with the name as its first operand.
pub open spec fn renders<F: Fn(Number) -> String>(format: F, expr: Expr, text: Seq<char>) -> bool
    decreases expr,
{
    match expr {
        Expr::Literal { value } => shows(format, value, text),
        Expr::Variable { name } => text == name.lexeme@,
        Expr::Grouping { expression } => exists|inner: Seq<char>|
            renders(format, *expression, inner) && text == #[trigger] around_one("group"@, inner),
        Expr::Unary { operator, right } => exists|inner: Seq<char>|
            renders(format, *right, inner) && text == #[trigger] around_one(
                operator.lexeme@,
                inner,
            ),
        Expr::Assign { name, value } => exists|inner: Seq<char>|
            renders(format, *value, inner) && text == #[trigger] around_two(
                "="@,
                name.lexeme@,
                inner,
            ),
        Expr::Binary { left, operator, right } => exists|first: Seq<char>, second: Seq<char>|
            renders(format, *left, first) && renders(format, *right, second) && text
                == #[trigger] around_two(operator.lexeme@, first, second),
    }
}

/// `text` is the canonical text of the value.
pub open spec fn shows<F: Fn(Number) -> String>(format: F, value: Value, text: Seq<char>) -> bool {
    exists|written: String| #[trigger] value.written(format, written) && written@ == text
}

/// Writes expressions out.
pub struct AstPrinter;

impl AstPrinter {
    /// Writes the expression out. A number is written by `format`.
    pub fn print<F: Fn(Number) -> String>(&self, expr: &Expr, format: &F) -> (r: String)
        requires
            forall|n: Number| format.requires((n,)),
        ensures
            renders(*format, *expr, r@),
        decreases expr,
    {
        match expr {
            Expr::Assign { name, value } => {
                let inner = self.print(value, format);
                let ghost text = inner@;
                let parts = vec![name.lexeme.clone(), inner];
                proof {
                    assert(texts(parts@) =~= seq![name.lexeme@, text]);
                }
                let r = self.parenthesize("=", parts);
                proof {
                    assert(r@ == around_two("="@, name.lexeme@, text));
                }
                r
            },
            Expr::Binary { left, operator, right } => {
                let first = self.print(left, format);
                let second = self.print(right, format);
                let ghost texts_of = (first@, second@);
                let parts = vec![first, second];
                proof {
                    assert(texts(parts@) =~= seq![texts_of.0, texts_of.1]);
                }
                let r = self.parenthesize(operator.lexeme.as_str(), parts);
                proof {
                    assert(r@ == around_two(operator.lexeme@, texts_of.0, texts_of.1));
                }
                r
            },
            Expr::Grouping { expression } => {
                let inner = self.print(expression, format);
                let ghost text = inner@;
                let parts = vec![inner];
                proof {
                    assert(texts(parts@) =~= seq![text]);
                }
                let r = self.parenthesize("group", parts);
                proof {
                    assert(r@ == around_one("group"@, text));
                }
                r
            },
            Expr::Literal { value } => self.visit_literal(value, format),
            Expr::Unary { operator, right } => {
                let inner = self.print(right, format);
                let ghost text = inner@;
                let parts = vec![inner];
                proof {
                    assert(texts(parts@) =~= seq![text]);
                }
                let r = self.parenthesize(operator.lexeme.as_str(), parts);
                proof {
                    assert(r@ == around_one(operator.lexeme@, text));
                }
                r
            },
            Expr::Variable { name } => name.lexeme.clone(),
        }
    }

    /// Puts a name and the texts of its operands in parentheses.
    pub fn parenthesize(&self, name: &str, parts: Vec<String>) -> (r: String)
        ensures
            r@ == parenthesized(name@, texts(parts@)),
    {
        let mut s: String = "(".to_owned();
        s.append(name);
        let ghost all = texts(parts@);
        let mut i: usize = 0;
        proof {
            assert(all.take(0) =~= Seq::<Seq<char>>::empty());
            assert(s@ =~= "("@ + name@ + spaced(all.take(0)));
        }
        while i < parts.len()
            invariant
                0 <= i <= parts@.len(),
                all == texts(parts@),
                s@ == "("@ + name@ + spaced(all.take(i as int)),
            decreases parts@.len() - i,
        {
            s.append(" ");
            s.append(parts[i].as_str());
            proof {
                let before = all.take(i as int);
                let now = all.take(i + 1);
                assert(now.drop_last() =~= before);
                assert(now.last() == parts@[i as int]@);
                assert(s@ =~= "("@ + name@ + spaced(now));
            }
            i += 1;
        }
        s.append(")");
        proof {
            assert(all.take(parts@.len() as int) =~= all);
        }
        s
    }

    /// A literal is written as its value's canonical text.
    pub fn visit_literal<F: Fn(Number) -> String>(&self, val: &Value, format: &F) -> (r: String)
        requires
            forall|n: Number| format.requires((n,)),
        ensures
            shows(*format, *val, r@),
    {
        val.text(format)
    }
}

} // verus!
