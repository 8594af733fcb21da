use vstd::prelude::*;
use vstd::string::StringExecFns;

pub mod nodes;

use nodes::{Expr, Literal};

verus! {

/// The rendering of a literal: its underlying text, or the fixed keyword
/// lexemes `true`, `false` and `nil` for those values.
pub open spec fn render_literal(l: Literal) -> Seq<char> {
    match l {
        Literal::String(s) => s@,
        Literal::Number(n) => n@,
        Literal::True => "true"@,
        Literal::False => "false"@,
        Literal::Nil => "nil"@,
    }
}

/// The already-rendered parts of a parenthesized group, each preceded by one
/// space, in order.
pub open spec fn joined_parts(parts: Seq<Seq<char>>) -> Seq<char>
    decreases parts.len(),
{
    if parts.len() == 0 {
        Seq::empty()
    } else {
        joined_parts(parts.drop_last()) + " "@ + parts.last()
    }
}

/// A parenthesized group: `(` + the group's head text + one space-prefixed
/// part per rendered child + `)`.
pub open spec fn spec_parenthesize(text: Seq<char>, parts: Seq<Seq<char>>) -> Seq<char> {
    "("@ + text + joined_parts(parts) + ")"@
}

/// The fully parenthesized prefix rendering of an expression tree: a binary
/// node renders as `(<operator-lexeme> <left> <right>)`, a unary node as
/// `(<operator-lexeme> <operand>)`, a grouping as `(group <inner>)`, and a
/// literal as its own text.
pub open spec fn render_expr(e: Expr) -> Seq<char>
    decreases e,
{
    match e {
        Expr::Literal(l) => render_literal(l),
        Expr::Unary(op, inner) => spec_parenthesize(op.lexeme@, seq![render_expr(*inner)]),
        Expr::Binary(left, op, right) => spec_parenthesize(
            op.lexeme@,
            seq![render_expr(*left), render_expr(*right)],
        ),
        Expr::Grouping(inner) => spec_parenthesize("group"@, seq![render_expr(*inner)]),
    }
}

/// A tree consumer producing the fully parenthesized textual rendering of an
/// expression, chiefly for debugging and testing. Rendering is a pure
/// traversal with no failure modes: every tree renders successfully.
pub struct ASTPrinter {}

impl ASTPrinter {
    pub fn create() -> (r: Self) {
        ASTPrinter {}
    }

    /// Renders the whole tree.
    pub fn print(&self, expr: &Expr) -> (r: String)
        ensures
            r@ == render_expr(*expr),
    {
        self.visit_expr(expr)
    }

    /// Wraps the group's head text and the already-rendered children in one
    /// pair of parentheses, each child preceded by a single space.
    pub fn parenthesize(&self, text: &String, parts: &Vec<String>) -> (r: String)
        ensures
            r@ == spec_parenthesize(text@, parts@.map_values(|p: String| p@)),
    {
        let ghost views = parts@.map_values(|p: String| p@);
        let mut out = String::new();
        out.append("(");
        out.append(text.as_str());
        proof {
            assert(views.subrange(0, 0).len() == 0);
            assert(out@ =~= "("@ + text@ + joined_parts(views.subrange(0, 0)));
        }
        let mut j: usize = 0;
        while j < parts.len()
            invariant
                j <= parts@.len(),
                views == parts@.map_values(|p: String| p@),
                out@ == "("@ + text@ + joined_parts(views.subrange(0, j as int)),
            decreases parts@.len() - j,
        {
            out.append(" ");
            out.append(parts[j].as_str());
            proof {
                let prefix = views.subrange(0, j as int + 1);
                assert(prefix.drop_last() =~= views.subrange(0, j as int));
                assert(prefix.last() == views[j as int]);
                assert(out@ =~= "("@ + text@ + joined_parts(prefix));
            }
            j = j + 1;
        }
        proof {
            assert(views.subrange(0, parts@.len() as int) =~= views);
        }
        out.append(")");
        proof {
            assert(out@ =~= spec_parenthesize(text@, views));
        }
        out
    }

    /// Renders one node by exhaustive dispatch on its kind, recursing into
    /// its children.
    pub fn visit_expr(&self, expr: &Expr) -> (r: String)
        ensures
            r@ == render_expr(*expr),
        decreases *expr,
    {
        match expr {
            Expr::Literal(l) => match l {
                Literal::String(s) => s.clone(),
                Literal::Number(n) => n.clone(),
                Literal::True => "true".to_owned(),
                Literal::False => "false".to_owned(),
                Literal::Nil => "nil".to_owned(),
            },
            Expr::Unary(op, inner) => {
                let mut parts: Vec<String> = Vec::new();
                parts.push(self.visit_expr(inner));
                proof {
                    assert(parts@.map_values(|p: String| p@) =~= seq![render_expr(**inner)]);
                }
                self.parenthesize(&op.lexeme, &parts)
            },
            Expr::Binary(left, op, right) => {
                let mut parts: Vec<String> = Vec::new();
                parts.push(self.visit_expr(left));
                parts.push(self.visit_expr(right));
                proof {
                    assert(parts@.map_values(|p: String| p@) =~= seq![
                        render_expr(**left),
                        render_expr(**right),
                    ]);
                }
                self.parenthesize(&op.lexeme, &parts)
            },
            Expr::Grouping(inner) => {
                let mut parts: Vec<String> = Vec::new();
                parts.push(self.visit_expr(inner));
                proof {
                    assert(parts@.map_values(|p: String| p@) =~= seq![render_expr(**inner)]);
                }
                let head = "group".to_owned();
                self.parenthesize(&head, &parts)
            },
        }
    }
}

} // verus!
