use crate::tokens::Token;
use vstd::prelude::*;
use vstd::string::StrSliceExecFns;

verus! {

/// A literal value carried by an expression tree leaf. The scanner never
/// computes numeric values, so a number is kept as its exact source text;
/// that keeps the rendering of a tree identical to what was scanned.
pub enum Literal {
    String(String),
    Number(String),
    True,
    False,
    Nil,
}

/// An owned, acyclic expression tree: a closed set of node kinds consumed by
/// exhaustive pattern matching. Each node exclusively owns its children.
pub enum Expr {
    Literal(Literal),
    Unary(Token, Box<Expr>),
    Binary(Box<Expr>, Token, Box<Expr>),
    Grouping(Box<Expr>),
}

/// The semantic category of a unary operator.
#[derive(Debug, Clone, Copy, PartialEq, Eq, Structural)]
pub enum UnaryOperator {
    Bang,
    Minus,
}

/// The semantic category of a binary operator.
#[derive(Debug, Clone, Copy, PartialEq, Eq, Structural)]
pub enum BinaryOperator {
    EqualEqual,
    BangEqual,
    Less,
    LessEqual,
    Greater,
    GreaterEqual,
    Plus,
    Minus,
    Star,
    Slash,
}

/// The unary operator a lexeme denotes: `!` and `-`, nothing else.
pub open spec fn unary_operator_of(s: Seq<char>) -> Option<UnaryOperator> {
    if s.len() == 1 && s[0] == '!' {
        Some(UnaryOperator::Bang)
    } else if s.len() == 1 && s[0] == '-' {
        Some(UnaryOperator::Minus)
    } else {
        None
    }
}

/// The binary operator a lexeme denotes, over the exact operator lexemes
/// `==`, `!=`, `<`, `<=`, `>`, `>=`, `+`, `-`, `*`, `/`.
pub open spec fn binary_operator_of(s: Seq<char>) -> Option<BinaryOperator> {
    if s.len() == 1 {
        if s[0] == '<' {
            Some(BinaryOperator::Less)
        } else if s[0] == '>' {
            Some(BinaryOperator::Greater)
        } else if s[0] == '+' {
            Some(BinaryOperator::Plus)
        } else if s[0] == '-' {
            Some(BinaryOperator::Minus)
        } else if s[0] == '*' {
            Some(BinaryOperator::Star)
        } else if s[0] == '/' {
            Some(BinaryOperator::Slash)
        } else {
            None
        }
    } else if s.len() == 2 && s[1] == '=' {
        if s[0] == '=' {
            Some(BinaryOperator::EqualEqual)
        } else if s[0] == '!' {
            Some(BinaryOperator::BangEqual)
        } else if s[0] == '<' {
            Some(BinaryOperator::LessEqual)
        } else if s[0] == '>' {
            Some(BinaryOperator::GreaterEqual)
        } else {
            None
        }
    } else {
        None
    }
}

impl UnaryOperator {
    /// Decodes operator lexeme text into a unary operator category.
    /// An unrecognized lexeme is handed back unchanged as the error value.
    pub fn try_from(item: String) -> (r: Result<UnaryOperator, String>)
        ensures
            match unary_operator_of(item@) {
                Some(op) => r == Ok::<UnaryOperator, String>(op),
                None => (r matches Err(t) && t@ == item@),
            },
    {
        let s = item.as_str();
        if s.unicode_len() == 1 {
            let c = s.get_char(0);
            if c == '!' {
                return Ok(UnaryOperator::Bang);
            }
            if c == '-' {
                return Ok(UnaryOperator::Minus);
            }
        }
        Err(item)
    }
}

impl BinaryOperator {
    /// Decodes operator lexeme text into a binary operator category.
    /// An unrecognized lexeme is handed back unchanged as the error value.
    pub fn try_from(item: String) -> (r: Result<BinaryOperator, String>)
        ensures
            match binary_operator_of(item@) {
                Some(op) => r == Ok::<BinaryOperator, String>(op),
                None => (r matches Err(t) && t@ == item@),
            },
    {
        let s = item.as_str();
        let n = s.unicode_len();
        if n == 1 {
            let c = s.get_char(0);
            if c == '<' {
                return Ok(BinaryOperator::Less);
            }
            if c == '>' {
                return Ok(BinaryOperator::Greater);
            }
            if c == '+' {
                return Ok(BinaryOperator::Plus);
            }
            if c == '-' {
                return Ok(BinaryOperator::Minus);
            }
            if c == '*' {
                return Ok(BinaryOperator::Star);
            }
            if c == '/' {
                return Ok(BinaryOperator::Slash);
            }
        }
        if n == 2 {
            let c0 = s.get_char(0);
            let c1 = s.get_char(1);
            if c1 == '=' {
                if c0 == '=' {
                    return Ok(BinaryOperator::EqualEqual);
                }
                if c0 == '!' {
                    return Ok(BinaryOperator::BangEqual);
                }
                if c0 == '<' {
                    return Ok(BinaryOperator::LessEqual);
                }
                if c0 == '>' {
                    return Ok(BinaryOperator::GreaterEqual);
                }
            }
        }
        Err(item)
    }
}

} // verus!
