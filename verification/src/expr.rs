//! Expression tree and printer: a small closed set of expression node
//! variants, each owning its children, with a canonical fully-parenthesized
//! prefix (Lisp-style) rendering that prints operator lexemes.

use vstd::prelude::*;
use vstd::string::StringExecFns;

use crate::token::Token;

verus! {

/// A literal's decoded payload. Numbers carry their decimal text: the
/// scanner defers numeric decoding to a later layer, and the printer needs
/// only the text.
pub enum LiteralValue {
    Number(String),
    StringValue(String),
    True,
    False,
    Nil,
}

impl LiteralValue {
    /// The canonical textual form of this literal.
    pub open spec fn display_view(&self) -> Seq<char> {
        match self {
            LiteralValue::Number(x) => x@,
            LiteralValue::StringValue(x) => x@,
            LiteralValue::True => "true"@,
            LiteralValue::False => "false"@,
            LiteralValue::Nil => "nil"@,
        }
    }

    /// Render this literal: number and string payloads unchanged, the
    /// fixed words for the keyword literals.
    pub fn to_string(&self) -> (r: String)
        ensures
            r@ == self.display_view(),
    {
        match self {
            LiteralValue::Number(x) => x.clone(),
            LiteralValue::StringValue(x) => x.clone(),
            LiteralValue::True => "true".to_owned(),
            LiteralValue::False => "false".to_owned(),
            LiteralValue::Nil => "nil".to_owned(),
        }
    }
}

/// A recursive, immutable expression tree; each non-leaf node exclusively
/// owns its children.
pub enum Expr {
    Binary { left: Box<Expr>, operator: Token, right: Box<Expr> },
    Grouping { expression: Box<Expr> },
    Literal { value: LiteralValue },
    Unary { operator: Token, right: Box<Expr> },
}

impl Expr {
    /// The canonical rendering of this tree: fully parenthesized prefix
    /// form, printing operator lexemes.
    pub open spec fn display_view(&self) -> Seq<char>
        decreases self,
    {
        match self {
            Expr::Binary { left, operator, right } => "("@ + operator.lexeme@ + " "@
                + left.display_view() + " "@ + right.display_view() + ")"@,
            Expr::Grouping { expression } => "(group "@ + expression.display_view() + ")"@,
            Expr::Literal { value } => value.display_view(),
            Expr::Unary { operator, right } => "("@ + operator.lexeme@ + " "@
                + right.display_view() + ")"@,
        }
    }

    /// Render this tree by structural recursion; no mutation, and
    /// termination is guaranteed because each node strictly owns its
    /// subtrees.
    pub fn to_string(&self) -> (r: String)
        ensures
            r@ == self.display_view(),
        decreases *self,
    {
        match self {
            Expr::Binary { left, operator, right } => {
                let mut r: String = "(".to_owned();
                r.append(operator.lexeme.as_str());
                r.append(" ");
                let left_str = left.to_string();
                r.append(left_str.as_str());
                r.append(" ");
                let right_str = right.to_string();
                r.append(right_str.as_str());
                r.append(")");
                r
            },
            Expr::Grouping { expression } => {
                let mut r: String = "(group ".to_owned();
                let inner = expression.to_string();
                r.append(inner.as_str());
                r.append(")");
                r
            },
            Expr::Literal { value } => value.to_string(),
            Expr::Unary { operator, right } => {
                let mut r: String = "(".to_owned();
                r.append(operator.lexeme.as_str());
                r.append(" ");
                let right_str = right.to_string();
                r.append(right_str.as_str());
                r.append(")");
                r
            },
        }
    }
}

} // verus!
