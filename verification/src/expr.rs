//! The expression tree the parser builds, and its deterministic printer.
//!
//! The tree is a closed sum of four node shapes; every non-leaf node owns
//! its children.  The printer renders a tree as nested, indented text; its
//! whole output is specified by [`spec_render`], so it is stable across runs
//! for identical input.

use vstd::prelude::*;
use vstd::string::StringExecFns;

use crate::token::{
    bump, kind_name, spaces, spec_bump, spec_kind_name, spec_spaces, spec_token_string, Token,
};

verus! {

/// An expression: a binary operation, a parenthesized grouping, a literal
/// leaf, or a unary operation.
#[derive(Debug, PartialEq)]
pub enum Expression {
    Binary(Binary),
    Grouping(Grouping),
    Literal(Literal),
    Unary(Unary),
}

/// `left operator right`, for a binary operator token.
#[derive(Debug, PartialEq)]
pub struct Binary {
    pub left: Box<Expression>,
    pub operator: Token,
    pub right: Box<Expression>,
}

/// A parenthesized sub-expression.
#[derive(Debug, PartialEq)]
pub struct Grouping {
    pub expression: Box<Expression>,
}

/// An operator-free leaf holding its literal token.
#[derive(Debug, PartialEq)]
pub struct Literal {
    pub value: Token,
}

/// `operator operand`, for a prefix `!` or `-`.
#[derive(Debug, PartialEq)]
pub struct Unary {
    pub operator: Token,
    pub right: Box<Expression>,
}

/// The exact text the printer produces for a tree at a given indentation.
/// Every node recurses into its child subtrees at indent+4; a node's own
/// inner labels and its operator token sit four and eight spaces in.  The
/// indentation arithmetic stops at the machine limit so the printer is
/// total.
pub open spec fn spec_render(e: Expression, indent: nat) -> Seq<char>
    decreases e,
{
    match e {
        Expression::Binary(b) => spec_spaces(indent) + "Binary:\n"@ + spec_spaces(
            spec_bump(indent, 4),
        ) + "Operator:\n"@ + spec_spaces(spec_bump(indent, 8)) + spec_kind_name(b.operator.kind)
            + "\n"@ + spec_spaces(spec_bump(indent, 4)) + "Left: \n"@ + spec_render(
            *b.left,
            spec_bump(indent, 4),
        ) + spec_spaces(spec_bump(indent, 4)) + "Right: \n"@ + spec_render(
            *b.right,
            spec_bump(indent, 4),
        ),
        Expression::Grouping(g) => spec_spaces(indent) + "Expression:\n"@ + spec_render(
            *g.expression,
            spec_bump(indent, 4),
        ),
        Expression::Literal(l) => spec_spaces(indent) + "Literal:\n"@ + spec_spaces(
            spec_bump(indent, 4),
        ) + spec_token_string(l.value@, spec_bump(indent, 4)) + "\n"@,
        Expression::Unary(u) => spec_spaces(indent) + "Unary:\n"@ + spec_spaces(
            spec_bump(indent, 4),
        ) + "Operator:\n"@ + spec_spaces(spec_bump(indent, 8)) + spec_token_string(
            u.operator@,
            spec_bump(indent, 8),
        ) + "\n"@ + spec_spaces(spec_bump(indent, 4)) + "Right:\n"@ + spec_render(
            *u.right,
            spec_bump(indent, 4),
        ),
    }
}

impl Expression {
    /// Render the tree; the result is exactly [`spec_render`] of it.
    pub fn print(&self, indent: usize) -> (r: String)
        ensures
            r@ == spec_render(*self, indent as nat),
        decreases *self,
    {
        match self {
            Expression::Binary(b) => b.render(indent),
            Expression::Grouping(g) => g.render(indent),
            Expression::Literal(l) => l.render(indent),
            Expression::Unary(u) => u.render(indent),
        }
    }
}

/// What every node shape offers: its place in the expression sum, and the
/// printer.
pub trait Expr {
    spec fn as_expression(&self) -> Expression;

    fn print(&self, indent: usize) -> (r: String)
        ensures
            r@ == spec_render(self.as_expression(), indent as nat),
    ;
}

impl Binary {
    pub fn new(left: Box<Expression>, operator: Token, right: Box<Expression>) -> (b: Binary)
        ensures
            b == (Binary { left, operator, right }),
    {
        Binary { left, operator, right }
    }

    fn render(&self, indent: usize) -> (r: String)
        ensures
            r@ == spec_render(Expression::Binary(*self), indent as nat),
        decreases *self,
    {
        let i4 = bump(indent, 4);
        let i8 = bump(indent, 8);
        let sp4 = spaces(i4);
        let mut r = spaces(indent);
        r.append("Binary:\n");
        r.append(sp4.as_str());
        r.append("Operator:\n");
        let sp8 = spaces(i8);
        r.append(sp8.as_str());
        r.append(kind_name(self.operator.kind));
        r.append("\n");
        r.append(sp4.as_str());
        r.append("Left: \n");
        let left = self.left.print(i4);
        r.append(left.as_str());
        r.append(sp4.as_str());
        r.append("Right: \n");
        let right = self.right.print(i4);
        r.append(right.as_str());
        r
    }
}

impl Expr for Binary {
    open spec fn as_expression(&self) -> Expression {
        Expression::Binary(*self)
    }

    fn print(&self, indent: usize) -> (r: String) {
        self.render(indent)
    }
}

impl Grouping {
    pub fn new(expression: Box<Expression>) -> (g: Grouping)
        ensures
            g == (Grouping { expression }),
    {
        Grouping { expression }
    }

    fn render(&self, indent: usize) -> (r: String)
        ensures
            r@ == spec_render(Expression::Grouping(*self), indent as nat),
        decreases *self,
    {
        let mut r = spaces(indent);
        r.append("Expression:\n");
        let inner = self.expression.print(bump(indent, 4));
        r.append(inner.as_str());
        r
    }
}

impl Expr for Grouping {
    open spec fn as_expression(&self) -> Expression {
        Expression::Grouping(*self)
    }

    fn print(&self, indent: usize) -> (r: String) {
        self.render(indent)
    }
}

impl Literal {
    pub fn new(value: Token) -> (l: Literal)
        ensures
            l == (Literal { value }),
    {
        Literal { value }
    }

    fn render(&self, indent: usize) -> (r: String)
        ensures
            r@ == spec_render(Expression::Literal(*self), indent as nat),
    {
        let i4 = bump(indent, 4);
        let mut r = spaces(indent);
        r.append("Literal:\n");
        let sp4 = spaces(i4);
        r.append(sp4.as_str());
        let t = self.value.to_string(i4);
        r.append(t.as_str());
        r.append("\n");
        r
    }
}

impl Expr for Literal {
    open spec fn as_expression(&self) -> Expression {
        Expression::Literal(*self)
    }

    fn print(&self, indent: usize) -> (r: String) {
        self.render(indent)
    }
}

impl Unary {
    pub fn new(operator: Token, right: Box<Expression>) -> (u: Unary)
        ensures
            u == (Unary { operator, right }),
    {
        Unary { operator, right }
    }

    fn render(&self, indent: usize) -> (r: String)
        ensures
            r@ == spec_render(Expression::Unary(*self), indent as nat),
        decreases *self,
    {
        let i4 = bump(indent, 4);
        let i8 = bump(indent, 8);
        let sp4 = spaces(i4);
        let mut r = spaces(indent);
        r.append("Unary:\n");
        r.append(sp4.as_str());
        r.append("Operator:\n");
        let sp8 = spaces(i8);
        r.append(sp8.as_str());
        let t = self.operator.to_string(i8);
        r.append(t.as_str());
        r.append("\n");
        r.append(sp4.as_str());
        r.append("Right:\n");
        let operand = self.right.print(i4);
        r.append(operand.as_str());
        r
    }
}

impl Expr for Unary {
    open spec fn as_expression(&self) -> Expression {
        Expression::Unary(*self)
    }

    fn print(&self, indent: usize) -> (r: String) {
        self.render(indent)
    }
}

} // verus!
