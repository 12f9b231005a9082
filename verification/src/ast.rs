use vstd::prelude::*;
use vstd::string::*;

verus! {

/// The four arithmetic operators a postfix expression may use.
#[derive(Clone, Copy, Debug, PartialEq, Eq, Structural)]
pub enum Op {
    Plus,
    Minus,
    Times,
    Divide,
}

/// The character that spells an operator in both postfix and infix form.
pub open spec fn op_symbol(op: Op) -> char {
    match op {
        Op::Plus => '+',
        Op::Minus => '-',
        Op::Times => '*',
        Op::Divide => '/',
    }
}

/// Executable spelling of an operator.
pub fn op_to_char(op: Op) -> (c: char)
    ensures
        c == op_symbol(op),
{
    match op {
        Op::Plus => '+',
        Op::Minus => '-',
        Op::Times => '*',
        Op::Divide => '/',
    }
}

/// Mathematical model of an expression tree: a numeric literal kept as its
/// token text, or an operator applied to a left and a right subexpression.
pub enum SpecExpr {
    Literal(Seq<char>),
    Binary(Op, Box<SpecExpr>, Box<SpecExpr>),
}

/// An expression tree built during postfix evaluation. A literal leaf keeps
/// the exact token text, so the infix rendering reproduces the spelling that
/// appeared in the input.
pub enum Expr {
    Literal(String),
    Binary(Op, Box<Expr>, Box<Expr>),
}

impl Expr {
    /// The mathematical tree this executable tree stands for.
    pub open spec fn model(&self) -> SpecExpr
        decreases self,
    {
        match self {
            Expr::Literal(t) => SpecExpr::Literal(t@),
            Expr::Binary(op, l, r) => SpecExpr::Binary(
                *op,
                Box::new((**l).model()),
                Box::new((**r).model()),
            ),
        }
    }
}

impl View for Expr {
    type V = SpecExpr;

    open spec fn view(&self) -> SpecExpr {
        self.model()
    }
}

/// The fully parenthesized infix rendering of an expression tree: a literal
/// is its token text; an operator node is `lhs op rhs`, single-space
/// separated, wrapped in `( ... )` unless it is the top-level node. The
/// operands keep their original left/right order.
pub open spec fn render_spec(e: SpecExpr, top: bool) -> Seq<char>
    decreases e,
{
    match e {
        SpecExpr::Literal(t) => t,
        SpecExpr::Binary(op, l, r) => {
            let inner = render_spec(*l, false) + seq![' ', op_symbol(op), ' '] + render_spec(
                *r,
                false,
            );
            if top {
                inner
            } else {
                seq!['(', ' '] + inner + seq![' ', ')']
            }
        },
    }
}

/// Renders an expression tree in infix form. With `top` set, the outermost
/// parentheses are omitted: the top-level expression is displayed bare even
/// though nested subexpressions keep theirs.
pub fn render_infix(e: &Expr, top: bool) -> (r: String)
    ensures
        r@ == render_spec(e@, top),
    decreases e,
{
    match e {
        Expr::Literal(t) => t.clone(),
        Expr::Binary(op, l, r) => {
            let mut s = String::new();
            if !top {
                s.push('(');
                s.push(' ');
            }
            let ls = render_infix(&**l, false);
            s.append(ls.as_str());
            s.push(' ');
            s.push(op_to_char(*op));
            s.push(' ');
            let rs = render_infix(&**r, false);
            s.append(rs.as_str());
            if !top {
                s.push(' ');
                s.push(')');
            }
            proof {
                assert(s@ =~= render_spec(e@, top));
            }
            s
        },
    }
}

/// A single-token expression renders as exactly its token text whether or
/// not it stands at top level: omitting the outer parentheses of a
/// parenthesis-free rendering cannot corrupt the token.
pub proof fn lemma_literal_render_unchanged(t: Seq<char>)
    ensures
        render_spec(SpecExpr::Literal(t), true) == t,
        render_spec(SpecExpr::Literal(t), false) == t,
{
}

/// The top-level rendering of an operator node is its parenthesized
/// rendering with the outermost `( ` and ` )` stripped: the display form is
/// obtained from the stacked fragment exactly by removing the outer
/// parentheses.
pub proof fn lemma_top_render_strips_outer_parens(op: Op, l: SpecExpr, r: SpecExpr)
    ensures
        render_spec(SpecExpr::Binary(op, Box::new(l), Box::new(r)), false) == seq!['(', ' ']
            + render_spec(SpecExpr::Binary(op, Box::new(l), Box::new(r)), true) + seq![' ', ')'],
{
}

} // verus!
