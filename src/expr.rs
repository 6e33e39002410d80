//! Expression trees, equations, and their canonical text.
use vstd::prelude::*;
use crate::rational::Rational;

verus! {

/// A binary operator.
#[derive(Clone, Copy, Debug, PartialEq, Eq, Structural)]
pub enum BinOp {
    Add,
    Sub,
    Mul,
    Div,
    Pow,
}

/// An algebraic expression; variables are single ASCII letters.
#[derive(Debug, PartialEq, Eq)]
pub enum Expr {
    Const(Rational),
    Var(u8),
    Bin(BinOp, Box<Expr>, Box<Expr>),
    Neg(Box<Expr>),
}

/// The equation `lhs = rhs`.
#[derive(Debug, PartialEq, Eq)]
pub struct Equation {
    pub lhs: Expr,
    pub rhs: Expr,
}

pub open spec fn is_letter(c: u8) -> bool {
    (0x41 <= c <= 0x5a) || (0x61 <= c <= 0x7a)
}

impl Expr {
    /// Every constant is in lowest terms and every variable is a letter.
    pub open spec fn wf(self) -> bool
        decreases self,
    {
        match self {
            Expr::Const(r) => r.wf(),
            Expr::Var(c) => is_letter(c),
            Expr::Bin(_, a, b) => a.wf() && b.wf(),
            Expr::Neg(a) => a.wf(),
        }
    }

    /// A coefficient written against a variable or a power of one: `4x`, `-2x^3`.
    pub open spec fn is_juxt(self) -> bool {
        match self {
            Expr::Bin(BinOp::Mul, a, b) => (*a is Const) && ((*b is Var) || (match *b {
                Expr::Bin(BinOp::Pow, base, _) => *base is Var,
                _ => false,
            })),
            _ => false,
        }
    }

    /// Binding strength: sums 1, products 2, negations and signed literals 3,
    /// powers 4, atoms 5.
    pub open spec fn level(self) -> int {
        match self {
            Expr::Const(r) => if r.num < 0 { 3 } else { 5 },
            Expr::Var(_) => 5,
            Expr::Neg(_) => 3,
            Expr::Bin(op, _, _) => match op {
                BinOp::Add => 1,
                BinOp::Sub => 1,
                BinOp::Mul => if self.is_juxt() { 3 } else { 2 },
                BinOp::Div => 2,
                BinOp::Pow => 4,
            },
        }
    }

    /// The operand of a negation is bracketed when it is a literal, a
    /// coefficient form, or binds looser than a negation.
    pub open spec fn neg_needs_parens(self) -> bool {
        (self is Const) || self.is_juxt() || self.level() < 3
    }

    /// Clones the tree.
    pub fn copy(&self) -> (r: Expr)
        ensures
            r == *self,
        decreases self,
    {
        match self {
            Expr::Const(c) => Expr::Const(*c),
            Expr::Var(v) => Expr::Var(*v),
            Expr::Bin(op, a, b) => Expr::Bin(*op, Box::new(a.copy()), Box::new(b.copy())),
            Expr::Neg(a) => Expr::Neg(Box::new(a.copy())),
        }
    }
}

impl Equation {
    pub open spec fn wf(self) -> bool {
        self.lhs.wf() && self.rhs.wf()
    }

    pub fn copy(&self) -> (r: Equation)
        ensures
            r == *self,
    {
        Equation { lhs: self.lhs.copy(), rhs: self.rhs.copy() }
    }
}

/// Lowest binding strength an operand needs on the left and on the right.
pub open spec fn left_min(op: BinOp) -> int {
    match op {
        BinOp::Add => 1,
        BinOp::Sub => 1,
        BinOp::Mul => 2,
        BinOp::Div => 2,
        BinOp::Pow => 5,
    }
}

pub open spec fn right_min(op: BinOp) -> int {
    match op {
        BinOp::Add => 2,
        BinOp::Sub => 2,
        BinOp::Mul => 3,
        BinOp::Div => 3,
        BinOp::Pow => 4,
    }
}

/// The text between the operands of `op`.
pub open spec fn op_text(op: BinOp) -> Seq<u8> {
    match op {
        BinOp::Add => seq![0x20u8, 0x2bu8, 0x20u8],
        BinOp::Sub => seq![0x20u8, 0x2du8, 0x20u8],
        BinOp::Mul => seq![0x20u8, 0x2au8, 0x20u8],
        BinOp::Div => seq![0x20u8, 0x2fu8, 0x20u8],
        BinOp::Pow => seq![0x5eu8],
    }
}

/// Decimal digits of `n`.
pub open spec fn nat_text(n: nat) -> Seq<u8>
    decreases n,
{
    if n < 10 {
        seq![(0x30 + n) as u8]
    } else {
        nat_text(n / 10) + seq![(0x30 + n % 10) as u8]
    }
}

/// `n`, `-n`, `n/d` or `-n/d`.
pub open spec fn rat_text(r: Rational) -> Seq<u8> {
    let sign = if r.num < 0 { seq![0x2du8] } else { Seq::<u8>::empty() };
    let mag = if r.num < 0 { -r.num } else { r.num as int };
    let frac = if r.den == 1 { Seq::<u8>::empty() } else { seq![0x2fu8] + nat_text(r.den as nat) };
    sign + nat_text(mag as nat) + frac
}

pub open spec fn parens(s: Seq<u8>) -> Seq<u8> {
    seq![0x28u8] + s + seq![0x29u8]
}

pub open spec fn parens_if(b: bool, s: Seq<u8>) -> Seq<u8> {
    if b { parens(s) } else { s }
}

/// The canonical text of an expression: fixed precedence, minimal brackets.
pub open spec fn expr_text(e: Expr) -> Seq<u8>
    decreases e,
{
    match e {
        Expr::Const(r) => rat_text(r),
        Expr::Var(c) => seq![c],
        Expr::Neg(a) => seq![0x2du8] + parens_if(a.neg_needs_parens(), expr_text(*a)),
        Expr::Bin(op, a, b) => if e.is_juxt() {
            expr_text(*a) + expr_text(*b)
        } else {
            parens_if(a.level() < left_min(op), expr_text(*a)) + op_text(op)
                + parens_if(b.level() < right_min(op), expr_text(*b))
        },
    }
}

/// The canonical text of an equation.
pub open spec fn equation_text(q: Equation) -> Seq<u8> {
    expr_text(q.lhs) + seq![0x20u8, 0x3du8, 0x20u8] + expr_text(q.rhs)
}

fn push_nat(n: u64, out: &mut Vec<u8>)
    ensures
        final(out)@ == old(out)@ + nat_text(n as nat),
    decreases n,
{
    if n < 10 {
        out.push((0x30 + n) as u8);
    } else {
        push_nat(n / 10, out);
        out.push((0x30 + n % 10) as u8);
    }
}

/// Appends the text of a rational.
pub fn push_rational_text(r: &Rational, out: &mut Vec<u8>)
    requires
        r.wf(),
    ensures
        final(out)@ == old(out)@ + rat_text(*r),
{
    if r.num < 0 {
        out.push(0x2d);
        push_nat((-r.num) as u64, out);
    } else {
        push_nat(r.num as u64, out);
    }
    if r.den != 1 {
        out.push(0x2f);
        push_nat(r.den as u64, out);
    }
    assert(final(out)@ =~= old(out)@ + rat_text(*r));
}

fn is_juxt(e: &Expr) -> (r: bool)
    ensures
        r == e.is_juxt(),
{
    match e {
        Expr::Bin(BinOp::Mul, a, b) => match &**a {
            Expr::Const(_) => match &**b {
                Expr::Var(_) => true,
                Expr::Bin(BinOp::Pow, base, _) => match &**base {
                    Expr::Var(_) => true,
                    _ => false,
                },
                _ => false,
            },
            _ => false,
        },
        _ => false,
    }
}

fn level(e: &Expr) -> (r: u8)
    ensures
        r == e.level(),
{
    match e {
        Expr::Const(c) => if c.num < 0 { 3 } else { 5 },
        Expr::Var(_) => 5,
        Expr::Neg(_) => 3,
        Expr::Bin(op, _, _) => match op {
            BinOp::Add => 1,
            BinOp::Sub => 1,
            BinOp::Mul => if is_juxt(e) { 3 } else { 2 },
            BinOp::Div => 2,
            BinOp::Pow => 4,
        },
    }
}

fn push_op(op: BinOp, out: &mut Vec<u8>)
    ensures
        final(out)@ == old(out)@ + op_text(op),
{
    match op {
        BinOp::Pow => out.push(0x5e),
        _ => {
            out.push(0x20);
            match op {
                BinOp::Add => out.push(0x2b),
                BinOp::Sub => out.push(0x2d),
                BinOp::Mul => out.push(0x2a),
                _ => out.push(0x2f),
            }
            out.push(0x20);
        },
    }
    assert(final(out)@ =~= old(out)@ + op_text(op));
}

fn push_operand(e: &Expr, bracket: bool, out: &mut Vec<u8>)
    requires
        e.wf(),
    ensures
        final(out)@ == old(out)@ + parens_if(bracket, expr_text(*e)),
    decreases e, 1nat,
{
    if bracket {
        out.push(0x28);
        push_expr(e, out);
        out.push(0x29);
    } else {
        push_expr(e, out);
    }
    assert(final(out)@ =~= old(out)@ + parens_if(bracket, expr_text(*e)));
}

/// Appends the canonical text of `e`.
pub fn push_expr(e: &Expr, out: &mut Vec<u8>)
    requires
        e.wf(),
    ensures
        final(out)@ == old(out)@ + expr_text(*e),
    decreases e, 0nat,
{
    match e {
        Expr::Const(r) => push_rational_text(r, out),
        Expr::Var(c) => {
            out.push(*c);
            assert(final(out)@ =~= old(out)@ + expr_text(*e));
        },
        Expr::Neg(a) => {
            out.push(0x2d);
            let b = match &**a {
                Expr::Const(_) => true,
                _ => is_juxt(a) || level(a) < 3,
            };
            push_operand(a, b, out);
            assert(final(out)@ =~= old(out)@ + expr_text(*e));
        },
        Expr::Bin(op, a, b) => {
            if is_juxt(e) {
                push_expr(a, out);
                push_expr(b, out);
            } else {
                let lm: u8 = match op {
                    BinOp::Add => 1,
                    BinOp::Sub => 1,
                    BinOp::Mul => 2,
                    BinOp::Div => 2,
                    BinOp::Pow => 5,
                };
                let rm: u8 = match op {
                    BinOp::Add => 2,
                    BinOp::Sub => 2,
                    BinOp::Mul => 3,
                    BinOp::Div => 3,
                    BinOp::Pow => 4,
                };
                push_operand(a, level(a) < lm, out);
                push_op(*op, out);
                push_operand(b, level(b) < rm, out);
            }
            assert(final(out)@ =~= old(out)@ + expr_text(*e));
        },
    }
}

/// The canonical text of an equation, as bytes.
pub fn serialize(q: &Equation) -> (r: Vec<u8>)
    requires
        q.wf(),
    ensures
        r@ == equation_text(*q),
{
    let mut out: Vec<u8> = Vec::new();
    push_expr(&q.lhs, &mut out);
    out.push(0x20);
    out.push(0x3d);
    out.push(0x20);
    push_expr(&q.rhs, &mut out);
    assert(out@ =~= equation_text(*q));
    out
}

} // verus!
