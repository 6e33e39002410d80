//! The fixed table of rewrite rules.
use vstd::prelude::*;
use crate::expr::{BinOp, Equation, Expr};
use crate::rational::{Rational, spec_add, spec_div, spec_from_parts, spec_mul, spec_sub};

verus! {

/// The rules, in the order in which they are tried at a node. The first four
/// rewrite one subexpression; the rest act on the whole equation.
#[derive(Clone, Copy, Debug, PartialEq, Eq, Structural)]
pub enum Rule {
    ConstantFold,
    CombineLikeTerms,
    Distribute,
    Commute,
    SubtractBothSides,
    AddBothSides,
    DivideBothSides,
    MultiplyBothSides,
    SwapSides,
}

pub open spec fn spec_arith(op: BinOp, a: Rational, b: Rational) -> Option<Rational> {
    match op {
        BinOp::Add => spec_add(a, b),
        BinOp::Sub => spec_sub(a, b),
        BinOp::Mul => spec_mul(a, b),
        BinOp::Div => spec_div(a, b),
        BinOp::Pow => None,
    }
}

/// A term `c·v`: a variable alone (coefficient one) or a literal times a variable.
pub open spec fn spec_term(e: Expr) -> Option<(Rational, u8)> {
    match e {
        Expr::Var(v) => Some((Rational { num: 1, den: 1 }, v)),
        Expr::Bin(BinOp::Mul, a, b) => match (*a, *b) {
            (Expr::Const(c), Expr::Var(v)) => Some((c, v)),
            _ => None,
        },
        _ => None,
    }
}

pub open spec fn mk_bin(op: BinOp, a: Expr, b: Expr) -> Expr {
    Expr::Bin(op, Box::new(a), Box::new(b))
}

/// What a subexpression rule makes of `e`, when it applies.
pub open spec fn apply_node_rule(rule: Rule, e: Expr) -> Option<Expr> {
    match rule {
        Rule::ConstantFold => match e {
            Expr::Bin(op, a, b) => match (*a, *b) {
                (Expr::Const(x), Expr::Const(y)) => match spec_arith(op, x, y) {
                    Some(z) => Some(Expr::Const(z)),
                    None => None,
                },
                _ => None,
            },
            Expr::Neg(a) => match *a {
                Expr::Const(x) => Some(Expr::Const(spec_from_parts(-x.num, x.den as int).unwrap())),
                _ => None,
            },
            _ => None,
        },
        Rule::CombineLikeTerms => match e {
            Expr::Bin(op, a, b) => if op == BinOp::Add || op == BinOp::Sub {
                match (spec_term(*a), spec_term(*b)) {
                    (Some((c, v)), Some((d, w))) => if v == w {
                        match spec_arith(op, c, d) {
                            Some(k) => Some(mk_bin(BinOp::Mul, Expr::Const(k), Expr::Var(v))),
                            None => None,
                        }
                    } else {
                        None
                    },
                    _ => None,
                }
            } else {
                None
            },
            _ => None,
        },
        Rule::Distribute => match e {
            Expr::Bin(BinOp::Mul, a, b) => match (*a, *b) {
                (Expr::Const(c), Expr::Bin(op, p, q)) => if op == BinOp::Add || op == BinOp::Sub {
                    Some(
                        mk_bin(
                            op,
                            mk_bin(BinOp::Mul, Expr::Const(c), *p),
                            mk_bin(BinOp::Mul, Expr::Const(c), *q),
                        ),
                    )
                } else {
                    None
                },
                _ => None,
            },
            _ => None,
        },
        Rule::Commute => match e {
            Expr::Bin(BinOp::Add, a, b) => if (*a is Const) && !(*b is Const) {
                Some(mk_bin(BinOp::Add, *b, *a))
            } else {
                None
            },
            Expr::Bin(BinOp::Mul, a, b) => if !(*a is Const) && (*b is Const) {
                Some(mk_bin(BinOp::Mul, *b, *a))
            } else {
                None
            },
            _ => None,
        },
        _ => None,
    }
}

/// The right side after `k` is subtracted from (`add` false) or added to it:
/// folded when the side is a literal, else written as a difference or sum.
pub open spec fn shift_side(side: Expr, k: Rational, add: bool) -> Option<Expr> {
    let op = if add { BinOp::Add } else { BinOp::Sub };
    match side {
        Expr::Const(r) => match spec_arith(op, r, k) {
            Some(z) => Some(Expr::Const(z)),
            None => None,
        },
        _ => Some(mk_bin(op, side, Expr::Const(k))),
    }
}

/// What an equation rule makes of `q`, with the literal it acts by.
pub open spec fn apply_equation_rule(rule: Rule, q: Equation) -> Option<(Equation, Rational)> {
    match rule {
        Rule::SubtractBothSides => match q.lhs {
            Expr::Bin(BinOp::Add, t, b) => match *b {
                Expr::Const(k) => match shift_side(q.rhs, k, false) {
                    Some(r) => Some((Equation { lhs: *t, rhs: r }, k)),
                    None => None,
                },
                _ => None,
            },
            _ => None,
        },
        Rule::AddBothSides => match q.lhs {
            Expr::Bin(BinOp::Sub, t, b) => match *b {
                Expr::Const(k) => match shift_side(q.rhs, k, true) {
                    Some(r) => Some((Equation { lhs: *t, rhs: r }, k)),
                    None => None,
                },
                _ => None,
            },
            _ => None,
        },
        Rule::DivideBothSides => match (q.lhs, q.rhs) {
            (Expr::Bin(BinOp::Mul, a, x), Expr::Const(r)) => match (*a, *x) {
                (Expr::Const(k), Expr::Var(v)) => if k.num != 0 && k != (Rational { num: 1, den: 1 }) {
                    match spec_div(r, k) {
                        Some(z) => Some((Equation { lhs: Expr::Var(v), rhs: Expr::Const(z) }, k)),
                        None => None,
                    }
                } else {
                    None
                },
                _ => None,
            },
            _ => None,
        },
        Rule::MultiplyBothSides => match (q.lhs, q.rhs) {
            (Expr::Bin(BinOp::Div, x, a), Expr::Const(r)) => match (*x, *a) {
                (Expr::Var(v), Expr::Const(k)) => if k.num != 0 {
                    match spec_mul(r, k) {
                        Some(z) => Some((Equation { lhs: Expr::Var(v), rhs: Expr::Const(z) }, k)),
                        None => None,
                    }
                } else {
                    None
                },
                _ => None,
            },
            _ => None,
        },
        Rule::SwapSides => if (q.lhs is Const) && !(q.rhs is Const) {
            Some((Equation { lhs: q.rhs, rhs: q.lhs }, Rational { num: 0, den: 1 }))
        } else {
            None
        },
        _ => None,
    }
}

pub fn arith(op: BinOp, a: &Rational, b: &Rational) -> (r: Option<Rational>)
    requires
        a.wf(),
        b.wf(),
    ensures
        r == spec_arith(op, *a, *b),
        r matches Some(z) ==> z.wf(),
{
    match op {
        BinOp::Add => a.add(b),
        BinOp::Sub => a.sub(b),
        BinOp::Mul => a.mul(b),
        BinOp::Div => a.div(b),
        BinOp::Pow => None,
    }
}

fn term(e: &Expr) -> (r: Option<(Rational, u8)>)
    requires
        e.wf(),
    ensures
        r == spec_term(*e),
        r matches Some((c, v)) ==> c.wf() && crate::expr::is_letter(v),
{
    match e {
        Expr::Var(v) => {
            let one = Rational::from_int(1);
            Some((one, *v))
        },
        Expr::Bin(BinOp::Mul, a, b) => match (&**a, &**b) {
            (Expr::Const(c), Expr::Var(v)) => {
                assert(a.wf() && b.wf());
                Some((*c, *v))
            },
            _ => None,
        },
        _ => None,
    }
}

fn bin(op: BinOp, a: Expr, b: Expr) -> (r: Expr)
    ensures
        r == mk_bin(op, a, b),
{
    Expr::Bin(op, Box::new(a), Box::new(b))
}

/// Applies a subexpression rule to `e`.
pub fn apply_node(rule: Rule, e: &Expr) -> (r: Option<Expr>)
    requires
        e.wf(),
    ensures
        r == apply_node_rule(rule, *e),
        r matches Some(n) ==> n.wf(),
{
    match rule {
        Rule::ConstantFold => match e {
            Expr::Bin(op, a, b) => match (&**a, &**b) {
                (Expr::Const(x), Expr::Const(y)) => {
                    assert(a.wf() && b.wf());
                    match arith(*op, x, y) {
                        Some(z) => {
                            assert(Expr::Const(z).wf());
                            Some(Expr::Const(z))
                        },
                        None => None,
                    }
                },
                _ => None,
            },
            Expr::Neg(a) => match &**a {
                Expr::Const(x) => {
                    assert(a.wf());
                    assert(x.wf());
                    let z = x.neg();
                    assert(Expr::Const(z).wf());
                    Some(Expr::Const(z))
                },
                _ => None,
            },
            _ => None,
        },
        Rule::CombineLikeTerms => match e {
            Expr::Bin(op, a, b) => if *op == BinOp::Add || *op == BinOp::Sub {
                match (term(a), term(b)) {
                    (Some((c, v)), Some((d, w))) => if v == w {
                        match arith(*op, &c, &d) {
                            Some(k) => {
                                assert(Expr::Const(k).wf() && Expr::Var(v).wf());
                                Some(bin(BinOp::Mul, Expr::Const(k), Expr::Var(v)))
                            },
                            None => None,
                        }
                    } else {
                        None
                    },
                    _ => None,
                }
            } else {
                None
            },
            _ => None,
        },
        Rule::Distribute => match e {
            Expr::Bin(BinOp::Mul, a, b) => match (&**a, &**b) {
                (Expr::Const(c), Expr::Bin(op, p, q)) => if *op == BinOp::Add || *op == BinOp::Sub {
                    assert(a.wf() && b.wf());
                    assert(p.wf() && q.wf());
                    assert(Expr::Const(*c).wf());
                    let l = bin(BinOp::Mul, Expr::Const(*c), p.copy());
                    let r = bin(BinOp::Mul, Expr::Const(*c), q.copy());
                    assert(l.wf() && r.wf());
                    Some(bin(*op, l, r))
                } else {
                    None
                },
                _ => None,
            },
            _ => None,
        },
        Rule::Commute => match e {
            Expr::Bin(BinOp::Add, a, b) => if matches!(&**a, Expr::Const(_)) && !matches!(&**b, Expr::Const(_)) {
                assert(a.wf() && b.wf());
                Some(bin(BinOp::Add, b.copy(), a.copy()))
            } else {
                None
            },
            Expr::Bin(BinOp::Mul, a, b) => if !matches!(&**a, Expr::Const(_)) && matches!(&**b, Expr::Const(_)) {
                assert(a.wf() && b.wf());
                Some(bin(BinOp::Mul, b.copy(), a.copy()))
            } else {
                None
            },
            _ => None,
        },
        _ => None,
    }
}

fn shift(side: &Expr, k: &Rational, add: bool) -> (r: Option<Expr>)
    requires
        side.wf(),
        k.wf(),
    ensures
        r == shift_side(*side, *k, add),
        r matches Some(n) ==> n.wf(),
{
    let op = if add { BinOp::Add } else { BinOp::Sub };
    match side {
        Expr::Const(x) => match arith(op, x, k) {
            Some(z) => {
                assert(Expr::Const(z).wf());
                Some(Expr::Const(z))
            },
            None => None,
        },
        _ => {
            assert(Expr::Const(*k).wf());
            Some(bin(op, side.copy(), Expr::Const(*k)))
        },
    }
}

/// Applies an equation rule to `q`.
pub fn apply_equation(rule: Rule, q: &Equation) -> (r: Option<(Equation, Rational)>)
    requires
        q.wf(),
    ensures
        r == apply_equation_rule(rule, *q),
        r matches Some((n, k)) ==> n.wf() && k.wf(),
{
    match rule {
        Rule::SubtractBothSides | Rule::AddBothSides => {
            let add = match rule {
                Rule::AddBothSides => true,
                _ => false,
            };
            match &q.lhs {
                Expr::Bin(op, t, b) => {
                    if (add && *op != BinOp::Sub) || (!add && *op != BinOp::Add) {
                        return None;
                    }
                    match &**b {
                        Expr::Const(k) => {
                            assert(t.wf() && b.wf());
                            match shift(&q.rhs, k, add) {
                                Some(r) => Some((Equation { lhs: t.copy(), rhs: r }, *k)),
                                None => None,
                            }
                        },
                        _ => None,
                    }
                },
                _ => None,
            }
        },
        Rule::DivideBothSides | Rule::MultiplyBothSides => {
            let divide = match rule {
                Rule::DivideBothSides => true,
                _ => false,
            };
            match (&q.lhs, &q.rhs) {
                (Expr::Bin(op, a, b), Expr::Const(r)) => {
                    assert(a.wf() && b.wf());
                    if divide && *op == BinOp::Mul {
                        match (&**a, &**b) {
                            (Expr::Const(k), Expr::Var(v)) => if k.num != 0 && !(k.num == 1 && k.den == 1) {
                                match r.div(k) {
                                    Some(z) => {
                                        assert(Expr::Var(*v).wf() && Expr::Const(z).wf());
                                        Some((Equation { lhs: Expr::Var(*v), rhs: Expr::Const(z) }, *k))
                                    },
                                    None => None,
                                }
                            } else {
                                None
                            },
                            _ => None,
                        }
                    } else if !divide && *op == BinOp::Div {
                        match (&**a, &**b) {
                            (Expr::Var(v), Expr::Const(k)) => if k.num != 0 {
                                match r.mul(k) {
                                    Some(z) => {
                                        assert(Expr::Var(*v).wf() && Expr::Const(z).wf());
                                        Some((Equation { lhs: Expr::Var(*v), rhs: Expr::Const(z) }, *k))
                                    },
                                    None => None,
                                }
                            } else {
                                None
                            },
                            _ => None,
                        }
                    } else {
                        None
                    }
                },
                _ => None,
            }
        },
        Rule::SwapSides => if matches!(&q.lhs, Expr::Const(_)) && !matches!(&q.rhs, Expr::Const(_)) {
            let zero = Rational::from_int(0);
            Some((Equation { lhs: q.rhs.copy(), rhs: q.lhs.copy() }, zero))
        } else {
            None
        },
        _ => None,
    }
}

} // verus!
