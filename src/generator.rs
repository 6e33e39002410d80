//! Seeded generation of solvable linear equations `a·x + b = c`.
use vstd::prelude::*;
use crate::expr::{equation_text, serialize, BinOp, Equation, Expr};
use crate::rational::Rational;

verus! {

/// Multiplier and increment of the linear congruential generator.
pub const LCG_MUL: u64 = 6364136223846793005;
pub const LCG_INC: u64 = 1442695040888963407;
/// Largest magnitude a coefficient may reach while scrambling.
pub const CAP: i64 = 1000000;
/// Redraws allowed for one scrambling step before it is skipped.
pub const RETRIES: u64 = 4;
/// The variable of generated equations.
pub const VARIABLE: u8 = 0x78;

/// The generator's next state.
pub open spec fn lcg(x: u64) -> u64 {
    ((x as int * LCG_MUL as int + LCG_INC as int) % 0x1_0000_0000_0000_0000) as u64
}

/// A value in `lo .. lo + n` taken from the high bits of a state.
pub open spec fn pick(x: u64, lo: int, n: int) -> int {
    lo + (x as int / 0x2_0000_0000) % n
}

/// The equation `a·x + b = c`, by its three integers.
#[derive(Clone, Copy, Debug, PartialEq, Eq, Structural)]
pub struct Linear {
    pub a: i64,
    pub b: i64,
    pub c: i64,
}

pub open spec fn within_cap(l: Linear) -> bool {
    -CAP <= l.a <= CAP && -CAP <= l.b <= CAP && -CAP <= l.c <= CAP && l.a != 0
}

/// The inverse of a forward move, chosen by two draws: multiply both sides
/// by 2 to 5 (undone by dividing), or add a nonzero -9 to 9 to both sides
/// (undone by subtracting). `None` when degenerate or past the cap.
pub open spec fn inverse_move(l: Linear, kind: int, v: int) -> Option<Linear> {
    let n = if kind == 0 {
        Linear { a: (l.a * v) as i64, b: (l.b * v) as i64, c: (l.c * v) as i64 }
    } else {
        Linear { a: l.a, b: (l.b + v) as i64, c: (l.c + v) as i64 }
    };
    if v != 0 && within_cap(n) {
        Some(n)
    } else {
        None
    }
}

pub open spec fn draw_kind(x: u64) -> int {
    pick(lcg(x), 0, 2)
}

pub open spec fn draw_amount(x: u64) -> int {
    if draw_kind(x) == 0 { pick(lcg(lcg(x)), 2, 4) } else { pick(lcg(lcg(x)), -9, 19) }
}

/// One scrambling step: redraw on a degenerate move, at most `tries` more
/// times, then leave the equation as it is.
pub open spec fn scramble_step(l: Linear, x: u64, tries: nat) -> (Linear, u64)
    decreases tries,
{
    match inverse_move(l, draw_kind(x), draw_amount(x)) {
        Some(n) => (n, lcg(lcg(x))),
        None => if tries == 0 { (l, lcg(lcg(x))) } else { scramble_step(l, lcg(lcg(x)), (tries - 1) as nat) },
    }
}

pub open spec fn scramble(l: Linear, x: u64, steps: nat) -> (Linear, u64)
    decreases steps,
{
    if steps == 0 {
        (l, x)
    } else {
        let (m, y) = scramble_step(l, x, RETRIES as nat);
        scramble(m, y, (steps - 1) as nat)
    }
}

/// The problem for a seed: start from `x = c` with `c` in -9 to 9, scramble
/// one to three times, and if every step was skipped add one to both sides.
pub open spec fn problem(seed: u64) -> Linear {
    let x0 = lcg(seed);
    let c0 = pick(x0, -9, 19);
    let x1 = lcg(x0);
    let steps = pick(x1, 1, 3);
    let (l, _) = scramble(Linear { a: 1, b: 0, c: c0 as i64 }, x1, steps as nat);
    if l.a == 1 && l.b == 0 {
        Linear { a: 1, b: 1, c: (l.c + 1) as i64 }
    } else {
        l
    }
}

pub open spec fn constant(n: int) -> Expr {
    Expr::Const(Rational { num: n as i64, den: 1 })
}

/// `a·x + b = c` as a tree: `x` alone when `a` is one, the term `b` left out
/// when zero and subtracted when negative.
pub open spec fn linear_equation(l: Linear) -> Equation {
    let v = Expr::Var(VARIABLE);
    let t = if l.a == 1 { v } else { Expr::Bin(BinOp::Mul, Box::new(constant(l.a as int)), Box::new(v)) };
    let lhs = if l.b > 0 {
        Expr::Bin(BinOp::Add, Box::new(t), Box::new(constant(l.b as int)))
    } else if l.b < 0 {
        Expr::Bin(BinOp::Sub, Box::new(t), Box::new(constant(-l.b)))
    } else {
        t
    };
    Equation { lhs, rhs: constant(l.c as int) }
}

/// The text of the problem for a seed.
pub open spec fn problem_text(seed: u64) -> Seq<u8> {
    equation_text(linear_equation(problem(seed)))
}

fn next(x: u64) -> (r: u64)
    ensures
        r == lcg(x),
{
    assert(x as u128 * LCG_MUL as u128 <= 0xffff_ffff_ffff_ffff * 6364136223846793005) by (nonlinear_arith)
        requires x <= 0xffff_ffff_ffff_ffffu64;
    ((x as u128 * LCG_MUL as u128 + LCG_INC as u128) % 0x1_0000_0000_0000_0000u128) as u64
}

fn pick_in(x: u64, lo: i64, n: u64) -> (r: i64)
    requires
        0 < n <= 100,
        -100 <= lo <= 100,
    ensures
        r == pick(x, lo as int, n as int),
        lo <= r < lo + n,
{
    lo + ((x / 0x2_0000_0000) % n) as i64
}

fn try_move(l: Linear, kind: i64, v: i64) -> (r: Option<Linear>)
    requires
        within_cap(l),
        -9 <= v <= 9,
    ensures
        r == inverse_move(l, kind as int, v as int),
{
    if v == 0 {
        return None;
    }
    proof {
        let a = l.a as int;
        let b = l.b as int;
        let c = l.c as int;
        let w = v as int;
        assert(-9 * CAP <= a * w <= 9 * CAP) by (nonlinear_arith) requires -CAP <= a <= CAP, -9 <= w <= 9;
        assert(-9 * CAP <= b * w <= 9 * CAP) by (nonlinear_arith) requires -CAP <= b <= CAP, -9 <= w <= 9;
        assert(-9 * CAP <= c * w <= 9 * CAP) by (nonlinear_arith) requires -CAP <= c <= CAP, -9 <= w <= 9;
    }
    let n = if kind == 0 {
        Linear { a: l.a * v, b: l.b * v, c: l.c * v }
    } else {
        Linear { a: l.a, b: l.b + v, c: l.c + v }
    };
    if -CAP <= n.a && n.a <= CAP && -CAP <= n.b && n.b <= CAP && -CAP <= n.c && n.c <= CAP && n.a != 0 {
        Some(n)
    } else {
        None
    }
}

fn step_once(l: Linear, x: u64, tries: u64) -> (r: (Linear, u64))
    requires
        within_cap(l),
    ensures
        r == scramble_step(l, x, tries as nat),
        within_cap(r.0),
    decreases tries,
{
    let y = next(x);
    let kind = pick_in(y, 0, 2);
    let z = next(y);
    let v = if kind == 0 { pick_in(z, 2, 4) } else { pick_in(z, -9, 19) };
    match try_move(l, kind, v) {
        Some(n) => (n, z),
        None => if tries == 0 { (l, z) } else { step_once(l, z, tries - 1) },
    }
}

fn scramble_exec(l: Linear, x: u64, steps: u64) -> (r: (Linear, u64))
    requires
        within_cap(l),
    ensures
        r == scramble(l, x, steps as nat),
        within_cap(r.0),
    decreases steps,
{
    if steps == 0 {
        (l, x)
    } else {
        let (m, y) = step_once(l, x, RETRIES);
        scramble_exec(m, y, steps - 1)
    }
}

fn constant_exec(n: i64) -> (r: Expr)
    requires
        -CAP - 1 <= n <= CAP + 1,
    ensures
        r == constant(n as int),
        r.wf(),
{
    let q = Rational::from_int(n);
    Expr::Const(q)
}

/// The tree of `a·x + b = c`.
pub fn linear_to_equation(l: &Linear) -> (r: Equation)
    requires
        -CAP <= l.a <= CAP,
        -CAP <= l.b <= CAP,
        -CAP - 1 <= l.c <= CAP + 1,
    ensures
        r == linear_equation(*l),
        r.wf(),
{
    let t = if l.a == 1 {
        Expr::Var(VARIABLE)
    } else {
        Expr::Bin(BinOp::Mul, Box::new(constant_exec(l.a)), Box::new(Expr::Var(VARIABLE)))
    };
    assert(Expr::Var(VARIABLE).wf());
    assert(t.wf());
    let lhs = if l.b > 0 {
        Expr::Bin(BinOp::Add, Box::new(t), Box::new(constant_exec(l.b)))
    } else if l.b < 0 {
        Expr::Bin(BinOp::Sub, Box::new(t), Box::new(constant_exec(-l.b)))
    } else {
        t
    };
    Equation { lhs, rhs: constant_exec(l.c) }
}

/// The problem for a seed, as integers.
pub fn generate_linear(seed: u64) -> (r: Linear)
    ensures
        r == problem(seed),
        -CAP <= r.a <= CAP && r.a != 0,
        -CAP <= r.b <= CAP,
        -CAP - 1 <= r.c <= CAP + 1,
{
    let x0 = next(seed);
    let c0 = pick_in(x0, -9, 19);
    let x1 = next(x0);
    let steps = pick_in(x1, 1, 3);
    let (l, _) = scramble_exec(Linear { a: 1, b: 0, c: c0 }, x1, steps as u64);
    if l.a == 1 && l.b == 0 {
        Linear { a: 1, b: 1, c: l.c + 1 }
    } else {
        l
    }
}

/// The problem for a seed, as canonical text; the same seed always gives
/// the same text.
pub fn generate_problem(seed: u64) -> (r: Vec<u8>)
    ensures
        r@ == problem_text(seed),
{
    let l = generate_linear(seed);
    let q = linear_to_equation(&l);
    serialize(&q)
}

} // verus!
