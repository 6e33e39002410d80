//! Proofs about generated problems: their text reads back as their tree,
//! and every one of them is solved by a finite chain of returned actions.
use vstd::prelude::*;
use crate::engine::{actions, equation_action, rewrites, step_text, ActionText, Rewrite};
use crate::expr::{equation_text, expr_text, nat_text, op_text, rat_text, BinOp, Equation, Expr};
use crate::generator::{
    constant, lcg, linear_equation, pick, problem, problem_text, scramble, scramble_step, within_cap, Linear,
    CAP, RETRIES, VARIABLE,
};
use crate::lexer::{
    int_tokens, lemma_integer_parts, lemma_lex_fraction_at_end, lemma_lex_int, lemma_lex_number, lex_from, Token,
    CARET, EQUALS, MINUS, PLUS, SLASH, SPACE,
};
use crate::parser::{
    additive_op, is_sym, multiplicative_op, negate_literal, p_atom, p_equation, p_power, p_prod, p_prod_rest, p_sum,
    p_sum_rest, p_unary, p_var_power, parse_text,
};
use crate::rational::{
    fits, lemma_from_parts_fits, lemma_lowest_terms_exists, lowest_terms, spec_add, spec_div, spec_from_parts,
    spec_sub, Rational,
};
use crate::rules::{apply_equation_rule, mk_bin, shift_side, Rule};

verus! {

/// One of the actions of `q` has the text of `n` as its next state.
pub open spec fn leads_to(q: Equation, n: Equation) -> bool {
    exists|k: int| 0 <= k < actions(q).len() && (#[trigger] actions(q)[k]).0 == equation_text(n)
}

/// No action applies to `q`.
pub open spec fn is_terminal(q: Equation) -> bool {
    actions(q).len() == 0
}

proof fn lemma_scramble_step_in_cap(l: Linear, x: u64, tries: nat)
    requires
        within_cap(l),
    ensures
        within_cap(scramble_step(l, x, tries).0),
    decreases tries,
{
    if tries > 0 {
        lemma_scramble_step_in_cap(l, lcg(lcg(x)), (tries - 1) as nat);
    }
}

proof fn lemma_scramble_in_cap(l: Linear, x: u64, steps: nat)
    requires
        within_cap(l),
    ensures
        within_cap(scramble(l, x, steps).0),
    decreases steps,
{
    if steps > 0 {
        lemma_scramble_step_in_cap(l, x, RETRIES as nat);
        let (m, y) = scramble_step(l, x, RETRIES as nat);
        lemma_scramble_in_cap(m, y, (steps - 1) as nat);
    }
}

/// A generated problem has small coefficients, a nonzero `a`, and is not
/// already `x = c`.
pub proof fn lemma_problem_shape(seed: u64)
    ensures
        -CAP <= problem(seed).a <= CAP,
        problem(seed).a != 0,
        -CAP <= problem(seed).b <= CAP,
        -CAP - 1 <= problem(seed).c <= CAP + 1,
        !(problem(seed).a == 1 && problem(seed).b == 0),
{
    let x0 = lcg(seed);
    let c0 = pick(x0, -9, 19);
    let x1 = lcg(x0);
    let steps = pick(x1, 1, 3);
    assert(-9 <= c0 <= 9);
    lemma_scramble_in_cap(Linear { a: 1, b: 0, c: c0 as i64 }, x1, steps as nat);
}

/// `x = r` is terminal.
pub proof fn lemma_solved_is_terminal(r: Rational)
    ensures
        is_terminal(Equation { lhs: Expr::Var(VARIABLE), rhs: Expr::Const(r) }),
{
    let q = Equation { lhs: Expr::Var(VARIABLE), rhs: Expr::Const(r) };
    assert(rewrites(q.lhs) =~= Seq::<Rewrite>::empty());
    assert(rewrites(q.rhs) =~= Seq::<Rewrite>::empty());
    assert(actions(q) =~= Seq::<ActionText>::empty());
}

/// `a·x = r` with `a` neither zero nor one is divided through to `x = r/a`.
proof fn lemma_divide_leads(a: int, r: Rational) -> (n: Equation)
    requires
        -CAP <= a <= CAP,
        a != 0,
        a != 1,
        r.den == 1,
        -3 * CAP <= r.num <= 3 * CAP,
    ensures
        leads_to(Equation { lhs: mk_bin(BinOp::Mul, constant(a), Expr::Var(VARIABLE)), rhs: Expr::Const(r) }, n),
        n.lhs == Expr::Var(VARIABLE),
        n.rhs matches Expr::Const(z) && 0 < z.den <= CAP && -3 * CAP <= z.num <= 3 * CAP,
{
    let q = Equation { lhs: mk_bin(BinOp::Mul, constant(a), Expr::Var(VARIABLE)), rhs: Expr::Const(r) };
    let k = Rational { num: a as i64, den: 1 };
    lemma_from_parts_fits(r.num * k.den, r.den * k.num);
    assert(r.num * k.den == r.num && r.den * k.num == a) by (nonlinear_arith)
        requires k.den == 1, r.den == 1, k.num == a;
    lemma_lowest_terms_exists(r.num as int, a);
    let z = spec_div(r, k).unwrap();
    let n = Equation { lhs: Expr::Var(VARIABLE), rhs: Expr::Const(z) };
    assert(apply_equation_rule(Rule::DivideBothSides, q) == Some((n, k)));
    assert(equation_action(Rule::SubtractBothSides, q) =~= Seq::<ActionText>::empty());
    assert(equation_action(Rule::AddBothSides, q) =~= Seq::<ActionText>::empty());
    assert(actions(q)[0].0 == equation_text(n));
    n
}

} // verus!

verus! {

/// The left side of `a·x + b = c` without its constant term.
pub open spec fn variable_term(a: int) -> Expr {
    if a == 1 { Expr::Var(VARIABLE) } else { mk_bin(BinOp::Mul, constant(a), Expr::Var(VARIABLE)) }
}

/// `a·x + b = c` with `b` nonzero moves `b` across: `a·x = c - b`.
proof fn lemma_shift_leads(l: Linear) -> (n: Equation)
    requires
        -CAP <= l.a <= CAP,
        l.a != 0,
        -CAP <= l.b <= CAP,
        l.b != 0,
        -CAP - 1 <= l.c <= CAP + 1,
    ensures
        leads_to(linear_equation(l), n),
        n.lhs == variable_term(l.a as int),
        n.rhs matches Expr::Const(z) && z.den == 1 && -3 * CAP <= z.num <= 3 * CAP,
{
    let q = linear_equation(l);
    let t = variable_term(l.a as int);
    assert(q.lhs == if l.b > 0 {
        mk_bin(BinOp::Add, t, constant(l.b as int))
    } else {
        mk_bin(BinOp::Sub, t, constant(-l.b))
    });
    let nn = l.c - l.b;
    lemma_lowest_terms_exists(nn, 1);
    let p = lowest_terms(nn, 1);
    assert(p.1 == 1);
    let z = Rational { num: p.0 as i64, den: 1 };
    let n = Equation { lhs: t, rhs: Expr::Const(z) };
    let rc = Rational { num: l.c, den: 1 };
    assert(q.rhs == Expr::Const(rc));
    assert(fits(p));
    assert(spec_from_parts(nn, 1) == Some(z));
    if l.b > 0 {
        let k = Rational { num: l.b, den: 1 };
        assert(rc.num * k.den - k.num * rc.den == nn && rc.den * k.den == 1) by (nonlinear_arith)
            requires rc.den == 1, k.den == 1, nn == rc.num - k.num;
        assert(spec_sub(rc, k) == Some(z));
        assert(shift_side(q.rhs, k, false) == Some(Expr::Const(z)));
        assert(apply_equation_rule(Rule::SubtractBothSides, q) == Some((n, k)));
        assert(actions(q)[0].0 == equation_text(n));
    } else {
        let k = Rational { num: -l.b as i64, den: 1 };
        assert(rc.num * k.den + k.num * rc.den == nn && rc.den * k.den == 1) by (nonlinear_arith)
            requires rc.den == 1, k.den == 1, nn == rc.num + k.num;
        assert(spec_add(rc, k) == Some(z));
        assert(shift_side(q.rhs, k, true) == Some(Expr::Const(z)));
        assert(apply_equation_rule(Rule::AddBothSides, q) == Some((n, k)));
        assert(equation_action(Rule::SubtractBothSides, q) =~= Seq::<ActionText>::empty());
        assert(actions(q)[0].0 == equation_text(n));
    }
    n
}

} // verus!

verus! {

/// A literal, or a negative literal, read as a product: `n` and the next
/// position, when no variable, power or product operator follows.
proof fn lemma_parse_int(t: Seq<Token>, i: int, n: int)
    requires
        0 <= i,
        i + int_tokens(n).len() <= t.len(),
        t.subrange(i, i + int_tokens(n).len()) == int_tokens(n),
        i + int_tokens(n).len() == t.len() || (t[i + int_tokens(n).len()] is Sym && !is_sym(
            t,
            i + int_tokens(n).len(),
            CARET,
        ) && multiplicative_op(t, i + int_tokens(n).len()) is None),
        -3 * CAP <= n <= 3 * CAP,
    ensures
        p_prod(t, i) == Some((constant(n), i + int_tokens(n).len())),
{
    let e = i + int_tokens(n).len();
    if n < 0 {
        assert(t[i] == int_tokens(n)[0]);
        assert(t[i + 1] == int_tokens(n)[1]);
        let m = Rational { num: (-n) as i64, den: 1 };
        assert(p_atom(t, i + 1) == Some((Expr::Const(m), e)));
        assert(p_power(t, i + 1) == Some((Expr::Const(m), e)));
        lemma_integer_parts(n);
        assert(negate_literal(Expr::Const(m)) == constant(n));
        assert(p_unary(t, i) == Some((constant(n), e)));
    } else {
        assert(t[i] == int_tokens(n)[0]);
        assert(p_atom(t, i) == Some((constant(n), e)));
        assert(p_power(t, i) == Some((constant(n), e)));
        assert(p_unary(t, i) == Some((constant(n), e)));
    }
    assert(p_prod_rest(t, e, constant(n)) == Some((constant(n), e)));
}

/// The tokens of `a·x`.
pub open spec fn term_tokens(a: int) -> Seq<Token> {
    if a == 1 {
        seq![Token::Ident(VARIABLE)]
    } else {
        int_tokens(a) + seq![Token::Ident(VARIABLE)]
    }
}

/// `a·x` read as a product, when no power or product operator follows.
proof fn lemma_parse_term(t: Seq<Token>, a: int)
    requires
        term_tokens(a).len() < t.len(),
        t.subrange(0, term_tokens(a).len() as int) == term_tokens(a),
        t[term_tokens(a).len() as int] is Sym,
        !is_sym(t, term_tokens(a).len() as int, CARET),
        multiplicative_op(t, term_tokens(a).len() as int) is None,
        -CAP <= a <= CAP,
        a != 0,
    ensures
        p_prod(t, 0) == Some((variable_term(a), term_tokens(a).len() as int)),
{
    let e = term_tokens(a).len() as int;
    let x = Expr::Var(VARIABLE);
    if a == 1 {
        assert(t[0] == term_tokens(a)[0]);
        assert(p_atom(t, 0) == Some((x, 1int)));
        assert(p_power(t, 0) == Some((x, 1int)));
        assert(p_unary(t, 0) == Some((x, 1int)));
    } else if a > 0 {
        assert(t[0] == term_tokens(a)[0]);
        assert(t[1] == term_tokens(a)[1]);
        assert(p_var_power(t, 1, VARIABLE) == Some((x, 2int)));
        assert(p_atom(t, 0) == Some((variable_term(a), 2int)));
        assert(p_power(t, 0) == Some((variable_term(a), 2int)));
        assert(p_unary(t, 0) == Some((variable_term(a), 2int)));
    } else {
        assert(t[0] == term_tokens(a)[0]);
        assert(t[1] == term_tokens(a)[1]);
        assert(t[2] == term_tokens(a)[2]);
        let m = Rational { num: (-a) as i64, den: 1 };
        let pos = mk_bin(BinOp::Mul, Expr::Const(m), x);
        assert(p_var_power(t, 2, VARIABLE) == Some((x, 3int)));
        assert(p_atom(t, 1) == Some((pos, 3int)));
        assert(p_power(t, 1) == Some((pos, 3int)));
        lemma_integer_parts(a);
        assert(negate_literal(pos) == variable_term(a));
        assert(p_unary(t, 0) == Some((variable_term(a), 3int)));
    }
    assert(p_prod_rest(t, e, variable_term(a)) == Some((variable_term(a), e)));
}

} // verus!

verus! {

pub open spec fn constant_tokens(b: int) -> Seq<Token> {
    if b > 0 {
        seq![Token::Sym(PLUS), Token::Num(Rational { num: b as i64, den: 1 })]
    } else if b < 0 {
        seq![Token::Sym(MINUS), Token::Num(Rational { num: (-b) as i64, den: 1 })]
    } else {
        Seq::empty()
    }
}

/// The tokens of `a·x + b = c`.
pub open spec fn linear_tokens(l: Linear) -> Seq<Token> {
    term_tokens(l.a as int) + constant_tokens(l.b as int) + seq![Token::Sym(EQUALS)] + int_tokens(
        l.c as int,
    )
}

proof fn lemma_parse_linear(l: Linear)
    requires
        -CAP <= l.a <= CAP,
        l.a != 0,
        -CAP <= l.b <= CAP,
        -3 * CAP <= l.c <= 3 * CAP,
    ensures
        p_equation(linear_tokens(l)) == Some(linear_equation(l)),
{
    let t = linear_tokens(l);
    let a = l.a as int;
    let b = l.b as int;
    let c = l.c as int;
    let nt = term_tokens(a).len() as int;
    let nb = constant_tokens(b).len() as int;
    let pe = nt + nb;
    let q = linear_equation(l);
    assert(t[pe] == Token::Sym(EQUALS));
    assert(t.subrange(0, nt) =~= term_tokens(a));
    if b == 0 {
        assert(t[nt] == Token::Sym(EQUALS));
    } else {
        assert(t[nt] == constant_tokens(b)[0]);
    }
    lemma_parse_term(t, a);
    let term = variable_term(a);
    if b != 0 {
        let m = if b > 0 { b } else { -b };
        let op = if b > 0 { BinOp::Add } else { BinOp::Sub };
        assert(t.subrange(nt + 1, nt + 2) =~= int_tokens(m));
        lemma_parse_int(t, nt + 1, m);
        assert(additive_op(t, nt) == Some(op));
        let sum = mk_bin(op, term, constant(m));
        assert(p_sum_rest(t, pe, sum) == Some((sum, pe)));
        assert(p_sum_rest(t, nt, term) == Some((sum, pe)));
        assert(sum == q.lhs);
    } else {
        assert(p_sum_rest(t, nt, term) == Some((term, pe)));
        assert(term == q.lhs);
    }
    assert(p_sum(t, 0) == Some((q.lhs, pe)));
    assert(t.subrange(pe + 1, t.len() as int) =~= int_tokens(c));
    lemma_parse_int(t, pe + 1, c);
    assert(p_sum_rest(t, t.len() as int, constant(c)) == Some((constant(c), t.len() as int)));
    assert(p_sum(t, pe + 1) == Some((constant(c), t.len() as int)));
}

} // verus!

verus! {

pub open spec fn term_text(a: int) -> Seq<u8> {
    if a == 1 {
        seq![VARIABLE]
    } else {
        rat_text(Rational { num: a as i64, den: 1 }) + seq![VARIABLE]
    }
}

pub open spec fn constant_text(b: int) -> Seq<u8> {
    if b > 0 {
        seq![SPACE, PLUS, SPACE] + nat_text(b as nat)
    } else if b < 0 {
        seq![SPACE, MINUS, SPACE] + nat_text((-b) as nat)
    } else {
        Seq::empty()
    }
}

proof fn lemma_linear_text(l: Linear)
    requires
        -CAP <= l.a <= CAP,
        l.a != 0,
        -CAP <= l.b <= CAP,
        -3 * CAP <= l.c <= 3 * CAP,
    ensures
        equation_text(linear_equation(l)) == term_text(l.a as int) + constant_text(l.b as int) + seq![
            SPACE,
            EQUALS,
            SPACE,
        ] + rat_text(Rational { num: l.c, den: 1 }),
{
    let a = l.a as int;
    let b = l.b as int;
    let t = variable_term(a);
    assert(expr_text(Expr::Var(VARIABLE)) == seq![VARIABLE]);
    assert(expr_text(constant(a)) == rat_text(Rational { num: a as i64, den: 1 }));
    if a != 1 {
        assert(t.is_juxt());
    }
    assert(expr_text(t) =~= term_text(a));
    assert(t.level() >= 3);
    if b > 0 {
        assert(rat_text(Rational { num: b as i64, den: 1 }) =~= nat_text(b as nat));
        assert(expr_text(constant(b)) == rat_text(Rational { num: b as i64, den: 1 }));
        assert(constant(b).level() == 5);
        assert(op_text(BinOp::Add) =~= seq![SPACE, PLUS, SPACE]);
        assert(expr_text(linear_equation(l).lhs) =~= term_text(a) + constant_text(b));
    } else if b < 0 {
        assert(rat_text(Rational { num: (-b) as i64, den: 1 }) =~= nat_text((-b) as nat));
        assert(expr_text(constant(-b)) == rat_text(Rational { num: (-b) as i64, den: 1 }));
        assert(constant(-b).level() == 5);
        assert(op_text(BinOp::Sub) =~= seq![SPACE, MINUS, SPACE]);
        assert(expr_text(linear_equation(l).lhs) =~= term_text(a) + constant_text(b));
    } else {
        assert(expr_text(linear_equation(l).lhs) =~= term_text(a) + constant_text(b));
    }
    assert(equation_text(linear_equation(l)) =~= term_text(a) + constant_text(b) + seq![SPACE, EQUALS, SPACE]
        + rat_text(Rational { num: l.c, den: 1 }));
}

} // verus!

verus! {

proof fn lemma_lex_right(s: Seq<u8>, pe: int, c: int)
    requires
        0 <= pe <= s.len(),
        -3 * CAP <= c <= 3 * CAP,
        s.subrange(pe, s.len() as int) == seq![SPACE, EQUALS, SPACE] + rat_text(Rational { num: c as i64, den: 1 }),
    ensures
        lex_from(s, pe) == Some(seq![Token::Sym(EQUALS)] + int_tokens(c)),
{
    let ct = rat_text(Rational { num: c as i64, den: 1 });
    let n = s.len() as int;
    let pc = pe + 3;
    let rt = seq![SPACE, EQUALS, SPACE] + ct;
    assert(s.subrange(pe, n) == rt);
    assert(s.subrange(pe, n).len() == n - pe);
    assert(rt.len() == 3 + ct.len());
    assert(n == pc + ct.len());
    assert(rt.subrange(3, 3 + ct.len() as int) =~= ct);
    assert(s.subrange(pc, n) =~= s.subrange(pe, n).subrange(3, 3 + ct.len() as int));
    assert(lex_from(s, n) == Some(Seq::<Token>::empty()));
    lemma_lex_int(s, pc, c);
    assert(int_tokens(c) + Seq::<Token>::empty() =~= int_tokens(c));
    assert(s[pe] == s.subrange(pe, n)[0]);
    assert(s[pe + 1] == s.subrange(pe, n)[1]);
    assert(s[pe + 2] == s.subrange(pe, n)[2]);
    assert(lex_from(s, pe + 2) == lex_from(s, pc));
    assert(lex_from(s, pe + 1) == Some(seq![Token::Sym(EQUALS)] + int_tokens(c)));
}

proof fn lemma_lex_constant(s: Seq<u8>, na: int, b: int, tail: Seq<Token>)
    requires
        0 <= na,
        -CAP <= b <= CAP,
        na + constant_text(b).len() < s.len(),
        s.subrange(na, na + constant_text(b).len()) == constant_text(b),
        s[na + constant_text(b).len()] == SPACE,
        lex_from(s, na + constant_text(b).len()) == Some(tail),
    ensures
        lex_from(s, na) == Some(constant_tokens(b) + tail),
{
    let bt = constant_text(b);
    let pe = na + bt.len();
    if b != 0 {
        let m = if b > 0 { b } else { -b };
        let op = if b > 0 { PLUS } else { MINUS };
        assert(bt == seq![SPACE, op, SPACE] + nat_text(m as nat));
        assert(s.subrange(na + 3, pe) =~= s.subrange(na, pe).subrange(3, bt.len() as int));
        assert(s.subrange(na + 3, pe) =~= nat_text(m as nat));
        lemma_lex_number(s, na + 3, m as nat);
        assert(s[na] == s.subrange(na, pe)[0]);
        assert(s[na + 1] == s.subrange(na, pe)[1]);
        assert(s[na + 2] == s.subrange(na, pe)[2]);
        assert(lex_from(s, na + 2) == lex_from(s, na + 3));
        assert(lex_from(s, na + 1) == Some(seq![Token::Sym(op)] + lex_from(s, na + 2).unwrap()));
        assert(lex_from(s, na) == lex_from(s, na + 1));
        assert(seq![Token::Sym(op)] + (seq![Token::Num(Rational { num: m as i64, den: 1 })] + tail)
            =~= constant_tokens(b) + tail);
    } else {
        assert(constant_tokens(b) + tail =~= tail);
    }
}

proof fn lemma_lex_term(s: Seq<u8>, a: int, rest: Seq<Token>)
    requires
        -CAP <= a <= CAP,
        term_text(a).len() < s.len(),
        s.subrange(0, term_text(a).len() as int) == term_text(a),
        s[term_text(a).len() as int] == SPACE,
        lex_from(s, term_text(a).len() as int) == Some(rest),
    ensures
        lex_from(s, 0) == Some(term_tokens(a) + rest),
{
    let na = term_text(a).len() as int;
    if a == 1 {
        assert(s[0] == s.subrange(0, na)[0]);
        assert(lex_from(s, 0) == Some(seq![Token::Ident(VARIABLE)] + rest));
    } else {
        let at = rat_text(Rational { num: a as i64, den: 1 });
        let k = at.len() as int;
        assert(term_text(a).subrange(0, k) =~= at);
        assert(s.subrange(0, k) =~= s.subrange(0, na).subrange(0, k));
        assert(s[k] == s.subrange(0, na)[k]);
        lemma_lex_int(s, 0, a);
        assert(lex_from(s, k) == Some(seq![Token::Ident(VARIABLE)] + rest));
        assert(int_tokens(a) + (seq![Token::Ident(VARIABLE)] + rest) =~= term_tokens(a) + rest);
    }
}

#[verifier::rlimit(40)]
proof fn lemma_lex_linear(l: Linear)
    requires
        -CAP <= l.a <= CAP,
        l.a != 0,
        -CAP <= l.b <= CAP,
        -3 * CAP <= l.c <= 3 * CAP,
    ensures
        lex_from(equation_text(linear_equation(l)), 0) == Some(linear_tokens(l)),
{
    let a = l.a as int;
    let b = l.b as int;
    let c = l.c as int;
    lemma_linear_text(l);
    let tt = term_text(a);
    let bt = constant_text(b);
    let rt = seq![SPACE, EQUALS, SPACE] + rat_text(Rational { num: l.c, den: 1 });
    let s = tt + bt + rt;
    assert(equation_text(linear_equation(l)) =~= s);
    let na = tt.len() as int;
    let pe = na + bt.len();
    let n = s.len() as int;
    assert(s.subrange(pe, n) =~= rt);
    lemma_lex_right(s, pe, c);
    let tail = seq![Token::Sym(EQUALS)] + int_tokens(c);
    assert(s.subrange(na, pe) =~= bt);
    assert(s[pe] == rt[0]);
    lemma_lex_constant(s, na, b, tail);
    let rest = constant_tokens(b) + tail;
    assert(s.subrange(0, na) =~= tt);
    if b != 0 {
        assert(s[na] == bt[0]);
    }
    lemma_lex_term(s, a, rest);
    assert(term_tokens(a) + rest =~= linear_tokens(l));
}

/// The text of every generated problem parses back to the problem's tree.
pub proof fn lemma_problem_round_trip(seed: u64)
    ensures
        parse_text(problem_text(seed)) == Some(linear_equation(problem(seed))),
{
    lemma_problem_shape(seed);
    lemma_lex_linear(problem(seed));
    lemma_parse_linear(problem(seed));
}

} // verus!

verus! {

/// The magnitude of a literal's value as written after any minus sign.
pub open spec fn written_value(r: Rational) -> Rational {
    let m = if r.num < 0 { -r.num } else { r.num as int };
    if r.den == 1 { Rational { num: m as i64, den: 1 } } else { spec_from_parts(m, r.den as int).unwrap() }
}

pub open spec fn solved_tokens(r: Rational) -> Seq<Token> {
    if r.num < 0 {
        seq![Token::Ident(VARIABLE), Token::Sym(EQUALS), Token::Sym(MINUS), Token::Num(written_value(r))]
    } else {
        seq![Token::Ident(VARIABLE), Token::Sym(EQUALS), Token::Num(written_value(r))]
    }
}

pub open spec fn solved_rhs(r: Rational) -> Expr {
    if r.num < 0 { negate_literal(Expr::Const(written_value(r))) } else { Expr::Const(written_value(r)) }
}

pub open spec fn magnitude_text(r: Rational) -> Seq<u8> {
    let m = if r.num < 0 { -r.num } else { r.num as int };
    if r.den == 1 { nat_text(m as nat) } else { nat_text(m as nat) + seq![SLASH] + nat_text(r.den as nat) }
}

pub open spec fn sign_text(r: Rational) -> Seq<u8> {
    if r.num < 0 { seq![MINUS] } else { Seq::<u8>::empty() }
}

proof fn lemma_solved_text(r: Rational)
    ensures
        equation_text(Equation { lhs: Expr::Var(VARIABLE), rhs: Expr::Const(r) }) == seq![VARIABLE, SPACE, EQUALS, SPACE]
            + sign_text(r) + magnitude_text(r),
{
    assert(rat_text(r) =~= sign_text(r) + magnitude_text(r));
    assert(equation_text(Equation { lhs: Expr::Var(VARIABLE), rhs: Expr::Const(r) }) =~= seq![VARIABLE, SPACE, EQUALS, SPACE]
        + sign_text(r) + magnitude_text(r));
}

proof fn lemma_lex_magnitude(s: Seq<u8>, p: int, r: Rational)
    requires
        0 <= p <= s.len(),
        s.subrange(p, s.len() as int) == magnitude_text(r),
        r.den > 0,
        -0x4000_0000_0000_0000 < r.num < 0x4000_0000_0000_0000,
        r.den < 0x4000_0000_0000_0000,
    ensures
        lex_from(s, p) == Some(seq![Token::Num(written_value(r))]),
{
    let len = s.len() as int;
    let m = if r.num < 0 { -r.num } else { r.num as int };
    let v = written_value(r);
    if r.den == 1 {
        assert(lex_from(s, len) == Some(Seq::<Token>::empty()));
        lemma_lex_number(s, p, m as nat);
        assert(seq![Token::Num(v)] + Seq::<Token>::empty() =~= seq![Token::Num(v)]);
    } else {
        lemma_lex_fraction_at_end(s, p, m as nat, r.den as nat);
    }
}

#[verifier::rlimit(40)]
proof fn lemma_lex_solved(r: Rational)
    requires
        r.den > 0,
        -0x4000_0000_0000_0000 < r.num < 0x4000_0000_0000_0000,
        r.den < 0x4000_0000_0000_0000,
    ensures
        lex_from(equation_text(Equation { lhs: Expr::Var(VARIABLE), rhs: Expr::Const(r) }), 0) == Some(
            solved_tokens(r),
        ),
{
    let s = equation_text(Equation { lhs: Expr::Var(VARIABLE), rhs: Expr::Const(r) });
    lemma_solved_text(r);
    let p = 4 + sign_text(r).len() as int;
    let len = s.len() as int;
    assert(s.subrange(p, len) =~= magnitude_text(r));
    lemma_lex_magnitude(s, p, r);
    let v = written_value(r);
    if r.num < 0 {
        assert(s[4] == MINUS);
        assert(lex_from(s, 4) == Some(seq![Token::Sym(MINUS), Token::Num(v)]));
    }
    let lit = lex_from(s, 4).unwrap();
    assert(s[0] == VARIABLE && s[1] == SPACE && s[2] == EQUALS && s[3] == SPACE);
    assert(lex_from(s, 3) == lex_from(s, 4));
    assert(lex_from(s, 2) == Some(seq![Token::Sym(EQUALS)] + lit));
    assert(lex_from(s, 1) == lex_from(s, 2));
    assert(lex_from(s, 0) == Some(seq![Token::Ident(VARIABLE)] + (seq![Token::Sym(EQUALS)] + lit)));
    assert(seq![Token::Ident(VARIABLE)] + (seq![Token::Sym(EQUALS)] + lit) =~= solved_tokens(r));
}

proof fn lemma_parse_solved(r: Rational)
    ensures
        p_equation(solved_tokens(r)) == Some(Equation { lhs: Expr::Var(VARIABLE), rhs: solved_rhs(r) }),
{
    let t = solved_tokens(r);
    let v = written_value(r);
    let w = solved_rhs(r);
    let x = Expr::Var(VARIABLE);
    assert(p_atom(t, 0) == Some((x, 1int)));
    assert(p_power(t, 0) == Some((x, 1int)));
    assert(p_unary(t, 0) == Some((x, 1int)));
    assert(p_prod_rest(t, 1, x) == Some((x, 1int)));
    assert(p_prod(t, 0) == Some((x, 1int)));
    assert(p_sum_rest(t, 1, x) == Some((x, 1int)));
    assert(p_sum(t, 0) == Some((x, 1int)));
    let e = t.len() as int;
    if r.num < 0 {
        assert(p_atom(t, 3) == Some((Expr::Const(v), 4int)));
        assert(p_power(t, 3) == Some((Expr::Const(v), 4int)));
        assert(p_unary(t, 2) == Some((w, 4int)));
    } else {
        assert(p_atom(t, 2) == Some((w, 3int)));
        assert(p_power(t, 2) == Some((w, 3int)));
        assert(p_unary(t, 2) == Some((w, 3int)));
    }
    assert(p_prod_rest(t, e, w) == Some((w, e)));
    assert(p_prod(t, 2) == Some((w, e)));
    assert(p_sum_rest(t, e, w) == Some((w, e)));
    assert(p_sum(t, 2) == Some((w, e)));
}

/// `x = r` as text: it parses to `x = ` a literal, and no action applies.
proof fn lemma_solved_text_terminal(r: Rational)
    requires
        r.den > 0,
        -0x4000_0000_0000_0000 < r.num < 0x4000_0000_0000_0000,
        r.den < 0x4000_0000_0000_0000,
    ensures
        step_text(equation_text(Equation { lhs: Expr::Var(VARIABLE), rhs: Expr::Const(r) })) == Some(
            Seq::<ActionText>::empty(),
        ),
{
    lemma_lex_solved(r);
    lemma_parse_solved(r);
    let w = solved_rhs(r);
    assert(w is Const);
    lemma_solved_is_terminal(w->Const_0);
}

} // verus!

verus! {

/// One of the actions that `step` answers for the text `s` has `s2` as its
/// next state.
pub open spec fn text_leads_to(s: Seq<u8>, s2: Seq<u8>) -> bool {
    match step_text(s) {
        Some(acts) => exists|k: int| 0 <= k < acts.len() && (#[trigger] acts[k]).0 == s2,
        None => false,
    }
}

/// A chain of states, each the next state of an action of the one before,
/// runs from `s` to a state that parses and has no actions.
pub open spec fn reaches_terminal_text(s: Seq<u8>) -> bool {
    exists|path: Seq<Seq<u8>>|
        path.len() >= 1 && path[0] == s && (forall|i: int|
            0 <= i < path.len() - 1 ==> text_leads_to(#[trigger] path[i], path[i + 1])) && step_text(
            path.last(),
        ) == Some(Seq::<ActionText>::empty())
}

proof fn lemma_text_chain(s: Seq<u8>, s2: Seq<u8>)
    requires
        text_leads_to(s, s2),
        reaches_terminal_text(s2),
    ensures
        reaches_terminal_text(s),
{
    let path = choose|path: Seq<Seq<u8>>|
        path.len() >= 1 && path[0] == s2 && (forall|i: int|
            0 <= i < path.len() - 1 ==> text_leads_to(#[trigger] path[i], path[i + 1])) && step_text(
            path.last(),
        ) == Some(Seq::<ActionText>::empty());
    let longer = seq![s] + path;
    assert forall|i: int| 0 <= i < longer.len() - 1 implies text_leads_to(#[trigger] longer[i], longer[i + 1]) by {
        if i > 0 {
            assert(longer[i] == path[i - 1] && longer[i + 1] == path[i]);
        } else {
            assert(longer[0] == s && longer[1] == s2);
        }
    }
    assert(longer.len() >= 1 && longer[0] == s && longer.last() == path.last());
}

proof fn lemma_text_terminal_reaches(s: Seq<u8>)
    requires
        step_text(s) == Some(Seq::<ActionText>::empty()),
    ensures
        reaches_terminal_text(s),
{
    let path = seq![s];
    assert(path.last() == s);
}

proof fn lemma_text_step(q: Equation, n: Equation)
    requires
        parse_text(equation_text(q)) == Some(q),
        leads_to(q, n),
    ensures
        text_leads_to(equation_text(q), equation_text(n)),
{
    assert(step_text(equation_text(q)) == Some(actions(q)));
    let k = choose|k: int| 0 <= k < actions(q).len() && (#[trigger] actions(q)[k]).0 == equation_text(n);
    let acts = step_text(equation_text(q)).unwrap();
    assert(acts == actions(q));
    assert(0 <= k < acts.len() && acts[k].0 == equation_text(n));
}

/// `a·x = z` with an integer `z` reads back as itself.
proof fn lemma_term_equation_round_trip(a: int, z: Rational)
    requires
        -CAP <= a <= CAP,
        a != 0,
        z.den == 1,
        -3 * CAP <= z.num <= 3 * CAP,
    ensures
        parse_text(equation_text(Equation { lhs: variable_term(a), rhs: Expr::Const(z) })) == Some(
            Equation { lhs: variable_term(a), rhs: Expr::Const(z) },
        ),
{
    let l = Linear { a: a as i64, b: 0, c: z.num };
    assert(linear_equation(l) == Equation { lhs: variable_term(a), rhs: Expr::Const(z) });
    lemma_lex_linear(l);
    lemma_parse_linear(l);
}

/// Every generated problem, as text, reaches a terminal state through the
/// actions that `step` returns: each state of the chain parses, and the
/// next one is the next state of one of its actions.
pub proof fn lemma_generated_solvable_text(seed: u64)
    ensures
        reaches_terminal_text(problem_text(seed)),
{
    lemma_problem_shape(seed);
    lemma_problem_round_trip(seed);
    let l = problem(seed);
    let q0 = linear_equation(l);
    if l.b != 0 {
        let q1 = lemma_shift_leads(l);
        let z = q1.rhs->Const_0;
        if l.a == 1 {
            lemma_solved_text_terminal(z);
            lemma_text_terminal_reaches(equation_text(q1));
        } else {
            lemma_term_equation_round_trip(l.a as int, z);
            let q2 = lemma_divide_leads(l.a as int, z);
            lemma_solved_text_terminal(q2.rhs->Const_0);
            lemma_text_terminal_reaches(equation_text(q2));
            lemma_text_step(q1, q2);
            lemma_text_chain(equation_text(q1), equation_text(q2));
        }
        lemma_text_step(q0, q1);
        lemma_text_chain(equation_text(q0), equation_text(q1));
    } else {
        let r = Rational { num: l.c, den: 1 };
        assert(q0 == Equation { lhs: mk_bin(BinOp::Mul, constant(l.a as int), Expr::Var(VARIABLE)), rhs: Expr::Const(r) });
        let q1 = lemma_divide_leads(l.a as int, r);
        lemma_solved_text_terminal(q1.rhs->Const_0);
        lemma_text_terminal_reaches(equation_text(q1));
        lemma_text_step(q0, q1);
        lemma_text_chain(equation_text(q0), equation_text(q1));
    }
}

} // verus!
