//! Recursive-descent parsing of tokens into an equation.
//!
//! sum   := prod (('+' | '-') prod)*
//! prod  := unary (('*' | '/') unary)*
//! unary := '-' unary | power            (a '-' before a literal negates the literal)
//! power := atom ('^' power)?
//! atom  := NUM [VAR ('^' power)?] | VAR | '(' sum ')'
use vstd::prelude::*;
use crate::expr::{BinOp, Equation, Expr};
use crate::lexer::{lex, lex_from, tokens_wf, Token, CARET, EQUALS, LPAREN, MINUS, PLUS, RPAREN, SLASH, STAR};
use crate::rational::spec_from_parts;

verus! {

pub type Parsed = Option<(Expr, int)>;

pub open spec fn is_sym(t: Seq<Token>, i: int, c: u8) -> bool {
    0 <= i < t.len() && t[i] == Token::Sym(c)
}

pub open spec fn additive_op(t: Seq<Token>, i: int) -> Option<BinOp> {
    if is_sym(t, i, PLUS) {
        Some(BinOp::Add)
    } else if is_sym(t, i, MINUS) {
        Some(BinOp::Sub)
    } else {
        None
    }
}

pub open spec fn multiplicative_op(t: Seq<Token>, i: int) -> Option<BinOp> {
    if is_sym(t, i, STAR) {
        Some(BinOp::Mul)
    } else if is_sym(t, i, SLASH) {
        Some(BinOp::Div)
    } else {
        None
    }
}

/// A minus sign read before a literal: the literal's sign flips, also when
/// it is the coefficient of a variable; anything else is negated.
pub open spec fn negate_literal(e: Expr) -> Expr {
    match e {
        Expr::Const(r) => Expr::Const(spec_from_parts(-r.num, r.den as int).unwrap()),
        Expr::Bin(BinOp::Mul, a, b) => match *a {
            Expr::Const(r) => Expr::Bin(
                BinOp::Mul,
                Box::new(Expr::Const(spec_from_parts(-r.num, r.den as int).unwrap())),
                b,
            ),
            _ => Expr::Neg(Box::new(e)),
        },
        _ => Expr::Neg(Box::new(e)),
    }
}

/// Continues a parse only when it moved forward and stayed in the tokens.
pub open spec fn advanced(t: Seq<Token>, i: int, j: int) -> bool {
    i < j <= t.len()
}

pub open spec fn p_sum(t: Seq<Token>, i: int) -> Parsed
    decreases t.len() - i, 6int,
{
    match p_prod(t, i) {
        Some((e, j)) => if advanced(t, i, j) { p_sum_rest(t, j, e) } else { None },
        None => None,
    }
}

pub open spec fn p_sum_rest(t: Seq<Token>, i: int, acc: Expr) -> Parsed
    decreases t.len() - i, 7int,
{
    match additive_op(t, i) {
        Some(op) => match p_prod(t, i + 1) {
            Some((e, j)) => if advanced(t, i, j) {
                p_sum_rest(t, j, Expr::Bin(op, Box::new(acc), Box::new(e)))
            } else {
                None
            },
            None => None,
        },
        None => Some((acc, i)),
    }
}

pub open spec fn p_prod(t: Seq<Token>, i: int) -> Parsed
    decreases t.len() - i, 4int,
{
    match p_unary(t, i) {
        Some((e, j)) => if advanced(t, i, j) { p_prod_rest(t, j, e) } else { None },
        None => None,
    }
}

pub open spec fn p_prod_rest(t: Seq<Token>, i: int, acc: Expr) -> Parsed
    decreases t.len() - i, 5int,
{
    match multiplicative_op(t, i) {
        Some(op) => match p_unary(t, i + 1) {
            Some((e, j)) => if advanced(t, i, j) {
                p_prod_rest(t, j, Expr::Bin(op, Box::new(acc), Box::new(e)))
            } else {
                None
            },
            None => None,
        },
        None => Some((acc, i)),
    }
}

pub open spec fn p_unary(t: Seq<Token>, i: int) -> Parsed
    decreases t.len() - i, 3int,
{
    if is_sym(t, i, MINUS) {
        if i + 1 < t.len() && t[i + 1] is Num {
            match p_power(t, i + 1) {
                Some((e, j)) => Some((negate_literal(e), j)),
                None => None,
            }
        } else {
            match p_unary(t, i + 1) {
                Some((e, j)) => Some((Expr::Neg(Box::new(e)), j)),
                None => None,
            }
        }
    } else {
        p_power(t, i)
    }
}

pub open spec fn p_power(t: Seq<Token>, i: int) -> Parsed
    decreases t.len() - i, 2int,
{
    match p_atom(t, i) {
        Some((a, j)) => if advanced(t, i, j) && is_sym(t, j, CARET) {
            match p_power(t, j + 1) {
                Some((b, k)) => Some((Expr::Bin(BinOp::Pow, Box::new(a), Box::new(b)), k)),
                None => None,
            }
        } else {
            Some((a, j))
        },
        None => None,
    }
}

/// A variable, raised to a power when a `^` follows.
pub open spec fn p_var_power(t: Seq<Token>, i: int, c: u8) -> Parsed
    decreases t.len() - i, 0int,
{
    if is_sym(t, i + 1, CARET) {
        match p_power(t, i + 2) {
            Some((b, k)) => Some(
                (Expr::Bin(BinOp::Pow, Box::new(Expr::Var(c)), Box::new(b)), k),
            ),
            None => None,
        }
    } else {
        Some((Expr::Var(c), i + 1))
    }
}

pub open spec fn p_atom(t: Seq<Token>, i: int) -> Parsed
    decreases t.len() - i, 1int,
{
    if i < 0 || i >= t.len() {
        None
    } else {
        match t[i] {
            Token::Num(r) => if i + 1 < t.len() && t[i + 1] is Ident {
                match p_var_power(t, i + 1, t[i + 1]->Ident_0) {
                    Some((b, k)) => Some(
                        (Expr::Bin(BinOp::Mul, Box::new(Expr::Const(r)), Box::new(b)), k),
                    ),
                    None => None,
                }
            } else {
                Some((Expr::Const(r), i + 1))
            },
            Token::Ident(c) => Some((Expr::Var(c), i + 1)),
            Token::Sym(c) => if c == LPAREN {
                match p_sum(t, i + 1) {
                    Some((e, j)) => if is_sym(t, j, RPAREN) { Some((e, j + 1)) } else { None },
                    None => None,
                }
            } else {
                None
            },
        }
    }
}

/// The equation that the tokens spell: one sum, `=`, one sum, and nothing else.
pub open spec fn p_equation(t: Seq<Token>) -> Option<Equation> {
    match p_sum(t, 0) {
        Some((l, i)) => if is_sym(t, i, EQUALS) {
            match p_sum(t, i + 1) {
                Some((r, j)) => if j == t.len() { Some(Equation { lhs: l, rhs: r }) } else { None },
                None => None,
            }
        } else {
            None
        },
        None => None,
    }
}

/// The equation that a text spells, if any.
pub open spec fn parse_text(s: Seq<u8>) -> Option<Equation> {
    match lex_from(s, 0) {
        Some(t) => p_equation(t),
        None => None,
    }
}

pub open spec fn lift(r: Option<(Expr, usize)>) -> Parsed {
    match r {
        Some((e, j)) => Some((e, j as int)),
        None => None,
    }
}

pub open spec fn parsed_wf(r: Option<(Expr, usize)>, t: Seq<Token>) -> bool {
    r matches Some((e, j)) ==> e.wf() && j <= t.len()
}

fn sym_at(t: &Vec<Token>, i: usize, c: u8) -> (r: bool)
    ensures
        r == is_sym(t@, i as int, c),
        r ==> i < t@.len(),
        t@.len() <= usize::MAX,
{
    i < t.len() && match t[i] {
        Token::Sym(d) => d == c,
        _ => false,
    }
}

fn parse_sum(t: &Vec<Token>, i: usize) -> (r: Option<(Expr, usize)>)
    requires
        tokens_wf(t@),
        i <= t@.len(),
    ensures
        lift(r) == p_sum(t@, i as int),
        parsed_wf(r, t@),
    decreases t@.len() - i, 6int,
{
    match parse_prod(t, i) {
        Some((e, j)) => if i < j && j <= t.len() { parse_sum_rest(t, j, e) } else { None },
        None => None,
    }
}

fn parse_sum_rest(t: &Vec<Token>, i: usize, acc: Expr) -> (r: Option<(Expr, usize)>)
    requires
        tokens_wf(t@),
        acc.wf(),
        i <= t@.len(),
    ensures
        lift(r) == p_sum_rest(t@, i as int, acc),
        parsed_wf(r, t@),
    decreases t@.len() - i, 7int,
{
    let op = if sym_at(t, i, PLUS) {
        BinOp::Add
    } else if sym_at(t, i, MINUS) {
        BinOp::Sub
    } else {
        return Some((acc, i));
    };
    match parse_prod(t, i + 1) {
        Some((e, j)) => if i < j && j <= t.len() {
            parse_sum_rest(t, j, Expr::Bin(op, Box::new(acc), Box::new(e)))
        } else {
            None
        },
        None => None,
    }
}

fn parse_prod(t: &Vec<Token>, i: usize) -> (r: Option<(Expr, usize)>)
    requires
        tokens_wf(t@),
        i <= t@.len(),
    ensures
        lift(r) == p_prod(t@, i as int),
        parsed_wf(r, t@),
    decreases t@.len() - i, 4int,
{
    match parse_unary(t, i) {
        Some((e, j)) => if i < j && j <= t.len() { parse_prod_rest(t, j, e) } else { None },
        None => None,
    }
}

fn parse_prod_rest(t: &Vec<Token>, i: usize, acc: Expr) -> (r: Option<(Expr, usize)>)
    requires
        tokens_wf(t@),
        acc.wf(),
        i <= t@.len(),
    ensures
        lift(r) == p_prod_rest(t@, i as int, acc),
        parsed_wf(r, t@),
    decreases t@.len() - i, 5int,
{
    let op = if sym_at(t, i, STAR) {
        BinOp::Mul
    } else if sym_at(t, i, SLASH) {
        BinOp::Div
    } else {
        return Some((acc, i));
    };
    match parse_unary(t, i + 1) {
        Some((e, j)) => if i < j && j <= t.len() {
            parse_prod_rest(t, j, Expr::Bin(op, Box::new(acc), Box::new(e)))
        } else {
            None
        },
        None => None,
    }
}

fn negate_lit(e: Expr) -> (r: Expr)
    requires
        e.wf(),
    ensures
        r == negate_literal(e),
        r.wf(),
{
    match &e {
        Expr::Const(q) => {
            return Expr::Const(q.neg());
        },
        Expr::Bin(BinOp::Mul, a, b) => {
            assert(a.wf() && b.wf());
            if let Expr::Const(q) = &**a {
                assert(q.wf());
                let n = q.neg();
                assert(Expr::Const(n).wf());
                return Expr::Bin(BinOp::Mul, Box::new(Expr::Const(n)), Box::new(b.copy()));
            }
        },
        _ => {},
    }
    Expr::Neg(Box::new(e))
}

fn parse_unary(t: &Vec<Token>, i: usize) -> (r: Option<(Expr, usize)>)
    requires
        tokens_wf(t@),
        i <= t@.len(),
    ensures
        lift(r) == p_unary(t@, i as int),
        parsed_wf(r, t@),
    decreases t@.len() - i, 3int,
{
    if sym_at(t, i, MINUS) {
        let lit = i + 1 < t.len() && match t[i + 1] {
            Token::Num(_) => true,
            _ => false,
        };
        if lit {
            match parse_power(t, i + 1) {
                Some((e, j)) => Some((negate_lit(e), j)),
                None => None,
            }
        } else {
            match parse_unary(t, i + 1) {
                Some((e, j)) => Some((Expr::Neg(Box::new(e)), j)),
                None => None,
            }
        }
    } else {
        parse_power(t, i)
    }
}

fn parse_power(t: &Vec<Token>, i: usize) -> (r: Option<(Expr, usize)>)
    requires
        tokens_wf(t@),
        i <= t@.len(),
    ensures
        lift(r) == p_power(t@, i as int),
        parsed_wf(r, t@),
    decreases t@.len() - i, 2int,
{
    match parse_atom(t, i) {
        Some((a, j)) => if i < j && j <= t.len() && sym_at(t, j, CARET) {
            match parse_power(t, j + 1) {
                Some((b, k)) => Some((Expr::Bin(BinOp::Pow, Box::new(a), Box::new(b)), k)),
                None => None,
            }
        } else {
            Some((a, j))
        },
        None => None,
    }
}

fn parse_var_power(t: &Vec<Token>, i: usize, c: u8) -> (r: Option<(Expr, usize)>)
    requires
        tokens_wf(t@),
        i < t@.len(),
        t@[i as int] == Token::Ident(c),
    ensures
        lift(r) == p_var_power(t@, i as int, c),
        parsed_wf(r, t@),
    decreases t@.len() - i, 0int,
{
    let len = t.len();
    assert(Expr::Var(c).wf());
    assert(crate::expr::is_letter(c)) by {
        assert(tokens_wf(t@));
        assert(match t@[i as int] {
            Token::Num(r) => r.wf(),
            Token::Ident(c) => crate::expr::is_letter(c),
            Token::Sym(_) => true,
        });
    }
    if sym_at(t, i + 1, CARET) {
        match parse_power(t, i + 2) {
            Some((b, k)) => Some((Expr::Bin(BinOp::Pow, Box::new(Expr::Var(c)), Box::new(b)), k)),
            None => None,
        }
    } else {
        Some((Expr::Var(c), i + 1))
    }
}

fn parse_atom(t: &Vec<Token>, i: usize) -> (r: Option<(Expr, usize)>)
    requires
        tokens_wf(t@),
        i <= t@.len(),
    ensures
        lift(r) == p_atom(t@, i as int),
        parsed_wf(r, t@),
    decreases t@.len() - i, 1int,
{
    if i >= t.len() {
        return None;
    }
    assert(match t@[i as int] {
        Token::Num(r) => r.wf(),
        Token::Ident(c) => crate::expr::is_letter(c),
        Token::Sym(_) => true,
    });
    match t[i] {
        Token::Num(q) => {
            assert(Expr::Const(q).wf());
            if i + 1 < t.len() {
                if let Token::Ident(c) = t[i + 1] {
                    return match parse_var_power(t, i + 1, c) {
                        Some((b, k)) => Some((Expr::Bin(BinOp::Mul, Box::new(Expr::Const(q)), Box::new(b)), k)),
                        None => None,
                    };
                }
            }
            Some((Expr::Const(q), i + 1))
        },
        Token::Ident(c) => Some((Expr::Var(c), i + 1)),
        Token::Sym(c) => if c == LPAREN {
            match parse_sum(t, i + 1) {
                Some((e, j)) => if sym_at(t, j, RPAREN) { Some((e, j + 1)) } else { None },
                None => None,
            }
        } else {
            None
        },
    }
}

/// Parses equation text. `None` exactly when the text spells no equation:
/// an unknown character, a zero denominator, unbalanced brackets, a missing
/// or second `=`, or a misplaced token.
pub fn parse(s: &[u8]) -> (r: Option<Equation>)
    ensures
        r == parse_text(s@),
        r matches Some(q) ==> q.wf(),
{
    let t = match lex(s) {
        Some(t) => t,
        None => return None,
    };
    match parse_sum(&t, 0) {
        Some((l, i)) => if sym_at(&t, i, EQUALS) {
            match parse_sum(&t, i + 1) {
                Some((r, j)) => if j == t.len() { Some(Equation { lhs: l, rhs: r }) } else { None },
                None => None,
            }
        } else {
            None
        },
        None => None,
    }
}

} // verus!
