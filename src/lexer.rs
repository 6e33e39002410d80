//! Splits equation text into tokens.
use vstd::prelude::*;
use crate::expr::{is_letter, nat_text, rat_text};
use crate::rational::{Rational, spec_from_parts};

verus! {

pub const PLUS: u8 = 0x2b;
pub const MINUS: u8 = 0x2d;
pub const STAR: u8 = 0x2a;
pub const SLASH: u8 = 0x2f;
pub const CARET: u8 = 0x5e;
pub const LPAREN: u8 = 0x28;
pub const RPAREN: u8 = 0x29;
pub const EQUALS: u8 = 0x3d;
pub const SPACE: u8 = 0x20;

/// A token: a non-negative literal (`7`, `3/4`), a one-letter variable, or a symbol.
#[derive(Clone, Copy, Debug, PartialEq, Eq, Structural)]
pub enum Token {
    Num(Rational),
    Ident(u8),
    Sym(u8),
}

pub open spec fn is_digit(c: u8) -> bool {
    0x30 <= c <= 0x39
}

pub open spec fn is_symbol(c: u8) -> bool {
    c == PLUS || c == MINUS || c == STAR || c == SLASH || c == CARET || c == LPAREN
        || c == RPAREN || c == EQUALS
}

pub open spec fn is_space(c: u8) -> bool {
    c == SPACE || c == 0x09
}

/// The end of the run of digits that starts at `i`.
pub open spec fn digits_end(s: Seq<u8>, i: int) -> int
    decreases s.len() - i,
{
    if 0 <= i < s.len() && is_digit(s[i]) {
        digits_end(s, i + 1)
    } else {
        i
    }
}

/// The decimal value of `s[i..j]`.
pub open spec fn digits_value(s: Seq<u8>, i: int, j: int) -> nat
    decreases j - i,
{
    if j <= i {
        0
    } else {
        digits_value(s, i, j - 1) * 10 + (s[j - 1] - 0x30) as nat
    }
}

/// The literal starting at digit `i`: its value (numerator, denominator) and its end.
pub open spec fn literal_at(s: Seq<u8>, i: int) -> (nat, nat, int) {
    let j = digits_end(s, i);
    if j < s.len() && j + 1 < s.len() && s[j] == SLASH && is_digit(s[j + 1]) {
        let k = digits_end(s, j + 1);
        (digits_value(s, i, j), digits_value(s, j + 1, k), k)
    } else {
        (digits_value(s, i, j), 1, j)
    }
}

/// The tokens of `s[i..]`, or `None` on an unknown character, a zero
/// denominator, or a literal too large to hold.
pub open spec fn lex_from(s: Seq<u8>, i: int) -> Option<Seq<Token>>
    decreases s.len() - i,
{
    if i < 0 || i >= s.len() {
        Some(Seq::empty())
    } else {
        let c = s[i];
        if is_space(c) {
            lex_from(s, i + 1)
        } else if is_letter(c) {
            match lex_from(s, i + 1) {
                Some(rest) => Some(seq![Token::Ident(c)] + rest),
                None => None,
            }
        } else if is_symbol(c) {
            match lex_from(s, i + 1) {
                Some(rest) => Some(seq![Token::Sym(c)] + rest),
                None => None,
            }
        } else if is_digit(c) {
            let (n, d, k) = literal_at(s, i);
            if k <= i || k > s.len() || n > i64::MAX || d > i64::MAX {
                None
            } else {
                match (spec_from_parts(n as int, d as int), lex_from(s, k)) {
                    (Some(r), Some(rest)) => Some(seq![Token::Num(r)] + rest),
                    _ => None,
                }
            }
        } else {
            None
        }
    }
}

pub open spec fn tokens_wf(t: Seq<Token>) -> bool {
    forall|k: int|
        0 <= k < t.len() ==> match #[trigger] t[k] {
            Token::Num(r) => r.wf(),
            Token::Ident(c) => is_letter(c),
            Token::Sym(_) => true,
        }
}

proof fn lemma_digits_end(s: Seq<u8>, i: int)
    requires
        0 <= i <= s.len(),
    ensures
        i <= digits_end(s, i) <= s.len(),
        forall|k: int| i <= k < digits_end(s, i) ==> is_digit(#[trigger] s[k]),
        digits_end(s, i) < s.len() ==> !is_digit(s[digits_end(s, i)]),
    decreases s.len() - i,
{
    if i < s.len() && is_digit(s[i]) {
        lemma_digits_end(s, i + 1);
    }
}

/// Reads the digits from `i`: their end, and their value when it fits in `i64`.
fn read_digits(s: &[u8], i: usize) -> (r: (usize, Option<u64>))
    requires
        i <= s@.len(),
    ensures
        r.0 == digits_end(s@, i as int),
        r.1 matches Some(v) ==> v == digits_value(s@, i as int, r.0 as int) && v <= i64::MAX,
        r.1 is None ==> digits_value(s@, i as int, r.0 as int) > i64::MAX,
{
    proof {
        lemma_digits_end(s@, i as int);
    }
    let mut j = i;
    let mut acc: u64 = 0;
    let mut big = false;
    while j < s.len() && 0x30 <= s[j] && s[j] <= 0x39
        invariant
            i <= j <= digits_end(s@, i as int),
            digits_end(s@, i as int) <= s@.len(),
            forall|k: int| i <= k < digits_end(s@, i as int) ==> is_digit(#[trigger] s@[k]),
            digits_end(s@, i as int) < s@.len() ==> !is_digit(s@[digits_end(s@, i as int)]),
            !big ==> acc == digits_value(s@, i as int, j as int) && acc <= i64::MAX,
            big ==> digits_value(s@, i as int, j as int) > i64::MAX,
        decreases s@.len() - j,
    {
        let d = (s[j] - 0x30) as u64;
        assert(digits_value(s@, i as int, j + 1) == digits_value(s@, i as int, j as int) * 10 + d);
        if !big {
            if acc <= (0x7fff_ffff_ffff_ffff - d) / 10 {
                acc = acc * 10 + d;
            } else {
                big = true;
            }
        }
        j = j + 1;
    }
    if big {
        (j, None)
    } else {
        (j, Some(acc))
    }
}

/// Splits `s` into tokens; `None` exactly when `lex_from` gives `None`.
pub fn lex(s: &[u8]) -> (r: Option<Vec<Token>>)
    ensures
        match r {
            Some(v) => lex_from(s@, 0) == Some(v@) && tokens_wf(v@),
            None => lex_from(s@, 0) is None,
        },
{
    lex_rec(s, 0)
}

fn lex_rec(s: &[u8], i: usize) -> (r: Option<Vec<Token>>)
    requires
        i <= s@.len(),
    ensures
        match r {
            Some(v) => lex_from(s@, i as int) == Some(v@) && tokens_wf(v@),
            None => lex_from(s@, i as int) is None,
        },
    decreases s@.len() - i,
{
    if i >= s.len() {
        return Some(Vec::new());
    }
    let c = s[i];
    let (tok, next): (Token, usize) = if c == SPACE || c == 0x09 {
        return lex_rec(s, i + 1);
    } else if (0x41 <= c && c <= 0x5a) || (0x61 <= c && c <= 0x7a) {
        (Token::Ident(c), i + 1)
    } else if c == PLUS || c == MINUS || c == STAR || c == SLASH || c == CARET || c == LPAREN
        || c == RPAREN || c == EQUALS {
        (Token::Sym(c), i + 1)
    } else if 0x30 <= c && c <= 0x39 {
        let (j, n) = read_digits(s, i);
        proof {
            lemma_digits_end(s@, i as int);
        }
        let (d, k): (Option<u64>, usize) = if j < s.len() && j + 1 < s.len() && s[j] == SLASH && 0x30 <= s[j + 1]
            && s[j + 1] <= 0x39 {
            let (k, d) = read_digits(s, j + 1);
            proof {
                lemma_digits_end(s@, j + 1);
            }
            (d, k)
        } else {
            (Some(1u64), j)
        };
        match (n, d) {
            (Some(n), Some(d)) => match Rational::from_parts(n as i128, d as i128) {
                Some(q) => (Token::Num(q), k),
                None => return None,
            },
            _ => return None,
        }
    } else {
        return None;
    };
    match lex_rec(s, next) {
        Some(rest) => {
            let mut v: Vec<Token> = Vec::new();
            v.push(tok);
            let mut rest = rest;
            v.append(&mut rest);
            assert(v@ =~= seq![tok] + lex_from(s@, next as int).unwrap());
            Some(v)
        },
        None => None,
    }
}

} // verus!

verus! {

proof fn lemma_nat_text_digits(n: nat)
    ensures
        nat_text(n).len() >= 1,
        forall|k: int| 0 <= k < nat_text(n).len() ==> is_digit(#[trigger] nat_text(n)[k]),
    decreases n,
{
    if n >= 10 {
        lemma_nat_text_digits(n / 10);
    }
}

proof fn lemma_digits_value_of_text(s: Seq<u8>, i: int, n: nat)
    requires
        0 <= i,
        i + nat_text(n).len() <= s.len(),
        s.subrange(i, i + nat_text(n).len()) == nat_text(n),
    ensures
        digits_value(s, i, i + nat_text(n).len()) == n,
    decreases n,
{
    if n >= 10 {
        let m = n / 10;
        let l = nat_text(m).len() as int;
        assert(nat_text(n) == nat_text(m) + seq![(0x30 + n % 10) as u8]);
        assert(s.subrange(i, i + l) =~= s.subrange(i, i + nat_text(n).len()).subrange(0, l));
        assert(s.subrange(i, i + l) =~= nat_text(m));
        lemma_digits_value_of_text(s, i, m);
        assert(s[i + l] == nat_text(n)[l]);
        assert(nat_text(n).len() == l + 1);
        assert(s[i + l] - 0x30 == n % 10);
        assert(digits_value(s, i, i + l + 1) == digits_value(s, i, i + l) * 10 + (s[i + l] - 0x30) as nat);
        assert(m * 10 + n % 10 == n);
    } else {
        assert(s[i] == nat_text(n)[0]);
        assert(nat_text(n).len() == 1);
        assert(digits_value(s, i, i + 1) == digits_value(s, i, i) * 10 + (s[i] - 0x30) as nat);
    }
}

proof fn lemma_digits_end_at(s: Seq<u8>, k: int, e: int)
    requires
        0 <= k <= e <= s.len(),
        forall|j: int| k <= j < e ==> is_digit(#[trigger] s[j]),
        e == s.len() || !is_digit(s[e]),
    ensures
        digits_end(s, k) == e,
    decreases e - k,
{
    if k < e {
        lemma_digits_end_at(s, k + 1, e);
    }
}

/// The integer `n` as a rational in lowest terms.
pub proof fn lemma_integer_parts(n: int)
    requires
        i64::MIN < n <= i64::MAX,
    ensures
        spec_from_parts(n, 1) == Some(Rational { num: n as i64, den: 1 }),
{
    crate::rational::lemma_lowest_terms_exists(n, 1);
    let p = crate::rational::lowest_terms(n, 1);
    assert(p.1 == 1);
    assert(p.0 == n) by (nonlinear_arith)
        requires p.0 * 1 == n * p.1, p.1 == 1;
}

/// The decimal text of `n`, followed by the end of the text or by a
/// character that neither continues nor divides it, lexes as one literal.
pub proof fn lemma_lex_number(s: Seq<u8>, i: int, n: nat)
    requires
        0 <= i,
        i + nat_text(n).len() <= s.len(),
        s.subrange(i, i + nat_text(n).len()) == nat_text(n),
        i + nat_text(n).len() == s.len() || (!is_digit(s[i + nat_text(n).len()]) && s[i
            + nat_text(n).len()] != SLASH),
        n <= i64::MAX,
    ensures
        lex_from(s, i) == match lex_from(s, i + nat_text(n).len()) {
            Some(rest) => Some(seq![Token::Num(Rational { num: n as i64, den: 1 })] + rest),
            None => None,
        },
{
    let e = i + nat_text(n).len();
    lemma_nat_text_digits(n);
    assert forall|j: int| i <= j < e implies is_digit(#[trigger] s[j]) by {
        assert(s[j] == s.subrange(i, e)[j - i]);
    }
    lemma_digits_end_at(s, i, e);
    lemma_digits_value_of_text(s, i, n);
    assert(s[i] == nat_text(n)[0]);
    assert(literal_at(s, i) == (n, 1nat, e));
    lemma_integer_parts(n as int);
}

} // verus!

verus! {

/// The tokens of an integer literal: a minus sign first when negative.
pub open spec fn int_tokens(n: int) -> Seq<Token> {
    if n < 0 {
        seq![Token::Sym(MINUS), Token::Num(Rational { num: (-n) as i64, den: 1 })]
    } else {
        seq![Token::Num(Rational { num: n as i64, den: 1 })]
    }
}

/// The text of an integer, followed by the end or by a character that
/// neither continues nor divides it, lexes as the integer's tokens.
pub proof fn lemma_lex_int(s: Seq<u8>, i: int, n: int)
    requires
        0 <= i,
        i + rat_text(Rational { num: n as i64, den: 1 }).len() <= s.len(),
        s.subrange(i, i + rat_text(Rational { num: n as i64, den: 1 }).len()) == rat_text(
            Rational { num: n as i64, den: 1 },
        ),
        i + rat_text(Rational { num: n as i64, den: 1 }).len() == s.len() || (!is_digit(
            s[i + rat_text(Rational { num: n as i64, den: 1 }).len()],
        ) && s[i + rat_text(Rational { num: n as i64, den: 1 }).len()] != SLASH),
        i64::MIN < n <= i64::MAX,
    ensures
        lex_from(s, i) == match lex_from(s, i + rat_text(Rational { num: n as i64, den: 1 }).len()) {
            Some(rest) => Some(int_tokens(n) + rest),
            None => None,
        },
{
    let r = Rational { num: n as i64, den: 1 };
    let e = i + rat_text(r).len();
    if n < 0 {
        let m = (-n) as nat;
        assert(rat_text(r) == seq![MINUS] + nat_text(m));
        assert(s[i] == MINUS) by {
            assert(s[i] == s.subrange(i, e)[0]);
        }
        assert(s.subrange(i + 1, e) =~= nat_text(m)) by {
            assert(s.subrange(i + 1, e) =~= s.subrange(i, e).subrange(1, rat_text(r).len() as int));
        }
        lemma_lex_number(s, i + 1, m);
        assert(int_tokens(n) == seq![Token::Sym(MINUS)] + seq![Token::Num(Rational { num: m as i64, den: 1 })]);
        match lex_from(s, e) {
            Some(rest) => {
                assert(int_tokens(n) + rest =~= seq![Token::Sym(MINUS)] + (seq![
                    Token::Num(Rational { num: m as i64, den: 1 }),
                ] + rest));
            },
            None => {},
        }
    } else {
        assert(rat_text(r) =~= nat_text(n as nat));
        lemma_lex_number(s, i, n as nat);
    }
}

} // verus!

verus! {

/// The text of a non-negative rational at the end of the text lexes as one
/// literal, with the value of the fraction it spells.
pub proof fn lemma_lex_fraction_at_end(s: Seq<u8>, i: int, n: nat, d: nat)
    requires
        0 <= i,
        i + (nat_text(n) + seq![SLASH] + nat_text(d)).len() == s.len(),
        s.subrange(i, s.len() as int) == nat_text(n) + seq![SLASH] + nat_text(d),
        n < 0x4000_0000_0000_0000,
        0 < d < 0x4000_0000_0000_0000,
    ensures
        lex_from(s, i) == Some(seq![Token::Num(spec_from_parts(n as int, d as int).unwrap())]),
{
    let j = i + nat_text(n).len();
    let len = s.len() as int;
    let w = nat_text(n) + seq![SLASH] + nat_text(d);
    lemma_nat_text_digits(n);
    lemma_nat_text_digits(d);
    assert(s.subrange(i, j) =~= w.subrange(0, nat_text(n).len() as int));
    assert(s.subrange(j + 1, len) =~= w.subrange(nat_text(n).len() as int + 1, w.len() as int));
    assert(s.subrange(i, j) =~= nat_text(n));
    assert(s.subrange(j + 1, len) =~= nat_text(d));
    assert forall|k: int| i <= k < j implies is_digit(#[trigger] s[k]) by {
        assert(s[k] == s.subrange(i, len)[k - i]);
    }
    assert(s[j] == s.subrange(i, len)[j - i]);
    assert(s[j] == SLASH);
    lemma_digits_end_at(s, i, j);
    assert forall|k: int| j + 1 <= k < len implies is_digit(#[trigger] s[k]) by {
        assert(s[k] == s.subrange(i, len)[k - i]);
    }
    lemma_digits_end_at(s, j + 1, len);
    lemma_digits_value_of_text(s, i, n);
    lemma_digits_value_of_text(s, j + 1, d);
    assert(s[i] == s.subrange(i, len)[0]);
    assert(s[j + 1] == s.subrange(i, len)[j + 1 - i]);
    assert(literal_at(s, i) == (n, d, len));
    crate::rational::lemma_from_parts_fits(n as int, d as int);
    assert(lex_from(s, len) == Some(Seq::<Token>::empty()));
    assert(seq![Token::Num(spec_from_parts(n as int, d as int).unwrap())] + Seq::<Token>::empty()
        =~= seq![Token::Num(spec_from_parts(n as int, d as int).unwrap())]);
}

} // verus!
