//! Enumerates every legal rewrite of an equation in a fixed order.
use vstd::prelude::*;
use vstd::string::StringSliceAdditionalSpecFns;
use crate::expr::{equation_text, expr_text, push_expr, rat_text, serialize, BinOp, Equation, Expr};
use crate::rules::{apply_equation, apply_equation_rule, apply_node, apply_node_rule, mk_bin, Rule};

verus! {

/// One application of a subexpression rule inside a tree: where (a path of
/// child indices, 0 for the left or only child and 1 for the right), which
/// rule, the subtree it rewrote, and the whole tree afterwards.
pub struct Rewrite {
    pub path: Ghost<Seq<int>>,
    pub rule: Rule,
    pub target: Expr,
    pub result: Expr,
}

/// Where a rewrite of a child is put back: as the left or right operand next
/// to the sibling held here, or under a negation.
pub enum Slot {
    Left(BinOp, Expr),
    Right(BinOp, Expr),
    Under,
}

pub open spec fn place(w: Rewrite, s: Slot) -> Rewrite {
    match s {
        Slot::Left(op, b) => Rewrite {
            path: Ghost(seq![0int] + w.path@),
            rule: w.rule,
            target: w.target,
            result: mk_bin(op, w.result, b),
        },
        Slot::Right(op, a) => Rewrite {
            path: Ghost(seq![1int] + w.path@),
            rule: w.rule,
            target: w.target,
            result: mk_bin(op, a, w.result),
        },
        Slot::Under => Rewrite {
            path: Ghost(seq![0int] + w.path@),
            rule: w.rule,
            target: w.target,
            result: Expr::Neg(Box::new(w.result)),
        },
    }
}

pub open spec fn place_all(ws: Seq<Rewrite>, s: Slot) -> Seq<Rewrite> {
    ws.map_values(|w: Rewrite| place(w, s))
}

/// `rule` applied at the root of `e`, as a list of zero or one rewrites.
pub open spec fn at_root(rule: Rule, e: Expr) -> Seq<Rewrite> {
    match apply_node_rule(rule, e) {
        Some(n) => seq![Rewrite { path: Ghost(Seq::empty()), rule, target: e, result: n }],
        None => Seq::empty(),
    }
}

/// Every rewrite of `e`: nodes in pre-order, left before right, and at each
/// node the subexpression rules in table order.
pub open spec fn rewrites(e: Expr) -> Seq<Rewrite>
    decreases e,
{
    let here = at_root(Rule::ConstantFold, e) + at_root(Rule::CombineLikeTerms, e) + at_root(
        Rule::Distribute,
        e,
    ) + at_root(Rule::Commute, e);
    here + match e {
        Expr::Bin(op, a, b) => place_all(rewrites(*a), Slot::Left(op, *b)) + place_all(
            rewrites(*b),
            Slot::Right(op, *a),
        ),
        Expr::Neg(a) => place_all(rewrites(*a), Slot::Under),
        _ => Seq::empty(),
    }
}

pub open spec fn rewrites_wf(ws: Seq<Rewrite>) -> bool {
    forall|k: int| 0 <= k < ws.len() ==> (#[trigger] ws[k]).target.wf() && ws[k].result.wf()
}

fn try_at_root(rule: Rule, e: &Expr, out: &mut Vec<Rewrite>)
    requires
        e.wf(),
        rewrites_wf(old(out)@),
    ensures
        final(out)@ == old(out)@ + at_root(rule, *e),
        rewrites_wf(final(out)@),
{
    match apply_node(rule, e) {
        Some(n) => {
            out.push(Rewrite { path: Ghost(Seq::empty()), rule, target: e.copy(), result: n });
        },
        None => {},
    }
    assert(final(out)@ =~= old(out)@ + at_root(rule, *e));
}

fn copy_slot(s: &Slot) -> (r: Slot)
    ensures
        r == *s,
{
    match s {
        Slot::Left(op, b) => Slot::Left(*op, b.copy()),
        Slot::Right(op, a) => Slot::Right(*op, a.copy()),
        Slot::Under => Slot::Under,
    }
}

fn place_each(ws: &Vec<Rewrite>, s: Slot, out: &mut Vec<Rewrite>)
    requires
        rewrites_wf(ws@),
        rewrites_wf(old(out)@),
        s matches Slot::Left(_, b) ==> b.wf(),
        s matches Slot::Right(_, a) ==> a.wf(),
    ensures
        final(out)@ == old(out)@ + place_all(ws@, s),
        rewrites_wf(final(out)@),
{
    let mut k: usize = 0;
    while k < ws.len()
        invariant
            k <= ws@.len(),
            rewrites_wf(ws@),
            rewrites_wf(out@),
            s matches Slot::Left(_, b) ==> b.wf(),
            s matches Slot::Right(_, a) ==> a.wf(),
            out@ == old(out)@ + place_all(ws@.take(k as int), s),
        decreases ws@.len() - k,
    {
        let w = &ws[k];
        assert(w.target.wf() && w.result.wf());
        let result = match &s {
            Slot::Left(op, b) => Expr::Bin(*op, Box::new(w.result.copy()), Box::new(b.copy())),
            Slot::Right(op, a) => Expr::Bin(*op, Box::new(a.copy()), Box::new(w.result.copy())),
            Slot::Under => Expr::Neg(Box::new(w.result.copy())),
        };
        let path = Ghost(
            match s {
                Slot::Right(_, _) => seq![1int] + w.path@,
                _ => seq![0int] + w.path@,
            },
        );
        let placed = Rewrite { path, rule: w.rule, target: w.target.copy(), result };
        assert(placed == place(*w, s));
        out.push(placed);
        assert(ws@.take(k + 1) =~= ws@.take(k as int).push(*w));
        assert(place_all(ws@.take(k + 1), s) =~= place_all(ws@.take(k as int), s).push(placed));
        k = k + 1;
    }
    assert(ws@.take(ws@.len() as int) =~= ws@);
}

/// Appends every rewrite of `e`, in enumeration order.
pub fn collect_rewrites(e: &Expr, out: &mut Vec<Rewrite>)
    requires
        e.wf(),
        rewrites_wf(old(out)@),
    ensures
        final(out)@ == old(out)@ + rewrites(*e),
        rewrites_wf(final(out)@),
    decreases e,
{
    let ghost start = out@;
    try_at_root(Rule::ConstantFold, e, out);
    try_at_root(Rule::CombineLikeTerms, e, out);
    try_at_root(Rule::Distribute, e, out);
    try_at_root(Rule::Commute, e, out);
    let ghost mid = out@;
    match e {
        Expr::Bin(op, a, b) => {
            let mut left: Vec<Rewrite> = Vec::new();
            collect_rewrites(a, &mut left);
            place_each(&left, Slot::Left(*op, b.copy()), out);
            let mut right: Vec<Rewrite> = Vec::new();
            collect_rewrites(b, &mut right);
            place_each(&right, Slot::Right(*op, a.copy()), out);
        },
        Expr::Neg(a) => {
            let mut inner: Vec<Rewrite> = Vec::new();
            collect_rewrites(a, &mut inner);
            place_each(&inner, Slot::Under, out);
        },
        _ => {},
    }
    assert(final(out)@ =~= start + rewrites(*e));
}

} // verus!

verus! {

/// The identifier of a rule in formal descriptions.
pub open spec fn rule_name(r: Rule) -> &'static str {
    match r {
        Rule::ConstantFold => "constant_fold",
        Rule::CombineLikeTerms => "combine_like_terms",
        Rule::Distribute => "distribute",
        Rule::Commute => "commute",
        Rule::SubtractBothSides => "subtract_both_sides",
        Rule::AddBothSides => "add_both_sides",
        Rule::DivideBothSides => "divide_both_sides",
        Rule::MultiplyBothSides => "multiply_both_sides",
        Rule::SwapSides => "swap_sides",
    }
}

/// The words before and after the argument in a human description.
pub open spec fn human_words(r: Rule) -> (&'static str, &'static str) {
    match r {
        Rule::ConstantFold => ("evaluate ", ""),
        Rule::CombineLikeTerms => ("combine like terms in ", ""),
        Rule::Distribute => ("expand ", ""),
        Rule::Commute => ("reorder ", ""),
        Rule::SubtractBothSides => ("subtract ", " from both sides"),
        Rule::AddBothSides => ("add ", " to both sides"),
        Rule::DivideBothSides => ("divide both sides by ", ""),
        Rule::MultiplyBothSides => ("multiply both sides by ", ""),
        Rule::SwapSides => ("swap the two sides", ""),
    }
}

fn name_of(r: Rule) -> (s: &'static str)
    ensures
        s == rule_name(r),
{
    match r {
        Rule::ConstantFold => "constant_fold",
        Rule::CombineLikeTerms => "combine_like_terms",
        Rule::Distribute => "distribute",
        Rule::Commute => "commute",
        Rule::SubtractBothSides => "subtract_both_sides",
        Rule::AddBothSides => "add_both_sides",
        Rule::DivideBothSides => "divide_both_sides",
        Rule::MultiplyBothSides => "multiply_both_sides",
        Rule::SwapSides => "swap_sides",
    }
}

fn push_str(s: &str, out: &mut Vec<u8>)
    ensures
        final(out)@ == old(out)@ + s.spec_bytes(),
{
    let b = s.as_bytes();
    let mut k: usize = 0;
    while k < b.len()
        invariant
            k <= b@.len(),
            b@ == s.spec_bytes(),
            out@ == old(out)@ + b@.take(k as int),
        decreases b@.len() - k,
    {
        out.push(b[k]);
        assert(b@.take(k + 1) =~= b@.take(k as int).push(b@[k as int]));
        k = k + 1;
    }
    assert(b@.take(b@.len() as int) =~= b@);
}

} // verus!

verus! {

/// An action as text: the next state, its formal and its human description.
pub type ActionText = (Seq<u8>, Seq<u8>, Seq<u8>);

/// One legal move from a state.
#[derive(Debug, PartialEq, Eq)]
pub struct Action {
    pub next_state: Vec<u8>,
    pub formal_description: Vec<u8>,
    pub human_description: Vec<u8>,
}

impl Action {
    pub open spec fn text(self) -> ActionText {
        (self.next_state@, self.formal_description@, self.human_description@)
    }
}

pub open spec fn texts(v: Seq<Action>) -> Seq<ActionText> {
    v.map_values(|a: Action| a.text())
}

/// `rule(arg)`.
pub open spec fn formal(r: Rule, arg: Seq<u8>) -> Seq<u8> {
    rule_name(r).spec_bytes() + seq![0x28u8] + arg + seq![0x29u8]
}

pub open spec fn human(r: Rule, arg: Seq<u8>) -> Seq<u8> {
    human_words(r).0.spec_bytes() + arg + human_words(r).1.spec_bytes()
}

/// An equation rule's action, if it applies; its argument is the literal it
/// acts by (none for swapping the sides).
pub open spec fn equation_action(r: Rule, q: Equation) -> Seq<ActionText> {
    match apply_equation_rule(r, q) {
        Some((n, k)) => {
            let arg = if r == Rule::SwapSides { Seq::<u8>::empty() } else { rat_text(k) };
            seq![(equation_text(n), formal(r, arg), human(r, arg))]
        },
        None => Seq::empty(),
    }
}

/// The equation after a rewrite of one of its sides.
pub open spec fn rewritten(w: Rewrite, q: Equation, left: bool) -> Equation {
    if left {
        Equation { lhs: w.result, rhs: q.rhs }
    } else {
        Equation { lhs: q.lhs, rhs: w.result }
    }
}

pub open spec fn node_action(w: Rewrite, q: Equation, left: bool) -> ActionText {
    let arg = expr_text(w.target);
    (equation_text(rewritten(w, q, left)), formal(w.rule, arg), human(w.rule, arg))
}

pub open spec fn side_actions(ws: Seq<Rewrite>, q: Equation, left: bool) -> Seq<ActionText> {
    ws.map_values(|w: Rewrite| node_action(w, q, left))
}

/// Every action of an equation, in order: the equation rules first (the
/// equation is the first node visited), then the left side's nodes, then the
/// right side's, each in pre-order and rule-table order.
pub open spec fn actions(q: Equation) -> Seq<ActionText> {
    equation_action(Rule::SubtractBothSides, q) + equation_action(Rule::AddBothSides, q)
        + equation_action(Rule::DivideBothSides, q) + equation_action(Rule::MultiplyBothSides, q)
        + equation_action(Rule::SwapSides, q) + side_actions(rewrites(q.lhs), q, true)
        + side_actions(rewrites(q.rhs), q, false)
}

/// What `step` answers for a state: `None` when it does not parse, else its actions.
pub open spec fn step_text(s: Seq<u8>) -> Option<Seq<ActionText>> {
    match crate::parser::parse_text(s) {
        Some(q) => Some(actions(q)),
        None => None,
    }
}

fn describe(r: Rule, arg: &Vec<u8>) -> (d: (Vec<u8>, Vec<u8>))
    ensures
        d.0@ == formal(r, arg@),
        d.1@ == human(r, arg@),
{
    let mut f: Vec<u8> = Vec::new();
    push_str(name_of(r), &mut f);
    f.push(0x28);
    let mut k: usize = 0;
    let mut h: Vec<u8> = Vec::new();
    let words: (&str, &str) = match r {
        Rule::ConstantFold => ("evaluate ", ""),
        Rule::CombineLikeTerms => ("combine like terms in ", ""),
        Rule::Distribute => ("expand ", ""),
        Rule::Commute => ("reorder ", ""),
        Rule::SubtractBothSides => ("subtract ", " from both sides"),
        Rule::AddBothSides => ("add ", " to both sides"),
        Rule::DivideBothSides => ("divide both sides by ", ""),
        Rule::MultiplyBothSides => ("multiply both sides by ", ""),
        Rule::SwapSides => ("swap the two sides", ""),
    };
    assert(words == human_words(r));
    push_str(words.0, &mut h);
    let ghost f0 = f@;
    let ghost h0 = h@;
    while k < arg.len()
        invariant
            k <= arg@.len(),
            f@ == f0 + arg@.take(k as int),
            h@ == h0 + arg@.take(k as int),
        decreases arg@.len() - k,
    {
        f.push(arg[k]);
        h.push(arg[k]);
        assert(arg@.take(k + 1) =~= arg@.take(k as int).push(arg@[k as int]));
        k = k + 1;
    }
    assert(arg@.take(arg@.len() as int) =~= arg@);
    f.push(0x29);
    push_str(words.1, &mut h);
    assert(f@ =~= formal(r, arg@));
    assert(h@ =~= human(r, arg@));
    (f, h)
}

fn try_equation_rule(r: Rule, q: &Equation, out: &mut Vec<Action>)
    requires
        q.wf(),
    ensures
        texts(final(out)@) == texts(old(out)@) + equation_action(r, *q),
{
    match apply_equation(r, q) {
        Some((n, k)) => {
            let mut arg: Vec<u8> = Vec::new();
            match r {
                Rule::SwapSides => {},
                _ => crate::expr::push_rational_text(&k, &mut arg),
            }
            assert(arg@ =~= (if r == Rule::SwapSides { Seq::<u8>::empty() } else { rat_text(k) }));
            let (f, h) = describe(r, &arg);
            let a = Action { next_state: serialize(&n), formal_description: f, human_description: h };
            out.push(a);
            assert(texts(out@) =~= texts(old(out)@).push(a.text()));
        },
        None => {},
    }
    assert(texts(final(out)@) =~= texts(old(out)@) + equation_action(r, *q));
}

fn push_side_actions(ws: &Vec<Rewrite>, q: &Equation, left: bool, out: &mut Vec<Action>)
    requires
        q.wf(),
        rewrites_wf(ws@),
    ensures
        texts(final(out)@) == texts(old(out)@) + side_actions(ws@, *q, left),
{
    let mut k: usize = 0;
    while k < ws.len()
        invariant
            k <= ws@.len(),
            q.wf(),
            rewrites_wf(ws@),
            texts(out@) == texts(old(out)@) + side_actions(ws@.take(k as int), *q, left),
        decreases ws@.len() - k,
    {
        let w = &ws[k];
        assert(w.target.wf() && w.result.wf());
        let next = if left {
            Equation { lhs: w.result.copy(), rhs: q.rhs.copy() }
        } else {
            Equation { lhs: q.lhs.copy(), rhs: w.result.copy() }
        };
        let mut arg: Vec<u8> = Vec::new();
        push_expr(&w.target, &mut arg);
        assert(arg@ =~= expr_text(w.target));
        let (f, h) = describe(w.rule, &arg);
        let a = Action { next_state: serialize(&next), formal_description: f, human_description: h };
        assert(a.text() == node_action(*w, *q, left));
        let ghost prev = out@;
        out.push(a);
        assert(texts(out@) =~= texts(prev).push(a.text()));
        assert(ws@.take(k + 1) =~= ws@.take(k as int).push(*w));
        assert(side_actions(ws@.take(k + 1), *q, left) =~= side_actions(ws@.take(k as int), *q, left).push(
            node_action(*w, *q, left),
        ));
        assert(texts(out@) =~= texts(old(out)@) + side_actions(ws@.take(k + 1), *q, left));
        k = k + 1;
    }
    assert(ws@.take(ws@.len() as int) =~= ws@);
}

/// Every action of `q`, in enumeration order.
pub fn equation_actions(q: &Equation) -> (r: Vec<Action>)
    requires
        q.wf(),
    ensures
        texts(r@) == actions(*q),
{
    let mut out: Vec<Action> = Vec::new();
    try_equation_rule(Rule::SubtractBothSides, q, &mut out);
    try_equation_rule(Rule::AddBothSides, q, &mut out);
    try_equation_rule(Rule::DivideBothSides, q, &mut out);
    try_equation_rule(Rule::MultiplyBothSides, q, &mut out);
    try_equation_rule(Rule::SwapSides, q, &mut out);
    let mut left: Vec<Rewrite> = Vec::new();
    collect_rewrites(&q.lhs, &mut left);
    push_side_actions(&left, q, true, &mut out);
    let mut right: Vec<Rewrite> = Vec::new();
    collect_rewrites(&q.rhs, &mut right);
    push_side_actions(&right, q, false, &mut out);
    assert(texts(Seq::<Action>::empty()) =~= Seq::<ActionText>::empty());
    assert(texts(out@) =~= actions(*q));
    out
}

/// The actions of a state: `None` when the text does not parse, an empty
/// list when it parses and no rule applies.
pub fn step_state(s: &[u8]) -> (r: Option<Vec<Action>>)
    ensures
        match r {
            Some(v) => step_text(s@) == Some(texts(v@)),
            None => step_text(s@) is None,
        },
{
    match crate::parser::parse(s) {
        Some(q) => Some(equation_actions(&q)),
        None => None,
    }
}

} // verus!

verus! {

/// The subtree at a path, if the path leads anywhere.
pub open spec fn subtree_at(e: Expr, p: Seq<int>) -> Option<Expr>
    decreases p.len(),
{
    if p.len() == 0 {
        Some(e)
    } else {
        match e {
            Expr::Bin(_, a, b) => if p[0] == 0 {
                subtree_at(*a, p.drop_first())
            } else if p[0] == 1 {
                subtree_at(*b, p.drop_first())
            } else {
                None
            },
            Expr::Neg(a) => if p[0] == 0 { subtree_at(*a, p.drop_first()) } else { None },
            _ => None,
        }
    }
}

/// `e` with the subtree at `p` replaced by `n`, ancestors rebuilt and all
/// else kept.
pub open spec fn replace_at(e: Expr, p: Seq<int>, n: Expr) -> Expr
    decreases p.len(),
{
    if p.len() == 0 {
        n
    } else {
        match e {
            Expr::Bin(op, a, b) => if p[0] == 0 {
                Expr::Bin(op, Box::new(replace_at(*a, p.drop_first(), n)), b)
            } else if p[0] == 1 {
                Expr::Bin(op, a, Box::new(replace_at(*b, p.drop_first(), n)))
            } else {
                e
            },
            Expr::Neg(a) => if p[0] == 0 { Expr::Neg(Box::new(replace_at(*a, p.drop_first(), n))) } else { e },
            _ => e,
        }
    }
}

/// Two paths part somewhere: neither is a prefix of the other.
pub open spec fn diverge(p: Seq<int>, q: Seq<int>) -> bool
    decreases p.len(),
{
    p.len() > 0 && q.len() > 0 && (p[0] != q[0] || diverge(p.drop_first(), q.drop_first()))
}

/// Each rewrite of `e` is a rule applied to the subtree at its path, put
/// back in place of that subtree.
pub proof fn lemma_rewrite_located(e: Expr, k: int)
    requires
        0 <= k < rewrites(e).len(),
    ensures
        subtree_at(e, rewrites(e)[k].path@) == Some(rewrites(e)[k].target),
        apply_node_rule(rewrites(e)[k].rule, rewrites(e)[k].target) is Some,
        rewrites(e)[k].result == replace_at(
            e,
            rewrites(e)[k].path@,
            apply_node_rule(rewrites(e)[k].rule, rewrites(e)[k].target).unwrap(),
        ),
    decreases e,
{
    let here = at_root(Rule::ConstantFold, e) + at_root(Rule::CombineLikeTerms, e) + at_root(
        Rule::Distribute,
        e,
    ) + at_root(Rule::Commute, e);
    let h = here.len() as int;
    if k < h {
        assert(rewrites(e)[k] == here[k]);
        let a = at_root(Rule::ConstantFold, e);
        let b = at_root(Rule::CombineLikeTerms, e);
        let c = at_root(Rule::Distribute, e);
        let d = at_root(Rule::Commute, e);
        assert(here == a + b + c + d);
        assert(here[k].path@ == Seq::<int>::empty());
    } else {
        match e {
            Expr::Bin(op, a, b) => {
                let la = rewrites(*a).len() as int;
                if k - h < la {
                    let j = k - h;
                    lemma_rewrite_located(*a, j);
                    let w = rewrites(*a)[j];
                    assert(rewrites(e)[k] == place(w, Slot::Left(op, *b)));
                    assert((seq![0int] + w.path@).drop_first() =~= w.path@);
                } else {
                    let j = k - h - la;
                    lemma_rewrite_located(*b, j);
                    let w = rewrites(*b)[j];
                    assert(rewrites(e)[k] == place(w, Slot::Right(op, *a)));
                    assert((seq![1int] + w.path@).drop_first() =~= w.path@);
                }
            },
            Expr::Neg(a) => {
                let j = k - h;
                lemma_rewrite_located(*a, j);
                let w = rewrites(*a)[j];
                assert(rewrites(e)[k] == place(w, Slot::Under));
                assert((seq![0int] + w.path@).drop_first() =~= w.path@);
            },
            _ => {
                assert(rewrites(e) == here);
            },
        }
    }
}

/// Replacing the subtree at `p` leaves every subtree at a path that parts
/// from `p` as it was.
pub proof fn lemma_replace_untouched(e: Expr, p: Seq<int>, q: Seq<int>, n: Expr)
    requires
        subtree_at(e, p) is Some,
        diverge(p, q),
    ensures
        subtree_at(replace_at(e, p, n), q) == subtree_at(e, q),
    decreases p.len(),
{
    match e {
        Expr::Bin(op, a, b) => {
            if p[0] == q[0] {
                if p[0] == 0 {
                    lemma_replace_untouched(*a, p.drop_first(), q.drop_first(), n);
                } else {
                    lemma_replace_untouched(*b, p.drop_first(), q.drop_first(), n);
                }
            }
        },
        Expr::Neg(a) => {
            if p[0] == q[0] {
                lemma_replace_untouched(*a, p.drop_first(), q.drop_first(), n);
            }
        },
        _ => {},
    }
}

/// Every action that rewrites a subexpression changes exactly one subtree:
/// the result is the tree with the rewritten subtree at one path, and every
/// subtree at a path that parts from it is unchanged.
pub proof fn lemma_locality(e: Expr, k: int, q: Seq<int>)
    requires
        0 <= k < rewrites(e).len(),
        diverge(rewrites(e)[k].path@, q),
    ensures
        rewrites(e)[k].result == replace_at(
            e,
            rewrites(e)[k].path@,
            apply_node_rule(rewrites(e)[k].rule, rewrites(e)[k].target).unwrap(),
        ),
        subtree_at(rewrites(e)[k].result, q) == subtree_at(e, q),
{
    lemma_rewrite_located(e, k);
    let w = rewrites(e)[k];
    lemma_replace_untouched(e, w.path@, q, apply_node_rule(w.rule, w.target).unwrap());
}

} // verus!
