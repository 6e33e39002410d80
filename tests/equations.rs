use commoncore::domain::{generate, step, Domain, DomainError};
use commoncore::engine::Action;
use commoncore::expr::serialize;
use commoncore::generator::{generate_linear, linear_to_equation};
use commoncore::parser::parse;
use commoncore::rational::Rational;

const DOMAIN: &str = "equations-ct";

fn action(next: &str, formal: &str, human: &str) -> Action {
    Action {
        next_state: next.as_bytes().to_vec(),
        formal_description: formal.as_bytes().to_vec(),
        human_description: human.as_bytes().to_vec(),
    }
}

fn step_one(state: &str) -> Option<Vec<Action>> {
    let r = step(DOMAIN, &vec![state.as_bytes().to_vec()]).unwrap();
    assert_eq!(r.len(), 1);
    r.into_iter().next().unwrap()
}

fn text(b: &[u8]) -> String {
    String::from_utf8(b.to_vec()).unwrap()
}

fn canonical(s: &str) -> String {
    text(&serialize(&parse(s.as_bytes()).unwrap()))
}

#[test]
fn generate_example_seed_42() {
    let t = generate(DOMAIN, 42).unwrap();
    let actions = step_one(&text(&t)).unwrap();
    assert!(!actions.is_empty());
}

#[test]
fn step_example_subtract() {
    let actions = step_one("4x + 2 = 14").unwrap();
    assert!(actions.contains(&action("4x = 12", "subtract_both_sides(2)", "subtract 2 from both sides")));
}

#[test]
fn step_terminal_state() {
    assert_eq!(step_one("x = 3"), Some(vec![]));
}

#[test]
fn step_parse_failure() {
    assert_eq!(step_one("4x + ="), None);
}

#[test]
fn unknown_domain() {
    assert_eq!(generate("unknown-domain", 1), Err(DomainError::UnknownDomain));
    assert_eq!(step("unknown-domain", &vec![b"x = 1".to_vec()]), Err(DomainError::UnknownDomain));
    assert_eq!(Domain::lookup("equations-ct"), Some(Domain::EquationsCt));
    assert_eq!(Domain::lookup("equations-c"), None);
}

#[test]
fn generate_is_deterministic() {
    for seed in 0..100u64 {
        assert_eq!(generate(DOMAIN, seed), generate(DOMAIN, seed));
    }
    assert_eq!(generate(DOMAIN, u64::MAX), generate(DOMAIN, u64::MAX));
}

#[test]
fn generated_and_rewritten_round_trip() {
    for seed in 0..300u64 {
        let t = generate(DOMAIN, seed).unwrap();
        let q = parse(&t).unwrap();
        assert_eq!(serialize(&q), t);
        assert_eq!(q, linear_to_equation(&generate_linear(seed)));
        for a in step_one(&text(&t)).unwrap() {
            let n = parse(&a.next_state).unwrap();
            assert_eq!(serialize(&n), a.next_state);
        }
    }
}

#[test]
fn generated_problems_are_solvable() {
    for seed in 0..300u64 {
        let mut state = text(&generate(DOMAIN, seed).unwrap());
        let mut moves = 0;
        loop {
            let actions = step_one(&state).unwrap();
            if actions.is_empty() {
                break;
            }
            state = text(&actions[0].next_state);
            moves += 1;
            assert!(moves < 20, "seed {} did not reach a terminal state", seed);
        }
        assert!(state.starts_with("x = "), "seed {} ended at {}", seed, state);
    }
}

#[test]
fn generated_problem_is_not_solved() {
    for seed in 0..100u64 {
        let l = generate_linear(seed);
        assert!(!(l.a == 1 && l.b == 0));
    }
}

#[test]
fn batch_matches_single_steps() {
    let states = vec![b"4x + 2 = 14".to_vec(), b"x = 3".to_vec(), b"3 = x".to_vec(), b"2x + 3x = 10".to_vec()];
    let batch = step(DOMAIN, &states).unwrap();
    assert_eq!(batch.len(), states.len());
    for (i, s) in states.iter().enumerate() {
        assert_eq!(batch[i], step_one(&text(s)));
    }
}

#[test]
fn malformed_entry_is_isolated() {
    let states = vec![b"4x + 2 = 14".to_vec(), b"4x + =".to_vec(), b"x = 3".to_vec()];
    let batch = step(DOMAIN, &states).unwrap();
    assert!(batch[0].is_some());
    assert!(batch[1].is_none());
    assert_eq!(batch[2], Some(vec![]));
}

#[test]
fn parse_rejects_malformed_text() {
    for s in ["3/0 = x", "(x = 1", "x) = 1", "x = 1 = 2", "x + 1", "x # 2 = 1", "", "= 1", "x = 99999999999999999999"] {
        assert!(parse(s.as_bytes()).is_none(), "accepted {}", s);
    }
}

#[test]
fn canonical_text() {
    assert_eq!(canonical("4 * x + 2 = 14"), "4x + 2 = 14");
    assert_eq!(canonical("x=6/4"), "x = 3/2");
    assert_eq!(canonical("(x) + (2) = ((3))"), "x + 2 = 3");
    assert_eq!(canonical("-2x = -4"), "-2x = -4");
    assert_eq!(canonical("-(2) = x"), "-(2) = x");
    assert_eq!(canonical("x^2 * 3 = 2 ^ 3 ^ 2"), "x^2 * 3 = 2^3^2");
    assert_eq!(canonical("(2 ^ 3) ^ 2 = 1 - (2 - 3)"), "(2^3)^2 = 1 - (2 - 3)");
    assert_eq!(canonical("x = 2 * (3 * 4)"), "x = 2 * (3 * 4)");
    assert_eq!(canonical("x^(-1) = -(2x)"), "x^(-1) = -(2x)");
    assert_eq!(canonical("3x^2 = 12"), "3x^2 = 12");
}

#[test]
fn constant_fold_action() {
    let actions = step_one("x = 2 + 3").unwrap();
    assert_eq!(actions, vec![action("x = 5", "constant_fold(2 + 3)", "evaluate 2 + 3")]);
}

#[test]
fn constant_fold_division_by_zero_is_not_offered() {
    assert_eq!(step_one("x = 2 / 0"), Some(vec![]));
}

#[test]
fn combine_like_terms_action() {
    let actions = step_one("2x + 3x = 10").unwrap();
    assert_eq!(actions, vec![action("5x = 10", "combine_like_terms(2x + 3x)", "combine like terms in 2x + 3x")]);
}

#[test]
fn distribute_action() {
    let actions = step_one("2 * (x + 1) = 6").unwrap();
    assert_eq!(actions, vec![action("2x + 2 * 1 = 6", "distribute(2 * (x + 1))", "expand 2 * (x + 1)")]);
}

#[test]
fn commute_action() {
    let actions = step_one("3 + x = 5").unwrap();
    assert_eq!(actions, vec![action("x + 3 = 5", "commute(3 + x)", "reorder 3 + x")]);
    let actions = step_one("x * 3 = 6").unwrap();
    assert_eq!(actions, vec![action("3x = 6", "commute(x * 3)", "reorder x * 3")]);
}

#[test]
fn equation_rule_actions() {
    assert_eq!(step_one("3 = x").unwrap(), vec![action("x = 3", "swap_sides()", "swap the two sides")]);
    assert_eq!(step_one("4x = 12").unwrap(), vec![action("x = 3", "divide_both_sides(4)", "divide both sides by 4")]);
    assert_eq!(step_one("x / 2 = 3").unwrap(), vec![action("x = 6", "multiply_both_sides(2)", "multiply both sides by 2")]);
    assert_eq!(step_one("x - 2 = 5").unwrap(), vec![action("x = 7", "add_both_sides(2)", "add 2 to both sides")]);
    assert_eq!(step_one("-2x = 4").unwrap(), vec![action("x = -2", "divide_both_sides(-2)", "divide both sides by -2")]);
    assert_eq!(step_one("3x = 2").unwrap(), vec![action("x = 2/3", "divide_both_sides(3)", "divide both sides by 3")]);
}

#[test]
fn actions_follow_node_order() {
    let actions = step_one("x + 2 = 1 + 3").unwrap();
    assert_eq!(
        actions,
        vec![
            action("x = 1 + 3 - 2", "subtract_both_sides(2)", "subtract 2 from both sides"),
            action("x + 2 = 4", "constant_fold(1 + 3)", "evaluate 1 + 3"),
        ]
    );
}

#[test]
fn locality_of_node_rewrites() {
    let actions = step_one("x * 1 = 2 + 3").unwrap();
    assert_eq!(actions.len(), 2);
    assert_eq!(text(&actions[0].next_state), "1x = 2 + 3");
    assert_eq!(text(&actions[1].next_state), "x * 1 = 5");
}

#[test]
fn rational_arithmetic() {
    let half = Rational::from_parts(2, 4).unwrap();
    assert_eq!(half, Rational { num: 1, den: 2 });
    assert_eq!(Rational::from_parts(6, -4), Some(Rational { num: -3, den: 2 }));
    assert_eq!(Rational::from_parts(0, -7), Some(Rational { num: 0, den: 1 }));
    assert_eq!(Rational::from_parts(1, 0), None);
    let third = Rational::from_int(3).div(&Rational::from_int(9)).unwrap();
    assert_eq!(third, Rational { num: 1, den: 3 });
    assert_eq!(half.add(&third), Some(Rational { num: 5, den: 6 }));
    assert_eq!(half.sub(&third), Some(Rational { num: 1, den: 6 }));
    assert_eq!(half.mul(&third), Some(Rational { num: 1, den: 6 }));
    assert_eq!(half.div(&Rational::from_int(0)), None);
    assert_eq!(half.neg(), Rational { num: -1, den: 2 });
    let big = Rational::from_int(i64::MAX);
    assert_eq!(big.add(&big), None);
}
