//! Problem domains by name, and the two batch operations over them.
use vstd::prelude::*;
use vstd::string::StringSliceAdditionalSpecFns;
use crate::engine::{step_state, step_text, texts, Action, ActionText};
use crate::generator::{generate_problem, problem_text};

verus! {

/// The known problem domains.
#[derive(Clone, Copy, Debug, PartialEq, Eq, Structural)]
pub enum Domain {
    /// Single-variable linear equations.
    EquationsCt,
}

/// The name under which `EquationsCt` is registered.
pub open spec fn equations_ct_name() -> Seq<u8> {
    seq![0x65u8, 0x71u8, 0x75u8, 0x61u8, 0x74u8, 0x69u8, 0x6fu8, 0x6eu8, 0x73u8, 0x2du8, 0x63u8, 0x74u8]
}

/// The domain registered under a name.
pub open spec fn domain_named(name: Seq<u8>) -> Option<Domain> {
    if name == equations_ct_name() {
        Some(Domain::EquationsCt)
    } else {
        None
    }
}

/// The only failure that ends a whole call.
#[derive(Clone, Copy, Debug, PartialEq, Eq, Structural)]
pub enum DomainError {
    UnknownDomain,
}

impl Domain {
    /// Looks a domain up by name.
    pub fn lookup(name: &str) -> (r: Option<Domain>)
        ensures
            r == domain_named(name.spec_bytes()),
    {
        let b = name.as_bytes();
        let want: [u8; 12] = [0x65, 0x71, 0x75, 0x61, 0x74, 0x69, 0x6f, 0x6e, 0x73, 0x2d, 0x63, 0x74];
        assert(want@ == equations_ct_name());
        if b.len() != 12 {
            return None;
        }
        let mut k: usize = 0;
        while k < 12
            invariant
                k <= 12,
                b@.len() == 12,
                b@ == name.spec_bytes(),
                want@ == equations_ct_name(),
                forall|j: int| 0 <= j < k ==> b@[j] == want@[j],
            decreases 12 - k,
        {
            if b[k] != want[k] {
                assert(b@[k as int] != equations_ct_name()[k as int]);
                assert(name.spec_bytes() == b@);
                assert(b@ != equations_ct_name());
                return None;
            }
            k = k + 1;
        }
        assert(b@ =~= equations_ct_name());
        Some(Domain::EquationsCt)
    }

    /// A problem of this domain for a seed.
    pub fn generate(&self, seed: u64) -> (r: Vec<u8>)
        ensures
            r@ == problem_text(seed),
    {
        generate_problem(seed)
    }

    /// The actions of one state of this domain.
    pub fn step(&self, state: &[u8]) -> (r: Option<Vec<Action>>)
        ensures
            match r {
                Some(v) => step_text(state@) == Some(texts(v@)),
                None => step_text(state@) is None,
            },
    {
        step_state(state)
    }
}

/// What a batch of states yields, position by position.
pub open spec fn batch_text(states: Seq<Seq<u8>>) -> Seq<Option<Seq<ActionText>>> {
    states.map_values(|s: Seq<u8>| step_text(s))
}

pub open spec fn answers(r: Seq<Option<Vec<Action>>>) -> Seq<Option<Seq<ActionText>>> {
    r.map_values(
        |a: Option<Vec<Action>>|
            match a {
                Some(v) => Some(texts(v@)),
                None => None,
            },
    )
}

pub open spec fn views(states: Seq<Vec<u8>>) -> Seq<Seq<u8>> {
    states.map_values(|s: Vec<u8>| s@)
}

/// A problem of the named domain; the text depends on the seed alone.
pub fn generate(domain: &str, seed: u64) -> (r: Result<Vec<u8>, DomainError>)
    ensures
        domain_named(domain.spec_bytes()) is None ==> r == Err::<Vec<u8>, DomainError>(
            DomainError::UnknownDomain,
        ),
        domain_named(domain.spec_bytes()) is Some ==> (r matches Ok(t) && t@ == problem_text(seed)),
{
    match Domain::lookup(domain) {
        Some(d) => Ok(d.generate(seed)),
        None => Err(DomainError::UnknownDomain),
    }
}

/// The actions of each state of the named domain, in order: `None` where a
/// state does not parse, an empty list where it is terminal.
pub fn step(domain: &str, states: &Vec<Vec<u8>>) -> (r: Result<Vec<Option<Vec<Action>>>, DomainError>)
    ensures
        domain_named(domain.spec_bytes()) is None ==> r is Err,
        domain_named(domain.spec_bytes()) is Some ==> (r matches Ok(v) && answers(v@) == batch_text(
            views(states@),
        )),
{
    let d = match Domain::lookup(domain) {
        Some(d) => d,
        None => return Err(DomainError::UnknownDomain),
    };
    let mut out: Vec<Option<Vec<Action>>> = Vec::new();
    let mut k: usize = 0;
    while k < states.len()
        invariant
            k <= states@.len(),
            answers(out@) == batch_text(views(states@.take(k as int))),
        decreases states@.len() - k,
    {
        let a = d.step(states[k].as_slice());
        let ghost prev = out@;
        out.push(a);
        assert(answers(out@) =~= answers(prev).push(
            match a {
                Some(v) => Some(texts(v@)),
                None => None,
            },
        ));
        assert(states@.take(k + 1) =~= states@.take(k as int).push(states@[k as int]));
        assert(views(states@.take(k + 1)) =~= views(states@.take(k as int)).push(states@[k as int]@));
        assert(batch_text(views(states@.take(k + 1))) =~= batch_text(views(states@.take(k as int))).push(
            step_text(states@[k as int]@),
        ));
        k = k + 1;
    }
    assert(states@.take(states@.len() as int) =~= states@);
    Ok(out)
}

/// A batch answers each position as that state alone would be answered.
pub proof fn lemma_batch_independence(states: Seq<Seq<u8>>, i: int)
    requires
        0 <= i < states.len(),
    ensures
        batch_text(states)[i] == batch_text(seq![states[i]])[0],
{
}

/// A malformed state among well-formed ones yields `None` at its own
/// position only.
pub proof fn lemma_error_isolation(states: Seq<Seq<u8>>, bad: int)
    requires
        0 <= bad < states.len(),
        step_text(states[bad]) is None,
        forall|j: int| 0 <= j < states.len() && j != bad ==> (step_text(#[trigger] states[j]) is Some),
    ensures
        forall|j: int| 0 <= j < states.len() ==> ((#[trigger] batch_text(states)[j] is None) <==> j == bad),
{
}

} // verus!
