//! The entry points that a host binding calls, over the circuit
//! `private_input * private_input == public_input`.

use vstd::prelude::*;
use crate::field::{FieldElement, MODULUS, fmul, vals, all_wf};
use crate::circuit::{Constraint, ConstraintKind, ConstraintSystem, Role, ZkError, count_role};
use crate::witness::{compute, determined, known_iter};
use crate::scheme::{lemma_completeness, proof_of, accepts, blind, commitments_of, opening_of, openings_of, challenge_of};
use crate::prover::{prove, verify};
use crate::codec::{encode, decode, encoding, parse};

verus! {

/// The inputs of a proof request.
pub struct ProofInput {
    pub private_input: u64,
    pub public_input: u64,
}

/// An encoded proof with the public inputs it was made for.
pub struct ProofOutput {
    pub proof: Vec<u8>,
    pub public_inputs: Vec<u64>,
}

/// `cs` is the circuit with a private variable `x`, a public variable `y` and
/// the one constraint `y == x * x`.
pub open spec fn is_square(cs: &ConstraintSystem) -> bool {
    &&& cs.roles@ == seq![Role::Private, Role::Public]
    &&& cs.constraints@ == seq![Constraint { kind: ConstraintKind::Mul, a: 0, b: 0, c: 1 }]
}

/// An integer reduced into the field.
pub open spec fn reduce(x: u64) -> int {
    x as int % (MODULUS as int)
}

/// The circuit `y == x * x`.
pub fn square_circuit() -> (cs: ConstraintSystem)
    ensures
        cs.wf(),
        is_square(&cs),
{
    let cs = ConstraintSystem {
        roles: vec![Role::Private, Role::Public],
        constraints: vec![Constraint { kind: ConstraintKind::Mul, a: 0, b: 0, c: 1 }],
    };
    assert(cs.roles@ =~= seq![Role::Private, Role::Public]);
    assert(cs.constraints@ =~= seq![Constraint { kind: ConstraintKind::Mul, a: 0, b: 0, c: 1 }]);
    cs
}

proof fn lemma_square_shape(cs: &ConstraintSystem)
    requires
        is_square(cs),
    ensures
        cs.wf(),
        cs.count(Role::Private) == 1,
        cs.count(Role::Public) == 1,
        cs.rank(0) == 0,
        cs.rank(1) == 0,
        determined(cs),
{
    let r = cs.roles@;
    assert(count_role(r, 0, Role::Private) == 0);
    assert(count_role(r, 1, Role::Private) == 1);
    assert(count_role(r, 2, Role::Private) == 1);
    assert(count_role(r, 0, Role::Public) == 0);
    assert(count_role(r, 1, Role::Public) == 0);
    assert(count_role(r, 2, Role::Public) == 1);
    let k0 = known_iter(cs, 0);
    assert(k0[0] && k0[1]);
    assert(crate::witness::all_known(known_iter(cs, 0), cs.num_vars()));
}

/// Two systems with the same variables and constraints give the same proofs.
proof fn lemma_same_proof(cs1: &ConstraintSystem, cs2: &ConstraintSystem, w: Seq<int>, seed: int)
    requires
        cs1.roles@ == cs2.roles@,
        cs1.constraints@ == cs2.constraints@,
    ensures
        proof_of(cs1, w, seed) == proof_of(cs2, w, seed),
{
    assert(commitments_of(cs1, w, seed) =~= commitments_of(cs2, w, seed)) by {
        assert forall|v: int| 0 <= v < cs1.num_vars() implies blind(cs1, seed, v) == blind(cs2, seed, v) by {}
    }
    assert forall|e: int| openings_of(cs1, w, seed, e) =~= openings_of(cs2, w, seed, e) by {
        assert forall|j: int| 0 <= j < cs1.constraints@.len() implies opening_of(cs1, w, seed, j, e) == opening_of(
            cs2,
            w,
            seed,
            j,
            e,
        ) by {}
    }
    assert(challenge_of(cs1, w, seed) == challenge_of(cs2, w, seed));
    assert(openings_of(cs1, w, seed, challenge_of(cs1, w, seed)) =~= openings_of(
        cs2,
        w,
        seed,
        challenge_of(cs2, w, seed),
    ));
}

/// Two systems with the same variables and constraints accept the same proofs.
proof fn lemma_same_acceptance(
    cs1: &ConstraintSystem,
    cs2: &ConstraintSystem,
    public_input: Seq<int>,
    p: (Seq<int>, Seq<(int, int, int, int, int)>),
)
    requires
        cs1.roles@ == cs2.roles@,
        cs1.constraints@ == cs2.constraints@,
    ensures
        accepts(cs1, public_input, p.0, p.1) == accepts(cs2, public_input, p.0, p.1),
{
    reveal(accepts);
}

/// Proves knowledge of a square root of the public input.
///
/// Both inputs are taken modulo the field's prime; `seed` is the prover's
/// private randomness. The scheme is a structurally complete toy: its
/// commitments are linear over one prime field (see the `scheme` module), so
/// they neither hide nor bind in a cryptographic sense.
pub fn generate_proof(input: &ProofInput, seed: u64) -> (r: Result<ProofOutput, ZkError>)
    ensures
        r is Ok <==> fmul(reduce(input.private_input), reduce(input.private_input)) == reduce(input.public_input),
        match r {
            Ok(out) => {
                &&& out.public_inputs@ == seq![reduce(input.public_input) as u64]
                &&& forall|cs: &ConstraintSystem| #[trigger]
                    is_square(cs) ==> out.proof@ == encoding(
                        proof_of(cs, seq![reduce(input.private_input), reduce(input.public_input)], seed as int),
                    )
            },
            Err(e) => e == ZkError::UnsatisfiableInputError,
        },
{
    let cs = square_circuit();
    let x = FieldElement::new(input.private_input);
    let y = FieldElement::new(input.public_input);
    let private_input = vec![x];
    let public_input = vec![y];
    let ghost pv = vals(private_input@);
    let ghost qv = vals(public_input@);
    let ghost w0 = seq![x.val(), y.val()];
    proof {
        lemma_square_shape(&cs);
        assert(pv =~= seq![x.val()]);
        assert(qv =~= seq![y.val()]);
        assert(all_wf(private_input@));
        assert(all_wf(public_input@));
        if fmul(x.val(), x.val()) == y.val() {
            assert(cs.agrees(w0, pv, qv));
            assert(cs.satisfied_by(w0));
            assert(cs.admits(w0, pv, qv));
        }
    }
    match compute(&cs, &private_input, &public_input) {
        Err(e) => Err(e),
        Ok(w) => {
            proof {
                assert(cs.agrees(w.vals(), pv, qv));
                assert(w.vals()[0] == x.val());
                assert(w.vals()[1] == y.val());
                assert(w.vals() =~= w0);
                assert(holds_at_zero(&cs, w0));
            }
            match prove(&cs, &w, seed) {
                Err(e) => Err(e),
                Ok(p) => {
                    let bytes = encode(&p);
                    let out = ProofOutput { proof: bytes, public_inputs: vec![y.value()] };
                    proof {
                        assert(out.public_inputs@ =~= seq![reduce(input.public_input) as u64]);
                        assert forall|cs2: &ConstraintSystem| #[trigger] is_square(cs2) implies out.proof@ == encoding(
                            proof_of(cs2, w0, seed as int),
                        ) by {
                            lemma_same_proof(&cs, cs2, w0, seed as int);
                        }
                    }
                    Ok(out)
                },
            }
        },
    }
}

spec fn holds_at_zero(cs: &ConstraintSystem, w: Seq<int>) -> bool {
    crate::circuit::holds(cs.constraints@[0], w)
}

/// The public inputs reduced into the field.
pub open spec fn reduce_all(s: Seq<u64>) -> Seq<int> {
    s.map_values(|x: u64| reduce(x))
}

/// Checks an encoded proof against the public inputs of the square circuit.
///
/// The public inputs are taken modulo the field's prime, as `generate_proof`
/// takes them. Bytes that are not the canonical encoding of a proof give
/// `DecodingError`; a proof that decodes but does not verify gives `Ok(false)`.
///
/// The commitments of the scheme are linear over one prime field (see the
/// `scheme` module), so acceptance is no cryptographic evidence: a proof for a
/// public input without a square root can be forged.
pub fn verify_proof(pf: &Vec<u8>, public_inputs: &Vec<u64>) -> (r: Result<bool, ZkError>)
    ensures
        match r {
            Ok(b) => parse(pf@) is Some && forall|cs: &ConstraintSystem| #[trigger]
                is_square(cs) ==> b == accepts(
                    cs,
                    reduce_all(public_inputs@),
                    parse(pf@)->Some_0.0,
                    parse(pf@)->Some_0.1,
                ),
            Err(e) => e == ZkError::DecodingError && parse(pf@) is None,
        },
{
    let p = match decode(pf) {
        Ok(p) => p,
        Err(e) => {
            return Err(e);
        },
    };
    let mut xs: Vec<FieldElement> = Vec::new();
    let mut i: usize = 0;
    while i < public_inputs.len()
        invariant
            i <= public_inputs@.len(),
            xs@.len() == i,
            all_wf(xs@),
            forall|k: int| 0 <= k < i ==> (#[trigger] xs@[k]).val() == reduce(public_inputs@[k]),
        decreases public_inputs@.len() - i,
    {
        xs.push(FieldElement::new(public_inputs[i]));
        i = i + 1;
    }
    assert(vals(xs@) =~= reduce_all(public_inputs@));
    let cs = square_circuit();
    let b = verify(&cs, &xs, &p);
    proof {
        assert forall|cs2: &ConstraintSystem| #[trigger] is_square(cs2) implies b == accepts(
            cs2,
            reduce_all(public_inputs@),
            parse(pf@)->Some_0.0,
            parse(pf@)->Some_0.1,
        ) by {
            lemma_same_acceptance(&cs, cs2, reduce_all(public_inputs@), p@);
        }
    }
    Ok(b)
}

/// Prepares the worker pool. The engine runs each call on the calling thread,
/// so the result of every operation is the same whether or not this is called.
pub fn init_thread_pool(num_threads: usize) -> (r: Result<(), ZkError>)
    ensures
        r is Ok,
{
    Ok(())
}

/// The proof that `generate_proof` encodes for inputs with `x * x == y` is
/// accepted for `y`, which the verifier reduces into the field as the prover
/// does (so also for the reduced value that `generate_proof` returns). With
/// `lemma_round_trip`, which shows that its encoding decodes back to it,
/// `verify_proof` on that output returns `Ok(true)`.
pub proof fn lemma_generate_then_verify(cs: &ConstraintSystem, x: u64, y: u64, seed: u64)
    requires
        is_square(cs),
        fmul(reduce(x), reduce(x)) == reduce(y),
    ensures
        ({
            let p = proof_of(cs, seq![reduce(x), reduce(y)], seed as int);
            &&& accepts(cs, reduce_all(seq![y]), p.0, p.1)
        }),
{
    lemma_square_shape(cs);
    let w = seq![reduce(x), reduce(y)];
    let q = reduce_all(seq![y]);
    assert(q =~= seq![reduce(y)]);
    assert(holds_at_zero(cs, w));
    assert(cs.satisfied_by(w));
    assert(crate::scheme::publics_match(cs, w, q));
    lemma_completeness(cs, w, seed as int, q);
}

} // verus!
