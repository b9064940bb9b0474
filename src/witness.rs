//! Witness generation: evaluating a constraint system on its inputs.

use vstd::prelude::*;
use crate::field::{FieldElement, vals, all_wf};
use crate::circuit::{ConstraintSystem, ConstraintKind, Role, ZkError, holds, count_role, lemma_rank_bound};
use crate::prover::check_witness;

verus! {

/// A value for every variable of a constraint system.
pub struct Witness {
    pub values: Vec<FieldElement>,
}

impl Witness {
    pub open spec fn vals(&self) -> Seq<int> {
        vals(self.values@)
    }
}

/// Which variables have a value before evaluation: the inputs.
pub open spec fn initially_known(cs: &ConstraintSystem) -> Seq<bool> {
    Seq::new(cs.roles@.len(), |v: int| cs.roles@[v] != Role::Internal)
}

/// Which variables have a value after evaluating the first `i` constraints in
/// order, starting from the known variables `k`: a constraint `c == a op b`
/// whose operands are known makes `c` known.
pub open spec fn pass_from(cs: &ConstraintSystem, k: Seq<bool>, i: int) -> Seq<bool>
    decreases i,
{
    if i <= 0 {
        k
    } else {
        let p = pass_from(cs, k, i - 1);
        let c = cs.constraints@[i - 1];
        if p[c.a as int] && p[c.b as int] {
            p.update(c.c as int, true)
        } else {
            p
        }
    }
}

/// One evaluation pass over all constraints.
pub open spec fn step(cs: &ConstraintSystem, k: Seq<bool>) -> Seq<bool> {
    pass_from(cs, k, cs.constraints@.len() as int)
}

/// Which variables have a value after `r` passes.
pub open spec fn known_iter(cs: &ConstraintSystem, r: nat) -> Seq<bool>
    decreases r,
{
    if r == 0 {
        initially_known(cs)
    } else {
        step(cs, known_iter(cs, (r - 1) as nat))
    }
}

/// Repeated evaluation gives every variable a value, whatever the order in
/// which the constraints are listed.
pub open spec fn determined(cs: &ConstraintSystem) -> bool {
    exists|r: nat| #[trigger] all_known(known_iter(cs, r), cs.num_vars())
}

/// The first `n` variables are known in `k`.
pub open spec fn all_known(k: Seq<bool>, n: int) -> bool {
    forall|v: int| 0 <= v < n ==> #[trigger] k[v]
}

/// Every variable known in `k1` is known in `k2`.
pub open spec fn below(k1: Seq<bool>, k2: Seq<bool>) -> bool {
    k1.len() == k2.len() && forall|v: int| 0 <= v < k1.len() && #[trigger] k1[v] ==> k2[v]
}

pub proof fn lemma_pass_len(cs: &ConstraintSystem, k: Seq<bool>, i: int)
    requires
        cs.wf(),
        k.len() == cs.num_vars(),
        i <= cs.constraints@.len(),
    ensures
        pass_from(cs, k, i).len() == cs.num_vars(),
    decreases i,
{
    if i > 0 {
        lemma_pass_len(cs, k, i - 1);
    }
}

pub proof fn lemma_iter_len(cs: &ConstraintSystem, r: nat)
    requires
        cs.wf(),
    ensures
        known_iter(cs, r).len() == cs.num_vars(),
    decreases r,
{
    if r > 0 {
        lemma_iter_len(cs, (r - 1) as nat);
        lemma_pass_len(cs, known_iter(cs, (r - 1) as nat), cs.constraints@.len() as int);
    }
}

proof fn lemma_pass_mono(cs: &ConstraintSystem, k1: Seq<bool>, k2: Seq<bool>, i: int)
    requires
        cs.wf(),
        k1.len() == cs.num_vars(),
        below(k1, k2),
        0 <= i <= cs.constraints@.len(),
    ensures
        below(pass_from(cs, k1, i), pass_from(cs, k2, i)),
    decreases i,
{
    if i > 0 {
        lemma_pass_mono(cs, k1, k2, i - 1);
        lemma_pass_len(cs, k1, i - 1);
        lemma_pass_len(cs, k2, i - 1);
        assert(crate::circuit::refs_in(cs.constraints@[i - 1], cs.num_vars()));
    }
}

/// Below a fixpoint of the evaluation pass that holds the inputs lie the
/// variables known after any number of passes.
proof fn lemma_iter_below_fix(cs: &ConstraintSystem, k: Seq<bool>, r: nat)
    requires
        cs.wf(),
        below(initially_known(cs), k),
        step(cs, k) == k,
    ensures
        below(known_iter(cs, r), k),
    decreases r,
{
    if r > 0 {
        lemma_iter_below_fix(cs, k, (r - 1) as nat);
        lemma_iter_len(cs, (r - 1) as nat);
        lemma_pass_mono(cs, known_iter(cs, (r - 1) as nat), k, cs.constraints@.len() as int);
    }
}

/// The number of empty slots of a partial assignment.
pub open spec fn count_none(a: Seq<Option<FieldElement>>) -> nat
    decreases a.len(),
{
    if a.len() == 0 {
        0
    } else {
        count_none(a.drop_last()) + if a.last() is None { 1nat } else { 0nat }
    }
}

proof fn lemma_count_none_fill(a: Seq<Option<FieldElement>>, i: int, x: FieldElement)
    requires
        0 <= i < a.len(),
        a[i] is None,
    ensures
        count_none(a.update(i, Some(x))) + 1 == count_none(a),
    decreases a.len(),
{
    let b = a.update(i, Some(x));
    if i < a.len() - 1 {
        assert(b.drop_last() =~= a.drop_last().update(i, Some(x)));
        lemma_count_none_fill(a.drop_last(), i, x);
    } else {
        assert(b.drop_last() =~= a.drop_last());
    }
}

/// The variables that a partial assignment gives values.
pub open spec fn known_of(a: Seq<Option<FieldElement>>) -> Seq<bool> {
    Seq::new(a.len(), |v: int| a[v] is Some)
}

/// The value that the inputs give variable `v`, if it is an input.
pub open spec fn input_value(
    cs: &ConstraintSystem,
    private_input: Seq<FieldElement>,
    public_input: Seq<FieldElement>,
    v: int,
) -> Option<FieldElement> {
    match cs.roles@[v] {
        Role::Private => Some(private_input[cs.rank(v)]),
        Role::Public => Some(public_input[cs.rank(v)]),
        Role::Internal => None,
    }
}

/// Every value in the partial assignment `a` is the one that `w` gives.
pub open spec fn consistent(a: Seq<Option<FieldElement>>, w: Seq<int>) -> bool {
    forall|v: int| 0 <= v < a.len() ==> (#[trigger] a[v] is Some ==> w[v] == a[v]->Some_0.val())
}

/// Gives each input variable its input value and leaves the others empty.
fn assign_inputs(cs: &ConstraintSystem, private_input: &Vec<FieldElement>, public_input: &Vec<FieldElement>)
    -> (a: Vec<Option<FieldElement>>)
    requires
        private_input@.len() == cs.count(Role::Private),
        public_input@.len() == cs.count(Role::Public),
    ensures
        a@.len() == cs.num_vars(),
        forall|v: int| 0 <= v < a@.len() ==> #[trigger] a@[v] == input_value(cs, private_input@, public_input@, v),
{
    let n = cs.roles.len();
    let mut a: Vec<Option<FieldElement>> = Vec::new();
    let mut cp: usize = 0;
    let mut cu: usize = 0;
    let mut v: usize = 0;
    let np = private_input.len();
    let nu = public_input.len();
    while v < n
        invariant
            np == private_input@.len(),
            nu == public_input@.len(),
            n == cs.roles@.len(),
            v <= n,
            a@.len() == v,
            cp as int == count_role(cs.roles@, v as int, Role::Private),
            cu as int == count_role(cs.roles@, v as int, Role::Public),
            private_input@.len() == cs.count(Role::Private),
            public_input@.len() == cs.count(Role::Public),
            forall|u: int| 0 <= u < v ==> #[trigger] a@[u] == input_value(cs, private_input@, public_input@, u),
        decreases n - v,
    {
        proof {
            lemma_rank_bound(cs, v as int);
            assert(count_role(cs.roles@, v + 1, Role::Private) == cp + if cs.roles@[v as int] == Role::Private { 1int } else { 0int });
            assert(count_role(cs.roles@, v + 1, Role::Public) == cu + if cs.roles@[v as int] == Role::Public { 1int } else { 0int });
        }
        match cs.roles[v] {
            Role::Private => {
                a.push(Some(private_input[cp]));
                cp = cp + 1;
            },
            Role::Public => {
                a.push(Some(public_input[cu]));
                cu = cu + 1;
            },
            Role::Internal => {
                a.push(None);
            },
        }
        v = v + 1;
    }
    a
}

/// The values of a partial assignment that gives every variable one.
fn unwrap_all(a: &Vec<Option<FieldElement>>) -> (r: Option<Vec<FieldElement>>)
    ensures
        match r {
            Some(values) => values@.len() == a@.len() && forall|u: int|
                0 <= u < a@.len() ==> #[trigger] a@[u] == Some(values@[u]),
            None => exists|u: int| 0 <= u < a@.len() && #[trigger] a@[u] is None,
        },
{
    let mut values: Vec<FieldElement> = Vec::new();
    let mut v: usize = 0;
    while v < a.len()
        invariant
            v <= a@.len(),
            values@.len() == v,
            forall|u: int| 0 <= u < v ==> #[trigger] a@[u] == Some(values@[u]),
        decreases a@.len() - v,
    {
        match a[v] {
            Some(x) => {
                values.push(x);
            },
            None => {
                return None;
            },
        }
        v = v + 1;
    }
    Some(values)
}

/// Evaluates every constraint once, in order: a constraint whose operands have
/// values gives its result variable a value if it has none yet.
fn evaluate_pass(
    cs: &ConstraintSystem,
    a: &mut Vec<Option<FieldElement>>,
    Ghost(pv): Ghost<Seq<int>>,
    Ghost(qv): Ghost<Seq<int>>,
) -> (progress: bool)
    requires
        cs.wf(),
        old(a)@.len() == cs.num_vars(),
        forall|v: int| 0 <= v < old(a)@.len() && old(a)@[v] is Some ==> (#[trigger] old(a)@[v])->Some_0.wf(),
        forall|w2: Seq<int>| #[trigger] cs.admits(w2, pv, qv) ==> consistent(old(a)@, w2),
    ensures
        final(a)@.len() == cs.num_vars(),
        forall|v: int| 0 <= v < final(a)@.len() && final(a)@[v] is Some ==> (#[trigger] final(a)@[v])->Some_0.wf(),
        forall|w2: Seq<int>| #[trigger] cs.admits(w2, pv, qv) ==> consistent(final(a)@, w2),
        forall|v: int| 0 <= v < cs.num_vars() && old(a)@[v] is Some ==> #[trigger] final(a)@[v] == old(a)@[v],
        known_of(final(a)@) == step(cs, known_of(old(a)@)),
        progress ==> count_none(final(a)@) < count_none(old(a)@),
        !progress ==> final(a)@ == old(a)@,
{
    let ghost a0 = a@;
    let ghost k0 = known_of(a0);
    let n = a.len();
    let m = cs.constraints.len();
    let mut progress = false;
    let mut i: usize = 0;
    while i < m
        invariant
            cs.wf(),
            n == cs.num_vars(),
            m == cs.constraints@.len(),
            i <= m,
            a0.len() == n,
            k0 == known_of(a0),
            a@.len() == n,
            pass_from(cs, k0, i as int).len() == n,
            forall|v: int| 0 <= v < n ==> (#[trigger] a@[v] is Some) == pass_from(cs, k0, i as int)[v],
            forall|v: int| 0 <= v < n && a@[v] is Some ==> (#[trigger] a@[v])->Some_0.wf(),
            forall|v: int| 0 <= v < n && a0[v] is Some ==> #[trigger] a@[v] == a0[v],
            forall|w2: Seq<int>| #[trigger] cs.admits(w2, pv, qv) ==> consistent(a@, w2),
            progress ==> count_none(a@) < count_none(a0),
            !progress ==> a@ == a0,
        decreases m - i,
    {
        let c = cs.constraints[i];
        proof {
            lemma_pass_len(cs, k0, i as int + 1);
            assert(crate::circuit::refs_in(cs.constraints@[i as int], n as int));
        }
        let ghost before = a@;
        match (a[c.a], a[c.b]) {
            (Some(x), Some(y)) => {
                if a[c.c].is_none() {
                    let z = match c.kind {
                        ConstraintKind::Add => x.add(&y),
                        ConstraintKind::Mul => x.mul(&y),
                    };
                    a.set(c.c, Some(z));
                    proof {
                        lemma_count_none_fill(before, c.c as int, z);
                        assert forall|w2: Seq<int>| #[trigger] cs.admits(w2, pv, qv) implies consistent(a@, w2) by {
                            assert(consistent(before, w2));
                            assert(holds(cs.constraints@[i as int], w2));
                            assert(before[c.a as int] is Some);
                            assert(before[c.b as int] is Some);
                        }
                    }
                    progress = true;
                }
            },
            _ => {},
        }
        proof {
            assert forall|v: int| 0 <= v < n implies (#[trigger] a@[v] is Some) == pass_from(
                cs,
                k0,
                i as int + 1,
            )[v] by {}
        }
        i = i + 1;
    }
    proof {
        assert(known_of(a@) =~= step(cs, k0));
    }
    progress
}

/// Computes the witness of `cs` for the given inputs.
///
/// Private and public variables take the input values in declaration order.
/// Then the constraints are evaluated pass after pass, in any order in which
/// they are listed, until a pass gives no variable a new value: a constraint
/// `c == a op b` whose operands have values defines `c`. Finally every
/// constraint is checked.
pub fn compute(cs: &ConstraintSystem, private_input: &Vec<FieldElement>, public_input: &Vec<FieldElement>)
    -> (r: Result<Witness, ZkError>)
    requires
        cs.wf(),
        all_wf(private_input@),
        all_wf(public_input@),
    ensures
        (r == Err::<Witness, ZkError>(ZkError::InputLengthError)) <==> (private_input@.len() != cs.count(
            Role::Private,
        ) || public_input@.len() != cs.count(Role::Public)),
        (r == Err::<Witness, ZkError>(ZkError::MissingAssignmentError)) <==> (private_input@.len() == cs.count(
            Role::Private,
        ) && public_input@.len() == cs.count(Role::Public) && !determined(cs)),
        r == Err::<Witness, ZkError>(ZkError::UnsatisfiableInputError) ==> forall|w: Seq<int>|
            !#[trigger] cs.admits(w, vals(private_input@), vals(public_input@)),
        match r {
            Ok(w) => {
                &&& all_wf(w.values@)
                &&& cs.admits(w.vals(), vals(private_input@), vals(public_input@))
                &&& forall|w2: Seq<int>| #[trigger]
                    cs.admits(w2, vals(private_input@), vals(public_input@)) ==> w2 == w.vals()
            },
            Err(e) => e == ZkError::InputLengthError || e == ZkError::MissingAssignmentError || e
                == ZkError::UnsatisfiableInputError,
        },
{
    let n = cs.roles.len();
    if private_input.len() != cs.count_of(Role::Private) || public_input.len() != cs.count_of(Role::Public) {
        return Err(ZkError::InputLengthError);
    }
    let ghost pv = vals(private_input@);
    let ghost qv = vals(public_input@);
    let mut a = assign_inputs(cs, private_input, public_input);
    proof {
        assert(known_of(a@) =~= known_iter(cs, 0)) by {
            assert forall|v: int| 0 <= v < n implies (a@[v] is Some) == known_iter(cs, 0)[v] by {
                assert(a@[v] == input_value(cs, private_input@, public_input@, v));
            }
        }
        assert forall|w2: Seq<int>| #[trigger] cs.admits(w2, pv, qv) implies consistent(a@, w2) by {
            assert forall|v: int| 0 <= v < a@.len() && #[trigger] a@[v] is Some implies w2[v]
                == a@[v]->Some_0.val() by {
                assert(a@[v] == input_value(cs, private_input@, public_input@, v));
                lemma_rank_bound(cs, v);
            }
        }
        assert forall|v: int| 0 <= v < n && a@[v] is Some implies (#[trigger] a@[v])->Some_0.wf() by {
            assert(a@[v] == input_value(cs, private_input@, public_input@, v));
            lemma_rank_bound(cs, v);
        }
    }
    let ghost mut rounds: nat = 0;
    let mut progress = true;
    while progress
        invariant
            cs.wf(),
            n == cs.num_vars(),
            pv == vals(private_input@),
            qv == vals(public_input@),
            a@.len() == n,
            forall|v: int| 0 <= v < n && a@[v] is Some ==> (#[trigger] a@[v])->Some_0.wf(),
            forall|v: int|
                0 <= v < n && cs.roles@[v] != Role::Internal ==> #[trigger] a@[v] == input_value(
                    cs,
                    private_input@,
                    public_input@,
                    v,
                ),
            forall|w2: Seq<int>| #[trigger] cs.admits(w2, pv, qv) ==> consistent(a@, w2),
            known_of(a@) == known_iter(cs, rounds),
            !progress ==> step(cs, known_of(a@)) == known_of(a@),
        decreases count_none(a@) + if progress { 1nat } else { 0nat },
    {
        let ghost before = a@;
        progress = evaluate_pass(cs, &mut a, Ghost(pv), Ghost(qv));
        proof {
            assert forall|v: int|
                0 <= v < n && cs.roles@[v] != Role::Internal implies #[trigger] a@[v] == input_value(
                cs,
                private_input@,
                public_input@,
                v,
            ) by {
                assert(before[v] == input_value(cs, private_input@, public_input@, v));
            }
            rounds = rounds + 1;
        }
    }
    let values = match unwrap_all(&a) {
        Some(values) => values,
        None => {
            proof {
                let k = known_of(a@);
                let u = choose|u: int| 0 <= u < a@.len() && #[trigger] a@[u] is None;
                assert(!k[u]);
                assert(below(initially_known(cs), k)) by {
                    assert forall|v: int| 0 <= v < n && #[trigger] initially_known(cs)[v] implies k[v] by {
                        assert(a@[v] == input_value(cs, private_input@, public_input@, v));
                    }
                }
                assert forall|r: nat| !#[trigger] all_known(known_iter(cs, r), cs.num_vars()) by {
                    lemma_iter_below_fix(cs, k, r);
                    assert(!known_iter(cs, r)[u]);
                }
            }
            return Err(ZkError::MissingAssignmentError);
        },
    };
    let w = Witness { values };
    proof {
        let wv = w.vals();
        assert forall|v: int| 0 <= v < n implies #[trigger] known_iter(cs, rounds)[v] by {
            assert(a@[v] == Some(values@[v]));
            assert(known_of(a@)[v]);
        }
        assert(all_known(known_iter(cs, rounds), cs.num_vars()));
        assert forall|u: int| 0 <= u < n implies (#[trigger] w.values@[u]).wf() by {
            assert(a@[u] == Some(values@[u]));
        }
        assert forall|w2: Seq<int>| #[trigger] cs.admits(w2, pv, qv) implies w2 == wv by {
            assert(consistent(a@, w2));
            assert forall|u: int| 0 <= u < n implies w2[u] == wv[u] by {
                assert(a@[u] == Some(values@[u]));
            }
            assert(w2 =~= wv);
        }
    }
    if !check_witness(cs, &w) {
        return Err(ZkError::UnsatisfiableInputError);
    }
    proof {
        let wv = w.vals();
        assert(cs.agrees(wv, pv, qv)) by {
            assert forall|u: int| 0 <= u < n implies {
                &&& cs.roles@[u] == Role::Private ==> #[trigger] wv[u] == pv[cs.rank(u)]
                &&& cs.roles@[u] == Role::Public ==> wv[u] == qv[cs.rank(u)]
            } by {
                assert(a@[u] == Some(values@[u]));
                lemma_rank_bound(cs, u);
                if cs.roles@[u] != Role::Internal {
                    assert(a@[u] == input_value(cs, private_input@, public_input@, u));
                }
            }
        }
    }
    Ok(w)
}

proof fn lemma_pass_agree(
    cs: &ConstraintSystem,
    k: Seq<bool>,
    w1: Seq<int>,
    w2: Seq<int>,
    pv: Seq<int>,
    qv: Seq<int>,
    i: int,
)
    requires
        cs.wf(),
        k.len() == cs.num_vars(),
        0 <= i <= cs.constraints@.len(),
        cs.admits(w1, pv, qv),
        cs.admits(w2, pv, qv),
        forall|v: int| 0 <= v < cs.num_vars() && #[trigger] k[v] ==> w1[v] == w2[v],
    ensures
        forall|v: int| 0 <= v < cs.num_vars() && #[trigger] pass_from(cs, k, i)[v] ==> w1[v] == w2[v],
    decreases i,
{
    if i > 0 {
        lemma_pass_agree(cs, k, w1, w2, pv, qv, i - 1);
        lemma_pass_len(cs, k, i - 1);
        let c = cs.constraints@[i - 1];
        assert(holds(c, w1));
        assert(holds(c, w2));
        assert(crate::circuit::refs_in(c, cs.num_vars()));
        let p = pass_from(cs, k, i - 1);
        assert forall|v: int| 0 <= v < cs.num_vars() && #[trigger] pass_from(cs, k, i)[v] implies w1[v] == w2[v] by {
            if v != c.c || p[v] {
                assert(p[v]);
            } else {
                assert(p[c.a as int] && p[c.b as int]);
            }
        }
    }
}

proof fn lemma_iter_agree(cs: &ConstraintSystem, w1: Seq<int>, w2: Seq<int>, pv: Seq<int>, qv: Seq<int>, r: nat)
    requires
        cs.wf(),
        cs.admits(w1, pv, qv),
        cs.admits(w2, pv, qv),
    ensures
        forall|v: int| 0 <= v < cs.num_vars() && #[trigger] known_iter(cs, r)[v] ==> w1[v] == w2[v],
    decreases r,
{
    if r > 0 {
        lemma_iter_agree(cs, w1, w2, pv, qv, (r - 1) as nat);
        lemma_iter_len(cs, (r - 1) as nat);
        lemma_pass_agree(cs, known_iter(cs, (r - 1) as nat), w1, w2, pv, qv, cs.constraints@.len() as int);
    } else {
        assert forall|v: int| 0 <= v < cs.num_vars() && #[trigger] known_iter(cs, r)[v] implies w1[v] == w2[v] by {
            lemma_rank_bound(cs, v);
        }
    }
}

/// Determinism: in a determined system, the inputs fix the whole witness, so
/// every witness that `compute` can return for them is the same.
pub proof fn lemma_witness_unique(
    cs: &ConstraintSystem,
    w1: Seq<int>,
    w2: Seq<int>,
    private_input: Seq<int>,
    public_input: Seq<int>,
)
    requires
        cs.wf(),
        determined(cs),
        cs.admits(w1, private_input, public_input),
        cs.admits(w2, private_input, public_input),
    ensures
        w1 == w2,
{
    let r = choose|r: nat| #[trigger] all_known(known_iter(cs, r), cs.num_vars());
    lemma_iter_agree(cs, w1, w2, private_input, public_input, r);
    assert forall|v: int| 0 <= v < cs.num_vars() implies w1[v] == w2[v] by {
        assert(known_iter(cs, r)[v]);
    }
    assert(w1 =~= w2);
}

} // verus!
