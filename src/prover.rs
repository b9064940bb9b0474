//! Proving and verification.

use vstd::prelude::*;
use crate::field::{FieldElement, MODULUS, vals, all_wf};
use crate::circuit::{Constraint, ConstraintKind, ConstraintSystem, Role, ZkError, holds, count_role, lemma_rank_bound};
use crate::witness::Witness;
use crate::scheme::{
    OpeningModel, GEN_G, GEN_H, ROUND, LIMB, com, mix, prf, fold_vals, fold_announcements, challenge, blind,
    commitments_of, opening_of, openings_of, proof_of, check_opening, accepts, canonical,
    opening_canonical,
};

verus! {

/// The opening values of one constraint.
#[derive(Clone, Copy, Debug, PartialEq, Eq, Structural)]
pub struct Opening {
    pub a1: FieldElement,
    pub a2: FieldElement,
    pub z1: FieldElement,
    pub z2: FieldElement,
    pub z3: FieldElement,
}

impl Opening {
    pub open spec fn model(self) -> OpeningModel {
        (self.a1.val(), self.a2.val(), self.z1.val(), self.z2.val(), self.z3.val())
    }

    pub open spec fn wf(self) -> bool {
        self.a1.wf() && self.a2.wf() && self.z1.wf() && self.z2.wf() && self.z3.wf()
    }
}

/// The models of a sequence of openings.
pub open spec fn models(s: Seq<Opening>) -> Seq<OpeningModel> {
    s.map_values(|o: Opening| o.model())
}

/// A proof: one commitment per variable and one opening per constraint.
pub struct Proof {
    pub commitments: Vec<FieldElement>,
    pub openings: Vec<Opening>,
}

impl View for Proof {
    type V = (Seq<int>, Seq<OpeningModel>);

    open spec fn view(&self) -> (Seq<int>, Seq<OpeningModel>) {
        (vals(self.commitments@), models(self.openings@))
    }
}

impl Proof {
    /// Every value of the proof is canonical.
    pub open spec fn wf(&self) -> bool {
        all_wf(self.commitments@) && forall|j: int| 0 <= j < self.openings@.len() ==> (#[trigger] self.openings@[j]).wf()
    }
}

fn constant(x: u64) -> (r: FieldElement)
    requires
        x < MODULUS,
    ensures
        r.wf(),
        r.val() == x,
{
    FieldElement { v: x }
}

fn mix_fe(h: FieldElement, x: FieldElement) -> (r: FieldElement)
    requires
        h.wf(),
        x.wf(),
    ensures
        r.wf(),
        r.val() == mix(h.val(), x.val()),
{
    let t = h.add(&x).add(&constant(ROUND));
    let t2 = t.mul(&t);
    t2.mul(&t2).mul(&t)
}

fn prf_fe(seed: u64, tag: u64, i: usize) -> (r: FieldElement)
    requires
        tag < MODULUS,
    ensures
        r.wf(),
        r.val() == prf(seed as int, tag as int, i as int),
{
    let l0 = constant(seed % LIMB);
    let l1 = constant((seed / LIMB) % LIMB);
    let l2 = constant(seed / LIMB / LIMB);
    let t = constant(tag);
    let k = FieldElement::new(i as u64);
    let r = mix_fe(mix_fe(mix_fe(mix_fe(mix_fe(FieldElement::zero(), l0), l1), l2), t), k);
    proof {
        reveal(prf);
        assert(r.val() == prf(seed as int, tag as int, i as int));
    }
    r
}

fn absorb_vals(h: FieldElement, s: &Vec<FieldElement>) -> (r: FieldElement)
    requires
        h.wf(),
        all_wf(s@),
    ensures
        r.wf(),
        r.val() == fold_vals(h.val(), vals(s@)),
{
    let mut acc = h;
    let mut i: usize = 0;
    while i < s.len()
        invariant
            i <= s@.len(),
            all_wf(s@),
            acc.wf(),
            acc.val() == fold_vals(h.val(), vals(s@.subrange(0, i as int))),
        decreases s@.len() - i,
    {
        proof {
            assert(vals(s@.subrange(0, i + 1)).drop_last() =~= vals(s@.subrange(0, i as int)));
        }
        acc = mix_fe(acc, s[i]);
        i = i + 1;
    }
    proof {
        assert(s@.subrange(0, s@.len() as int) =~= s@);
    }
    acc
}

fn absorb_announcements(h: FieldElement, s: &Vec<Opening>) -> (r: FieldElement)
    requires
        h.wf(),
        forall|j: int| 0 <= j < s@.len() ==> (#[trigger] s@[j]).wf(),
    ensures
        r.wf(),
        r.val() == fold_announcements(h.val(), models(s@)),
{
    let mut acc = h;
    let mut i: usize = 0;
    while i < s.len()
        invariant
            i <= s@.len(),
            forall|j: int| 0 <= j < s@.len() ==> (#[trigger] s@[j]).wf(),
            acc.wf(),
            acc.val() == fold_announcements(h.val(), models(s@.subrange(0, i as int))),
        decreases s@.len() - i,
    {
        proof {
            assert(models(s@.subrange(0, i + 1)).drop_last() =~= models(s@.subrange(0, i as int)));
        }
        let o = s[i];
        acc = mix_fe(mix_fe(acc, o.a1), o.a2);
        i = i + 1;
    }
    proof {
        assert(s@.subrange(0, s@.len() as int) =~= s@);
    }
    acc
}

fn challenge_fe(comms: &Vec<FieldElement>, ops: &Vec<Opening>) -> (r: FieldElement)
    requires
        all_wf(comms@),
        forall|j: int| 0 <= j < ops@.len() ==> (#[trigger] ops@[j]).wf(),
    ensures
        r.wf(),
        r.val() == challenge(vals(comms@), models(ops@)),
{
    absorb_announcements(absorb_vals(FieldElement::zero(), comms), ops)
}

fn commit(x: FieldElement, s: FieldElement) -> (r: FieldElement)
    requires
        x.wf(),
        s.wf(),
    ensures
        r.wf(),
        r.val() == com(x.val(), s.val()),
{
    constant(GEN_G).mul(&x).add(&constant(GEN_H).mul(&s))
}

/// Tells whether `w` satisfies every constraint of `cs`.
pub fn check_witness(cs: &ConstraintSystem, w: &Witness) -> (r: bool)
    requires
        cs.wf(),
    ensures
        r == cs.satisfied_by(w.vals()),
{
    let n = cs.roles.len();
    if w.values.len() != n {
        return false;
    }
    let mut v: usize = 0;
    while v < n
        invariant
            n == cs.roles@.len(),
            w.values@.len() == n,
            v <= n,
            forall|u: int| 0 <= u < v ==> (#[trigger] w.values@[u]).wf(),
        decreases n - v,
    {
        if w.values[v].v >= MODULUS {
            assert(!(0 <= w.vals()[v as int] < MODULUS));
            return false;
        }
        v = v + 1;
    }
    assert forall|u: int| 0 <= u < n implies 0 <= #[trigger] w.vals()[u] < MODULUS by {
        assert(w.values@[u].wf());
    }
    let mut j: usize = 0;
    while j < cs.constraints.len()
        invariant
            n == cs.roles@.len(),
            w.values@.len() == n,
            cs.wf(),
            j <= cs.constraints@.len(),
            all_wf(w.values@),
            forall|k: int| 0 <= k < j ==> holds(#[trigger] cs.constraints@[k], w.vals()),
        decreases cs.constraints@.len() - j,
    {
        let c = cs.constraints[j];
        assert(crate::circuit::refs_in(cs.constraints@[j as int], n as int));
        let x = w.values[c.a];
        let y = w.values[c.b];
        let z = match c.kind {
            ConstraintKind::Add => x.add(&y),
            ConstraintKind::Mul => x.mul(&y),
        };
        if w.values[c.c] != z {
            assert(!holds(cs.constraints@[j as int], w.vals()));
            return false;
        }
        j = j + 1;
    }
    true
}

/// The opening of constraint `j`, given the witness, blindings and commitments.
fn opening_at(
    cs: &ConstraintSystem,
    w: &Witness,
    blinds: &Vec<FieldElement>,
    comms: &Vec<FieldElement>,
    seed: u64,
    j: usize,
    e: FieldElement,
) -> (o: Opening)
    requires
        cs.wf(),
        cs.satisfied_by(w.vals()),
        all_wf(w.values@),
        j < cs.constraints@.len(),
        e.wf(),
        blinds@.len() == cs.num_vars(),
        comms@.len() == cs.num_vars(),
        forall|v: int| 0 <= v < cs.num_vars() ==> (#[trigger] blinds@[v]).wf() && blinds@[v].val() == blind(cs, seed as int, v),
        all_wf(comms@),
        vals(comms@) == commitments_of(cs, w.vals(), seed as int),
    ensures
        o.wf(),
        o.model() == opening_of(cs, w.vals(), seed as int, j as int, e.val()),
{
    let c = cs.constraints[j];
    assert(crate::circuit::refs_in(cs.constraints@[j as int], cs.num_vars()));
    let k1 = prf_fe(seed, 2, j);
    let k2 = prf_fe(seed, 3, j);
    let k3 = prf_fe(seed, 4, j);
    let sa = blinds[c.a];
    let sb = blinds[c.b];
    let sc = blinds[c.c];
    let h = constant(GEN_H);
    let zero = FieldElement::zero();
    match c.kind {
        ConstraintKind::Add => {
            Opening {
                a1: h.mul(&k1),
                a2: zero,
                z1: k1.add(&e.mul(&sa.add(&sb).sub(&sc))),
                z2: zero,
                z3: zero,
            }
        },
        ConstraintKind::Mul => {
            let wb = w.values[c.b];
            let ca = comms[c.a];
            assert(ca.val() == vals(comms@)[c.a as int]);
            Opening {
                a1: commit(k1, k2),
                a2: k1.mul(&ca).add(&h.mul(&k3)),
                z1: k1.add(&e.mul(&wb)),
                z2: k2.add(&e.mul(&sb)),
                z3: k3.add(&e.mul(&sc.sub(&wb.mul(&sa)))),
            }
        },
    }
}

/// All openings under challenge `e`.
fn openings_at(
    cs: &ConstraintSystem,
    w: &Witness,
    blinds: &Vec<FieldElement>,
    comms: &Vec<FieldElement>,
    seed: u64,
    e: FieldElement,
) -> (ops: Vec<Opening>)
    requires
        cs.wf(),
        cs.satisfied_by(w.vals()),
        all_wf(w.values@),
        e.wf(),
        blinds@.len() == cs.num_vars(),
        comms@.len() == cs.num_vars(),
        forall|v: int| 0 <= v < cs.num_vars() ==> (#[trigger] blinds@[v]).wf() && blinds@[v].val() == blind(cs, seed as int, v),
        all_wf(comms@),
        vals(comms@) == commitments_of(cs, w.vals(), seed as int),
    ensures
        forall|j: int| 0 <= j < ops@.len() ==> (#[trigger] ops@[j]).wf(),
        models(ops@) == openings_of(cs, w.vals(), seed as int, e.val()),
{
    let mut ops: Vec<Opening> = Vec::new();
    let mut j: usize = 0;
    while j < cs.constraints.len()
        invariant
            cs.wf(),
            cs.satisfied_by(w.vals()),
            all_wf(w.values@),
            e.wf(),
            blinds@.len() == cs.num_vars(),
            comms@.len() == cs.num_vars(),
            forall|v: int| 0 <= v < cs.num_vars() ==> (#[trigger] blinds@[v]).wf() && blinds@[v].val() == blind(cs, seed as int, v),
            all_wf(comms@),
            vals(comms@) == commitments_of(cs, w.vals(), seed as int),
            j <= cs.constraints@.len(),
            ops@.len() == j,
            forall|k: int| 0 <= k < j ==> (#[trigger] ops@[k]).wf(),
            forall|k: int| 0 <= k < j ==> (#[trigger] ops@[k]).model() == opening_of(cs, w.vals(), seed as int, k, e.val()),
        decreases cs.constraints@.len() - j,
    {
        let o = opening_at(cs, w, blinds, comms, seed, j, e);
        ops.push(o);
        j = j + 1;
    }
    assert(models(ops@) =~= openings_of(cs, w.vals(), seed as int, e.val()));
    ops
}

/// Proves that `w` satisfies `cs`; `seed` is the prover's private randomness.
pub fn prove(cs: &ConstraintSystem, w: &Witness, seed: u64) -> (r: Result<Proof, ZkError>)
    requires
        cs.wf(),
    ensures
        match r {
            Ok(p) => cs.satisfied_by(w.vals()) && p.wf() && p@ == proof_of(cs, w.vals(), seed as int),
            Err(e) => e == ZkError::WitnessMismatchError && !cs.satisfied_by(w.vals()),
        },
{
    if !check_witness(cs, w) {
        return Err(ZkError::WitnessMismatchError);
    }
    let n = cs.roles.len();
    proof {
        assert forall|u: int| 0 <= u < n implies (#[trigger] w.values@[u]).wf() by {
            assert(0 <= w.vals()[u] < MODULUS);
        }
    }
    let mut blinds: Vec<FieldElement> = Vec::new();
    let mut comms: Vec<FieldElement> = Vec::new();
    let mut v: usize = 0;
    while v < n
        invariant
            n == cs.roles@.len(),
            w.values@.len() == n,
            all_wf(w.values@),
            v <= n,
            blinds@.len() == v,
            comms@.len() == v,
            forall|u: int| 0 <= u < v ==> (#[trigger] blinds@[u]).wf() && blinds@[u].val() == blind(cs, seed as int, u),
            forall|u: int| 0 <= u < v ==> (#[trigger] comms@[u]).wf() && comms@[u].val() == commitments_of(cs, w.vals(), seed as int)[u],
        decreases n - v,
    {
        let s = if cs.roles[v] == Role::Public {
            FieldElement::zero()
        } else {
            prf_fe(seed, 1, v)
        };
        blinds.push(s);
        comms.push(commit(w.values[v], s));
        v = v + 1;
    }
    assert(vals(comms@) =~= commitments_of(cs, w.vals(), seed as int));
    let ann = openings_at(cs, w, &blinds, &comms, seed, FieldElement::zero());
    let e = challenge_fe(&comms, &ann);
    let ops = openings_at(cs, w, &blinds, &comms, seed, e);
    let p = Proof { commitments: comms, openings: ops };
    assert(p@ == proof_of(cs, w.vals(), seed as int));
    Ok(p)
}

fn opening_wf(o: &Opening) -> (r: bool)
    ensures
        r == o.wf(),
        r == opening_canonical(o.model()),
{
    o.a1.v < MODULUS && o.a2.v < MODULUS && o.z1.v < MODULUS && o.z2.v < MODULUS && o.z3.v < MODULUS
}

fn check_opening_fe(c: Constraint, comms: &Vec<FieldElement>, o: &Opening, e: FieldElement) -> (r: bool)
    requires
        c.a < comms@.len(),
        c.b < comms@.len(),
        c.c < comms@.len(),
        all_wf(comms@),
        o.wf(),
        e.wf(),
    ensures
        r == check_opening(c, vals(comms@), o.model(), e.val()),
{
    let ca = comms[c.a];
    let cb = comms[c.b];
    let cc = comms[c.c];
    let g = constant(GEN_G);
    let h = constant(GEN_H);
    match c.kind {
        ConstraintKind::Add => {
            h.mul(&o.z1) == o.a1.add(&e.mul(&ca.add(&cb).sub(&cc))) && o.a2.v == 0 && o.z2.v == 0 && o.z3.v == 0
        },
        ConstraintKind::Mul => {
            g.mul(&o.z1).add(&h.mul(&o.z2)) == o.a1.add(&e.mul(&cb)) && o.z1.mul(&ca).add(&h.mul(&o.z3))
                == o.a2.add(&e.mul(&cc))
        },
    }
}

/// Checks `pf` against `cs` and the public input vector.
pub fn verify(cs: &ConstraintSystem, public_input: &Vec<FieldElement>, pf: &Proof) -> (r: bool)
    requires
        cs.wf(),
        all_wf(public_input@),
    ensures
        r == accepts(cs, vals(public_input@), pf@.0, pf@.1),
{
    let r = verify_all(cs, public_input, pf);
    proof {
        reveal(accepts);
    }
    r
}

fn verify_all(cs: &ConstraintSystem, public_input: &Vec<FieldElement>, pf: &Proof) -> (r: bool)
    requires
        cs.wf(),
        all_wf(public_input@),
    ensures
        r == crate::scheme::accepts_all(cs, vals(public_input@), pf@.0, pf@.1),
{
    let n = cs.roles.len();
    let m = cs.constraints.len();
    let ghost comms = pf@.0;
    let ghost ops = pf@.1;
    if pf.commitments.len() != n || pf.openings.len() != m {
        return false;
    }
    let mut v: usize = 0;
    while v < n
        invariant
            n == cs.roles@.len(),
            pf.commitments@.len() == n,
            comms == pf@.0,
            v <= n,
            forall|u: int| 0 <= u < v ==> (#[trigger] pf.commitments@[u]).wf(),
        decreases n - v,
    {
        if pf.commitments[v].v >= MODULUS {
            assert(!canonical(comms[v as int]));
            return false;
        }
        v = v + 1;
    }
    let mut j: usize = 0;
    while j < m
        invariant
            m == cs.constraints@.len(),
            pf.openings@.len() == m,
            ops == pf@.1,
            j <= m,
            forall|k: int| 0 <= k < j ==> (#[trigger] pf.openings@[k]).wf(),
        decreases m - j,
    {
        if !opening_wf(&pf.openings[j]) {
            assert(!opening_canonical(ops[j as int]));
            return false;
        }
        j = j + 1;
    }
    assert forall|u: int| 0 <= u < comms.len() implies canonical(#[trigger] comms[u]) by {
        assert(pf.commitments@[u].wf());
    }
    assert forall|k: int| 0 <= k < ops.len() implies opening_canonical(#[trigger] ops[k]) by {
        assert(pf.openings@[k].wf());
    }
    if public_input.len() != cs.count_of(Role::Public) {
        return false;
    }
    let g = constant(GEN_G);
    let mut cu: usize = 0;
    let mut v: usize = 0;
    let np = public_input.len();
    while v < n
        invariant
            n == cs.roles@.len(),
            np == public_input@.len(),
            np == cs.count(Role::Public),
            all_wf(public_input@),
            pf.commitments@.len() == n,
            comms == pf@.0,
            g.val() == GEN_G,
            g.wf(),
            v <= n,
            cu as int == count_role(cs.roles@, v as int, Role::Public),
            forall|u: int|
                0 <= u < v && cs.roles@[u] == Role::Public ==> #[trigger] comms[u] == crate::field::fmul(
                    GEN_G as int,
                    vals(public_input@)[cs.rank(u)],
                ),
        decreases n - v,
    {
        proof {
            lemma_rank_bound(cs, v as int);
            assert(count_role(cs.roles@, v + 1, Role::Public) == cu + if cs.roles@[v as int] == Role::Public { 1int } else { 0int });
        }
        if cs.roles[v] == Role::Public {
            let x = g.mul(&public_input[cu]);
            if pf.commitments[v] != x {
                assert(comms[v as int] != crate::field::fmul(GEN_G as int, vals(public_input@)[cs.rank(v as int)]));
                return false;
            }
            cu = cu + 1;
        }
        v = v + 1;
    }
    let e = challenge_fe(&pf.commitments, &pf.openings);
    let mut j: usize = 0;
    while j < m
        invariant
            m == cs.constraints@.len(),
            n == cs.roles@.len(),
            cs.wf(),
            pf.openings@.len() == m,
            pf.commitments@.len() == n,
            all_wf(pf.commitments@),
            forall|k: int| 0 <= k < m ==> (#[trigger] pf.openings@[k]).wf(),
            comms == pf@.0,
            ops == pf@.1,
            e.val() == challenge(comms, ops),
            e.wf(),
            j <= m,
            forall|k: int| 0 <= k < j ==> check_opening(#[trigger] cs.constraints@[k], comms, ops[k], challenge(comms, ops)),
        decreases m - j,
    {
        let c = cs.constraints[j];
        assert(crate::circuit::refs_in(cs.constraints@[j as int], n as int));
        if !check_opening_fe(c, &pf.commitments, &pf.openings[j], e) {
            return false;
        }
        j = j + 1;
    }
    true
}

} // verus!
