//! The proof scheme, stated over integers.
//!
//! A variable `v` with value `x` is committed as `G*x + H*s`, where the blinding
//! `s` is zero for public variables and drawn from the prover's seed otherwise.
//! Each constraint gets a Sigma-protocol opening: for `c == a + b`, a proof that
//! `C_a + C_b - C_c` is a multiple of `H`; for `c == a * b`, a proof of knowledge
//! of `b` and of blindings with `C_b == G*b + H*s_b` and `C_c == b*C_a + H*t`.
//! The challenge is derived from the commitments and announcements by a sponge
//! over the field with the permutation `x^5`. The commitments are linear over a
//! single prime field, so this is a structurally complete toy: it carries no
//! cryptographic hiding or binding guarantee.

use vstd::prelude::*;
use crate::field::{MODULUS, cong, fadd, fsub, fmul, lemma_fadd, lemma_fsub, lemma_fmul, lemma_cong_canonical};
use crate::circuit::{Constraint, ConstraintKind, ConstraintSystem, Role, holds};

verus! {

/// First commitment base.
pub const GEN_G: u64 = 5;

/// Second commitment base, used for blindings.
pub const GEN_H: u64 = 3;

/// Round constant of the sponge.
pub const ROUND: u64 = 1234567;

/// The opening values of one constraint: two announcements and three responses.
pub type OpeningModel = (int, int, int, int, int);

/// The commitment `G*x + H*s`.
pub open spec fn com(x: int, s: int) -> int {
    fadd(fmul(GEN_G as int, x), fmul(GEN_H as int, s))
}

/// One sponge step: absorbs `x` into the state `h`.
pub open spec fn mix(h: int, x: int) -> int {
    let t = fadd(fadd(h, x), ROUND as int);
    let t2 = fmul(t, t);
    fmul(fmul(t2, t2), t)
}

/// Size of a seed limb: the seed is absorbed as three limbs of 30 bits, so that
/// all 64 of its bits reach the sponge.
pub const LIMB: u64 = 1073741824;

/// The limbs of a seed, least significant first.
pub open spec fn seed_limbs(seed: int) -> (int, int, int) {
    (seed % (LIMB as int), (seed / (LIMB as int)) % (LIMB as int), seed / (LIMB as int) / (LIMB as int))
}

/// The pseudo-random field element for stream `tag`, index `i`, under `seed`.
#[verifier::opaque]
pub open spec fn prf(seed: int, tag: int, i: int) -> int {
    let l = seed_limbs(seed);
    mix(mix(mix(mix(mix(0, l.0), l.1), l.2), tag), i % (MODULUS as int))
}

/// Absorbs every value of `s` into `h`, in order.
pub open spec fn fold_vals(h: int, s: Seq<int>) -> int
    decreases s.len(),
{
    if s.len() == 0 {
        h
    } else {
        mix(fold_vals(h, s.drop_last()), s.last())
    }
}

/// Absorbs the two announcements of every opening into `h`, in order.
pub open spec fn fold_announcements(h: int, s: Seq<OpeningModel>) -> int
    decreases s.len(),
{
    if s.len() == 0 {
        h
    } else {
        mix(mix(fold_announcements(h, s.drop_last()), s.last().0), s.last().1)
    }
}

/// The challenge of a proof: the sponge over its commitments, then its announcements.
pub open spec fn challenge(comms: Seq<int>, ops: Seq<OpeningModel>) -> int {
    fold_announcements(fold_vals(0, comms), ops)
}

/// The blinding of variable `v`.
pub open spec fn blind(cs: &ConstraintSystem, seed: int, v: int) -> int {
    if cs.roles@[v] == Role::Public {
        0
    } else {
        prf(seed, 1, v)
    }
}

/// The commitments of a witness.
pub open spec fn commitments_of(cs: &ConstraintSystem, w: Seq<int>, seed: int) -> Seq<int> {
    Seq::new(cs.num_vars() as nat, |v: int| com(w[v], blind(cs, seed, v)))
}

/// The nonce `k` (0, 1 or 2) of constraint `j`.
pub open spec fn nonce(seed: int, k: int, j: int) -> int {
    prf(seed, 2 + k, j)
}

/// The opening of constraint `j` under challenge `e`.
pub open spec fn opening_of(cs: &ConstraintSystem, w: Seq<int>, seed: int, j: int, e: int) -> OpeningModel {
    let c = cs.constraints@[j];
    let k1 = nonce(seed, 0, j);
    let k2 = nonce(seed, 1, j);
    let k3 = nonce(seed, 2, j);
    let sa = blind(cs, seed, c.a as int);
    let sb = blind(cs, seed, c.b as int);
    let sc = blind(cs, seed, c.c as int);
    let wb = w[c.b as int];
    match c.kind {
        ConstraintKind::Add => (
            fmul(GEN_H as int, k1),
            0,
            fadd(k1, fmul(e, fsub(fadd(sa, sb), sc))),
            0,
            0,
        ),
        ConstraintKind::Mul => (
            com(k1, k2),
            fadd(fmul(k1, com(w[c.a as int], sa)), fmul(GEN_H as int, k3)),
            fadd(k1, fmul(e, wb)),
            fadd(k2, fmul(e, sb)),
            fadd(k3, fmul(e, fsub(sc, fmul(wb, sa)))),
        ),
    }
}

/// The openings of all constraints under challenge `e`.
pub open spec fn openings_of(cs: &ConstraintSystem, w: Seq<int>, seed: int, e: int) -> Seq<OpeningModel> {
    Seq::new(cs.constraints@.len(), |j: int| opening_of(cs, w, seed, j, e))
}

/// The challenge of the proof of `w`: the announcements do not depend on `e`.
pub open spec fn challenge_of(cs: &ConstraintSystem, w: Seq<int>, seed: int) -> int {
    challenge(commitments_of(cs, w, seed), openings_of(cs, w, seed, 0))
}

/// The proof of witness `w` under `seed`.
pub open spec fn proof_of(cs: &ConstraintSystem, w: Seq<int>, seed: int) -> (Seq<int>, Seq<OpeningModel>) {
    (commitments_of(cs, w, seed), openings_of(cs, w, seed, challenge_of(cs, w, seed)))
}

/// The public values of a witness, in declaration order, are `public_input`.
pub open spec fn publics_match(cs: &ConstraintSystem, w: Seq<int>, public_input: Seq<int>) -> bool {
    &&& public_input.len() == cs.count(Role::Public)
    &&& forall|v: int|
        0 <= v < cs.num_vars() && cs.roles@[v] == Role::Public ==> #[trigger] w[v] == public_input[cs.rank(v)]
}

pub open spec fn canonical(x: int) -> bool {
    0 <= x < MODULUS
}

pub open spec fn opening_canonical(o: OpeningModel) -> bool {
    canonical(o.0) && canonical(o.1) && canonical(o.2) && canonical(o.3) && canonical(o.4)
}

/// The verification equations of constraint `c` on opening `o` under challenge `e`.
pub open spec fn check_opening(c: Constraint, comms: Seq<int>, o: OpeningModel, e: int) -> bool {
    let ca = comms[c.a as int];
    let cb = comms[c.b as int];
    let cc = comms[c.c as int];
    match c.kind {
        ConstraintKind::Add => {
            &&& fmul(GEN_H as int, o.2) == fadd(o.0, fmul(e, fsub(fadd(ca, cb), cc)))
            &&& o.1 == 0
            &&& o.3 == 0
            &&& o.4 == 0
        },
        ConstraintKind::Mul => {
            &&& fadd(fmul(GEN_G as int, o.2), fmul(GEN_H as int, o.3)) == fadd(o.0, fmul(e, cb))
            &&& fadd(fmul(o.2, ca), fmul(GEN_H as int, o.4)) == fadd(o.1, fmul(e, cc))
        },
    }
}

/// The verifier accepts proof `(comms, ops)` for `public_input`; its
/// conditions are those of `accepts_all`.
#[verifier::opaque]
pub open spec fn accepts(cs: &ConstraintSystem, public_input: Seq<int>, comms: Seq<int>, ops: Seq<OpeningModel>) -> bool {
    accepts_all(cs, public_input, comms, ops)
}

/// The checks of the verifier: shapes, canonical values, public commitments
/// and the equations of every opening under the challenge.
pub open spec fn accepts_all(cs: &ConstraintSystem, public_input: Seq<int>, comms: Seq<int>, ops: Seq<OpeningModel>) -> bool {
    &&& comms.len() == cs.num_vars()
    &&& ops.len() == cs.constraints@.len()
    &&& forall|v: int| 0 <= v < comms.len() ==> canonical(#[trigger] comms[v])
    &&& forall|j: int| 0 <= j < ops.len() ==> opening_canonical(#[trigger] ops[j])
    &&& public_input.len() == cs.count(Role::Public)
    &&& forall|v: int|
        0 <= v < cs.num_vars() && cs.roles@[v] == Role::Public ==> #[trigger] comms[v] == fmul(
            GEN_G as int,
            public_input[cs.rank(v)],
        )
    &&& forall|j: int|
        0 <= j < ops.len() ==> check_opening(#[trigger] cs.constraints@[j], comms, ops[j], challenge(comms, ops))
}

proof fn lemma_com(x: int, s: int, xx: int, ss: int)
    requires
        cong(x, xx),
        cong(s, ss),
    ensures
        cong(com(x, s), GEN_G * xx + GEN_H * ss),
        canonical(com(x, s)),
{
    lemma_fmul(GEN_G as int, x, GEN_G as int, xx);
    lemma_fmul(GEN_H as int, s, GEN_H as int, ss);
    lemma_fadd(fmul(GEN_G as int, x), fmul(GEN_H as int, s), GEN_G * xx, GEN_H * ss);
}

/// The equations of an addition opening hold for an honest prover.
proof fn lemma_add_opening(a: int, b: int, c: int, sa: int, sb: int, sc: int, k1: int, e: int)
    requires
        c == fadd(a, b),
    ensures
        fmul(GEN_H as int, fadd(k1, fmul(e, fsub(fadd(sa, sb), sc)))) == fadd(
            fmul(GEN_H as int, k1),
            fmul(e, fsub(fadd(com(a, sa), com(b, sb)), com(c, sc))),
        ),
{
    let g = GEN_G as int;
    let h = GEN_H as int;
    let t = fsub(fadd(sa, sb), sc);
    lemma_fadd(sa, sb, sa, sb);
    lemma_fsub(fadd(sa, sb), sc, sa + sb, sc);
    lemma_fmul(e, t, e, sa + sb - sc);
    lemma_fadd(k1, fmul(e, t), k1, e * (sa + sb - sc));
    let lhs = fmul(h, fadd(k1, fmul(e, t)));
    lemma_fmul(h, fadd(k1, fmul(e, t)), h, k1 + e * (sa + sb - sc));
    lemma_fadd(a, b, a, b);
    lemma_com(a, sa, a, sa);
    lemma_com(b, sb, b, sb);
    lemma_com(c, sc, a + b, sc);
    lemma_fadd(com(a, sa), com(b, sb), g * a + h * sa, g * b + h * sb);
    lemma_fsub(
        fadd(com(a, sa), com(b, sb)),
        com(c, sc),
        (g * a + h * sa) + (g * b + h * sb),
        g * (a + b) + h * sc,
    );
    let d = fsub(fadd(com(a, sa), com(b, sb)), com(c, sc));
    let dd = (g * a + h * sa) + (g * b + h * sb) - (g * (a + b) + h * sc);
    lemma_fmul(e, d, e, dd);
    lemma_fmul(h, k1, h, k1);
    lemma_fadd(fmul(h, k1), fmul(e, d), h * k1, e * dd);
    assert(h * (k1 + e * (sa + sb - sc)) == h * k1 + e * dd) by (nonlinear_arith)
        requires
            dd == (g * a + h * sa) + (g * b + h * sb) - (g * (a + b) + h * sc),
    ;
    lemma_cong_canonical(lhs, fadd(fmul(h, k1), fmul(e, d)));
}

/// The equations of a multiplication opening hold for an honest prover.
proof fn lemma_mul_opening(a: int, b: int, c: int, sa: int, sb: int, sc: int, k1: int, k2: int, k3: int, e: int)
    requires
        c == fmul(a, b),
        canonical(b),
    ensures
        ({
            let ca = com(a, sa);
            let z1 = fadd(k1, fmul(e, b));
            let z2 = fadd(k2, fmul(e, sb));
            let z3 = fadd(k3, fmul(e, fsub(sc, fmul(b, sa))));
            &&& fadd(fmul(GEN_G as int, z1), fmul(GEN_H as int, z2)) == fadd(com(k1, k2), fmul(e, com(b, sb)))
            &&& fadd(fmul(z1, ca), fmul(GEN_H as int, z3)) == fadd(
                fadd(fmul(k1, ca), fmul(GEN_H as int, k3)),
                fmul(e, com(c, sc)),
            )
        }),
{
    let g = GEN_G as int;
    let h = GEN_H as int;
    let ca = com(a, sa);
    let z1 = fadd(k1, fmul(e, b));
    let z2 = fadd(k2, fmul(e, sb));
    let t = fsub(sc, fmul(b, sa));
    let z3 = fadd(k3, fmul(e, t));
    lemma_fmul(e, b, e, b);
    lemma_fadd(k1, fmul(e, b), k1, e * b);
    lemma_fmul(e, sb, e, sb);
    lemma_fadd(k2, fmul(e, sb), k2, e * sb);
    lemma_fmul(b, sa, b, sa);
    lemma_fsub(sc, fmul(b, sa), sc, b * sa);
    lemma_fmul(e, t, e, sc - b * sa);
    lemma_fadd(k3, fmul(e, t), k3, e * (sc - b * sa));
    // first equation
    lemma_fmul(g, z1, g, k1 + e * b);
    lemma_fmul(h, z2, h, k2 + e * sb);
    lemma_fadd(fmul(g, z1), fmul(h, z2), g * (k1 + e * b), h * (k2 + e * sb));
    lemma_com(k1, k2, k1, k2);
    lemma_com(b, sb, b, sb);
    lemma_fmul(e, com(b, sb), e, g * b + h * sb);
    lemma_fadd(com(k1, k2), fmul(e, com(b, sb)), g * k1 + h * k2, e * (g * b + h * sb));
    vstd::arithmetic::mul::lemma_mul_is_distributive_add(g, k1, e * b);
    vstd::arithmetic::mul::lemma_mul_is_distributive_add(h, k2, e * sb);
    vstd::arithmetic::mul::lemma_mul_is_distributive_add(e, g * b, h * sb);
    assert(g * (e * b) == e * (g * b)) by (nonlinear_arith);
    assert(h * (e * sb) == e * (h * sb)) by (nonlinear_arith);
    lemma_cong_canonical(
        fadd(fmul(g, z1), fmul(h, z2)),
        fadd(com(k1, k2), fmul(e, com(b, sb))),
    );
    // second equation
    let cca = g * a + h * sa;
    lemma_com(a, sa, a, sa);
    lemma_fmul(z1, ca, k1 + e * b, cca);
    lemma_fmul(h, z3, h, k3 + e * (sc - b * sa));
    lemma_fadd(fmul(z1, ca), fmul(h, z3), (k1 + e * b) * cca, h * (k3 + e * (sc - b * sa)));
    lemma_fmul(k1, ca, k1, cca);
    lemma_fmul(h, k3, h, k3);
    lemma_fadd(fmul(k1, ca), fmul(h, k3), k1 * cca, h * k3);
    lemma_fmul(a, b, a, b);
    lemma_com(c, sc, a * b, sc);
    lemma_fmul(e, com(c, sc), e, g * (a * b) + h * sc);
    lemma_fadd(
        fadd(fmul(k1, ca), fmul(h, k3)),
        fmul(e, com(c, sc)),
        k1 * cca + h * k3,
        e * (g * (a * b) + h * sc),
    );
    assert((k1 + e * b) * cca == k1 * cca + (e * b) * cca) by (nonlinear_arith);
    vstd::arithmetic::mul::lemma_mul_is_distributive_add(e * b, g * a, h * sa);
    assert((e * b) * (g * a) == e * (g * (a * b))) by (nonlinear_arith);
    assert((e * b) * (h * sa) == e * (h * (b * sa))) by (nonlinear_arith);
    assert(h * (k3 + e * (sc - b * sa)) == h * k3 + e * (h * sc) - e * (h * (b * sa))) by (nonlinear_arith);
    assert(e * (g * (a * b) + h * sc) == e * (g * (a * b)) + e * (h * sc)) by (nonlinear_arith);
    lemma_cong_canonical(
        fadd(fmul(z1, ca), fmul(h, z3)),
        fadd(fadd(fmul(k1, ca), fmul(h, k3)), fmul(e, com(c, sc))),
    );
}

/// The challenge reads only the announcements of the openings.
pub proof fn lemma_challenge_announcements(h: int, s1: Seq<OpeningModel>, s2: Seq<OpeningModel>)
    requires
        s1.len() == s2.len(),
        forall|j: int| 0 <= j < s1.len() ==> (#[trigger] s1[j]).0 == s2[j].0 && s1[j].1 == s2[j].1,
    ensures
        fold_announcements(h, s1) == fold_announcements(h, s2),
    decreases s1.len(),
{
    if s1.len() > 0 {
        let n = s1.len() - 1;
        assert(s1[n as int].0 == s2[n as int].0);
        lemma_challenge_announcements(h, s1.drop_last(), s2.drop_last());
    }
}

/// Completeness: the proof of a witness that satisfies the system is accepted
/// for the witness's own public values, whatever the seed.
pub proof fn lemma_completeness(cs: &ConstraintSystem, w: Seq<int>, seed: int, public_input: Seq<int>)
    requires
        cs.wf(),
        cs.satisfied_by(w),
        publics_match(cs, w, public_input),
    ensures
        accepts(cs, public_input, proof_of(cs, w, seed).0, proof_of(cs, w, seed).1),
{
    reveal(accepts);
    let comms = proof_of(cs, w, seed).0;
    let ops = proof_of(cs, w, seed).1;
    let e = challenge_of(cs, w, seed);
    lemma_challenge_announcements(fold_vals(0, comms), ops, openings_of(cs, w, seed, 0));
    assert(challenge(comms, ops) == e);
    assert forall|v: int| 0 <= v < comms.len() implies canonical(#[trigger] comms[v]) by {
        lemma_com(w[v], blind(cs, seed, v), w[v], blind(cs, seed, v));
    }
    assert forall|v: int|
        0 <= v < cs.num_vars() && cs.roles@[v] == Role::Public implies #[trigger] comms[v] == fmul(
            GEN_G as int,
            public_input[cs.rank(v)],
        ) by {
        assert(w[v] == public_input[cs.rank(v)]);
        lemma_fmul(GEN_G as int, w[v], GEN_G as int, w[v]);
        lemma_cong_canonical(fmul(GEN_G as int, w[v]) % (MODULUS as int), fmul(GEN_G as int, w[v]));
    }
    assert forall|j: int| 0 <= j < ops.len() implies opening_canonical(#[trigger] ops[j]) && check_opening(
        cs.constraints@[j],
        comms,
        ops[j],
        challenge(comms, ops),
    ) by {
        let c = cs.constraints@[j];
        assert(holds(c, w));
        assert(crate::circuit::refs_in(c, cs.num_vars()));
        let sa = blind(cs, seed, c.a as int);
        let sb = blind(cs, seed, c.b as int);
        let sc = blind(cs, seed, c.c as int);
        let k1 = nonce(seed, 0, j);
        let k2 = nonce(seed, 1, j);
        let k3 = nonce(seed, 2, j);
        let a = w[c.a as int];
        let b = w[c.b as int];
        match c.kind {
            ConstraintKind::Add => {
                lemma_add_opening(a, b, w[c.c as int], sa, sb, sc, k1, e);
            },
            ConstraintKind::Mul => {
                lemma_mul_opening(a, b, w[c.c as int], sa, sb, sc, k1, k2, k3, e);
            },
        }
    }
}

} // verus!
