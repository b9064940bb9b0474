//! Arithmetic in the prime field of order `2^31 - 1`.

use vstd::prelude::*;

verus! {

/// The field's prime modulus, `2^31 - 1`.
pub const MODULUS: u64 = 2147483647;

/// A field element, stored as its canonical representative in `0..MODULUS`.
#[derive(Clone, Copy, Debug, PartialEq, Eq, Structural)]
pub struct FieldElement {
    pub v: u64,
}

/// Addition modulo the prime.
pub open spec fn fadd(x: int, y: int) -> int {
    (x + y) % (MODULUS as int)
}

/// Subtraction modulo the prime.
pub open spec fn fsub(x: int, y: int) -> int {
    (x - y) % (MODULUS as int)
}

/// Multiplication modulo the prime.
pub open spec fn fmul(x: int, y: int) -> int {
    (x * y) % (MODULUS as int)
}

/// The values of a sequence of field elements.
pub open spec fn vals(s: Seq<FieldElement>) -> Seq<int> {
    s.map_values(|f: FieldElement| f.val())
}

/// Every element of `s` is canonical.
pub open spec fn all_wf(s: Seq<FieldElement>) -> bool {
    forall|i: int| 0 <= i < s.len() ==> (#[trigger] s[i]).wf()
}

/// Two integers are congruent modulo the prime.
pub open spec fn cong(x: int, y: int) -> bool {
    x % (MODULUS as int) == y % (MODULUS as int)
}

pub proof fn lemma_cong_reduce(x: int)
    ensures
        cong(x % (MODULUS as int), x),
        0 <= x % (MODULUS as int) < MODULUS,
{
    vstd::arithmetic::div_mod::lemma_mod_twice(x, MODULUS as int);
}

pub proof fn lemma_cong_add(a: int, b: int, c: int, d: int)
    requires
        cong(a, b),
        cong(c, d),
    ensures
        cong(a + c, b + d),
        cong(a - c, b - d),
{
    let m = MODULUS as int;
    vstd::arithmetic::div_mod::lemma_add_mod_noop(a, c, m);
    vstd::arithmetic::div_mod::lemma_add_mod_noop(b, d, m);
    vstd::arithmetic::div_mod::lemma_sub_mod_noop(a, c, m);
    vstd::arithmetic::div_mod::lemma_sub_mod_noop(b, d, m);
}

pub proof fn lemma_cong_mul(a: int, b: int, c: int, d: int)
    requires
        cong(a, b),
        cong(c, d),
    ensures
        cong(a * c, b * d),
{
    let m = MODULUS as int;
    vstd::arithmetic::div_mod::lemma_mul_mod_noop(a, c, m);
    vstd::arithmetic::div_mod::lemma_mul_mod_noop(b, d, m);
}

pub proof fn lemma_fadd(x: int, y: int, xx: int, yy: int)
    requires
        cong(x, xx),
        cong(y, yy),
    ensures
        cong(fadd(x, y), xx + yy),
        0 <= fadd(x, y) < MODULUS,
{
    lemma_cong_reduce(x + y);
    lemma_cong_add(x, xx, y, yy);
}

pub proof fn lemma_fsub(x: int, y: int, xx: int, yy: int)
    requires
        cong(x, xx),
        cong(y, yy),
    ensures
        cong(fsub(x, y), xx - yy),
        0 <= fsub(x, y) < MODULUS,
{
    lemma_cong_reduce(x - y);
    lemma_cong_add(x, xx, y, yy);
}

pub proof fn lemma_fmul(x: int, y: int, xx: int, yy: int)
    requires
        cong(x, xx),
        cong(y, yy),
    ensures
        cong(fmul(x, y), xx * yy),
        0 <= fmul(x, y) < MODULUS,
{
    lemma_cong_reduce(x * y);
    lemma_cong_mul(x, xx, y, yy);
}

/// Congruent canonical representatives are equal.
pub proof fn lemma_cong_canonical(x: int, y: int)
    requires
        cong(x, y),
        0 <= x < MODULUS,
        0 <= y < MODULUS,
    ensures
        x == y,
{
    vstd::arithmetic::div_mod::lemma_small_mod(x as nat, MODULUS as nat);
    vstd::arithmetic::div_mod::lemma_small_mod(y as nat, MODULUS as nat);
}

impl FieldElement {
    /// The element is in canonical form.
    pub open spec fn wf(self) -> bool {
        self.v < MODULUS
    }

    /// The element's value as an integer.
    pub open spec fn val(self) -> int {
        self.v as int
    }

    /// Reduces any `u64` into the field.
    pub fn new(x: u64) -> (r: FieldElement)
        ensures
            r.wf(),
            r.val() == x as int % (MODULUS as int),
    {
        FieldElement { v: x % MODULUS }
    }

    pub fn zero() -> (r: FieldElement)
        ensures
            r.wf(),
            r.val() == 0,
    {
        FieldElement { v: 0 }
    }

    /// The canonical representative.
    pub fn value(&self) -> (r: u64)
        ensures
            r == self.v,
    {
        self.v
    }

    pub fn add(&self, o: &FieldElement) -> (r: FieldElement)
        requires
            self.wf(),
            o.wf(),
        ensures
            r.wf(),
            r.val() == fadd(self.val(), o.val()),
    {
        FieldElement { v: (self.v + o.v) % MODULUS }
    }

    pub fn sub(&self, o: &FieldElement) -> (r: FieldElement)
        requires
            self.wf(),
            o.wf(),
        ensures
            r.wf(),
            r.val() == fsub(self.val(), o.val()),
    {
        let r = FieldElement { v: (self.v + (MODULUS - o.v)) % MODULUS };
        proof {
            let m = MODULUS as int;
            let s = self.v as int;
            let t = o.v as int;
            assert((s + (m - t)) % m == (s - t) % m) by {
                vstd::arithmetic::div_mod::lemma_mod_add_multiples_vanish(s - t, m);
            }
        }
        r
    }

    pub fn mul(&self, o: &FieldElement) -> (r: FieldElement)
        requires
            self.wf(),
            o.wf(),
        ensures
            r.wf(),
            r.val() == fmul(self.val(), o.val()),
    {
        assert(self.v * o.v < MODULUS * MODULUS) by (nonlinear_arith)
            requires
                self.v < MODULUS,
                o.v < MODULUS,
        ;
        FieldElement { v: (self.v * o.v) % MODULUS }
    }
}

} // verus!
