//! The canonical byte layouts of proofs and public input vectors.
//!
//! A proof is written as: the number of commitments (u64, little-endian), each
//! commitment (u32, little-endian), the number of openings (u64), and the five
//! values of each opening (u32 each, in the order a1, a2, z1, z2, z3). A public
//! input vector is written as its length (u64) and its values (u32 each).

use vstd::prelude::*;
use crate::field::{FieldElement, MODULUS, vals, all_wf};
use crate::circuit::ZkError;
use crate::scheme::{OpeningModel, canonical, opening_canonical};
use crate::prover::{Opening, Proof};

verus! {

pub open spec fn u32_le(x: u32) -> Seq<u8> {
    seq![x as u8, (x >> 8) as u8, (x >> 16) as u8, (x >> 24) as u8]
}

pub open spec fn u64_le(x: u64) -> Seq<u8> {
    seq![
        x as u8,
        (x >> 8) as u8,
        (x >> 16) as u8,
        (x >> 24) as u8,
        (x >> 32) as u8,
        (x >> 40) as u8,
        (x >> 48) as u8,
        (x >> 56) as u8,
    ]
}

/// The little-endian u32 at `at`.
pub open spec fn read_u32(b: Seq<u8>, at: int) -> u32 {
    (b[at] as u32) | ((b[at + 1] as u32) << 8) | ((b[at + 2] as u32) << 16) | ((b[at + 3] as u32) << 24)
}

/// The little-endian u64 at `at`.
pub open spec fn read_u64(b: Seq<u8>, at: int) -> u64 {
    (b[at] as u64) | ((b[at + 1] as u64) << 8) | ((b[at + 2] as u64) << 16) | ((b[at + 3] as u64) << 24) | ((
    b[at + 4] as u64) << 32) | ((b[at + 5] as u64) << 40) | ((b[at + 6] as u64) << 48) | ((b[at + 7] as u64)
        << 56)
}

/// Value `f` (0 to 4) of an opening.
pub open spec fn opening_field(o: OpeningModel, f: int) -> int {
    if f == 0 {
        o.0
    } else if f == 1 {
        o.1
    } else if f == 2 {
        o.2
    } else if f == 3 {
        o.3
    } else {
        o.4
    }
}

pub open spec fn vals_bytes(s: Seq<int>) -> Seq<u8> {
    Seq::new(4 * s.len(), |k: int| u32_le(s[k / 4] as u32)[k % 4])
}

pub open spec fn openings_bytes(s: Seq<OpeningModel>) -> Seq<u8> {
    Seq::new(20 * s.len(), |k: int| u32_le(opening_field(s[k / 20], (k % 20) / 4) as u32)[k % 4])
}

/// The encoding of a proof.
pub open spec fn encoding(p: (Seq<int>, Seq<OpeningModel>)) -> Seq<u8> {
    u64_le(p.0.len() as u64) + vals_bytes(p.0) + u64_le(p.1.len() as u64) + openings_bytes(p.1)
}

/// The value of opening `j`, field `f`, in bytes `b` whose openings start at `base`.
pub open spec fn read_field(b: Seq<u8>, base: int, j: int, f: int) -> int {
    read_u32(b, base + 20 * j + 4 * f) as int
}

pub open spec fn read_opening(b: Seq<u8>, base: int, j: int) -> OpeningModel {
    (
        read_field(b, base, j, 0),
        read_field(b, base, j, 1),
        read_field(b, base, j, 2),
        read_field(b, base, j, 3),
        read_field(b, base, j, 4),
    )
}

/// What `b` decodes to: `None` unless it is the canonical encoding of a proof;
/// its definition is `parse_all`.
#[verifier::opaque]
pub open spec fn parse(b: Seq<u8>) -> Option<(Seq<int>, Seq<OpeningModel>)> {
    parse_all(b)
}

/// The fields that a canonical encoding holds, read at their offsets.
pub open spec fn parse_all(b: Seq<u8>) -> Option<(Seq<int>, Seq<OpeningModel>)> {
    if b.len() < 16 {
        None
    } else {
        let n = read_u64(b, 0) as int;
        if 16 + 4 * n > b.len() {
            None
        } else {
            let m = read_u64(b, 8 + 4 * n) as int;
            let base = 16 + 4 * n;
            let comms = Seq::new(n as nat, |i: int| read_u32(b, 8 + 4 * i) as int);
            let ops = Seq::new(m as nat, |j: int| read_opening(b, base, j));
            if b.len() != base + 20 * m {
                None
            } else if (forall|i: int| 0 <= i < n ==> canonical(#[trigger] comms[i])) && (forall|j: int|
                0 <= j < m ==> opening_canonical(#[trigger] ops[j])) {
                Some((comms, ops))
            } else {
                None
            }
        }
    }
}

proof fn lemma_u32_round(x: u32)
    ensures
        read_u32(u32_le(x), 0) == x,
{
    let b = u32_le(x);
    let (b0, b1, b2, b3) = (x as u8, (x >> 8) as u8, (x >> 16) as u8, (x >> 24) as u8);
    assert(b[0] == b0 && b[1] == b1 && b[2] == b2 && b[3] == b3);
    assert(((b0 as u32) | ((b1 as u32) << 8) | ((b2 as u32) << 16) | ((b3 as u32) << 24)) == x) by (bit_vector)
        requires
            b0 == x as u8,
            b1 == (x >> 8) as u8,
            b2 == (x >> 16) as u8,
            b3 == (x >> 24) as u8,
    ;
}

proof fn lemma_u64_round(x: u64)
    ensures
        read_u64(u64_le(x), 0) == x,
{
    let b = u64_le(x);
    let b0 = x as u8;
    let b1 = (x >> 8) as u8;
    let b2 = (x >> 16) as u8;
    let b3 = (x >> 24) as u8;
    let b4 = (x >> 32) as u8;
    let b5 = (x >> 40) as u8;
    let b6 = (x >> 48) as u8;
    let b7 = (x >> 56) as u8;
    assert(b[0] == b0 && b[1] == b1 && b[2] == b2 && b[3] == b3);
    assert(b[4] == b4 && b[5] == b5 && b[6] == b6 && b[7] == b7);
    assert(((b0 as u64) | ((b1 as u64) << 8) | ((b2 as u64) << 16) | ((b3 as u64) << 24) | ((b4 as u64) << 32)
        | ((b5 as u64) << 40) | ((b6 as u64) << 48) | ((b7 as u64) << 56)) == x) by (bit_vector)
        requires
            b0 == x as u8,
            b1 == (x >> 8) as u8,
            b2 == (x >> 16) as u8,
            b3 == (x >> 24) as u8,
            b4 == (x >> 32) as u8,
            b5 == (x >> 40) as u8,
            b6 == (x >> 48) as u8,
            b7 == (x >> 56) as u8,
    ;
}

proof fn lemma_read_u32_at(b: Seq<u8>, at: int, x: u32)
    requires
        0 <= at,
        at + 4 <= b.len(),
        forall|t: int| 0 <= t < 4 ==> #[trigger] b[at + t] == u32_le(x)[t],
    ensures
        read_u32(b, at) == x,
{
    assert(b[at + 0] == u32_le(x)[0]);
    assert(b[at + 1] == u32_le(x)[1]);
    assert(b[at + 2] == u32_le(x)[2]);
    assert(b[at + 3] == u32_le(x)[3]);
    lemma_u32_round(x);
}

proof fn lemma_read_u64_at(b: Seq<u8>, at: int, x: u64)
    requires
        0 <= at,
        at + 8 <= b.len(),
        forall|t: int| 0 <= t < 8 ==> #[trigger] b[at + t] == u64_le(x)[t],
    ensures
        read_u64(b, at) == x,
{
    assert(b[at + 0] == u64_le(x)[0]);
    assert(b[at + 1] == u64_le(x)[1]);
    assert(b[at + 2] == u64_le(x)[2]);
    assert(b[at + 3] == u64_le(x)[3]);
    assert(b[at + 4] == u64_le(x)[4]);
    assert(b[at + 5] == u64_le(x)[5]);
    assert(b[at + 6] == u64_le(x)[6]);
    assert(b[at + 7] == u64_le(x)[7]);
    lemma_u64_round(x);
}

/// Every value of a proof model is canonical.
pub open spec fn model_canonical(p: (Seq<int>, Seq<OpeningModel>)) -> bool {
    &&& forall|i: int| 0 <= i < p.0.len() ==> canonical(#[trigger] p.0[i])
    &&& forall|j: int| 0 <= j < p.1.len() ==> opening_canonical(#[trigger] p.1[j])
}

/// Decoding an encoded proof gives the proof back.
pub proof fn lemma_round_trip(p: (Seq<int>, Seq<OpeningModel>))
    requires
        model_canonical(p),
        p.0.len() <= u64::MAX,
        p.1.len() <= u64::MAX,
    ensures
        parse(encoding(p)) == Some(p),
{
    reveal(parse);
    let b = encoding(p);
    let n = p.0.len() as int;
    let m = p.1.len() as int;
    let base = 16 + 4 * n;
    assert(b.len() == base + 20 * m);
    assert forall|t: int| 0 <= t < 8 implies #[trigger] b[0 + t] == u64_le(n as u64)[t] by {}
    lemma_read_u64_at(b, 0, n as u64);
    assert forall|t: int| 0 <= t < 8 implies #[trigger] b[(8 + 4 * n) + t] == u64_le(m as u64)[t] by {}
    lemma_read_u64_at(b, 8 + 4 * n, m as u64);
    let comms = Seq::new(n as nat, |i: int| read_u32(b, 8 + 4 * i) as int);
    assert forall|i: int| 0 <= i < n implies #[trigger] comms[i] == p.0[i] by {
        let x = p.0[i] as u32;
        assert forall|t: int| 0 <= t < 4 implies #[trigger] b[(8 + 4 * i) + t] == u32_le(x)[t] by {
            let k = 4 * i + t;
            assert(k / 4 == i && k % 4 == t);
            assert(vals_bytes(p.0)[k] == u32_le(x)[t]);
        }
        lemma_read_u32_at(b, 8 + 4 * i, x);
        assert(canonical(p.0[i]));
    }
    assert(comms =~= p.0);
    let ops = Seq::new(m as nat, |j: int| read_opening(b, base, j));
    assert forall|j: int| 0 <= j < m implies #[trigger] ops[j] == p.1[j] by {
        assert forall|f: int| 0 <= f < 5 implies #[trigger] read_field(b, base, j, f) == opening_field(p.1[j], f) by {
            let x = opening_field(p.1[j], f) as u32;
            assert forall|t: int| 0 <= t < 4 implies #[trigger] b[(base + 20 * j + 4 * f) + t] == u32_le(x)[t] by {
                let k = 20 * j + 4 * f + t;
                assert(k / 20 == j && (k % 20) / 4 == f && k % 4 == t);
                assert(openings_bytes(p.1)[k] == u32_le(x)[t]);
            }
            lemma_read_u32_at(b, base + 20 * j + 4 * f, x);
            assert(opening_canonical(p.1[j]));
        }
        assert(read_field(b, base, j, 0) == opening_field(p.1[j], 0));
        assert(read_field(b, base, j, 1) == opening_field(p.1[j], 1));
        assert(read_field(b, base, j, 2) == opening_field(p.1[j], 2));
        assert(read_field(b, base, j, 3) == opening_field(p.1[j], 3));
        assert(read_field(b, base, j, 4) == opening_field(p.1[j], 4));
    }
    assert(ops =~= p.1);
}

fn push_u32(out: &mut Vec<u8>, x: u32)
    ensures
        final(out)@ == old(out)@ + u32_le(x),
{
    out.push(x as u8);
    out.push((x >> 8) as u8);
    out.push((x >> 16) as u8);
    out.push((x >> 24) as u8);
    assert(final(out)@ =~= old(out)@ + u32_le(x));
}

fn push_u64(out: &mut Vec<u8>, x: u64)
    ensures
        final(out)@ == old(out)@ + u64_le(x),
{
    out.push(x as u8);
    out.push((x >> 8) as u8);
    out.push((x >> 16) as u8);
    out.push((x >> 24) as u8);
    out.push((x >> 32) as u8);
    out.push((x >> 40) as u8);
    out.push((x >> 48) as u8);
    out.push((x >> 56) as u8);
    assert(final(out)@ =~= old(out)@ + u64_le(x));
}

fn read_u32_at(b: &Vec<u8>, at: usize) -> (r: u32)
    requires
        at + 4 <= b@.len(),
    ensures
        r == read_u32(b@, at as int),
{
    let len = b.len();
    assert(at + 3 < len);
    (b[at] as u32) | ((b[at + 1] as u32) << 8) | ((b[at + 2] as u32) << 16) | ((b[at + 3] as u32) << 24)
}

fn read_u64_at(b: &Vec<u8>, at: usize) -> (r: u64)
    requires
        at + 8 <= b@.len(),
    ensures
        r == read_u64(b@, at as int),
{
    let len = b.len();
    assert(at + 7 < len);
    (b[at] as u64) | ((b[at + 1] as u64) << 8) | ((b[at + 2] as u64) << 16) | ((b[at + 3] as u64) << 24) | ((
    b[at + 4] as u64) << 32) | ((b[at + 5] as u64) << 40) | ((b[at + 6] as u64) << 48) | ((b[at + 7] as u64)
        << 56)
}

/// Appends each value as a little-endian u32.
fn push_vals(out: &mut Vec<u8>, xs: &Vec<FieldElement>)
    requires
        all_wf(xs@),
    ensures
        final(out)@ == old(out)@ + vals_bytes(vals(xs@)),
{
    let n = xs.len();
    let ghost cs = vals(xs@);
    let ghost start = out@;
    let mut i: usize = 0;
    while i < n
        invariant
            n == xs@.len(),
            cs == vals(xs@),
            all_wf(xs@),
            i <= n,
            out@ == start + vals_bytes(cs.subrange(0, i as int)),
        decreases n - i,
    {
        let x = xs[i].v;
        assert(xs@[i as int].wf());
        push_u32(out, x as u32);
        proof {
            let s0 = cs.subrange(0, i as int);
            let s1 = cs.subrange(0, i + 1);
            assert forall|k: int| 0 <= k < 4 * s1.len() implies #[trigger] vals_bytes(s1)[k] == (vals_bytes(s0)
                + u32_le(x as u32))[k] by {
                if k < 4 * i {
                    assert(s1[k / 4] == s0[k / 4]);
                } else {
                    assert(k / 4 == i);
                }
            }
            assert(vals_bytes(s1) =~= vals_bytes(s0) + u32_le(x as u32));
        }
        i = i + 1;
    }
    assert(cs.subrange(0, n as int) =~= cs);
}

/// Writes `pf` in the canonical layout.
pub fn encode(pf: &Proof) -> (out: Vec<u8>)
    requires
        pf.wf(),
    ensures
        out@ == encoding(pf@),
{
    let n = pf.commitments.len();
    let m = pf.openings.len();
    let ghost os = pf@.1;
    let mut out: Vec<u8> = Vec::new();
    push_u64(&mut out, n as u64);
    push_vals(&mut out, &pf.commitments);
    let ghost mid = out@;
    push_u64(&mut out, m as u64);
    let mut j: usize = 0;
    while j < m
        invariant
            m == pf.openings@.len(),
            os == pf@.1,
            pf.wf(),
            j <= m,
            out@ == mid + u64_le(m as u64) + openings_bytes(os.subrange(0, j as int)),
        decreases m - j,
    {
        let o = pf.openings[j];
        assert(pf.openings@[j as int].wf());
        push_u32(&mut out, o.a1.v as u32);
        push_u32(&mut out, o.a2.v as u32);
        push_u32(&mut out, o.z1.v as u32);
        push_u32(&mut out, o.z2.v as u32);
        push_u32(&mut out, o.z3.v as u32);
        proof {
            let s0 = os.subrange(0, j as int);
            let s1 = os.subrange(0, j + 1);
            let chunk = u32_le(o.a1.v as u32) + u32_le(o.a2.v as u32) + u32_le(o.z1.v as u32) + u32_le(o.z2.v as u32)
                + u32_le(o.z3.v as u32);
            assert forall|k: int| 0 <= k < 20 * s1.len() implies #[trigger] openings_bytes(s1)[k] == (
            openings_bytes(s0) + chunk)[k] by {
                if k < 20 * j {
                    assert(s1[k / 20] == s0[k / 20]);
                } else {
                    assert(k / 20 == j);
                    assert(s1[j as int] == o.model());
                }
            }
            assert(openings_bytes(s1) =~= openings_bytes(s0) + chunk);
            assert(out@ =~= mid + u64_le(m as u64) + openings_bytes(s1));
        }
        j = j + 1;
    }
    assert(os.subrange(0, m as int) =~= os);
    assert(out@ =~= encoding(pf@));
    out
}

/// Reads a proof from its canonical layout; any other bytes give `DecodingError`.
pub fn decode(b: &Vec<u8>) -> (r: Result<Proof, ZkError>)
    ensures
        match r {
            Ok(q) => q.wf() && parse(b@) == Some(q@),
            Err(e) => e == ZkError::DecodingError && parse(b@) is None,
        },
{
    let r = decode_all(b);
    proof {
        reveal(parse);
    }
    r
}

fn decode_all(b: &Vec<u8>) -> (r: Result<Proof, ZkError>)
    ensures
        match r {
            Ok(q) => q.wf() && parse_all(b@) == Some(q@),
            Err(e) => e == ZkError::DecodingError && parse_all(b@) is None,
        },
{
    let len = b.len();
    if len < 16 {
        return Err(ZkError::DecodingError);
    }
    let n = read_u64_at(b, 0);
    if n > ((len - 16) / 4) as u64 {
        return Err(ZkError::DecodingError);
    }
    let nu = n as usize;
    let base = 16 + 4 * nu;
    let m = read_u64_at(b, 8 + 4 * nu);
    let rest = len - base;
    if rest % 20 != 0 || m != (rest / 20) as u64 {
        return Err(ZkError::DecodingError);
    }
    let mu = m as usize;
    let ghost comms_s = Seq::new(nu as nat, |i: int| read_u32(b@, 8 + 4 * i) as int);
    let ghost ops_s = Seq::new(mu as nat, |j: int| read_opening(b@, base as int, j));
    let mut comms: Vec<FieldElement> = Vec::new();
    let mut i: usize = 0;
    while i < nu
        invariant
            len == b@.len(),
            base == 16 + 4 * nu,
            base <= len,
            len == base + 20 * mu,
            nu as int == read_u64(b@, 0) as int,
            mu as int == read_u64(b@, 8 + 4 * nu) as int,
            ops_s == Seq::new(mu as nat, |j: int| read_opening(b@, base as int, j)),
            i <= nu,
            comms_s == Seq::new(nu as nat, |i: int| read_u32(b@, 8 + 4 * i) as int),
            comms@.len() == i,
            forall|k: int| 0 <= k < i ==> (#[trigger] comms@[k]).wf() && comms@[k].val() == comms_s[k],
        decreases nu - i,
    {
        let x = read_u32_at(b, 8 + 4 * i) as u64;
        if x >= MODULUS {
            assert(!canonical(comms_s[i as int]));
            return Err(ZkError::DecodingError);
        }
        comms.push(FieldElement { v: x });
        i = i + 1;
    }
    let mut ops: Vec<Opening> = Vec::new();
    let mut j: usize = 0;
    while j < mu
        invariant
            len == b@.len(),
            base == 16 + 4 * nu,
            len == base + 20 * mu,
            nu as int == read_u64(b@, 0) as int,
            mu as int == read_u64(b@, 8 + 4 * nu) as int,
            comms_s == Seq::new(nu as nat, |i: int| read_u32(b@, 8 + 4 * i) as int),
            j <= mu,
            ops_s == Seq::new(mu as nat, |j: int| read_opening(b@, base as int, j)),
            ops@.len() == j,
            forall|k: int| 0 <= k < j ==> (#[trigger] ops@[k]).wf() && ops@[k].model() == ops_s[k],
        decreases mu - j,
    {
        let at = base + 20 * j;
        let a1 = read_u32_at(b, at) as u64;
        let a2 = read_u32_at(b, at + 4) as u64;
        let z1 = read_u32_at(b, at + 8) as u64;
        let z2 = read_u32_at(b, at + 12) as u64;
        let z3 = read_u32_at(b, at + 16) as u64;
        if a1 >= MODULUS || a2 >= MODULUS || z1 >= MODULUS || z2 >= MODULUS || z3 >= MODULUS {
            assert(!opening_canonical(ops_s[j as int]));
            return Err(ZkError::DecodingError);
        }
        let o = Opening {
            a1: FieldElement { v: a1 },
            a2: FieldElement { v: a2 },
            z1: FieldElement { v: z1 },
            z2: FieldElement { v: z2 },
            z3: FieldElement { v: z3 },
        };
        assert(o.model() == ops_s[j as int]);
        ops.push(o);
        j = j + 1;
    }
    let q = Proof { commitments: comms, openings: ops };
    assert(q@.0 =~= comms_s);
    assert(q@.1 =~= ops_s);
    assert forall|k: int| 0 <= k < nu implies canonical(#[trigger] comms_s[k]) by {
        assert(q.commitments@[k].wf());
    }
    assert forall|k: int| 0 <= k < mu implies opening_canonical(#[trigger] ops_s[k]) by {
        assert(q.openings@[k].wf());
    }
    Ok(q)
}

/// The encoding of a public input vector: its length (u64), then each value (u32).
pub open spec fn input_encoding(s: Seq<int>) -> Seq<u8> {
    u64_le(s.len() as u64) + vals_bytes(s)
}

/// What `b` decodes to as a public input vector.
pub open spec fn parse_inputs(b: Seq<u8>) -> Option<Seq<int>> {
    if b.len() < 8 {
        None
    } else {
        let n = read_u64(b, 0) as int;
        let s = Seq::new(n as nat, |i: int| read_u32(b, 8 + 4 * i) as int);
        if b.len() != 8 + 4 * n {
            None
        } else if forall|i: int| 0 <= i < n ==> canonical(#[trigger] s[i]) {
            Some(s)
        } else {
            None
        }
    }
}

/// Decoding an encoded public input vector gives the vector back.
pub proof fn lemma_inputs_round_trip(s: Seq<int>)
    requires
        forall|i: int| 0 <= i < s.len() ==> canonical(#[trigger] s[i]),
        s.len() <= u64::MAX,
    ensures
        parse_inputs(input_encoding(s)) == Some(s),
{
    let b = input_encoding(s);
    let n = s.len() as int;
    assert(b.len() == 8 + 4 * n);
    assert forall|t: int| 0 <= t < 8 implies #[trigger] b[0 + t] == u64_le(n as u64)[t] by {}
    lemma_read_u64_at(b, 0, n as u64);
    let r = Seq::new(n as nat, |i: int| read_u32(b, 8 + 4 * i) as int);
    assert forall|i: int| 0 <= i < n implies #[trigger] r[i] == s[i] by {
        let x = s[i] as u32;
        assert forall|t: int| 0 <= t < 4 implies #[trigger] b[(8 + 4 * i) + t] == u32_le(x)[t] by {
            let k = 4 * i + t;
            assert(k / 4 == i && k % 4 == t);
            assert(vals_bytes(s)[k] == u32_le(x)[t]);
        }
        lemma_read_u32_at(b, 8 + 4 * i, x);
        assert(canonical(s[i]));
    }
    assert(r =~= s);
}

/// Writes a public input vector in its canonical layout.
pub fn encode_public_inputs(xs: &Vec<FieldElement>) -> (out: Vec<u8>)
    requires
        all_wf(xs@),
    ensures
        out@ == input_encoding(vals(xs@)),
{
    let mut out: Vec<u8> = Vec::new();
    push_u64(&mut out, xs.len() as u64);
    push_vals(&mut out, xs);
    out
}

/// Reads a public input vector; any bytes but a canonical encoding give `DecodingError`.
pub fn decode_public_inputs(b: &Vec<u8>) -> (r: Result<Vec<FieldElement>, ZkError>)
    ensures
        match r {
            Ok(xs) => all_wf(xs@) && parse_inputs(b@) == Some(vals(xs@)),
            Err(e) => e == ZkError::DecodingError && parse_inputs(b@) is None,
        },
{
    let len = b.len();
    if len < 8 {
        return Err(ZkError::DecodingError);
    }
    let n = read_u64_at(b, 0);
    if (len - 8) % 4 != 0 || n != ((len - 8) / 4) as u64 {
        return Err(ZkError::DecodingError);
    }
    let nu = n as usize;
    let ghost s = Seq::new(nu as nat, |i: int| read_u32(b@, 8 + 4 * i) as int);
    let mut xs: Vec<FieldElement> = Vec::new();
    let mut i: usize = 0;
    while i < nu
        invariant
            len == b@.len(),
            len == 8 + 4 * nu,
            nu as int == read_u64(b@, 0) as int,
            s == Seq::new(nu as nat, |i: int| read_u32(b@, 8 + 4 * i) as int),
            i <= nu,
            xs@.len() == i,
            forall|k: int| 0 <= k < i ==> (#[trigger] xs@[k]).wf() && xs@[k].val() == s[k],
        decreases nu - i,
    {
        let x = read_u32_at(b, 8 + 4 * i) as u64;
        if x >= MODULUS {
            assert(!canonical(s[i as int]));
            return Err(ZkError::DecodingError);
        }
        xs.push(FieldElement { v: x });
        i = i + 1;
    }
    assert(vals(xs@) =~= s);
    assert forall|k: int| 0 <= k < nu implies canonical(#[trigger] s[k]) by {
        assert(xs@[k].wf());
    }
    Ok(xs)
}

} // verus!
