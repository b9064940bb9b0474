use mopro_wasm_lib::api::{generate_proof, init_thread_pool, square_circuit, verify_proof, ProofInput};
use mopro_wasm_lib::circuit::{ConstraintKind, ConstraintSystemBuilder, Role, ZkError};
use mopro_wasm_lib::codec::{decode, decode_public_inputs, encode, encode_public_inputs};
use mopro_wasm_lib::field::{FieldElement, MODULUS};
use mopro_wasm_lib::prover::{check_witness, prove, verify};
use mopro_wasm_lib::witness::{compute, Witness};

fn fe(x: u64) -> FieldElement {
    FieldElement::new(x)
}

fn fes(xs: &[u64]) -> Vec<FieldElement> {
    xs.iter().map(|x| fe(*x)).collect()
}

fn square_proof(x: u64, y: u64, seed: u64) -> Vec<u8> {
    generate_proof(&ProofInput { private_input: x, public_input: y }, seed).unwrap().proof
}

#[test]
fn field_add_wraps() {
    assert_eq!(fe(MODULUS - 1).add(&fe(2)).value(), 1);
    assert_eq!(fe(3).add(&fe(4)).value(), 7);
}

#[test]
fn field_sub_wraps() {
    assert_eq!(fe(0).sub(&fe(1)).value(), MODULUS - 1);
    assert_eq!(fe(10).sub(&fe(4)).value(), 6);
}

#[test]
fn field_mul_reduces() {
    // 2^30 * 4 = 2^32 = 2 * (2^31 - 1) + 2
    assert_eq!(fe(1 << 30).mul(&fe(4)).value(), 2);
    assert_eq!(fe(7).mul(&fe(7)).value(), 49);
}

#[test]
fn field_new_reduces() {
    assert_eq!(fe(MODULUS).value(), 0);
    assert_eq!(fe(MODULUS + 5).value(), 5);
    assert_eq!(FieldElement::zero().value(), 0);
}

#[test]
fn builder_assigns_indices() {
    let mut b = ConstraintSystemBuilder::new();
    assert_eq!(b.declare_variable(Role::Private), 0);
    assert_eq!(b.declare_variable(Role::Public), 1);
    assert_eq!(b.add_constraint(ConstraintKind::Mul, 0, 0, 1), 0);
    assert_eq!(b.add_constraint(ConstraintKind::Add, 0, 1, 1), 1);
    let cs = b.finalize().unwrap();
    assert_eq!(cs.roles.len(), 2);
    assert_eq!(cs.constraints.len(), 2);
}

#[test]
fn finalize_rejects_undeclared_variable() {
    let mut b = ConstraintSystemBuilder::new();
    b.declare_variable(Role::Private);
    b.add_constraint(ConstraintKind::Add, 0, 0, 3);
    assert!(matches!(b.finalize(), Err(ZkError::StructureError)));
}

#[test]
fn compute_square_witness() {
    let cs = square_circuit();
    let w = compute(&cs, &fes(&[7]), &fes(&[49])).unwrap();
    assert_eq!(w.values.iter().map(|f| f.value()).collect::<Vec<_>>(), vec![7, 49]);
}

#[test]
fn compute_rejects_wrong_square() {
    let cs = square_circuit();
    assert!(matches!(compute(&cs, &fes(&[7]), &fes(&[50])), Err(ZkError::UnsatisfiableInputError)));
}

#[test]
fn compute_rejects_input_count() {
    let cs = square_circuit();
    assert!(matches!(compute(&cs, &fes(&[7, 8]), &fes(&[49])), Err(ZkError::InputLengthError)));
    assert!(matches!(compute(&cs, &fes(&[7]), &fes(&[])), Err(ZkError::InputLengthError)));
}

#[test]
fn compute_reports_missing_assignment() {
    // t is internal and only used, never defined
    let mut b = ConstraintSystemBuilder::new();
    let x = b.declare_variable(Role::Private);
    let t = b.declare_variable(Role::Internal);
    let y = b.declare_variable(Role::Public);
    b.add_constraint(ConstraintKind::Add, x, t, y);
    let cs = b.finalize().unwrap();
    assert!(matches!(compute(&cs, &fes(&[1]), &fes(&[2])), Err(ZkError::MissingAssignmentError)));
}

/// x^3 + x + 5 == y through internal variables.
fn cubic_system() -> mopro_wasm_lib::circuit::ConstraintSystem {
    let mut b = ConstraintSystemBuilder::new();
    let x = b.declare_variable(Role::Private);
    let five = b.declare_variable(Role::Public);
    let y = b.declare_variable(Role::Public);
    let x2 = b.declare_variable(Role::Internal);
    let x3 = b.declare_variable(Role::Internal);
    let s = b.declare_variable(Role::Internal);
    b.add_constraint(ConstraintKind::Mul, x, x, x2);
    b.add_constraint(ConstraintKind::Mul, x2, x, x3);
    b.add_constraint(ConstraintKind::Add, x3, x, s);
    b.add_constraint(ConstraintKind::Add, s, five, y);
    b.finalize().unwrap()
}

#[test]
fn compute_derives_internal_values() {
    let cs = cubic_system();
    let w = compute(&cs, &fes(&[3]), &fes(&[5, 35])).unwrap();
    assert_eq!(w.values.iter().map(|f| f.value()).collect::<Vec<_>>(), vec![3, 5, 35, 9, 27, 30]);
    assert!(matches!(compute(&cs, &fes(&[3]), &fes(&[5, 36])), Err(ZkError::UnsatisfiableInputError)));
}

#[test]
fn compute_is_deterministic() {
    let cs = cubic_system();
    let a = compute(&cs, &fes(&[11]), &fes(&[5, 1347])).unwrap();
    let b = compute(&cs, &fes(&[11]), &fes(&[5, 1347])).unwrap();
    assert_eq!(a.values, b.values);
}

#[test]
fn prove_then_verify_accepts() {
    let cs = cubic_system();
    let w = compute(&cs, &fes(&[3]), &fes(&[5, 35])).unwrap();
    for seed in [0u64, 1, 42, u64::MAX] {
        let p = prove(&cs, &w, seed).unwrap();
        assert!(verify(&cs, &fes(&[5, 35]), &p));
        assert!(!verify(&cs, &fes(&[5, 36]), &p));
        assert!(!verify(&cs, &fes(&[5]), &p));
    }
}

#[test]
fn prove_rejects_bad_witness() {
    let cs = square_circuit();
    let w = Witness { values: fes(&[7, 50]) };
    assert!(!check_witness(&cs, &w));
    assert!(matches!(prove(&cs, &w, 1), Err(ZkError::WitnessMismatchError)));
    let short = Witness { values: fes(&[7]) };
    assert!(matches!(prove(&cs, &short, 1), Err(ZkError::WitnessMismatchError)));
}

#[test]
fn encode_decode_round_trip() {
    let cs = cubic_system();
    let w = compute(&cs, &fes(&[3]), &fes(&[5, 35])).unwrap();
    let p = prove(&cs, &w, 9).unwrap();
    let bytes = encode(&p);
    assert_eq!(bytes.len(), 16 + 4 * 6 + 20 * 4);
    let q = decode(&bytes).unwrap();
    assert_eq!(q.commitments, p.commitments);
    assert_eq!(q.openings, p.openings);
    assert_eq!(encode(&q), bytes);
}

#[test]
fn encode_layout() {
    let bytes = square_proof(7, 49, 3);
    assert_eq!(bytes.len(), 16 + 4 * 2 + 20);
    assert_eq!(&bytes[0..8], &[2, 0, 0, 0, 0, 0, 0, 0]);
    assert_eq!(&bytes[16..24], &[1, 0, 0, 0, 0, 0, 0, 0]);
    // the public commitment is G * 49 = 245
    assert_eq!(&bytes[12..16], &[245, 0, 0, 0]);
}

#[test]
fn decode_rejects_truncated_and_overlong() {
    let bytes = square_proof(7, 49, 3);
    assert!(matches!(decode(&bytes[..bytes.len() - 1].to_vec()), Err(ZkError::DecodingError)));
    let mut longer = bytes.clone();
    longer.push(0);
    assert!(matches!(decode(&longer), Err(ZkError::DecodingError)));
    assert!(matches!(decode(&Vec::new()), Err(ZkError::DecodingError)));
    assert!(matches!(decode(&vec![0xff; 16]), Err(ZkError::DecodingError)));
}

#[test]
fn decode_rejects_non_canonical_value() {
    let mut bytes = square_proof(7, 49, 3);
    bytes[8..12].copy_from_slice(&(MODULUS as u32).to_le_bytes());
    assert!(matches!(decode(&bytes), Err(ZkError::DecodingError)));
}

#[test]
fn decode_empty_proof() {
    let bytes = vec![0u8; 16];
    let p = decode(&bytes).unwrap();
    assert!(p.commitments.is_empty());
    assert!(p.openings.is_empty());
}

#[test]
fn single_byte_flip_is_rejected() {
    let bytes = square_proof(7, 49, 77);
    for i in 0..bytes.len() {
        for mask in [0x01u8, 0x80, 0xff] {
            let mut m = bytes.clone();
            m[i] ^= mask;
            match verify_proof(&m, &vec![49]) {
                Ok(accepted) => assert!(!accepted, "byte {} mask {}", i, mask),
                Err(e) => assert_eq!(e, ZkError::DecodingError),
            }
        }
    }
}

#[test]
fn random_corruption_never_accepted() {
    let bytes = square_proof(7, 49, 5);
    let mut state: u64 = 0x9e3779b97f4a7c15;
    for _ in 0..10000 {
        state = state.wrapping_mul(6364136223846793005).wrapping_add(1442695040888963407);
        let mut m = bytes.clone();
        let edits = 1 + (state >> 60) as usize;
        for k in 0..edits {
            let r = state.rotate_left(7 * k as u32 + 3);
            let at = (r as usize) % m.len();
            m[at] = (r >> 32) as u8;
        }
        if (state >> 20) % 7 == 0 {
            let cut = ((state >> 8) as usize) % m.len();
            m.truncate(cut);
        }
        if m == bytes {
            continue;
        }
        match verify_proof(&m, &vec![49]) {
            Ok(accepted) => assert!(!accepted),
            Err(e) => assert_eq!(e, ZkError::DecodingError),
        }
    }
}

#[test]
fn proofs_hide_the_square_root() {
    // 7 and p - 7 are both square roots of 49
    let a = square_proof(7, 49, 1);
    let b = square_proof(MODULUS - 7, 49, 2);
    assert_eq!(verify_proof(&a, &vec![49]), Ok(true));
    assert_eq!(verify_proof(&b, &vec![49]), Ok(true));
    // the commitment to the private input differs
    assert_ne!(&a[8..12], &b[8..12]);
    // and the same root under another seed gives another commitment
    let c = square_proof(7, 49, 2);
    assert_ne!(&a[8..12], &c[8..12]);
}

#[test]
fn end_to_end_square() {
    let out = generate_proof(&ProofInput { private_input: 7, public_input: 49 }, 2024).unwrap();
    assert_eq!(out.public_inputs, vec![49]);
    assert_eq!(verify_proof(&out.proof, &out.public_inputs), Ok(true));
    assert_eq!(verify_proof(&out.proof, &vec![50]), Ok(false));
    assert_eq!(verify_proof(&out.proof, &vec![49, 49]), Ok(false));
    assert!(matches!(
        generate_proof(&ProofInput { private_input: 7, public_input: 50 }, 2024),
        Err(ZkError::UnsatisfiableInputError)
    ));
    let cs = square_circuit();
    assert!(matches!(compute(&cs, &fes(&[7]), &fes(&[50])), Err(ZkError::UnsatisfiableInputError)));
}

#[test]
fn verify_proof_reports_decoding_error() {
    assert_eq!(verify_proof(&vec![1, 2, 3], &vec![49]), Err(ZkError::DecodingError));
}

#[test]
fn thread_pool_setup_succeeds() {
    assert!(init_thread_pool(4).is_ok());
    let a = square_proof(3, 9, 8);
    assert!(init_thread_pool(1).is_ok());
    let b = square_proof(3, 9, 8);
    assert_eq!(a, b);
}

#[test]
fn public_inputs_round_trip() {
    let xs = fes(&[5, 35, MODULUS - 1]);
    let bytes = encode_public_inputs(&xs);
    assert_eq!(bytes.len(), 8 + 12);
    assert_eq!(&bytes[0..8], &[3, 0, 0, 0, 0, 0, 0, 0]);
    assert_eq!(&bytes[8..12], &[5, 0, 0, 0]);
    assert_eq!(decode_public_inputs(&bytes).unwrap(), xs);
    assert_eq!(decode_public_inputs(&encode_public_inputs(&Vec::new())).unwrap(), Vec::new());
}

#[test]
fn public_inputs_decode_errors() {
    let bytes = encode_public_inputs(&fes(&[5, 35]));
    assert_eq!(decode_public_inputs(&bytes[..bytes.len() - 1].to_vec()), Err(ZkError::DecodingError));
    assert_eq!(decode_public_inputs(&vec![1, 0, 0]), Err(ZkError::DecodingError));
    let mut bad = bytes.clone();
    bad[8..12].copy_from_slice(&(MODULUS as u32).to_le_bytes());
    assert_eq!(decode_public_inputs(&bad), Err(ZkError::DecodingError));
}

#[test]
fn compute_finds_evaluation_order() {
    // y = t * x is listed before t = x * x
    let mut b = ConstraintSystemBuilder::new();
    let x = b.declare_variable(Role::Private);
    let y = b.declare_variable(Role::Public);
    let t = b.declare_variable(Role::Internal);
    b.add_constraint(ConstraintKind::Mul, t, x, y);
    b.add_constraint(ConstraintKind::Mul, x, x, t);
    let cs = b.finalize().unwrap();
    let w = compute(&cs, &fes(&[3]), &fes(&[27])).unwrap();
    assert_eq!(w.values.iter().map(|f| f.value()).collect::<Vec<_>>(), vec![3, 27, 9]);
    assert!(matches!(compute(&cs, &fes(&[3]), &fes(&[28])), Err(ZkError::UnsatisfiableInputError)));
    let p = prove(&cs, &w, 11).unwrap();
    assert!(verify(&cs, &fes(&[27]), &p));
}

#[test]
fn compute_chain_listed_backwards() {
    // x -> a -> b -> c -> y, constraints listed from the last to the first
    let mut bld = ConstraintSystemBuilder::new();
    let x = bld.declare_variable(Role::Private);
    let a = bld.declare_variable(Role::Internal);
    let b = bld.declare_variable(Role::Internal);
    let c = bld.declare_variable(Role::Internal);
    let y = bld.declare_variable(Role::Public);
    bld.add_constraint(ConstraintKind::Add, c, x, y);
    bld.add_constraint(ConstraintKind::Add, b, x, c);
    bld.add_constraint(ConstraintKind::Add, a, x, b);
    bld.add_constraint(ConstraintKind::Add, x, x, a);
    let cs = bld.finalize().unwrap();
    let w = compute(&cs, &fes(&[2]), &fes(&[10])).unwrap();
    assert_eq!(w.values.iter().map(|f| f.value()).collect::<Vec<_>>(), vec![2, 4, 6, 8, 10]);
}

#[test]
fn compute_missing_despite_reordering() {
    // t and u only define each other
    let mut b = ConstraintSystemBuilder::new();
    let x = b.declare_variable(Role::Private);
    let t = b.declare_variable(Role::Internal);
    let u = b.declare_variable(Role::Internal);
    b.add_constraint(ConstraintKind::Add, u, x, t);
    b.add_constraint(ConstraintKind::Add, t, x, u);
    let cs = b.finalize().unwrap();
    assert!(matches!(compute(&cs, &fes(&[1]), &fes(&[])), Err(ZkError::MissingAssignmentError)));
}

#[test]
fn public_input_is_reduced_and_canonical() {
    let out = generate_proof(&ProofInput { private_input: 7, public_input: MODULUS + 49 }, 3).unwrap();
    assert_eq!(out.public_inputs, vec![49]);
    assert_eq!(verify_proof(&out.proof, &out.public_inputs), Ok(true));
    assert_eq!(verify_proof(&out.proof, &vec![MODULUS + 49]), Ok(true));
    assert_eq!(verify_proof(&out.proof, &vec![MODULUS + 50]), Ok(false));
}

#[test]
fn seed_uses_all_bits() {
    let a = square_proof(7, 49, 5);
    let b = square_proof(7, 49, 5 + MODULUS);
    let c = square_proof(7, 49, 5 + (1u64 << 62));
    assert_ne!(a, b);
    assert_ne!(a, c);
    assert_eq!(verify_proof(&b, &vec![49]), Ok(true));
    assert_eq!(verify_proof(&c, &vec![49]), Ok(true));
}
