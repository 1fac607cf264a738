use sp1_core::codec::{decode, encode, DecodeError, PROOF_VERSION};
use sp1_core::machine::{ExecutionFault, Program};
use sp1_core::prover::{MockProof, MockProver, VerificationError, DEFAULT_MAX_CYCLES};

fn addi(rd: u32, rs1: u32, imm: i32) -> u32 {
    ((imm as u32) << 20) | (rs1 << 15) | (rd << 7) | 0x13
}

fn add(rd: u32, rs1: u32, rs2: u32) -> u32 {
    (rs2 << 20) | (rs1 << 15) | (rd << 7) | 0x33
}

const ECALL: u32 = 0x73;

/// Reads two words, writes their sum, halts.
fn sum_program() -> Program {
    Program {
        code: vec![
            addi(5, 0, 1),
            ECALL,
            addi(1, 10, 0),
            ECALL,
            add(10, 10, 1),
            addi(5, 0, 2),
            ECALL,
            addi(5, 0, 0),
            ECALL,
        ],
        image: vec![],
    }
}

#[test]
fn new_and_default_agree() {
    assert_eq!(MockProver::new().max_cycles, DEFAULT_MAX_CYCLES);
    assert_eq!(MockProver::default().max_cycles, DEFAULT_MAX_CYCLES);
    assert_eq!(MockProver::new().id(), "mock");
}

#[test]
fn prove_then_verify_accepts() {
    let prover = MockProver::new();
    let (pk, vk) = prover.setup(&sum_program());
    let proof = prover.prove(&pk, vec![7, 0, 0, 0, 35, 0, 0, 0]).unwrap();
    assert!(proof.proof.is_empty());
    assert_eq!(proof.public_values, vec![42, 0, 0, 0]);
    assert_eq!(prover.verify(&proof, &vk), Ok(()));
}

#[test]
fn altered_public_values_are_rejected() {
    let prover = MockProver::new();
    let (pk, vk) = prover.setup(&sum_program());
    let mut proof = prover.prove(&pk, vec![1, 0, 0, 0, 2, 0, 0, 0]).unwrap();
    proof.public_values[0] ^= 1;
    assert_eq!(
        prover.verify(&proof, &vk),
        Err(VerificationError::PublicValuesMismatch)
    );
}

#[test]
fn altered_input_is_rejected() {
    let prover = MockProver::new();
    let (pk, vk) = prover.setup(&sum_program());
    let mut proof = prover.prove(&pk, vec![1, 0, 0, 0, 2, 0, 0, 0]).unwrap();
    proof.stdin[4] = 9;
    assert_eq!(
        prover.verify(&proof, &vk),
        Err(VerificationError::PublicValuesMismatch)
    );
    proof.stdin.truncate(6);
    assert_eq!(
        prover.verify(&proof, &vk),
        Err(VerificationError::ExecutionFailed(ExecutionFault::InputExhausted))
    );
}

#[test]
fn prove_hands_on_faults() {
    let prover = MockProver::new();
    let (pk, _vk) = prover.setup(&sum_program());
    assert_eq!(
        prover.prove(&pk, vec![1, 2]).unwrap_err(),
        ExecutionFault::InputExhausted
    );
}

#[test]
fn verifying_key_of_another_program_rejects() {
    let prover = MockProver::new();
    let (pk, _) = prover.setup(&sum_program());
    let mut other = sum_program();
    other.code[4] = addi(10, 10, 0);
    let (_, vk_other) = prover.setup(&other);
    let proof = prover.prove(&pk, vec![3, 0, 0, 0, 4, 0, 0, 0]).unwrap();
    assert_eq!(
        prover.verify(&proof, &vk_other),
        Err(VerificationError::PublicValuesMismatch)
    );
}

#[test]
fn encoding_layout_and_round_trip() {
    let p = MockProof { proof: vec![], stdin: vec![9, 8], public_values: vec![42, 0, 0, 0] };
    let b = encode(&p);
    assert_eq!(
        b,
        vec![PROOF_VERSION, 2, 0, 0, 0, 9, 8, 4, 0, 0, 0, 42, 0, 0, 0, 0, 0, 0, 0]
    );
    let q = decode(&b).unwrap();
    assert_eq!(q.stdin, p.stdin);
    assert_eq!(q.public_values, p.public_values);
    assert_eq!(q.proof, p.proof);
}

#[test]
fn malformed_blobs_are_rejected() {
    let p = MockProof { proof: vec![1], stdin: vec![], public_values: vec![5] };
    let b = encode(&p);
    for cut in 0..b.len() {
        assert_eq!(decode(&b[..cut].to_vec()).unwrap_err(), DecodeError::Truncated);
    }
    let mut longer = b.clone();
    longer.push(0);
    assert_eq!(decode(&longer).unwrap_err(), DecodeError::TrailingBytes);
    let mut other = b.clone();
    other[0] = 2;
    assert_eq!(decode(&other).unwrap_err(), DecodeError::UnsupportedVersion);
}

#[test]
fn every_single_bit_flip_is_rejected() {
    let prover = MockProver::new();
    let (pk, vk) = prover.setup(&sum_program());
    let proof = prover.prove(&pk, vec![7, 0, 0, 0, 35, 0, 0, 0]).unwrap();
    let bytes = encode(&proof);
    assert_eq!(prover.verify_bytes(&bytes, &vk), Ok(()));
    for i in 0..bytes.len() {
        for bit in 0..8 {
            let mut t = bytes.clone();
            t[i] ^= 1 << bit;
            assert!(prover.verify_bytes(&t, &vk).is_err(), "byte {} bit {}", i, bit);
        }
    }
}

#[test]
fn truncated_blob_is_rejected_by_verifier() {
    let prover = MockProver::new();
    let (pk, vk) = prover.setup(&sum_program());
    let proof = prover.prove(&pk, vec![1, 0, 0, 0, 1, 0, 0, 0]).unwrap();
    let mut bytes = encode(&proof);
    bytes.pop();
    assert_eq!(
        prover.verify_bytes(&bytes, &vk),
        Err(VerificationError::Malformed(DecodeError::Truncated))
    );
}
