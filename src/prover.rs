//! A mock prover: it executes the program and binds the public output to a
//! proof object with no cryptographic content. Its verifier re-executes the
//! program from the verifying key on the proof's input and accepts exactly
//! when the claimed public values are the ones that run produces.
use crate::codec::{decode, decode_spec, DecodeError};
use crate::executor::{execute, ExecutionRecord};
use crate::machine::{run_spec, ExecutionFault, Program};
use vstd::prelude::*;

verus! {

/// Step bound that a `MockProver` made by `new` runs programs with.
pub const DEFAULT_MAX_CYCLES: u64 = 0x40_0000;

/// Key for proving: the program itself.
#[derive(Clone, Debug)]
pub struct ProvingKey {
    pub program: Program,
}

/// Key for verifying: the program's instruction table and memory image.
#[derive(Clone, Debug)]
pub struct VerifyingKey {
    pub program: Program,
}

/// A mock proof: an empty proof blob, the input it was made from, and the
/// public values that the run wrote.
#[derive(Clone, Debug)]
pub struct MockProof {
    pub proof: Vec<u8>,
    pub stdin: Vec<u8>,
    pub public_values: Vec<u8>,
}

/// Why verification rejected a proof.
#[derive(Clone, Copy, Debug, PartialEq, Eq, Structural)]
pub enum VerificationError {
    /// Re-executing the program on the proof's input faulted.
    ExecutionFailed(ExecutionFault),
    /// The run's public output differs from the values the proof claims.
    PublicValuesMismatch,
    /// The bytes are not a serialized proof.
    Malformed(DecodeError),
}

/// A prover that only executes.
pub struct MockProver {
    pub max_cycles: u64,
}

/// Whether running `code` with `image` on `input` halts within `max_cycles`
/// steps with public output `public_values`.
pub open spec fn accepts(
    code: Seq<u32>,
    image: Seq<(u32, u32)>,
    input: Seq<u8>,
    public_values: Seq<u8>,
    max_cycles: nat,
) -> bool {
    run_spec(code, image, input, max_cycles) matches Ok(m) && m.output == public_values
}

/// Byte-wise equality of two byte vectors.
fn bytes_equal(a: &Vec<u8>, b: &Vec<u8>) -> (r: bool)
    ensures
        r == (a@ == b@),
{
    if a.len() != b.len() {
        return false;
    }
    let mut i: usize = 0;
    while i < a.len()
        invariant
            i <= a@.len(),
            a@.len() == b@.len(),
            forall|j: int| 0 <= j < i ==> a@[j] == b@[j],
        decreases a@.len() - i,
    {
        if a[i] != b[i] {
            return false;
        }
        i = i + 1;
    }
    assert(a@ =~= b@);
    true
}

/// A copy of `p`.
fn copy_program(p: &Program) -> (r: Program)
    ensures
        r.code@ == p.code@,
        r.image@ == p.image@,
{
    let mut code: Vec<u32> = Vec::new();
    let mut i: usize = 0;
    while i < p.code.len()
        invariant
            i <= p.code@.len(),
            code@ == p.code@.take(i as int),
        decreases p.code@.len() - i,
    {
        code.push(p.code[i]);
        assert(p.code@.take(i + 1) =~= p.code@.take(i as int).push(p.code@[i as int]));
        i = i + 1;
    }
    assert(p.code@.take(i as int) =~= p.code@);
    let mut image: Vec<(u32, u32)> = Vec::new();
    let mut j: usize = 0;
    while j < p.image.len()
        invariant
            j <= p.image@.len(),
            image@ == p.image@.take(j as int),
        decreases p.image@.len() - j,
    {
        let (a, v) = p.image[j];
        image.push((a, v));
        assert(p.image@.take(j + 1) =~= p.image@.take(j as int).push(p.image@[j as int]));
        j = j + 1;
    }
    assert(p.image@.take(j as int) =~= p.image@);
    Program { code, image }
}

impl MockProver {
    /// Creates a mock prover with the default step bound.
    pub fn new() -> (r: Self)
        ensures
            r.max_cycles == DEFAULT_MAX_CYCLES,
    {
        MockProver { max_cycles: DEFAULT_MAX_CYCLES }
    }

    /// The name of this prover.
    pub fn id(&self) -> (r: String)
        ensures
            r@ == "mock"@,
    {
        let r = "mock".to_owned();
        r
    }

    /// Derives the proving and verifying keys of `program`.
    pub fn setup(&self, program: &Program) -> (r: (ProvingKey, VerifyingKey))
        ensures
            r.0.program.code@ == program.code@,
            r.0.program.image@ == program.image@,
            r.1.program.code@ == program.code@,
            r.1.program.image@ == program.image@,
    {
        (ProvingKey { program: copy_program(program) }, VerifyingKey { program: copy_program(program) })
    }

    /// Executes the program of `pk` on `stdin`. On a halted run the proof
    /// carries `stdin` and the run's public output; a fault is handed on.
    pub fn prove(&self, pk: &ProvingKey, stdin: Vec<u8>) -> (r: Result<MockProof, ExecutionFault>)
        ensures
            match run_spec(pk.program.code@, pk.program.image@, stdin@, self.max_cycles as nat) {
                Ok(m) => r is Ok && r->Ok_0.public_values@ == m.output && r->Ok_0.stdin@ == stdin@
                    && r->Ok_0.proof@.len() == 0,
                Err(f) => r == Err::<MockProof, ExecutionFault>(f),
            },
    {
        match execute(&pk.program, &stdin, self.max_cycles) {
            Ok(record) => {
                let ExecutionRecord { events: _, public_values } = record;
                Ok(MockProof { proof: Vec::new(), stdin, public_values })
            },
            Err(f) => Err(f),
        }
    }

    /// Accepts `proof` exactly when the program of `vk`, run on the proof's
    /// input, halts with the public values the proof claims.
    pub fn verify(&self, proof: &MockProof, vk: &VerifyingKey) -> (r: Result<(), VerificationError>)
        ensures
            r is Ok <==> accepts(vk.program.code@, vk.program.image@, proof.stdin@, proof.public_values@, self.max_cycles as nat),
            match run_spec(vk.program.code@, vk.program.image@, proof.stdin@, self.max_cycles as nat) {
                Ok(m) => m.output != proof.public_values@ ==> r == Err::<(), VerificationError>(VerificationError::PublicValuesMismatch),
                Err(f) => r == Err::<(), VerificationError>(VerificationError::ExecutionFailed(f)),
            },
    {
        match execute(&vk.program, &proof.stdin, self.max_cycles) {
            Ok(record) => {
                if bytes_equal(&record.public_values, &proof.public_values) {
                    Ok(())
                } else {
                    Err(VerificationError::PublicValuesMismatch)
                }
            },
            Err(f) => Err(VerificationError::ExecutionFailed(f)),
        }
    }
}

impl MockProver {
    /// Verifies a serialized proof: bytes that do not decode are rejected
    /// at once; a decoded proof is verified as by `verify`.
    pub fn verify_bytes(&self, bytes: &Vec<u8>, vk: &VerifyingKey) -> (r: Result<(), VerificationError>)
        ensures
            match decode_spec(bytes@) {
                Ok((s, v, x)) => {
                    &&& r is Ok <==> accepts(vk.program.code@, vk.program.image@, s, v, self.max_cycles as nat)
                    &&& match run_spec(vk.program.code@, vk.program.image@, s, self.max_cycles as nat) {
                        Ok(m) => m.output != v ==> r == Err::<(), VerificationError>(VerificationError::PublicValuesMismatch),
                        Err(f) => r == Err::<(), VerificationError>(VerificationError::ExecutionFailed(f)),
                    }
                },
                Err(e) => r == Err::<(), VerificationError>(VerificationError::Malformed(e)),
            },
    {
        match decode(bytes) {
            Ok(proof) => self.verify(&proof, vk),
            Err(e) => Err(VerificationError::Malformed(e)),
        }
    }
}

impl Default for MockProver {
    fn default() -> (r: Self)
        ensures
            r.max_cycles == DEFAULT_MAX_CYCLES,
    {
        Self::new()
    }
}

/// Completeness: a program that halts on `input` yields a proof that the
/// verifier accepts, with the run's public output as its public values.
pub proof fn lemma_round_trip(
    code: Seq<u32>,
    image: Seq<(u32, u32)>,
    input: Seq<u8>,
    max_cycles: nat,
)
    requires
        run_spec(code, image, input, max_cycles) is Ok,
    ensures
        accepts(code, image, input, run_spec(code, image, input, max_cycles)->Ok_0.output, max_cycles),
{
}

/// Public values are bound: for a fixed program and input, at most one
/// sequence of public values is accepted, so altering the claimed values of
/// an accepted proof makes the verifier reject it.
pub proof fn lemma_public_values_bound(
    code: Seq<u32>,
    image: Seq<(u32, u32)>,
    input: Seq<u8>,
    claimed: Seq<u8>,
    altered: Seq<u8>,
    max_cycles: nat,
)
    requires
        accepts(code, image, input, claimed, max_cycles),
        altered != claimed,
    ensures
        !accepts(code, image, input, altered, max_cycles),
{
}

} // verus!
