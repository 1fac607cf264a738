//! The core of a small zero-knowledge virtual machine.
//!
//! - `isa`, `alu`: the instruction encodings and the word-level semantics of
//!   the arithmetic and logic operations.
//! - `machine`, `executor`: the abstract step semantics and the executor that
//!   runs a program and records every state change, stopping at the first
//!   fault.
//! - `memory`, `chips`, `trace`: the memory consistency rule, the program and
//!   ALU chip checks, and trace generation for the add and sub chips.
//! - `field`, `lookup`: prime-field arithmetic and the running-sum lookup
//!   argument that ties the chips together.
//! - `prover`, `codec`: a mock prover that executes and binds the public
//!   output, and the serialized form of its proofs.
pub mod alu;
pub mod chips;
pub mod codec;
pub mod executor;
pub mod field;
pub mod isa;
pub mod lookup;
pub mod machine;
pub mod memory;
pub mod prover;
pub mod trace;
