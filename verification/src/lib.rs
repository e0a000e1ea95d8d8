//! A zero-knowledge proof of Sudoku knowledge and a two-party garbled-circuit
//! evaluation with oblivious transfer, both built over a shared framed
//! transport.  The protocol logic lives here, verified; the network plumbing
//! around it does not.
pub mod block;
pub mod byteops;
pub mod challenge;
pub mod circuit;
pub mod codec;
pub mod commit;
pub mod gates;
pub mod grid;
pub mod hashing;
pub mod messages;
pub mod ot;
pub mod prover;
pub mod rng;
pub mod sudoku;
pub mod zk_verifier;
