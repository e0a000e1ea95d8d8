//! The messages the two ZKP endpoints exchange.  Their payloads are plain
//! data; the byte encoding lives in the codec module and the socket handling
//! outside the library.
use vstd::prelude::*;
use crate::challenge::ChallengeType;
use crate::sudoku::{CommitMat, Matrix};

verus! {

/// The public puzzle and its clue count, sent once at session start.
#[derive(Debug, Clone)]
pub struct PuzzleMessage {
    pub puzzle: Matrix,
    pub clues: usize,
}

/// The prover's per-round commitments to the mapped board and the mapping.
#[derive(Debug, Clone)]
pub struct CommitmentMessage {
    pub round: usize,
    pub board_commit: CommitMat,
    pub mapping_commit: Vec<u64>,
}

/// Nine revealed values and their randomness for one row or column.
#[derive(Debug, Clone)]
pub struct LineReveal {
    pub index: usize,
    pub values: Vec<u8>,
    pub randomness: Vec<u64>,
}

/// A revealed 3x3 box and its randomness.
#[derive(Debug, Clone)]
pub struct BoxReveal {
    pub index: usize,
    pub values: Matrix,
    pub randomness: CommitMat,
}

/// One opened clue cell: its position, its mapped value, and the randomness
/// of the board commitment at that cell.
#[derive(Debug, Clone)]
pub struct ClueReveal {
    pub row: usize,
    pub col: usize,
    pub mapped_value: u8,
    pub randomness: u64,
}

/// The full clue-challenge response: the mapping with its randomness, and
/// one opened cell per public clue.
#[derive(Debug, Clone)]
pub struct ClueResponse {
    pub mapping: Vec<u8>,
    pub mapping_randomness: Vec<u64>,
    pub clues: Vec<ClueReveal>,
}

#[derive(Debug, Clone)]
pub enum RevealPayload {
    Row(LineReveal),
    Col(LineReveal),
    Box(BoxReveal),
    Clue(ClueResponse),
}

#[derive(Debug, Clone)]
pub struct ResponseMessage {
    pub round: usize,
    pub payload: RevealPayload,
}

#[derive(Debug, Clone)]
pub enum ProverMessage {
    Puzzle(PuzzleMessage),
    Commitment(CommitmentMessage),
    Response(ResponseMessage),
    Abort(String),
}

#[derive(Debug, Clone)]
pub enum VerifierMessage {
    PuzzleAck { rounds: usize },
    Challenge { round: usize, challenge: ChallengeType },
    RoundResult { round: usize, accepted: bool, reason: Option<String> },
    FinalResult { accepted: bool },
    Abort(String),
}

/// Which endpoint an abort is sent from.
#[derive(Debug)]
pub enum NetworkSide {
    Prover,
    Verifier,
}

} // verus!
