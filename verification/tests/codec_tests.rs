use zkgc::challenge::ChallengeType;
use zkgc::codec::{
    decode_prover_message, decode_verifier_message, encode_prover_message,
    encode_verifier_message, frame_length, frame_message,
};
use zkgc::messages::{
    BoxReveal, ClueResponse, ClueReveal, CommitmentMessage, LineReveal, ProverMessage,
    PuzzleMessage, ResponseMessage, RevealPayload, VerifierMessage,
};
use zkgc::prover::Prover;

fn roundtrip_prover(m: &ProverMessage) {
    let bytes = encode_prover_message(m).expect("message must be well-formed");
    let back = decode_prover_message(&bytes).expect("decoding an encoding must succeed");
    assert_eq!(format!("{:?}", m), format!("{:?}", back));
}

fn roundtrip_verifier(m: &VerifierMessage) {
    let bytes = encode_verifier_message(m);
    let back = decode_verifier_message(&bytes).expect("decoding an encoding must succeed");
    assert_eq!(format!("{:?}", m), format!("{:?}", back));
}

fn prepared() -> (Prover, CommitmentMessage, Vec<(usize, usize, u8)>, zkgc::prover::RoundArtifacts)
{
    let mut prover = Prover::new(None, None, Some(1), Some(30));
    prover.init_puzzle();
    let clue_cells = prover.clue_cells();
    let (commitment, artifacts) = prover.prepare_round();
    (prover, commitment, clue_cells, artifacts)
}

#[test]
fn prover_messages_roundtrip() {
    let (prover, commitment, clue_cells, artifacts) = prepared();

    let puzzle = ProverMessage::Puzzle(PuzzleMessage {
        puzzle: prover.sudo.get_puzzle(),
        clues: clue_cells.len(),
    });
    roundtrip_prover(&puzzle);

    roundtrip_prover(&ProverMessage::Commitment(commitment));

    for challenge in [
        ChallengeType::Row(4),
        ChallengeType::Col(7),
        ChallengeType::Box(0),
        ChallengeType::Clue,
    ] {
        let response = prover.respond_to_challenge(2, challenge, &artifacts, &clue_cells);
        roundtrip_prover(&ProverMessage::Response(response));
    }

    roundtrip_prover(&ProverMessage::Abort("prover gave up: reason \u{2713}".to_string()));
}

#[test]
fn verifier_messages_roundtrip() {
    roundtrip_verifier(&VerifierMessage::PuzzleAck { rounds: 10 });
    for challenge in [
        ChallengeType::Row(8),
        ChallengeType::Col(0),
        ChallengeType::Box(5),
        ChallengeType::Clue,
    ] {
        roundtrip_verifier(&VerifierMessage::Challenge { round: 3, challenge });
    }
    roundtrip_verifier(&VerifierMessage::RoundResult {
        round: 1,
        accepted: true,
        reason: None,
    });
    roundtrip_verifier(&VerifierMessage::RoundResult {
        round: 2,
        accepted: false,
        reason: Some("Row violates Sudoku constraint".to_string()),
    });
    roundtrip_verifier(&VerifierMessage::FinalResult { accepted: true });
    roundtrip_verifier(&VerifierMessage::FinalResult { accepted: false });
    roundtrip_verifier(&VerifierMessage::Abort("timeout".to_string()));
}

#[test]
fn handmade_payloads_roundtrip() {
    let line = LineReveal {
        index: 6,
        values: vec![1, 2, 3, 4, 5, 6, 7, 8, 9],
        randomness: (1u64..=9).collect(),
    };
    roundtrip_prover(&ProverMessage::Response(ResponseMessage {
        round: 0,
        payload: RevealPayload::Row(line.clone()),
    }));
    roundtrip_prover(&ProverMessage::Response(ResponseMessage {
        round: 0,
        payload: RevealPayload::Col(line),
    }));
    let bx = BoxReveal {
        index: 8,
        values: vec![vec![1, 2, 3], vec![4, 5, 6], vec![7, 8, 9]],
        randomness: vec![vec![1, 2, 3], vec![4, 5, 6], vec![7, 8, 9]],
    };
    roundtrip_prover(&ProverMessage::Response(ResponseMessage {
        round: 5,
        payload: RevealPayload::Box(bx),
    }));
    let clue = ClueResponse {
        mapping: (0u8..10).collect(),
        mapping_randomness: (10u64..20).collect(),
        clues: vec![
            ClueReveal { row: 0, col: 8, mapped_value: 4, randomness: 77 },
            ClueReveal { row: 3, col: 3, mapped_value: 9, randomness: 1 },
        ],
    };
    roundtrip_prover(&ProverMessage::Response(ResponseMessage {
        round: 9,
        payload: RevealPayload::Clue(clue),
    }));
}

#[test]
fn malformed_message_is_refused_by_encoder() {
    let bad = ProverMessage::Response(ResponseMessage {
        round: 0,
        payload: RevealPayload::Row(LineReveal {
            index: 0,
            values: vec![1, 2, 3],
            randomness: vec![1],
        }),
    });
    assert!(encode_prover_message(&bad).is_none());
}

#[test]
fn truncated_buffer_is_refused_by_decoder() {
    let msg = VerifierMessage::PuzzleAck { rounds: 4 };
    let mut bytes = encode_verifier_message(&msg);
    bytes.pop();
    assert!(decode_verifier_message(&bytes).is_none());
    let empty: Vec<u8> = Vec::new();
    assert!(decode_verifier_message(&empty).is_none());
    assert!(decode_prover_message(&empty).is_none());
}

#[test]
fn trailing_bytes_are_refused_by_decoder() {
    let msg = VerifierMessage::FinalResult { accepted: true };
    let mut bytes = encode_verifier_message(&msg);
    bytes.push(0);
    assert!(decode_verifier_message(&bytes).is_none());
}

#[test]
fn frame_prefixes_length_big_endian() {
    let payload: Vec<u8> = vec![9, 8, 7, 6, 5];
    let framed = frame_message(&payload).unwrap();
    assert_eq!(framed.len(), 9);
    assert_eq!(&framed[0..4], &[0, 0, 0, 5]);
    assert_eq!(&framed[4..], &payload[..]);
    assert_eq!(frame_length(&framed), 5);
}
