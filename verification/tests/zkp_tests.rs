use zkgc::challenge::{random_challenge, ChallengeType};
use zkgc::commit::{commit_value, v_a_cell, v_a_line, v_a_value, CastCommit, MatCommit};
use zkgc::messages::{CommitmentMessage, ProverMessage, RevealPayload};
use zkgc::prover::{parser, Prover, RoundArtifacts};
use zkgc::sudoku::Sudoku;
use zkgc::zk_verifier::Verifier;

#[test]
fn test_parser() {
    let args = vec![
        "prover".to_string(),
        "-".to_string(),
        "9000".to_string(),
        "10".to_string(),
        "30".to_string(),
    ];
    let prover = parser(args).unwrap();
    assert_eq!(prover.rounds, 10);
    assert_eq!(prover.clues, 30);
    assert_eq!(prover.port, "9000");
    assert_eq!(prover.host, "127.0.0.1");
}

#[test]
fn test_random_challenge() {
    for _ in 1..10 {
        let c = random_challenge(9);
        println!("{:?}", c);
    }
}

#[test]
fn test_commit() {
    let mut sudoku = Sudoku::new();
    sudoku.init(Some(30));
    let original_mat = sudoku.get_solution();
    let (commited_mat, random_mat) = original_mat.commit();
    println!("Original Matrix: {:?}", original_mat);
    println!("Commited Matrix: {:?}", commited_mat);
    println!("Random Matrix: {:?}", random_mat);

    assert!(original_mat.verify(&commited_mat, &random_mat));

    let original_cast = sudoku.get_cast();
    let (commited_cast, random_cast) = original_cast.commit();
    println!("Original Cast: {:?}", original_cast);
    println!("Commited Cast: {:?}", commited_cast);
    println!("Random Cast: {:?}", random_cast);

    assert!(original_cast.verify(&commited_cast, &random_cast));

    assert!(v_a_line(
        &commited_cast[0..9].to_vec(),
        &random_cast[0..9].to_vec(),
        &original_cast[0..9].to_vec()
    ));

    let cell_no = 4;
    let cell_mat = original_mat.get_a_cell(cell_no);
    let cell_cmmt = zkgc::commit::CommitMat_::get_a_cell(&commited_mat, cell_no);
    let cell_rand = zkgc::commit::CommitMat_::get_a_cell(&random_mat, cell_no);
    assert!(v_a_cell(&cell_cmmt, &cell_rand, &cell_mat));
}

#[test]
fn test_sudoku_generation() {
    let mut sudoku = Sudoku::new();
    sudoku.init(Some(30));
    assert_valid_solution(&sudoku.get_solution());
    let puzzle = sudoku.get_puzzle();
    let solution = sudoku.get_solution();
    for r in 0..9 {
        for c in 0..9 {
            assert!(puzzle[r][c] == 0 || puzzle[r][c] == solution[r][c]);
        }
    }
}

#[test]
fn test_gen_cast() {
    let mut sudoku = Sudoku::new();
    let cast = sudoku.gen_cast();
    println!("Generated cast: {:?}", cast);
    assert_eq!(cast.len(), 10);
    assert_eq!(cast[0], 0);
    let mut sorted = cast[1..].to_vec();
    sorted.sort();
    assert_eq!(sorted, (1u8..=9).collect::<Vec<u8>>());
}

/// Every row, column and box of the grid holds 1..=9 exactly once.
fn assert_valid_solution(grid: &Vec<Vec<u8>>) {
    for k in 0..9 {
        assert!(Verifier::is_1_9(&grid[k]), "row {} invalid", k);
        let col: Vec<u8> = (0..9).map(|r| grid[r][k]).collect();
        assert!(Verifier::is_1_9(&col), "column {} invalid", k);
        let bx: Vec<u8> = (0..9).map(|i| grid[3 * (k / 3) + i / 3][3 * (k % 3) + i % 3]).collect();
        assert!(Verifier::is_1_9(&bx), "box {} invalid", k);
    }
}

#[test]
fn commitment_opens_to_its_value() {
    let (digest, randomness) = commit_value(5);
    assert!(randomness >= 1);
    assert!(v_a_value(5, randomness, digest));
    assert!(!v_a_value(6, randomness, digest));
    assert!(!v_a_value(5, randomness.wrapping_add(1), digest));
}

#[test]
fn mapped_solution_is_valid_sudoku() {
    let mut prover = Prover::new(None, None, Some(1), Some(30));
    prover.init_puzzle();
    let (_commitment, artifacts) = prover.prepare_round();
    assert_valid_solution(&artifacts.mapped_solution);
}

fn session_pair(rounds: usize) -> (Prover, Verifier, Vec<(usize, usize, u8)>) {
    let mut prover = Prover::new(None, None, Some(rounds), Some(30));
    prover.init_puzzle();
    let mut verifier = Verifier::new(None, Some(rounds));
    verifier.puzzle = prover.sudo.get_puzzle();
    verifier.clues = verifier.collect_clues();
    let clue_cells = prover.clue_cells();
    (prover, verifier, clue_cells)
}

#[test]
fn zkp_honest_session_accepts() {
    let (mut prover, verifier, clue_cells) = session_pair(3);
    assert_eq!(clue_cells.len(), 30);
    for round in 0..3usize {
        let (mut commitment, artifacts) = prover.prepare_round();
        commitment.round = round;
        let challenge = random_challenge(9);
        let response = prover.respond_to_challenge(round, challenge, &artifacts, &clue_cells);
        let (accepted, reason) = verifier.verify_round(&commitment, &response, challenge);
        assert!(accepted, "round {} rejected: {:?}", round, reason);
        assert!(reason.is_none());
    }
}

#[test]
fn zkp_honest_session_accepts_every_challenge_kind() {
    let (mut prover, verifier, clue_cells) = session_pair(1);
    let mut challenges = vec![ChallengeType::Clue];
    for k in 0..9 {
        challenges.push(ChallengeType::Row(k));
        challenges.push(ChallengeType::Col(k));
        challenges.push(ChallengeType::Box(k));
    }
    for challenge in challenges {
        let (commitment, artifacts) = prover.prepare_round();
        let response = prover.respond_to_challenge(0, challenge, &artifacts, &clue_cells);
        let (accepted, reason) = verifier.verify_round(&commitment, &response, challenge);
        assert!(accepted, "challenge {:?} rejected: {:?}", challenge, reason);
    }
}

/// Build cheating artifacts: the prover commits honestly to a board `m`
/// (possibly corrupted) under a fresh mapping.
fn commit_board(
    prover: &mut Prover,
    m: Vec<Vec<u8>>,
    mapping: Vec<u8>,
) -> (CommitmentMessage, RoundArtifacts) {
    let _ = prover;
    let (board_commit, board_randomness) = m.commit();
    let (mapping_commit, mapping_randomness) = mapping.commit();
    (
        CommitmentMessage { round: 0, board_commit, mapping_commit },
        RoundArtifacts { mapping, mapping_randomness, mapped_solution: m, board_randomness },
    )
}

#[test]
fn zkp_cheating_prover_row_rejected() {
    let (mut prover, verifier, clue_cells) = session_pair(1);
    let mapping = prover.sudo.gen_cast();
    let mut m = Prover::apply_mapping(&prover.sudo.get_solution(), &mapping);
    // force digit 7 to appear twice in row 4
    let col = if m[4][0] != 7 { 0 } else { 1 };
    m[4][col] = 7;
    let (commitment, artifacts) = commit_board(&mut prover, m, mapping);
    let challenge = ChallengeType::Row(4);
    let response = prover.respond_to_challenge(0, challenge, &artifacts, &clue_cells);
    let (accepted, reason) = verifier.verify_round(&commitment, &response, challenge);
    assert!(!accepted);
    assert_eq!(reason.unwrap(), "Row violates Sudoku constraint");
}

#[test]
fn zkp_cheat_on_clue_rejected() {
    let (mut prover, verifier, clue_cells) = session_pair(1);
    let mapping = prover.sudo.gen_cast();
    let mut m = Prover::apply_mapping(&prover.sudo.get_solution(), &mapping);
    // lie about the mapped value of the first public clue
    let (r0, c0, _v0) = clue_cells[0];
    m[r0][c0] = (m[r0][c0] % 9) + 1;
    let (commitment, artifacts) = commit_board(&mut prover, m, mapping);
    let response = prover.respond_to_challenge(0, ChallengeType::Clue, &artifacts, &clue_cells);
    let (accepted, reason) = verifier.verify_round(&commitment, &response, ChallengeType::Clue);
    assert!(!accepted);
    assert_eq!(reason.unwrap(), "Clue mapping inconsistent");
}

#[test]
fn zkp_round_mismatch_rejected() {
    let (mut prover, verifier, clue_cells) = session_pair(1);
    let (mut commitment, artifacts) = prover.prepare_round();
    commitment.round = 1;
    let challenge = ChallengeType::Row(0);
    let response = prover.respond_to_challenge(0, challenge, &artifacts, &clue_cells);
    let (accepted, reason) = verifier.verify_round(&commitment, &response, challenge);
    assert!(!accepted);
    assert_eq!(reason.unwrap(), "Response round mismatch");
}

#[test]
fn zkp_payload_kind_mismatch_rejected() {
    let (mut prover, verifier, clue_cells) = session_pair(1);
    let (commitment, artifacts) = prover.prepare_round();
    let response = prover.respond_to_challenge(0, ChallengeType::Row(2), &artifacts, &clue_cells);
    let (accepted, reason) = verifier.verify_round(&commitment, &response, ChallengeType::Col(2));
    assert!(!accepted);
    assert_eq!(reason.unwrap(), "Challenge/response type mismatch");
}

#[test]
fn zkp_malformed_commitment_rejected() {
    let (mut prover, verifier, clue_cells) = session_pair(1);
    let (mut commitment, artifacts) = prover.prepare_round();
    commitment.board_commit.pop();
    let challenge = ChallengeType::Row(0);
    let response = prover.respond_to_challenge(0, challenge, &artifacts, &clue_cells);
    let (accepted, reason) = verifier.verify_round(&commitment, &response, challenge);
    assert!(!accepted);
    assert_eq!(reason.unwrap(), "Commitment malformed");
}

#[test]
fn zkp_missing_clue_reveal_rejected() {
    let (mut prover, verifier, clue_cells) = session_pair(1);
    let (commitment, artifacts) = prover.prepare_round();
    let mut response =
        prover.respond_to_challenge(0, ChallengeType::Clue, &artifacts, &clue_cells);
    match &mut response.payload {
        RevealPayload::Clue(data) => {
            data.clues.clear();
        }
        _ => panic!("expected a clue payload"),
    }
    let (accepted, reason) = verifier.verify_round(&commitment, &response, ChallengeType::Clue);
    assert!(!accepted);
    assert_eq!(reason.unwrap(), "Missing clue reveal");
}

#[test]
fn zkp_wrong_randomness_rejected() {
    let (mut prover, verifier, clue_cells) = session_pair(1);
    let (commitment, artifacts) = prover.prepare_round();
    let challenge = ChallengeType::Row(3);
    let mut response = prover.respond_to_challenge(0, challenge, &artifacts, &clue_cells);
    match &mut response.payload {
        RevealPayload::Row(line) => {
            line.randomness[5] = line.randomness[5].wrapping_add(1);
        }
        _ => panic!("expected a row payload"),
    }
    let (accepted, reason) = verifier.verify_round(&commitment, &response, challenge);
    assert!(!accepted);
    assert_eq!(reason.unwrap(), "Row commitment mismatch");
}

#[test]
fn parser_rejects_bad_arguments() {
    let short = vec!["prover".to_string()];
    assert!(parser(short).is_err());
    let bad_rounds = vec![
        "prover".to_string(),
        "-".to_string(),
        "-".to_string(),
        "ten".to_string(),
        "30".to_string(),
    ];
    assert!(parser(bad_rounds).is_err());
    let bad_clues = vec![
        "prover".to_string(),
        "-".to_string(),
        "-".to_string(),
        "10".to_string(),
        "999".to_string(),
    ];
    assert!(parser(bad_clues).is_err());
}

#[test]
fn prover_clamps_clues_to_thirty() {
    let p = Prover::new(None, None, None, Some(5));
    assert_eq!(p.clues, 30);
    let q = Prover::new(None, None, None, Some(45));
    assert_eq!(q.clues, 45);
    let d = Prover::new(None, None, None, None);
    assert_eq!(d.rounds, 10);
    assert_eq!(d.clues, 30);
}

#[test]
fn prover_message_variants_exist() {
    let abort = ProverMessage::Abort("bye".to_string());
    match abort {
        ProverMessage::Abort(reason) => assert_eq!(reason, "bye"),
        _ => panic!("wrong variant"),
    }
}
