use satellites::encode::encode_features;
use satellites::state::ActionType;
use satellites::state::EngineError;
use satellites::state::GameState;
use satellites::state::Phase;
use satellites::state::Winner;

#[allow(clippy::too_many_arguments)]
fn encode(
    owner: &Vec<i8>,
    kind: &Vec<u8>,
    count: &Vec<u8>,
    artefact: &Vec<bool>,
    p0: &Vec<bool>,
    p1: &Vec<bool>,
    turn: u8,
    score0: i16,
    score1: i16,
    phase: Phase,
    active: i8,
    remaining: i16,
    picked: i16,
    turn_count: i16,
    max_turns: i16,
    types: &Vec<u8>,
    charges: &Vec<u8>,
) -> Vec<(i32, i32)> {
    encode_features(
        owner, kind, count, artefact, p0, p1, turn, score0, score1, phase, active, remaining,
        picked, turn_count, max_turns, types, charges,
    )
    .unwrap()
}

#[test]
fn feature_vector_has_fixed_length() {
    let owner = vec![-1i8; 88];
    let kind = vec![0u8; 88];
    let count = vec![0u8; 88];
    let flags = vec![false; 88];
    let types = vec![0u8, 1, 2, 3, 0, 1];
    let charges = vec![0u8; 6];
    let v = encode(
        &owner,
        &kind,
        &count,
        &flags,
        &flags,
        &flags,
        0,
        0,
        0,
        Phase::ChooseSatellite,
        -1,
        0,
        0,
        0,
        10,
        &types,
        &charges,
    );
    assert_eq!(v.len(), 7 * 88 + 48);
    assert_eq!(v.len(), 664);
}

#[test]
fn cell_features_encode_owner_kind_and_flags() {
    let mut owner = vec![-1i8; 88];
    let mut kind = vec![0u8; 88];
    let mut count = vec![0u8; 88];
    let mut artefact = vec![false; 88];
    let mut p0 = vec![false; 88];
    let mut p1 = vec![false; 88];
    owner[5] = 0;
    kind[5] = 2;
    count[5] = 4;
    owner[9] = 1;
    kind[9] = 1;
    count[9] = 7;
    artefact[7] = true;
    p0[3] = true;
    p1[83] = true;
    let types = vec![0u8, 1, 2, 3, 0, 1];
    let charges = vec![0u8; 6];
    let v = encode(
        &owner,
        &kind,
        &count,
        &artefact,
        &p0,
        &p1,
        0,
        0,
        0,
        Phase::ChooseSatellite,
        -1,
        0,
        0,
        0,
        10,
        &types,
        &charges,
    );
    // Player 0 tank stack of 4 on cell 5: slot 1 of its 7 values.
    assert_eq!(v[5 * 7 + 1], (4, 20));
    assert_eq!(v[5 * 7 + 0], (0, 20));
    assert_eq!(v[5 * 7 + 2], (0, 20));
    assert_eq!(v[5 * 7 + 3], (0, 20));
    // Player 1 bot stack of 7 on cell 9: slot 2.
    assert_eq!(v[9 * 7 + 2], (7, 20));
    // Flags.
    assert_eq!(v[7 * 7 + 4], (1, 1));
    assert_eq!(v[3 * 7 + 5], (1, 1));
    assert_eq!(v[83 * 7 + 6], (1, 1));
    assert_eq!(v[2 * 7 + 4], (0, 1));
}

#[test]
fn global_features_follow_the_layout() {
    let owner = vec![-1i8; 88];
    let kind = vec![0u8; 88];
    let count = vec![0u8; 88];
    let flags = vec![false; 88];
    let types = vec![0u8, 1, 2, 3, 0, 1];
    let charges = vec![1u8, 2, 3, 0, 1, 2];
    let v = encode(
        &owner,
        &kind,
        &count,
        &flags,
        &flags,
        &flags,
        1,
        3,
        7,
        Phase::PerformActions,
        4,
        2,
        3,
        5,
        20,
        &types,
        &charges,
    );
    let g = 7 * 88;
    // Mover one-hot.
    assert_eq!(v[g], (0, 1));
    assert_eq!(v[g + 1], (1, 1));
    // Scores over 9.
    assert_eq!(v[g + 2], (3, 9));
    assert_eq!(v[g + 3], (7, 9));
    // Phase one-hot: PerformActions is the third bucket.
    assert_eq!(&v[g + 4..g + 8], &[(0, 1), (0, 1), (1, 1), (0, 1)]);
    // Active satellite one-hot: slot 4.
    assert_eq!(
        &v[g + 8..g + 15],
        &[(0, 1), (0, 1), (0, 1), (0, 1), (1, 1), (0, 1), (0, 1)]
    );
    // Counters.
    assert_eq!(v[g + 15], (2, 3));
    assert_eq!(v[g + 16], (3, 3));
    assert_eq!(v[g + 17], (5, 20));
    // Satellite slots: type one-hot plus charge over 3.
    assert_eq!(&v[g + 18..g + 23], &[(1, 1), (0, 1), (0, 1), (0, 1), (1, 3)]);
    assert_eq!(&v[g + 23..g + 28], &[(0, 1), (1, 1), (0, 1), (0, 1), (2, 3)]);
    assert_eq!(&v[g + 28..g + 33], &[(0, 1), (0, 1), (1, 1), (0, 1), (3, 3)]);
    assert_eq!(&v[g + 33..g + 38], &[(0, 1), (0, 1), (0, 1), (1, 1), (0, 3)]);
    assert_eq!(&v[g + 38..g + 43], &[(1, 1), (0, 1), (0, 1), (0, 1), (1, 3)]);
    assert_eq!(&v[g + 43..g + 48], &[(0, 1), (1, 1), (0, 1), (0, 1), (2, 3)]);
}

#[test]
fn no_active_satellite_uses_the_none_bucket() {
    let owner = vec![-1i8; 88];
    let kind = vec![0u8; 88];
    let count = vec![0u8; 88];
    let flags = vec![false; 88];
    let types = vec![0u8; 6];
    let charges = vec![0u8; 6];
    let v = encode(
        &owner,
        &kind,
        &count,
        &flags,
        &flags,
        &flags,
        0,
        0,
        0,
        Phase::GameOver,
        -1,
        0,
        0,
        0,
        10,
        &types,
        &charges,
    );
    let g = 7 * 88;
    assert_eq!(
        &v[g + 8..g + 15],
        &[(0, 1), (0, 1), (0, 1), (0, 1), (0, 1), (0, 1), (1, 1)]
    );
    // GameOver is the fourth phase bucket.
    assert_eq!(&v[g + 4..g + 8], &[(0, 1), (0, 1), (0, 1), (1, 1)]);
}

#[test]
fn degenerate_turn_limit_normalizes_by_one() {
    let owner = vec![-1i8; 88];
    let kind = vec![0u8; 88];
    let count = vec![0u8; 88];
    let flags = vec![false; 88];
    // An unknown satellite type code sets no one-hot at all.
    let types = vec![9u8; 6];
    let charges = vec![0u8; 6];
    let v = encode(
        &owner,
        &kind,
        &count,
        &flags,
        &flags,
        &flags,
        0,
        0,
        0,
        Phase::ChooseSatellite,
        -1,
        0,
        0,
        7,
        0,
        &types,
        &charges,
    );
    let g = 7 * 88;
    assert_eq!(v[g + 17], (7, 1));
    assert_eq!(&v[g + 18..g + 23], &[(0, 1), (0, 1), (0, 1), (0, 1), (0, 3)]);
}

#[test]
fn encoder_rejects_bad_lengths() {
    let owner = vec![-1i8; 88];
    let kind = vec![0u8; 87];
    let count = vec![0u8; 88];
    let flags = vec![false; 88];
    let types = vec![0u8; 6];
    let charges = vec![0u8; 6];
    let r = encode_features(
        &owner,
        &kind,
        &count,
        &flags,
        &flags,
        &flags,
        0,
        0,
        0,
        Phase::ChooseSatellite,
        -1,
        0,
        0,
        0,
        10,
        &types,
        &charges,
    );
    assert_eq!(r, Err(EngineError::LengthMismatch));
    let kind_ok = vec![0u8; 88];
    let short = vec![0u8; 5];
    let r2 = encode_features(
        &owner,
        &kind_ok,
        &count,
        &flags,
        &flags,
        &flags,
        0,
        0,
        0,
        Phase::ChooseSatellite,
        -1,
        0,
        0,
        0,
        10,
        &short,
        &charges,
    );
    assert_eq!(r2, Err(EngineError::SatelliteLengthMismatch));
}

#[test]
fn state_method_matches_free_encoder() {
    let mut owner = vec![-1i8; 88];
    let mut kind = vec![0u8; 88];
    let mut count = vec![0u8; 88];
    let mut artefact = vec![false; 88];
    owner[12] = 1;
    kind[12] = 2;
    count[12] = 6;
    artefact[33] = true;
    let p0 = vec![false; 88];
    let p1 = vec![false; 88];
    let types = vec![2u8, 3, 0, 1, 2, 3];
    let charges = vec![0u8, 1, 2, 3, 4, 5];
    let g = GameState::new(
        owner.clone(),
        kind.clone(),
        count.clone(),
        artefact.clone(),
        p0.clone(),
        p1.clone(),
        types.clone(),
        charges.clone(),
        1,
        2,
        5,
        Phase::ChooseDirection,
        3,
        0,
        4,
        ActionType::AddTank,
        6,
        50,
        Winner::Undetermined,
    )
    .unwrap();
    let direct = encode_features(
        &owner,
        &kind,
        &count,
        &artefact,
        &p0,
        &p1,
        1,
        2,
        5,
        Phase::ChooseDirection,
        3,
        0,
        4,
        6,
        50,
        &types,
        &charges,
    )
    .unwrap();
    assert_eq!(g.encode_features(), direct);
}
