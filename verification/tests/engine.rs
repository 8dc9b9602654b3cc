use satellites::board::Topology;
use satellites::state::ActionType;
use satellites::state::EngineError;
use satellites::state::GameState;
use satellites::state::Phase;
use satellites::state::Winner;

#[allow(clippy::too_many_arguments)]
fn make_state(
    owner: Vec<i8>,
    kind: Vec<u8>,
    count: Vec<u8>,
    artefact: Vec<bool>,
    sat_charges: Vec<u8>,
    turn: u8,
    score0: i16,
    score1: i16,
    phase: Phase,
    active: i8,
    remaining: i16,
    picked: i16,
    action_type: ActionType,
    turn_count: i16,
    max_turns: i16,
) -> GameState {
    let mut p0 = vec![false; 88];
    let mut p1 = vec![false; 88];
    p0[3] = true;
    p0[4] = true;
    p1[83] = true;
    p1[84] = true;
    GameState::new(
        owner,
        kind,
        count,
        artefact,
        p0,
        p1,
        vec![0, 1, 2, 3, 0, 1],
        sat_charges,
        turn,
        score0,
        score1,
        phase,
        active,
        remaining,
        picked,
        action_type,
        turn_count,
        max_turns,
        Winner::Undetermined,
    )
    .unwrap()
}

fn cells_consistent(g: &GameState) -> bool {
    (0..88).all(|i| {
        let empty = g.unit_owner[i] == -1;
        let zero = g.unit_count[i] == 0;
        empty == zero && (!zero || true) && (zero || g.unit_kind[i] == 1 || g.unit_kind[i] == 2)
    })
}

#[test]
fn construction_validates_inputs() {
    let p0 = vec![false; 88];
    let r = GameState::new(
        vec![-1; 87],
        vec![0; 88],
        vec![0; 88],
        vec![false; 88],
        p0.clone(),
        p0.clone(),
        vec![0; 6],
        vec![0; 6],
        0,
        0,
        0,
        Phase::ChooseSatellite,
        -1,
        0,
        0,
        ActionType::Unset,
        0,
        10,
        Winner::Undetermined,
    );
    assert_eq!(r.err(), Some(EngineError::LengthMismatch));
    let r2 = GameState::new(
        vec![-1; 88],
        vec![0; 88],
        vec![0; 88],
        vec![false; 88],
        p0.clone(),
        p0.clone(),
        vec![0; 5],
        vec![0; 6],
        0,
        0,
        0,
        Phase::ChooseSatellite,
        -1,
        0,
        0,
        ActionType::Unset,
        0,
        10,
        Winner::Undetermined,
    );
    assert_eq!(r2.err(), Some(EngineError::SatelliteLengthMismatch));
    let r3 = GameState::new(
        vec![-1; 88],
        vec![0; 88],
        vec![0; 88],
        vec![false; 88],
        p0.clone(),
        p0.clone(),
        vec![0; 6],
        vec![0; 6],
        2,
        0,
        0,
        Phase::ChooseSatellite,
        -1,
        0,
        0,
        ActionType::Unset,
        0,
        10,
        Winner::Undetermined,
    );
    assert_eq!(r3.err(), Some(EngineError::InvalidPlayer));
    let r4 = GameState::new(
        vec![-1; 88],
        vec![0; 88],
        vec![0; 88],
        vec![false; 88],
        p0.clone(),
        p0,
        vec![0; 6],
        vec![0; 6],
        0,
        0,
        0,
        Phase::ChooseSatellite,
        6,
        0,
        0,
        ActionType::Unset,
        0,
        10,
        Winner::Undetermined,
    );
    assert_eq!(r4.err(), Some(EngineError::InvalidSatelliteIndex));
}

#[test]
fn getters_report_state() {
    let g = make_state(
        vec![-1; 88],
        vec![0; 88],
        vec![0; 88],
        vec![false; 88],
        vec![0; 6],
        1,
        0,
        0,
        Phase::GameOver,
        -1,
        0,
        0,
        ActionType::Unset,
        0,
        10,
    );
    assert!(g.is_terminal());
    assert_eq!(g.current_player(), 1);
    assert_eq!(g.winner(), Winner::Undetermined);
}

#[test]
fn choosing_a_satellite_picks_up_its_charge() {
    // Satellite slot 2 has charge 3 and type add_tank.
    let topo = Topology::new();
    let mut g = make_state(
        vec![-1; 88],
        vec![0; 88],
        vec![0; 88],
        vec![false; 88],
        vec![0, 0, 3, 0, 0, 0],
        0,
        0,
        0,
        Phase::ChooseSatellite,
        -1,
        0,
        0,
        ActionType::Unset,
        0,
        10,
    );
    assert!(g.apply_action_index(2, 3, &topo));
    assert_eq!(g.action_type, ActionType::AddTank);
    assert_eq!(g.picked_up_charges, 3);
    assert_eq!(g.sat_charges[2], 0);
    assert_eq!(g.active_satellite_idx, 2);
    assert_eq!(g.phase, Phase::ChooseDirection);
}

#[test]
fn choosing_an_uncharged_slot_is_a_no_op() {
    let topo = Topology::new();
    let mut g = make_state(
        vec![-1; 88],
        vec![0; 88],
        vec![0; 88],
        vec![false; 88],
        vec![0, 0, 3, 0, 0, 0],
        0,
        0,
        0,
        Phase::ChooseSatellite,
        -1,
        0,
        0,
        ActionType::Unset,
        0,
        10,
    );
    assert!(!g.apply_action_index(0, 3, &topo));
    assert!(!g.apply_action_index(6, 3, &topo));
    assert_eq!(g.phase, Phase::ChooseSatellite);
    assert_eq!(g.sat_charges, vec![0, 0, 3, 0, 0, 0]);
}

#[test]
fn clockwise_distribution_steps_the_ring() {
    // Slot 2 was chosen with charge 3; clockwise distribution feeds slots
    // 3, 4 and 5 one unit each.
    let topo = Topology::new();
    let mut artefact = vec![false; 88];
    artefact[40] = true;
    let mut g = make_state(
        vec![-1; 88],
        vec![0; 88],
        vec![0; 88],
        artefact,
        vec![0, 0, 3, 0, 0, 0],
        0,
        0,
        0,
        Phase::ChooseSatellite,
        -1,
        0,
        0,
        ActionType::Unset,
        0,
        10,
    );
    assert!(g.apply_action_index(2, 3, &topo));
    assert!(g.apply_action_index(7, 3, &topo));
    assert_eq!(g.sat_charges, vec![0, 0, 0, 1, 1, 1]);
    assert_eq!(g.phase, Phase::PerformActions);
    assert_eq!(g.actions_remaining, 3);
}

#[test]
fn counter_clockwise_distribution_wraps() {
    let topo = Topology::new();
    let mut artefact = vec![false; 88];
    artefact[40] = true;
    let mut g = make_state(
        vec![-1; 88],
        vec![0; 88],
        vec![0; 88],
        artefact,
        vec![0, 0, 0, 0, 0, 2],
        0,
        0,
        0,
        Phase::ChooseSatellite,
        -1,
        0,
        0,
        ActionType::Unset,
        0,
        10,
    );
    // Slot 5 has type move_bot (code 1).
    assert!(g.apply_action_index(5, 3, &topo));
    assert!(g.apply_action_index(6, 3, &topo));
    // Counter-clockwise from 5: slots 4 and 3 gain one each; with no bot
    // to move, the turn ends at once for the other player.
    assert_eq!(g.sat_charges, vec![0, 0, 0, 1, 1, 0]);
    assert_eq!(g.phase, Phase::ChooseSatellite);
    assert_eq!(g.turn, 1);
    assert_eq!(g.action_type, ActionType::Unset);
}

#[test]
fn add_bot_on_the_start_hex() {
    // A board empty of units except for the mover's own start hex; one
    // artefact elsewhere keeps the game open.
    let topo = Topology::new();
    let mut artefact = vec![false; 88];
    artefact[40] = true;
    let mut g = make_state(
        vec![-1; 88],
        vec![0; 88],
        vec![0; 88],
        artefact,
        vec![0; 6],
        0,
        0,
        0,
        Phase::PerformActions,
        3,
        2,
        2,
        ActionType::AddBot,
        0,
        10,
    );
    // Only the two start hexes are open to a bot; narrow to one.
    let mut g1 = g.clone();
    g1.is_p0_start[4] = false;
    let legal = g1.legal_action_indices(3, &topo);
    assert_eq!(legal, vec![8 + 3]);
    assert!(g1.apply_action_index(8 + 3, 3, &topo));
    assert_eq!(g1.unit_owner[3], 0);
    assert_eq!(g1.unit_kind[3], 1);
    assert_eq!(g1.unit_count[3], 1);
    assert_eq!(g1.actions_remaining, 1);
    assert!(cells_consistent(&g1));
    // On the unrestricted board both start hexes are listed.
    let legal2 = g.legal_action_indices(3, &topo);
    assert_eq!(legal2, vec![8 + 3, 8 + 4]);
    assert!(g.apply_action_index(8 + 4, 3, &topo));
    assert_eq!(g.unit_kind[4], 1);
}

#[test]
fn every_legal_index_applies_and_no_other_changes_anything() {
    let topo = Topology::new();
    let mut owner = vec![-1i8; 88];
    let mut kind = vec![0u8; 88];
    let mut count = vec![0u8; 88];
    let mut artefact = vec![false; 88];
    owner[20] = 0;
    kind[20] = 2;
    count[20] = 3;
    owner[21] = 1;
    kind[21] = 2;
    count[21] = 2;
    artefact[60] = true;
    let g = make_state(
        owner,
        kind,
        count,
        artefact,
        vec![0; 6],
        0,
        0,
        0,
        Phase::PerformActions,
        0,
        5,
        5,
        ActionType::MoveTank,
        0,
        10,
    );
    let m = 4u8;
    let legal = g.legal_action_indices(m, &topo);
    assert!(!legal.is_empty());
    for &idx in legal.iter() {
        let mut c = g.clone();
        assert!(c.apply_action_index(idx, m, &topo), "legal index {} must apply", idx);
    }
    let before = g.encode_features();
    for idx in [0usize, 6, 7, 8 + 20, 95, 96 + 2000, 5000] {
        if legal.contains(&idx) {
            continue;
        }
        let mut c = g.clone();
        assert!(!c.apply_action_index(idx, m, &topo), "index {} must be refused", idx);
        assert_eq!(c.encode_features(), before);
    }
}

#[test]
fn bot_capture_scores_the_moved_amount() {
    let topo = Topology::new();
    let mut owner = vec![-1i8; 88];
    let mut kind = vec![0u8; 88];
    let mut count = vec![0u8; 88];
    let mut artefact = vec![false; 88];
    owner[0] = 0;
    kind[0] = 1;
    count[0] = 3;
    artefact[1] = true;
    artefact[60] = true;
    let mut g = make_state(
        owner,
        kind,
        count,
        artefact,
        vec![0; 6],
        0,
        0,
        0,
        Phase::PerformActions,
        0,
        5,
        5,
        ActionType::MoveBot,
        0,
        10,
    );
    // Edge out of cell 0 to neighbor 1 is ordinal 0; move 2 bots.
    let idx = 96 + 0 * 4 + (2 - 1);
    assert!(g.apply_action_index(idx, 4, &topo));
    assert!(!g.is_artefact[1], "capture clears the artefact");
    assert_eq!(g.score0, 2, "capture scores exactly the moved amount");
    assert_eq!(g.unit_owner[1], 0);
    assert_eq!(g.unit_kind[1], 1);
    assert_eq!(g.unit_count[1], 2);
    assert_eq!(g.unit_count[0], 1);
    assert!(cells_consistent(&g));
}

#[test]
fn ranged_attack_keeps_the_attacker_at_home() {
    let topo = Topology::new();
    let mut owner = vec![-1i8; 88];
    let mut kind = vec![0u8; 88];
    let mut count = vec![0u8; 88];
    let mut artefact = vec![false; 88];
    owner[0] = 0;
    kind[0] = 2;
    count[0] = 5;
    owner[1] = 1;
    kind[1] = 2;
    count[1] = 2;
    artefact[60] = true;
    let mut g = make_state(
        owner,
        kind,
        count,
        artefact.clone(),
        vec![0; 6],
        0,
        0,
        0,
        Phase::PerformActions,
        0,
        5,
        5,
        ActionType::MoveTank,
        0,
        10,
    );
    // Attack with 3 tanks along edge ordinal 0 (cell 0 to cell 1).
    let idx = 96 + 0 * 4 + (3 - 1);
    assert!(g.apply_action_index(idx, 4, &topo));
    assert_eq!(g.unit_owner[1], -1, "the target stack is destroyed");
    assert_eq!(g.unit_count[1], 0);
    assert_eq!(g.unit_owner[0], 0, "the attacker holds its cell");
    assert_eq!(g.unit_count[0], 5, "the attacking amount returns home");
    assert_eq!(g.score0, 0, "a ranged resolution never scores");
    assert_eq!(g.is_artefact, artefact, "artefacts are untouched");
    assert!(cells_consistent(&g));
}

#[test]
fn mover_wins_at_the_winning_score() {
    let topo = Topology::new();
    let mut owner = vec![-1i8; 88];
    let mut kind = vec![0u8; 88];
    let mut count = vec![0u8; 88];
    let mut artefact = vec![false; 88];
    owner[0] = 0;
    kind[0] = 1;
    count[0] = 4;
    artefact[1] = true;
    artefact[60] = true;
    let mut g = make_state(
        owner,
        kind,
        count,
        artefact,
        vec![0; 6],
        0,
        6,
        0,
        Phase::PerformActions,
        0,
        5,
        5,
        ActionType::MoveBot,
        0,
        10,
    );
    // Capturing 3 raises the score to 9: the mover wins at once.
    let idx = 96 + 0 * 4 + (3 - 1);
    assert!(g.apply_action_index(idx, 4, &topo));
    assert_eq!(g.score0, 9);
    assert_eq!(g.phase, Phase::GameOver);
    assert_eq!(g.winner(), Winner::Player0);
}

#[test]
fn artefact_exhaustion_tie_goes_to_the_mover() {
    let topo = Topology::new();
    let mut owner = vec![-1i8; 88];
    let mut kind = vec![0u8; 88];
    let mut count = vec![0u8; 88];
    owner[0] = 1;
    kind[0] = 1;
    count[0] = 2;
    // No artefacts anywhere; scores are level; player 1 moves.
    let mut g = make_state(
        owner,
        kind,
        count,
        vec![false; 88],
        vec![0; 6],
        1,
        4,
        4,
        Phase::PerformActions,
        0,
        5,
        5,
        ActionType::MoveBot,
        0,
        10,
    );
    let idx = 96 + 0 * 4 + (1 - 1);
    assert!(g.apply_action_index(idx, 4, &topo));
    assert_eq!(g.phase, Phase::GameOver);
    assert_eq!(g.winner(), Winner::Player1, "an exact tie goes to the current mover");
}

#[test]
fn turn_limit_tie_is_a_draw() {
    let topo = Topology::new();
    let mut owner = vec![-1i8; 88];
    let mut kind = vec![0u8; 88];
    let mut count = vec![0u8; 88];
    let mut artefact = vec![false; 88];
    owner[0] = 0;
    kind[0] = 1;
    count[0] = 2;
    artefact[60] = true;
    // The turn limit is reached and scores are level: the last action of
    // the turn ends the game in a draw, not a mover win.
    let mut g = make_state(
        owner,
        kind,
        count,
        artefact,
        vec![0; 6],
        0,
        4,
        4,
        Phase::PerformActions,
        0,
        1,
        1,
        ActionType::MoveBot,
        10,
        10,
    );
    let idx = 96 + 0 * 4 + (1 - 1);
    assert!(g.apply_action_index(idx, 4, &topo));
    assert_eq!(g.phase, Phase::GameOver);
    assert_eq!(g.winner(), Winner::Draw, "the turn-limit tie-break is a draw");
}

#[test]
fn turn_passes_and_round_counter_advances() {
    let topo = Topology::new();
    let mut owner = vec![-1i8; 88];
    let mut kind = vec![0u8; 88];
    let mut count = vec![0u8; 88];
    let mut artefact = vec![false; 88];
    owner[0] = 1;
    kind[0] = 1;
    count[0] = 2;
    artefact[60] = true;
    let mut g = make_state(
        owner,
        kind,
        count,
        artefact,
        vec![0; 6],
        1,
        0,
        0,
        Phase::PerformActions,
        0,
        1,
        1,
        ActionType::MoveBot,
        3,
        10,
    );
    let idx = 96 + 0 * 4 + (1 - 1);
    assert!(g.apply_action_index(idx, 4, &topo));
    assert_eq!(g.turn, 0, "control passes to the other player");
    assert_eq!(g.turn_count, 4, "the round counter advances when control returns to player 0");
    assert_eq!(g.phase, Phase::ChooseSatellite);
    assert_eq!(g.active_satellite_idx, -1);
    assert_eq!(g.actions_remaining, 0);
    assert_eq!(g.picked_up_charges, 0);
}

#[test]
fn clones_are_independent() {
    let topo = Topology::new();
    let mut artefact = vec![false; 88];
    artefact[40] = true;
    let g = make_state(
        vec![-1; 88],
        vec![0; 88],
        vec![0; 88],
        artefact,
        vec![0, 0, 3, 0, 0, 0],
        0,
        0,
        0,
        Phase::ChooseSatellite,
        -1,
        0,
        0,
        ActionType::Unset,
        0,
        10,
    );
    let mut c = g.clone();
    assert!(c.apply_action_index(2, 3, &topo));
    assert_eq!(g.sat_charges[2], 3, "the original is untouched");
    assert_eq!(c.sat_charges[2], 0);
    assert_eq!(g.phase, Phase::ChooseSatellite);
}

#[test]
fn applying_on_a_finished_game_changes_nothing() {
    let topo = Topology::new();
    let mut g = make_state(
        vec![-1; 88],
        vec![0; 88],
        vec![0; 88],
        vec![false; 88],
        vec![3; 6],
        0,
        0,
        0,
        Phase::GameOver,
        -1,
        0,
        0,
        ActionType::Unset,
        0,
        10,
    );
    for idx in 0..10usize {
        assert!(!g.apply_action_index(idx, 3, &topo));
    }
    assert_eq!(g.phase, Phase::GameOver);
}

#[test]
fn reinforcing_a_tank_on_a_flagged_cell_applies() {
    // A host-built state may hold an own tank stack on an artefact cell;
    // the enumerator lists its reinforcement and applying it must succeed.
    let topo = Topology::new();
    let mut owner = vec![-1i8; 88];
    let mut kind = vec![0u8; 88];
    let mut count = vec![0u8; 88];
    let mut artefact = vec![false; 88];
    owner[20] = 0;
    kind[20] = 2;
    count[20] = 3;
    artefact[20] = true;
    let mut g = make_state(
        owner,
        kind,
        count,
        artefact,
        vec![0; 6],
        0,
        0,
        0,
        Phase::PerformActions,
        0,
        5,
        5,
        ActionType::AddTank,
        0,
        10,
    );
    let legal = g.legal_action_indices(3, &topo);
    assert!(legal.contains(&(8 + 20)));
    assert!(g.apply_action_index(8 + 20, 3, &topo));
    assert_eq!(g.unit_count[20], 4);
    assert!(g.is_artefact[20], "reinforcement does not touch the artefact");
}
