use satellites::board::Topology;
use satellites::legal::count_valid_tank_adds;
use satellites::legal::generate_legal_action_indices;
use satellites::legal::generate_move_actions;
use satellites::state::ActionType;
use satellites::state::EngineError;
use satellites::state::Phase;

fn empty_board() -> (Vec<i8>, Vec<u8>, Vec<u8>, Vec<bool>, Vec<bool>, Vec<bool>) {
    let owner = vec![-1i8; 88];
    let kind = vec![0u8; 88];
    let count = vec![0u8; 88];
    let artefact = vec![false; 88];
    let mut p0 = vec![false; 88];
    let mut p1 = vec![false; 88];
    p0[3] = true;
    p0[4] = true;
    p1[83] = true;
    p1[84] = true;
    (owner, kind, count, artefact, p0, p1)
}

#[test]
fn choose_satellite_lists_charged_slots_sorted() {
    let topo = Topology::new();
    let (owner, kind, count, artefact, p0, p1) = empty_board();
    let charges = vec![0u8, 2, 0, 1, 0, 5];
    let v = generate_legal_action_indices(
        Phase::ChooseSatellite,
        ActionType::Unset,
        0,
        &charges,
        &owner,
        &kind,
        &count,
        &artefact,
        &p0,
        &p1,
        3,
        &topo,
    )
    .unwrap();
    assert_eq!(v, vec![1, 3, 5]);
}

#[test]
fn choose_direction_is_six_and_seven() {
    let topo = Topology::new();
    let (owner, kind, count, artefact, p0, p1) = empty_board();
    let charges = vec![0u8; 6];
    let v = generate_legal_action_indices(
        Phase::ChooseDirection,
        ActionType::Unset,
        0,
        &charges,
        &owner,
        &kind,
        &count,
        &artefact,
        &p0,
        &p1,
        3,
        &topo,
    )
    .unwrap();
    assert_eq!(v, vec![6, 7]);
}

#[test]
fn game_over_and_zero_cap_list_nothing() {
    let topo = Topology::new();
    let (owner, kind, count, artefact, p0, p1) = empty_board();
    let charges = vec![4u8; 6];
    let v = generate_legal_action_indices(
        Phase::GameOver,
        ActionType::Unset,
        0,
        &charges,
        &owner,
        &kind,
        &count,
        &artefact,
        &p0,
        &p1,
        3,
        &topo,
    )
    .unwrap();
    assert!(v.is_empty());
    let v0 = generate_legal_action_indices(
        Phase::ChooseSatellite,
        ActionType::Unset,
        0,
        &charges,
        &owner,
        &kind,
        &count,
        &artefact,
        &p0,
        &p1,
        0,
        &topo,
    )
    .unwrap();
    assert!(v0.is_empty());
}

#[test]
fn add_tank_skips_artefacts_and_opponent_start() {
    let topo = Topology::new();
    let (mut owner, mut kind, mut count, mut artefact, p0, p1) = empty_board();
    artefact[10] = true;
    // An own tank stack is a valid reinforcement target.
    owner[20] = 0;
    kind[20] = 2;
    count[20] = 3;
    // An enemy bot blocks its cell.
    owner[30] = 1;
    kind[30] = 1;
    count[30] = 1;
    let charges = vec![0u8; 6];
    let v = generate_legal_action_indices(
        Phase::PerformActions,
        ActionType::AddTank,
        0,
        &charges,
        &owner,
        &kind,
        &count,
        &artefact,
        &p0,
        &p1,
        3,
        &topo,
    )
    .unwrap();
    // Indices are 8 + cell id.
    assert!(!v.contains(&(8 + 10)), "artefact cell must be excluded");
    assert!(!v.contains(&(8 + 83)), "opponent start must be excluded");
    assert!(!v.contains(&(8 + 84)), "opponent start must be excluded");
    assert!(!v.contains(&(8 + 30)), "enemy cell must be excluded");
    assert!(v.contains(&(8 + 20)), "own tank stack must be included");
    assert!(v.contains(&(8 + 3)), "own start is open to tanks");
    assert!(v.contains(&(8 + 0)));
    // All other empty cells are open: 88 - artefact - 2 opp starts - enemy
    // cell, plus the own tank cell.
    assert_eq!(v.len(), 88 - 1 - 2 - 1 - 1 + 1);
}

#[test]
fn add_bot_lists_own_stacks_and_own_start() {
    let topo = Topology::new();
    let (mut owner, mut kind, mut count, artefact, p0, p1) = empty_board();
    owner[50] = 0;
    kind[50] = 1;
    count[50] = 2;
    let charges = vec![0u8; 6];
    let v = generate_legal_action_indices(
        Phase::PerformActions,
        ActionType::AddBot,
        0,
        &charges,
        &owner,
        &kind,
        &count,
        &artefact,
        &p0,
        &p1,
        3,
        &topo,
    )
    .unwrap();
    assert_eq!(v, vec![8 + 3, 8 + 4, 8 + 50]);
}

#[test]
fn army_cap_blocks_all_adds() {
    let topo = Topology::new();
    let (mut owner, mut kind, mut count, artefact, p0, p1) = empty_board();
    // 20 units owned by player 0: the cap is reached.
    owner[40] = 0;
    kind[40] = 2;
    count[40] = 20;
    let charges = vec![0u8; 6];
    let v = generate_legal_action_indices(
        Phase::PerformActions,
        ActionType::AddTank,
        0,
        &charges,
        &owner,
        &kind,
        &count,
        &artefact,
        &p0,
        &p1,
        3,
        &topo,
    )
    .unwrap();
    assert!(v.is_empty());
    // One unit below the cap frees the adds again.
    count[40] = 19;
    let v2 = generate_legal_action_indices(
        Phase::PerformActions,
        ActionType::AddTank,
        0,
        &charges,
        &owner,
        &kind,
        &count,
        &artefact,
        &p0,
        &p1,
        3,
        &topo,
    )
    .unwrap();
    assert!(!v2.is_empty());
    // The opponent is not capped by player 0's army.
    let v3 = generate_legal_action_indices(
        Phase::PerformActions,
        ActionType::AddTank,
        1,
        &charges,
        &owner,
        &kind,
        &count,
        &artefact,
        &p0,
        &p1,
        3,
        &topo,
    )
    .unwrap();
    assert!(!v3.is_empty());
}

#[test]
fn tank_versus_tank_needs_strictly_more() {
    let topo = Topology::new();
    let (mut owner, mut kind, mut count, artefact, _p0, _p1) = empty_board();
    // Player 0 tank stack of 5 on cell 0; enemy tank stack of 2 on cell 1.
    owner[0] = 0;
    kind[0] = 2;
    count[0] = 5;
    owner[1] = 1;
    kind[1] = 2;
    count[1] = 2;
    let v = generate_move_actions(&owner, &kind, &count, 0, 2, &artefact, &topo).unwrap();
    assert!(!v.contains(&(0, 1, 1)));
    assert!(!v.contains(&(0, 1, 2)), "equal amounts must not attack");
    assert!(v.contains(&(0, 1, 3)), "range starts at target count + 1");
    assert!(v.contains(&(0, 1, 4)));
    assert!(v.contains(&(0, 1, 5)));
    // The empty neighbors 8 and 9 take any amount, and the whole list is
    // in topology order: cell 0's neighbor list is [1, 8, 9], amounts
    // ascending per edge, no duplicates.
    assert_eq!(
        v,
        vec![
            (0, 1, 3),
            (0, 1, 4),
            (0, 1, 5),
            (0, 8, 1),
            (0, 8, 2),
            (0, 8, 3),
            (0, 8, 4),
            (0, 8, 5),
            (0, 9, 1),
            (0, 9, 2),
            (0, 9, 3),
            (0, 9, 4),
            (0, 9, 5),
        ]
    );
}

#[test]
fn tanks_cannot_enter_artefact_cells_but_bots_can() {
    let topo = Topology::new();
    let (mut owner, mut kind, mut count, mut artefact, _p0, _p1) = empty_board();
    owner[0] = 0;
    kind[0] = 2;
    count[0] = 2;
    artefact[1] = true;
    let tanks = generate_move_actions(&owner, &kind, &count, 0, 2, &artefact, &topo).unwrap();
    assert!(tanks.iter().all(|&(_, e, _)| e != 1));
    kind[0] = 1;
    let bots = generate_move_actions(&owner, &kind, &count, 0, 1, &artefact, &topo).unwrap();
    assert!(bots.contains(&(0, 1, 1)));
    assert!(bots.contains(&(0, 1, 2)));
}

#[test]
fn bots_never_attack_and_kinds_never_merge() {
    let topo = Topology::new();
    let (mut owner, mut kind, mut count, artefact, _p0, _p1) = empty_board();
    owner[0] = 0;
    kind[0] = 1;
    count[0] = 3;
    // Enemy bot on 1; own tank on 8.
    owner[1] = 1;
    kind[1] = 1;
    count[1] = 1;
    owner[8] = 0;
    kind[8] = 2;
    count[8] = 1;
    let v = generate_move_actions(&owner, &kind, &count, 0, 1, &artefact, &topo).unwrap();
    assert!(v.iter().all(|&(_, e, _)| e != 1), "bots cannot attack");
    assert!(v.iter().all(|&(_, e, _)| e != 8), "different kinds cannot merge");
    // Cell 9 stays open.
    assert!(v.contains(&(0, 9, 3)));
}

#[test]
fn move_indices_follow_the_edge_encoding() {
    let topo = Topology::new();
    let (mut owner, mut kind, mut count, artefact, p0, p1) = empty_board();
    // A single tank stack of 2 on cell 0; edges out of cell 0 have
    // ordinals 0, 1, 2 toward neighbors 1, 8, 9.
    owner[0] = 0;
    kind[0] = 2;
    count[0] = 2;
    let charges = vec![0u8; 6];
    let m = 3u8;
    let v = generate_legal_action_indices(
        Phase::PerformActions,
        ActionType::MoveTank,
        0,
        &charges,
        &owner,
        &kind,
        &count,
        &artefact,
        &p0,
        &p1,
        m,
        &topo,
    )
    .unwrap();
    // move base is 8 + 88 = 96; ordinal o with amount a encodes to
    // 96 + o * m + (a - 1); amounts 1 and 2 are legal on each edge.
    assert_eq!(
        v,
        vec![96 + 0 * 3 + 0, 96 + 0 * 3 + 1, 96 + 1 * 3 + 0, 96 + 1 * 3 + 1, 96 + 2 * 3 + 0,
            96 + 2 * 3 + 1]
    );
}

#[test]
fn count_valid_tank_adds_counts_masks() {
    let owner = vec![-1i8, 0, 1, -1, 0];
    let kind = vec![0u8, 2, 2, 0, 1];
    let opp = vec![false, false, false, true, false];
    let art = vec![false; 5];
    // Cell 0 empty and open; cell 1 own tank; cell 2 enemy tank; cell 3
    // empty but opponent start; cell 4 own bot.
    let c = count_valid_tank_adds(&owner, &kind, 0, &opp, &art).unwrap();
    assert_eq!(c, 2);
}

#[test]
fn enumerator_rejects_bad_inputs() {
    let topo = Topology::new();
    let (owner, kind, count, artefact, p0, p1) = empty_board();
    let charges = vec![0u8; 6];
    let short = vec![0u8; 87];
    let r = generate_legal_action_indices(
        Phase::PerformActions,
        ActionType::AddTank,
        0,
        &charges,
        &owner,
        &short,
        &count,
        &artefact,
        &p0,
        &p1,
        3,
        &topo,
    );
    assert_eq!(r, Err(EngineError::LengthMismatch));
    let r2 = generate_move_actions(&owner, &kind, &count, 0, 3, &artefact, &topo);
    assert_eq!(r2, Err(EngineError::InvalidKind));
    let small_owner = vec![-1i8; 10];
    let small = vec![0u8; 10];
    let small_b = vec![false; 10];
    let r3 = generate_move_actions(&small_owner, &small, &small, 0, 2, &small_b, &topo);
    assert_eq!(r3, Err(EngineError::TopologyMismatch));
    let r4 = count_valid_tank_adds(&owner, &short, 0, &p1, &artefact);
    assert_eq!(r4, Err(EngineError::LengthMismatch));
}
