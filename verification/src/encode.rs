//! The feature encoder: a pure projection of a game state into a
//! fixed-length numeric vector for a policy/value network.
//!
//! Every entry is an exact fraction (numerator, denominator), so the
//! encoding stays free of floating point here; a host divides the pairs
//! out in whatever float width it prefers. Layout: 7 values per cell (four
//! mutually-exclusive owner-and-kind stack counts over 20, an artefact flag
//! and the two start flags), then 48 global values: a 2-wide mover one-hot,
//! 2 scores over 9, a 4-wide phase one-hot, a 7-wide active-satellite
//! one-hot (slot or a "none" bucket), 3 normalized counters, and per slot a
//! 4-wide type one-hot plus its charge over 3.

use vstd::prelude::*;

use crate::state::BoardView;
use crate::state::EngineError;
use crate::state::NUM_SATELLITES;
use crate::state::Phase;
use crate::state::StateView;

verus! {

/// The seven per-cell feature values of cell `cid`.
pub open spec fn cell_features(b: BoardView, cid: int) -> Seq<(i32, i32)> {
    seq![
        (
            if b.owner[cid] == 0 && b.kind[cid] == 1 {
                b.count[cid] as i32
            } else {
                0i32
            },
            20i32,
        ),
        (
            if b.owner[cid] == 0 && b.kind[cid] == 2 {
                b.count[cid] as i32
            } else {
                0i32
            },
            20i32,
        ),
        (
            if b.owner[cid] == 1 && b.kind[cid] == 1 {
                b.count[cid] as i32
            } else {
                0i32
            },
            20i32,
        ),
        (
            if b.owner[cid] == 1 && b.kind[cid] == 2 {
                b.count[cid] as i32
            } else {
                0i32
            },
            20i32,
        ),
        (
            if b.artefact[cid] {
                1i32
            } else {
                0i32
            },
            1i32,
        ),
        (
            if b.p0_start[cid] {
                1i32
            } else {
                0i32
            },
            1i32,
        ),
        (
            if b.p1_start[cid] {
                1i32
            } else {
                0i32
            },
            1i32,
        ),
    ]
}

/// The per-cell features of the first `k` cells, in board order.
pub open spec fn cells_features_upto(b: BoardView, k: int) -> Seq<(i32, i32)>
    decreases k,
{
    if k <= 0 {
        Seq::empty()
    } else {
        cells_features_upto(b, k - 1) + cell_features(b, k - 1)
    }
}

/// A one-hot vector of `len` fractions, set at position `pos` (nowhere when
/// `pos` is outside the range).
pub open spec fn one_hot(len: int, pos: int) -> Seq<(i32, i32)> {
    Seq::new(
        len as nat,
        |i: int|
            (
                if i == pos {
                    1i32
                } else {
                    0i32
                },
                1i32,
            ),
    )
}

/// Position of the phase in its one-hot encoding.
pub open spec fn phase_index(p: Phase) -> int {
    match p {
        Phase::ChooseSatellite => 0,
        Phase::ChooseDirection => 1,
        Phase::PerformActions => 2,
        Phase::GameOver => 3,
    }
}

/// Position of the active satellite in its one-hot encoding: the slot, or
/// the seventh "none" bucket.
pub open spec fn active_sat_index(a: i8) -> int {
    if 0 <= a <= 5 {
        a as int
    } else {
        6
    }
}

/// The five feature values of satellite slot `i`: a 4-wide type one-hot
/// (empty for an unknown code) and the charge over 3.
pub open spec fn sat_slot_features(types: Seq<u8>, charges: Seq<u8>, i: int) -> Seq<(i32, i32)> {
    one_hot(
        4,
        if types[i] <= 3 {
            types[i] as int
        } else {
            -1
        },
    ) + seq![(charges[i] as i32, 3i32)]
}

/// The features of the first `k` satellite slots.
pub open spec fn sat_features_upto(types: Seq<u8>, charges: Seq<u8>, k: int) -> Seq<(i32, i32)>
    decreases k,
{
    if k <= 0 {
        Seq::empty()
    } else {
        sat_features_upto(types, charges, k - 1) + sat_slot_features(types, charges, k - 1)
    }
}

/// The 48 global feature values.
pub open spec fn global_features(
    types: Seq<u8>,
    charges: Seq<u8>,
    turn: u8,
    score0: i16,
    score1: i16,
    phase: Phase,
    active_sat: i8,
    actions_remaining: i16,
    picked_up: i16,
    turn_count: i16,
    max_turns: i16,
) -> Seq<(i32, i32)> {
    one_hot(
        2,
        if turn <= 1 {
            turn as int
        } else {
            1
        },
    ) + seq![(score0 as i32, 9i32), (score1 as i32, 9i32)] + one_hot(4, phase_index(phase))
        + one_hot(7, active_sat_index(active_sat)) + seq![
        (actions_remaining as i32, 3i32),
        (picked_up as i32, 3i32),
        (
            turn_count as i32,
            if max_turns <= 0 {
                1i32
            } else {
                max_turns as i32
            },
        ),
    ] + sat_features_upto(types, charges, NUM_SATELLITES as int)
}

/// The whole feature vector of a state: cell features in board order, then
/// the global features.
pub open spec fn features_of_state(s: StateView) -> Seq<(i32, i32)> {
    cells_features_upto(s.board, s.board.n()) + global_features(
        s.sat_types,
        s.charges,
        s.turn,
        s.score0,
        s.score1,
        s.phase,
        s.active_sat,
        s.actions_remaining,
        s.picked_up,
        s.turn_count,
        s.max_turns,
    )
}

/// Encode the feature vector from explicit flat arrays and scalars.
///
/// The per-cell arrays must agree in length and the satellite arrays must
/// have one entry per slot; anything else is rejected with the matching
/// error. On success the result is exactly `features_of_state` of the
/// assembled state.
#[allow(clippy::too_many_arguments)]
#[verifier::rlimit(60)]
pub fn encode_features(
    unit_owner: &Vec<i8>,
    unit_kind: &Vec<u8>,
    unit_count: &Vec<u8>,
    is_artefact: &Vec<bool>,
    is_p0_start: &Vec<bool>,
    is_p1_start: &Vec<bool>,
    turn: u8,
    score0: i16,
    score1: i16,
    phase: Phase,
    active_satellite_idx: i8,
    actions_remaining: i16,
    picked_up_charges: i16,
    turn_count: i16,
    max_turns: i16,
    sat_type_codes: &Vec<u8>,
    sat_charges: &Vec<u8>,
) -> (r: Result<Vec<(i32, i32)>, EngineError>)
    ensures
        r.is_ok() <==> (unit_kind@.len() == unit_owner@.len() && unit_count@.len()
            == unit_owner@.len() && is_artefact@.len() == unit_owner@.len() && is_p0_start@.len()
            == unit_owner@.len() && is_p1_start@.len() == unit_owner@.len()
            && sat_type_codes@.len() == NUM_SATELLITES && sat_charges@.len() == NUM_SATELLITES),
        match r {
            Ok(v) => v@ == cells_features_upto(
                BoardView {
                    owner: unit_owner@,
                    kind: unit_kind@,
                    count: unit_count@,
                    artefact: is_artefact@,
                    p0_start: is_p0_start@,
                    p1_start: is_p1_start@,
                },
                unit_owner@.len() as int,
            ) + global_features(
                sat_type_codes@,
                sat_charges@,
                turn,
                score0,
                score1,
                phase,
                active_satellite_idx,
                actions_remaining,
                picked_up_charges,
                turn_count,
                max_turns,
            ),
            Err(e) => e == (if !(unit_kind@.len() == unit_owner@.len() && unit_count@.len()
                == unit_owner@.len() && is_artefact@.len() == unit_owner@.len()
                && is_p0_start@.len() == unit_owner@.len() && is_p1_start@.len()
                == unit_owner@.len()) {
                EngineError::LengthMismatch
            } else {
                EngineError::SatelliteLengthMismatch
            }),
        },
{
    let ghost b = BoardView {
        owner: unit_owner@,
        kind: unit_kind@,
        count: unit_count@,
        artefact: is_artefact@,
        p0_start: is_p0_start@,
        p1_start: is_p1_start@,
    };
    let n = unit_owner.len();
    if unit_kind.len() != n || unit_count.len() != n || is_artefact.len() != n
        || is_p0_start.len() != n || is_p1_start.len() != n {
        return Err(EngineError::LengthMismatch);
    }
    if sat_type_codes.len() != NUM_SATELLITES || sat_charges.len() != NUM_SATELLITES {
        return Err(EngineError::SatelliteLengthMismatch);
    }
    let mut feat: Vec<(i32, i32)> = Vec::new();
    let mut cid: usize = 0;
    while cid < n
        invariant
            cid <= n,
            n == unit_owner@.len(),
            unit_kind@.len() == n,
            unit_count@.len() == n,
            is_artefact@.len() == n,
            is_p0_start@.len() == n,
            is_p1_start@.len() == n,
            b == (BoardView {
                owner: unit_owner@,
                kind: unit_kind@,
                count: unit_count@,
                artefact: is_artefact@,
                p0_start: is_p0_start@,
                p1_start: is_p1_start@,
            }),
            feat@ == cells_features_upto(b, cid as int),
        decreases n - cid,
    {
        let ghost pre = feat@;
        let owner = unit_owner[cid];
        let kind = unit_kind[cid];
        let cnt = unit_count[cid] as i32;
        feat.push(
            (
                if owner == 0 && kind == 1 {
                    cnt
                } else {
                    0
                },
                20,
            ),
        );
        feat.push(
            (
                if owner == 0 && kind == 2 {
                    cnt
                } else {
                    0
                },
                20,
            ),
        );
        feat.push(
            (
                if owner == 1 && kind == 1 {
                    cnt
                } else {
                    0
                },
                20,
            ),
        );
        feat.push(
            (
                if owner == 1 && kind == 2 {
                    cnt
                } else {
                    0
                },
                20,
            ),
        );
        feat.push(
            (
                if is_artefact[cid] {
                    1
                } else {
                    0
                },
                1,
            ),
        );
        feat.push(
            (
                if is_p0_start[cid] {
                    1
                } else {
                    0
                },
                1,
            ),
        );
        feat.push(
            (
                if is_p1_start[cid] {
                    1
                } else {
                    0
                },
                1,
            ),
        );
        proof {
            assert(feat@ =~= pre + cell_features(b, cid as int));
        }
        cid += 1;
    }
    let ghost cp = feat@;
    let mut g: Vec<(i32, i32)> = Vec::new();
    let ti: u8 = if turn <= 1 {
        turn
    } else {
        1
    };
    g.push(
        (
            if ti == 0 {
                1
            } else {
                0
            },
            1,
        ),
    );
    g.push(
        (
            if ti == 1 {
                1
            } else {
                0
            },
            1,
        ),
    );
    g.push((score0 as i32, 9));
    g.push((score1 as i32, 9));
    let pi: usize = match phase {
        Phase::ChooseSatellite => 0,
        Phase::ChooseDirection => 1,
        Phase::PerformActions => 2,
        Phase::GameOver => 3,
    };
    g.push(
        (
            if pi == 0 {
                1
            } else {
                0
            },
            1,
        ),
    );
    g.push(
        (
            if pi == 1 {
                1
            } else {
                0
            },
            1,
        ),
    );
    g.push(
        (
            if pi == 2 {
                1
            } else {
                0
            },
            1,
        ),
    );
    g.push(
        (
            if pi == 3 {
                1
            } else {
                0
            },
            1,
        ),
    );
    let ai: usize = if active_satellite_idx >= 0 && active_satellite_idx <= 5 {
        active_satellite_idx as usize
    } else {
        6
    };
    g.push(
        (
            if ai == 0 {
                1
            } else {
                0
            },
            1,
        ),
    );
    g.push(
        (
            if ai == 1 {
                1
            } else {
                0
            },
            1,
        ),
    );
    g.push(
        (
            if ai == 2 {
                1
            } else {
                0
            },
            1,
        ),
    );
    g.push(
        (
            if ai == 3 {
                1
            } else {
                0
            },
            1,
        ),
    );
    g.push(
        (
            if ai == 4 {
                1
            } else {
                0
            },
            1,
        ),
    );
    g.push(
        (
            if ai == 5 {
                1
            } else {
                0
            },
            1,
        ),
    );
    g.push(
        (
            if ai == 6 {
                1
            } else {
                0
            },
            1,
        ),
    );
    g.push((actions_remaining as i32, 3));
    g.push((picked_up_charges as i32, 3));
    g.push(
        (
            turn_count as i32,
            if max_turns <= 0 {
                1
            } else {
                max_turns as i32
            },
        ),
    );
    let ghost g18 = g@;
    let mut slot: usize = 0;
    while slot < NUM_SATELLITES
        invariant
            slot <= NUM_SATELLITES,
            sat_type_codes@.len() == NUM_SATELLITES,
            sat_charges@.len() == NUM_SATELLITES,
            g18.len() == 18,
            g@ == g18 + sat_features_upto(sat_type_codes@, sat_charges@, slot as int),
        decreases NUM_SATELLITES - slot,
    {
        let ghost pre = g@;
        let t = sat_type_codes[slot];
        g.push(
            (
                if t == 0 {
                    1
                } else {
                    0
                },
                1,
            ),
        );
        g.push(
            (
                if t == 1 {
                    1
                } else {
                    0
                },
                1,
            ),
        );
        g.push(
            (
                if t == 2 {
                    1
                } else {
                    0
                },
                1,
            ),
        );
        g.push(
            (
                if t == 3 {
                    1
                } else {
                    0
                },
                1,
            ),
        );
        g.push((sat_charges[slot] as i32, 3));
        proof {
            assert(g@ =~= pre + sat_slot_features(sat_type_codes@, sat_charges@, slot as int));
        }
        slot += 1;
    }
    proof {
        assert(g@ =~= global_features(
            sat_type_codes@,
            sat_charges@,
            turn,
            score0,
            score1,
            phase,
            active_satellite_idx,
            actions_remaining,
            picked_up_charges,
            turn_count,
            max_turns,
        ));
    }
    let mut g2 = g;
    feat.append(&mut g2);
    proof {
        assert(feat@ =~= cp + global_features(
            sat_type_codes@,
            sat_charges@,
            turn,
            score0,
            score1,
            phase,
            active_satellite_idx,
            actions_remaining,
            picked_up_charges,
            turn_count,
            max_turns,
        ));
    }
    Ok(feat)
}

/// The cell part holds seven values per cell.
pub proof fn lemma_cells_features_len(b: BoardView, k: int)
    requires
        k >= 0,
    ensures
        cells_features_upto(b, k).len() == 7 * k,
    decreases k,
{
    if k > 0 {
        lemma_cells_features_len(b, k - 1);
    }
}

/// The satellite part holds five values per slot.
pub proof fn lemma_sat_features_len(types: Seq<u8>, charges: Seq<u8>, k: int)
    requires
        k >= 0,
    ensures
        sat_features_upto(types, charges, k).len() == 5 * k,
    decreases k,
{
    if k > 0 {
        lemma_sat_features_len(types, charges, k - 1);
    }
}

/// The feature vector of a board of `n` cells holds `7 * n + 48` values.
pub proof fn lemma_feature_len(s: StateView)
    ensures
        features_of_state(s).len() == 7 * s.board.n() + 48,
{
    lemma_cells_features_len(s.board, s.board.n());
    lemma_sat_features_len(s.sat_types, s.charges, NUM_SATELLITES as int);
}

impl crate::state::GameState {
    /// Encode this state's feature vector, as exact fractions.
    pub fn encode_features(&self) -> (v: Vec<(i32, i32)>)
        requires
            self@.wf(),
        ensures
            v@ == features_of_state(self@),
    {
        let r = encode_features(
            &self.unit_owner,
            &self.unit_kind,
            &self.unit_count,
            &self.is_artefact,
            &self.is_p0_start,
            &self.is_p1_start,
            self.turn,
            self.score0,
            self.score1,
            self.phase,
            self.active_satellite_idx,
            self.actions_remaining,
            self.picked_up_charges,
            self.turn_count,
            self.max_turns,
            &self.sat_type_codes,
            &self.sat_charges,
        );
        match r {
            Ok(v) => v,
            Err(_) => {
                proof {
                    assert(false);
                }
                Vec::new()
            },
        }
    }
}

} // verus!
