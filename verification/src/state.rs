//! Game state: cell data, satellite slots, turn bookkeeping, and the
//! mathematical views that the contracts speak of.
//!
//! Cells are kept as flat arrays indexed by cell id, exactly as the host
//! supplies them: `owner` is -1 (none), 0 or 1; `kind` is 0 (none),
//! 1 (bot) or 2 (tank); `count` is the stack size. The six satellite slots
//! carry a type code (0 move_tank, 1 move_bot, 2 add_tank, 3 add_bot) and an
//! accumulated charge.

use vstd::prelude::*;

use crate::board::NUM_CELLS;

verus! {

/// Number of satellite slots, arranged in a ring.
pub const NUM_SATELLITES: usize = 6;

/// A player may own at most this many units in total; further additions are
/// illegal until a unit count decreases.
pub const ARMY_CAP: usize = 20;

/// A player wins as soon as their captured-artefact score reaches this.
pub const WIN_SCORE: i16 = 9;

/// Phase of the turn state machine.
#[derive(Clone, Copy, Debug, PartialEq, Eq, Structural)]
pub enum Phase {
    ChooseSatellite,
    ChooseDirection,
    PerformActions,
    GameOver,
}

/// The action family granted by the chosen satellite; `Unset` outside
/// `ChooseDirection` / `PerformActions`.
#[derive(Clone, Copy, Debug, PartialEq, Eq, Structural)]
pub enum ActionType {
    Unset,
    AddTank,
    AddBot,
    MoveTank,
    MoveBot,
}

/// Outcome of a finished game; `Undetermined` while it is still running.
#[derive(Clone, Copy, Debug, PartialEq, Eq, Structural)]
pub enum Winner {
    Undetermined,
    Player0,
    Player1,
    Draw,
}

/// Why a construction or query was rejected.
#[derive(Clone, Copy, Debug, PartialEq, Eq, Structural)]
pub enum EngineError {
    /// The per-cell input arrays do not all have the same length.
    LengthMismatch,
    /// The per-cell input arrays do not match the board topology's size.
    TopologyMismatch,
    /// The satellite arrays do not have one entry per slot.
    SatelliteLengthMismatch,
    /// A requested unit kind is neither bot (1) nor tank (2).
    InvalidKind,
    /// The mover is neither player 0 nor player 1.
    InvalidPlayer,
    /// The active satellite index is outside -1 ..= 5.
    InvalidSatelliteIndex,
}

/// Mathematical view of the per-cell board data.
#[verifier::ext_equal]
pub ghost struct BoardView {
    pub owner: Seq<i8>,
    pub kind: Seq<u8>,
    pub count: Seq<u8>,
    pub artefact: Seq<bool>,
    pub p0_start: Seq<bool>,
    pub p1_start: Seq<bool>,
}

impl BoardView {
    /// Number of cells.
    pub open spec fn n(self) -> int {
        self.owner.len() as int
    }

    /// All six arrays describe the same cells.
    pub open spec fn consistent_lens(self) -> bool {
        &&& self.kind.len() == self.owner.len()
        &&& self.count.len() == self.owner.len()
        &&& self.artefact.len() == self.owner.len()
        &&& self.p0_start.len() == self.owner.len()
        &&& self.p1_start.len() == self.owner.len()
    }

    /// A cell is unowned exactly when it is empty, and an occupied cell
    /// holds a real unit kind.
    pub open spec fn cells_consistent(self) -> bool {
        forall|i: int|
            0 <= i < self.n() ==> {
                &&& (#[trigger] self.owner[i] == -1 <==> self.count[i] == 0)
                &&& (self.count[i] > 0 ==> self.kind[i] == 1 || self.kind[i] == 2)
            }
    }

    /// Whether `cid` is a start hex reserved for the opponent of `turn`.
    pub open spec fn opp_start(self, turn: i8, cid: int) -> bool {
        if turn == 0 {
            self.p1_start[cid]
        } else {
            self.p0_start[cid]
        }
    }

    /// Whether `cid` is the start hex of `turn` itself.
    pub open spec fn own_start(self, turn: i8, cid: int) -> bool {
        if turn == 0 {
            self.p0_start[cid]
        } else {
            self.p1_start[cid]
        }
    }
}

/// Total units owned by `turn` on the first `k` cells.
pub open spec fn owned_total_upto(owner: Seq<i8>, count: Seq<u8>, turn: i8, k: int) -> int
    decreases k,
{
    if k <= 0 {
        0
    } else {
        owned_total_upto(owner, count, turn, k - 1) + if owner[k - 1] == turn {
            count[k - 1] as int
        } else {
            0
        }
    }
}

/// Total units owned by `turn` on the whole board.
pub open spec fn owned_total(owner: Seq<i8>, count: Seq<u8>, turn: i8) -> int {
    owned_total_upto(owner, count, turn, owner.len() as int)
}

/// Number of artefact cells among the first `k`.
pub open spec fn artefacts_upto(art: Seq<bool>, k: int) -> int
    decreases k,
{
    if k <= 0 {
        0
    } else {
        artefacts_upto(art, k - 1) + if art[k - 1] {
            1int
        } else {
            0int
        }
    }
}

/// Number of artefact cells remaining on the board.
pub open spec fn num_artefacts(art: Seq<bool>) -> int {
    artefacts_upto(art, art.len() as int)
}

/// Mathematical view of a whole game state.
#[verifier::ext_equal]
pub ghost struct StateView {
    pub board: BoardView,
    pub sat_types: Seq<u8>,
    pub charges: Seq<u8>,
    pub turn: u8,
    pub score0: i16,
    pub score1: i16,
    pub phase: Phase,
    pub active_sat: i8,
    pub actions_remaining: i16,
    pub picked_up: i16,
    pub action_type: ActionType,
    pub turn_count: i16,
    pub max_turns: i16,
    pub winner: Winner,
}

impl StateView {
    /// The fixed sizes and ranges every reachable state satisfies.
    pub open spec fn wf(self) -> bool {
        &&& self.board.owner.len() == NUM_CELLS
        &&& self.board.consistent_lens()
        &&& self.sat_types.len() == NUM_SATELLITES
        &&& self.charges.len() == NUM_SATELLITES
        &&& self.turn <= 1
        &&& -1 <= self.active_sat <= 5
    }

    /// Score of the given player.
    pub open spec fn score_of(self, p: u8) -> i16 {
        if p == 0 {
            self.score0
        } else {
            self.score1
        }
    }

    /// The mover as the signed code that the cell owner array uses.
    pub open spec fn mover(self) -> i8 {
        self.turn as i8
    }
}

/// Complete state of one game instance.
///
/// Mutated exclusively by `apply_action_index`, one action index at a time;
/// immutable once the phase is `GameOver`.
pub struct GameState {
    pub unit_owner: Vec<i8>,
    pub unit_kind: Vec<u8>,
    pub unit_count: Vec<u8>,
    pub is_artefact: Vec<bool>,
    pub is_p0_start: Vec<bool>,
    pub is_p1_start: Vec<bool>,
    pub sat_type_codes: Vec<u8>,
    pub sat_charges: Vec<u8>,
    pub turn: u8,
    pub score0: i16,
    pub score1: i16,
    pub phase: Phase,
    pub active_satellite_idx: i8,
    pub actions_remaining: i16,
    pub picked_up_charges: i16,
    pub action_type: ActionType,
    pub turn_count: i16,
    pub max_turns: i16,
    pub winner: Winner,
}

impl View for GameState {
    type V = StateView;

    open spec fn view(&self) -> StateView {
        StateView {
            board: BoardView {
                owner: self.unit_owner@,
                kind: self.unit_kind@,
                count: self.unit_count@,
                artefact: self.is_artefact@,
                p0_start: self.is_p0_start@,
                p1_start: self.is_p1_start@,
            },
            sat_types: self.sat_type_codes@,
            charges: self.sat_charges@,
            turn: self.turn,
            score0: self.score0,
            score1: self.score1,
            phase: self.phase,
            active_sat: self.active_satellite_idx,
            actions_remaining: self.actions_remaining,
            picked_up: self.picked_up_charges,
            action_type: self.action_type,
            turn_count: self.turn_count,
            max_turns: self.max_turns,
            winner: self.winner,
        }
    }
}

impl Clone for GameState {
    /// A clone is a fully independent deep copy with the same view.
    fn clone(&self) -> (r: GameState)
        ensures
            r@ == self@,
    {
        GameState {
            unit_owner: self.unit_owner.clone(),
            unit_kind: self.unit_kind.clone(),
            unit_count: self.unit_count.clone(),
            is_artefact: self.is_artefact.clone(),
            is_p0_start: self.is_p0_start.clone(),
            is_p1_start: self.is_p1_start.clone(),
            sat_type_codes: self.sat_type_codes.clone(),
            sat_charges: self.sat_charges.clone(),
            turn: self.turn,
            score0: self.score0,
            score1: self.score1,
            phase: self.phase,
            active_satellite_idx: self.active_satellite_idx,
            actions_remaining: self.actions_remaining,
            picked_up_charges: self.picked_up_charges,
            action_type: self.action_type,
            turn_count: self.turn_count,
            max_turns: self.max_turns,
            winner: self.winner,
        }
    }
}

impl GameState {
    /// Build a game state from explicit flat arrays and scalars.
    ///
    /// Each per-cell array must have one entry per board cell, the satellite
    /// arrays one entry per slot, the mover must be player 0 or 1, and the
    /// active satellite index must be a slot index or -1; anything else is
    /// rejected with the matching error.
    #[allow(clippy::too_many_arguments)]
    pub fn new(
        unit_owner: Vec<i8>,
        unit_kind: Vec<u8>,
        unit_count: Vec<u8>,
        is_artefact: Vec<bool>,
        is_p0_start: Vec<bool>,
        is_p1_start: Vec<bool>,
        sat_type_codes: Vec<u8>,
        sat_charges: Vec<u8>,
        turn: u8,
        score0: i16,
        score1: i16,
        phase: Phase,
        active_satellite_idx: i8,
        actions_remaining: i16,
        picked_up_charges: i16,
        action_type: ActionType,
        turn_count: i16,
        max_turns: i16,
        winner: Winner,
    ) -> (r: Result<GameState, EngineError>)
        ensures
            r.is_ok() <==> {
                &&& unit_owner@.len() == NUM_CELLS
                &&& unit_kind@.len() == NUM_CELLS
                &&& unit_count@.len() == NUM_CELLS
                &&& is_artefact@.len() == NUM_CELLS
                &&& is_p0_start@.len() == NUM_CELLS
                &&& is_p1_start@.len() == NUM_CELLS
                &&& sat_type_codes@.len() == NUM_SATELLITES
                &&& sat_charges@.len() == NUM_SATELLITES
                &&& turn <= 1
                &&& -1 <= active_satellite_idx <= 5
            },
            match r {
                Ok(g) => {
                    &&& g@.wf()
                    &&& g@.board.owner == unit_owner@
                    &&& g@.board.kind == unit_kind@
                    &&& g@.board.count == unit_count@
                    &&& g@.board.artefact == is_artefact@
                    &&& g@.board.p0_start == is_p0_start@
                    &&& g@.board.p1_start == is_p1_start@
                    &&& g@.sat_types == sat_type_codes@
                    &&& g@.charges == sat_charges@
                    &&& g@.turn == turn
                    &&& g@.score0 == score0
                    &&& g@.score1 == score1
                    &&& g@.phase == phase
                    &&& g@.active_sat == active_satellite_idx
                    &&& g@.actions_remaining == actions_remaining
                    &&& g@.picked_up == picked_up_charges
                    &&& g@.action_type == action_type
                    &&& g@.turn_count == turn_count
                    &&& g@.max_turns == max_turns
                    &&& g@.winner == winner
                },
                Err(e) => e == EngineError::LengthMismatch || e
                    == EngineError::SatelliteLengthMismatch || e == EngineError::InvalidPlayer
                    || e == EngineError::InvalidSatelliteIndex,
            },
    {
        if unit_owner.len() != NUM_CELLS || unit_kind.len() != NUM_CELLS || unit_count.len()
            != NUM_CELLS || is_artefact.len() != NUM_CELLS || is_p0_start.len() != NUM_CELLS
            || is_p1_start.len() != NUM_CELLS {
            return Err(EngineError::LengthMismatch);
        }
        if sat_type_codes.len() != NUM_SATELLITES || sat_charges.len() != NUM_SATELLITES {
            return Err(EngineError::SatelliteLengthMismatch);
        }
        if turn > 1 {
            return Err(EngineError::InvalidPlayer);
        }
        if active_satellite_idx < -1 || active_satellite_idx > 5 {
            return Err(EngineError::InvalidSatelliteIndex);
        }
        Ok(
            GameState {
                unit_owner,
                unit_kind,
                unit_count,
                is_artefact,
                is_p0_start,
                is_p1_start,
                sat_type_codes,
                sat_charges,
                turn,
                score0,
                score1,
                phase,
                active_satellite_idx,
                actions_remaining,
                picked_up_charges,
                action_type,
                turn_count,
                max_turns,
                winner,
            },
        )
    }

    /// Whether the game has ended.
    pub fn is_terminal(&self) -> (r: bool)
        ensures
            r <==> self@.phase == Phase::GameOver,
    {
        self.phase == Phase::GameOver
    }

    /// The player whose turn it is.
    pub fn current_player(&self) -> (r: u8)
        ensures
            r == self@.turn,
    {
        self.turn
    }

    /// The game's outcome so far.
    pub fn winner(&self) -> (r: Winner)
        ensures
            r == self@.winner,
    {
        self.winner
    }
}

} // verus!
