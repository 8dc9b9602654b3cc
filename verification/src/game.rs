//! The turn state machine: applying one action index at a time.
//!
//! `apply_action_index` is the only mutation the engine offers. An index
//! outside the legal set is a normal no-op outcome (`false`, state left
//! unchanged); a legal one mutates the state atomically and reports `true`.
//! The whole transition is specified by `apply_step`, a function from view
//! to view.

use vstd::prelude::*;

use crate::board::NUM_CELLS;
use crate::board::Topology;
use crate::board::edge_dst;
use crate::board::edge_src;
use crate::board::lemma_edge_exists;
use crate::board::total_edges;
use crate::legal::add_base;
use crate::legal::dest_allowed;
use crate::legal::generate_legal_action_indices;
use crate::legal::is_add_type;
use crate::legal::is_legal_index;
use crate::legal::is_move_type;
use crate::legal::move_base;
use crate::legal::req_kind_of;
use crate::state::ARMY_CAP;
use crate::state::ActionType;
use crate::state::BoardView;
use crate::state::GameState;
use crate::state::Phase;
use crate::state::StateView;
use crate::state::WIN_SCORE;
use crate::state::Winner;
use crate::state::artefacts_upto;
use crate::state::num_artefacts;
use crate::state::owned_total;

verus! {

/// `c + 1` clamped to the `u8` range.
pub open spec fn sat_inc(c: u8) -> u8 {
    if c == 255 {
        255
    } else {
        (c + 1) as u8
    }
}

/// `c + a` clamped to the `u8` range.
pub open spec fn sat_add(c: u8, a: u8) -> u8 {
    if c as int + (a as int) > 255 {
        255
    } else {
        (c + a) as u8
    }
}

/// `x + a` (with `a >= 0`) clamped to the `i16` range.
pub open spec fn sat_add_score(x: i16, a: int) -> i16 {
    if x as int + a > i16::MAX as int {
        i16::MAX
    } else {
        (x + a) as i16
    }
}

/// `x - 1` clamped to the `i16` range.
pub open spec fn sat_dec(x: i16) -> i16 {
    if x == i16::MIN {
        i16::MIN
    } else {
        (x - 1) as i16
    }
}

/// The action family granted by a satellite type code: 0 moves tanks,
/// 1 moves bots, 2 adds tanks, 3 adds bots; anything else grants nothing.
pub open spec fn action_type_of_code(t: u8) -> ActionType {
    if t == 0 {
        ActionType::MoveTank
    } else if t == 1 {
        ActionType::MoveBot
    } else if t == 2 {
        ActionType::AddTank
    } else if t == 3 {
        ActionType::AddBot
    } else {
        ActionType::Unset
    }
}

/// Choosing satellite `slot`: remember the slot and its action family,
/// pick up its whole charge, and move on to choosing a direction.
pub open spec fn choose_sat_step(s: StateView, slot: int) -> StateView {
    StateView {
        active_sat: slot as i8,
        action_type: action_type_of_code(s.sat_types[slot]),
        picked_up: s.charges[slot] as i16,
        charges: s.charges.update(slot, 0u8),
        phase: Phase::ChooseDirection,
        ..s
    }
}

/// Distribute `k` single-unit charge increments around the 6-slot ring,
/// stepping from `idx` by `dir` (wrapping) before each increment.
pub open spec fn distribute_charges(charges: Seq<u8>, idx: int, dir: int, k: nat) -> Seq<u8>
    decreases k,
{
    if k == 0 {
        charges
    } else {
        let ni = (idx + dir + 6) % 6;
        distribute_charges(charges.update(ni, sat_inc(charges[ni])), ni, dir, (k - 1) as nat)
    }
}

/// Whether any action index is legal in phase `PerformActions` for the
/// given state's action family and mover.
pub open spec fn has_any_perform_action(s: StateView, m: u8) -> bool {
    exists|i: int|
        is_legal_index(Phase::PerformActions, s.action_type, s.mover(), s.charges, s.board, m, i)
}

/// End of turn: at the turn limit the game ends (higher score wins, an
/// exact tie is a draw); otherwise control passes to the other player, the
/// round counter advances when control returns to player 0, and the phase
/// resets to choosing a satellite.
pub open spec fn end_turn_spec(s: StateView) -> StateView {
    if s.turn_count >= s.max_turns {
        StateView {
            phase: Phase::GameOver,
            winner: if s.score0 > s.score1 {
                Winner::Player0
            } else if s.score1 > s.score0 {
                Winner::Player1
            } else {
                Winner::Draw
            },
            ..s
        }
    } else {
        let nt: u8 = if s.turn == 0 {
            1
        } else {
            0
        };
        StateView {
            turn: nt,
            turn_count: if nt == 0 {
                (s.turn_count + 1) as i16
            } else {
                s.turn_count
            },
            phase: Phase::ChooseSatellite,
            active_sat: -1i8,
            action_type: ActionType::Unset,
            actions_remaining: 0i16,
            picked_up: 0i16,
            ..s
        }
    }
}

/// Win check after a successful mutation: the mover wins at `WIN_SCORE`;
/// with no artefacts left the game ends, the higher score winning and an
/// exact tie going to the current mover.
pub open spec fn check_win_spec(s: StateView) -> (bool, StateView) {
    if s.score_of(s.turn) >= WIN_SCORE {
        (
            true,
            StateView {
                winner: if s.turn == 0 {
                    Winner::Player0
                } else {
                    Winner::Player1
                },
                phase: Phase::GameOver,
                ..s
            },
        )
    } else if num_artefacts(s.board.artefact) == 0 {
        (
            true,
            StateView {
                winner: if s.score0 > s.score1 {
                    Winner::Player0
                } else if s.score1 > s.score0 {
                    Winner::Player1
                } else if s.turn == 0 {
                    Winner::Player0
                } else {
                    Winner::Player1
                },
                phase: Phase::GameOver,
                ..s
            },
        )
    } else {
        (false, s)
    }
}

/// The board after an applicable add: a new single unit on an empty cell,
/// or one more unit on the existing own stack (clamped).
pub open spec fn apply_add_spec(b: BoardView, turn: i8, at: ActionType, cid: int) -> BoardView {
    if b.owner[cid] == -1 {
        BoardView {
            owner: b.owner.update(cid, turn),
            kind: b.kind.update(
                cid,
                if at == ActionType::AddTank {
                    2u8
                } else {
                    1u8
                },
            ),
            count: b.count.update(cid, 1u8),
            ..b
        }
    } else {
        BoardView { count: b.count.update(cid, sat_inc(b.count[cid])), ..b }
    }
}

/// Whether a move of `amount` units of kind `rk` from `sid` to `eid` goes
/// through when applied.
pub open spec fn move_applicable(
    b: BoardView,
    turn: i8,
    rk: u8,
    sid: int,
    eid: int,
    amount: int,
) -> bool {
    &&& 0 <= sid < b.n()
    &&& 0 <= eid < b.n()
    &&& amount >= 1
    &&& b.owner[sid] == turn
    &&& b.kind[sid] == rk
    &&& amount <= b.count[sid] as int
    &&& dest_allowed(turn, eid)
    &&& !(rk == 2 && b.artefact[eid])
    &&& {
        let to = b.owner[eid];
        if to == turn {
            b.kind[eid] == rk
        } else if to != -1 {
            rk == 2 && !(b.kind[eid] == 2 && (b.count[eid] as int) >= amount)
        } else {
            true
        }
    }
}

/// If the mover actually occupies `eid` and it held an artefact, the
/// artefact is cleared and the moved amount is scored.
pub open spec fn capture_step(b: BoardView, eid: int, amount: u8) -> (BoardView, int) {
    if b.artefact[eid] {
        (BoardView { artefact: b.artefact.update(eid, false), ..b }, amount as int)
    } else {
        (b, 0)
    }
}

/// The board after an applicable move, and the mover's score gain.
///
/// The source loses `amount` units (emptying it when it reaches zero). An
/// empty destination is occupied; an own same-kind destination merges
/// (clamped). An enemy stack is destroyed: a moving bot occupies the cell,
/// while a tank resolves the attack *ranged* - the destination is cleared
/// and the attacking amount returns to the source. Only an actual
/// occupation can capture an artefact.
pub open spec fn apply_move_spec(
    b: BoardView,
    turn: i8,
    rk: u8,
    sid: int,
    eid: int,
    amount: u8,
) -> (BoardView, int) {
    let to = b.owner[eid];
    let sc_after = (b.count[sid] - amount) as u8;
    let b1 = if sc_after == 0 {
        BoardView {
            owner: b.owner.update(sid, -1i8),
            kind: b.kind.update(sid, 0u8),
            count: b.count.update(sid, 0u8),
            ..b
        }
    } else {
        BoardView { count: b.count.update(sid, sc_after), ..b }
    };
    if to == -1 {
        let b2 = BoardView {
            owner: b1.owner.update(eid, turn),
            kind: b1.kind.update(eid, rk),
            count: b1.count.update(eid, amount),
            ..b1
        };
        capture_step(b2, eid, amount)
    } else if to == turn {
        let b2 = BoardView { count: b1.count.update(eid, sat_add(b1.count[eid], amount)), ..b1 };
        capture_step(b2, eid, amount)
    } else {
        let b2 = BoardView {
            owner: b1.owner.update(eid, -1i8),
            kind: b1.kind.update(eid, 0u8),
            count: b1.count.update(eid, 0u8),
            ..b1
        };
        if rk == 2 {
            let b3 = if b2.owner[sid] == -1 {
                BoardView {
                    owner: b2.owner.update(sid, turn),
                    kind: b2.kind.update(sid, rk),
                    count: b2.count.update(sid, amount),
                    ..b2
                }
            } else {
                BoardView { count: b2.count.update(sid, sat_add(b2.count[sid], amount)), ..b2 }
            };
            (b3, 0)
        } else {
            let b3 = BoardView {
                owner: b2.owner.update(eid, turn),
                kind: b2.kind.update(eid, rk),
                count: b2.count.update(eid, amount),
                ..b2
            };
            capture_step(b3, eid, amount)
        }
    }
}

/// The mover's score raised by `delta` (clamped).
pub open spec fn add_score(s: StateView, delta: int) -> StateView {
    if s.turn == 0 {
        StateView { score0: sat_add_score(s.score0, delta), ..s }
    } else {
        StateView { score1: sat_add_score(s.score1, delta), ..s }
    }
}

/// What follows a successful `PerformActions` mutation: the win check, then
/// one action spent; the turn ends when none remain or no legal action of
/// the family is left.
pub open spec fn perform_followup(s: StateView, m: u8) -> StateView {
    let (won, s_won) = check_win_spec(s);
    if won {
        s_won
    } else {
        let ar = sat_dec(s.actions_remaining);
        let s2 = StateView { actions_remaining: ar, ..s };
        if ar <= 0 {
            end_turn_spec(s2)
        } else if !has_any_perform_action(s2, m) {
            end_turn_spec(s2)
        } else {
            s2
        }
    }
}

/// Choosing direction `i` (6 counter-clockwise, 7 clockwise): the picked-up
/// charge is distributed around the ring; then either the action phase
/// starts with that many actions, or - with nothing legal to do - the turn
/// ends at once.
pub open spec fn choose_dir_step(s: StateView, i: int, m: u8) -> StateView {
    let dir: int = if i == 7 {
        1
    } else {
        -1
    };
    let k: nat = if s.picked_up >= 0 {
        s.picked_up as nat
    } else {
        0
    };
    let s2 = StateView {
        charges: distribute_charges(s.charges, s.active_sat as int, dir, k),
        ..s
    };
    if !has_any_perform_action(s2, m) {
        end_turn_spec(s2)
    } else {
        StateView { actions_remaining: s.picked_up, phase: Phase::PerformActions, ..s2 }
    }
}

/// The whole transition relation of `apply_action_index`: whether the index
/// applies, and the state that results (the old state when it does not).
pub open spec fn apply_step(s: StateView, i: int, m: u8) -> (bool, StateView) {
    if m == 0 || s.phase == Phase::GameOver {
        (false, s)
    } else if s.phase == Phase::ChooseSatellite {
        if 0 <= i < 6 && s.charges[i] > 0 {
            (true, choose_sat_step(s, i))
        } else {
            (false, s)
        }
    } else if s.phase == Phase::ChooseDirection {
        if i == 6 || i == 7 {
            (true, choose_dir_step(s, i, m))
        } else {
            (false, s)
        }
    } else {
        if is_add_type(s.action_type) {
            let cid = i - add_base();
            if add_base() <= i < move_base(s.board.n()) && crate::legal::add_legal(
                s.board,
                s.mover(),
                s.action_type,
                cid,
            ) {
                (
                    true,
                    perform_followup(
                        StateView {
                            board: apply_add_spec(s.board, s.mover(), s.action_type, cid),
                            ..s
                        },
                        m,
                    ),
                )
            } else {
                (false, s)
            }
        } else if is_move_type(s.action_type) {
            let rk = req_kind_of(s.action_type);
            let rel = i - move_base(s.board.n());
            let ord = rel / (m as int);
            let amount = rel % (m as int) + 1;
            if move_base(s.board.n()) <= i < move_base(s.board.n()) + total_edges() * (m as int)
                && move_applicable(s.board, s.mover(), rk, edge_src(ord), edge_dst(ord), amount) {
                let (nb, delta) = apply_move_spec(
                    s.board,
                    s.mover(),
                    rk,
                    edge_src(ord),
                    edge_dst(ord),
                    amount as u8,
                );
                (true, perform_followup(add_score(StateView { board: nb, ..s }, delta), m))
            } else {
                (false, s)
            }
        } else {
            (false, s)
        }
    }
}

/// An applicable add preserves the cell invariant: unowned exactly when
/// empty, and occupied cells hold a real unit kind.
pub proof fn lemma_add_preserves_consistency(b: BoardView, turn: i8, at: ActionType, cid: int)
    requires
        b.consistent_lens(),
        b.cells_consistent(),
        0 <= turn <= 1,
        crate::legal::add_legal(b, turn, at, cid),
    ensures
        apply_add_spec(b, turn, at, cid).cells_consistent(),
{
    let nb = apply_add_spec(b, turn, at, cid);
    assert forall|i: int| 0 <= i < nb.n() implies ((#[trigger] nb.owner[i] == -1 <==> nb.count[i]
        == 0) && (nb.count[i] > 0 ==> nb.kind[i] == 1 || nb.kind[i] == 2)) by {
        assert(b.owner[i] == -1 <==> b.count[i] == 0);
        assert(b.count[i] > 0 ==> b.kind[i] == 1 || b.kind[i] == 2);
    }
}

/// An applicable move preserves the cell invariant.
pub proof fn lemma_move_preserves_consistency(
    b: BoardView,
    turn: i8,
    rk: u8,
    sid: int,
    eid: int,
    amount: u8,
)
    requires
        b.consistent_lens(),
        b.cells_consistent(),
        0 <= turn <= 1,
        rk == 1 || rk == 2,
        sid != eid,
        move_applicable(b, turn, rk, sid, eid, amount as int),
    ensures
        apply_move_spec(b, turn, rk, sid, eid, amount).0.cells_consistent(),
{
    let nb = apply_move_spec(b, turn, rk, sid, eid, amount).0;
    assert forall|i: int| 0 <= i < nb.n() implies ((#[trigger] nb.owner[i] == -1 <==> nb.count[i]
        == 0) && (nb.count[i] > 0 ==> nb.kind[i] == 1 || nb.kind[i] == 2)) by {
        assert(b.owner[i] == -1 <==> b.count[i] == 0);
        assert(b.count[i] > 0 ==> b.kind[i] == 1 || b.kind[i] == 2);
    }
}

/// Applying any action index preserves the cell invariant: for any cell,
/// owner is none exactly when its count is 0, before and after.
pub proof fn lemma_apply_preserves_consistency(s: StateView, i: int, m: u8)
    requires
        s.wf(),
        s.board.cells_consistent(),
    ensures
        apply_step(s, i, m).1.board.cells_consistent(),
{
    let step = apply_step(s, i, m);
    if m == 0 || s.phase == Phase::GameOver {
    } else if s.phase == Phase::ChooseSatellite {
    } else if s.phase == Phase::ChooseDirection {
    } else if is_add_type(s.action_type) {
        let cid = i - add_base();
        if add_base() <= i < move_base(s.board.n()) && crate::legal::add_legal(
            s.board,
            s.mover(),
            s.action_type,
            cid,
        ) {
            lemma_add_preserves_consistency(s.board, s.mover(), s.action_type, cid);
        }
    } else if is_move_type(s.action_type) {
        let rk = req_kind_of(s.action_type);
        let rel = i - move_base(s.board.n());
        let ord = rel / (m as int);
        let amount = rel % (m as int) + 1;
        if move_base(s.board.n()) <= i < move_base(s.board.n()) + total_edges() * (m as int)
            && move_applicable(s.board, s.mover(), rk, edge_src(ord), edge_dst(ord), amount) {
            assert(0 <= ord < total_edges()) by (nonlinear_arith)
                requires
                    0 <= i - move_base(s.board.n()) < total_edges() * (m as int),
                    m >= 1,
                    ord == (i - move_base(s.board.n())) / (m as int),
            ;
            lemma_edge_exists(ord);
            crate::board::lemma_no_self_loop(edge_src(ord), crate::board::edge_pair(ord).1);
            lemma_move_preserves_consistency(
                s.board,
                s.mover(),
                rk,
                edge_src(ord),
                edge_dst(ord),
                amount as u8,
            );
        }
    }
}

/// A move of `amount` units is legal exactly when applying it would go
/// through, on boards whose cells are consistent.
pub proof fn lemma_move_legal_iff_applicable(
    b: BoardView,
    turn: i8,
    rk: u8,
    sid: int,
    eid: int,
    amount: int,
    m: u8,
)
    requires
        b.consistent_lens(),
        b.cells_consistent(),
        0 <= sid < b.n(),
        0 <= eid < b.n(),
        1 <= amount <= m as int,
    ensures
        crate::legal::move_amount_legal(b, turn, rk, sid, eid, amount, m) == move_applicable(
            b,
            turn,
            rk,
            sid,
            eid,
            amount,
        ),
{
}

/// Applying an action index reports a change exactly when the index is in
/// the legal set, on states whose cells are consistent (unowned exactly
/// when empty, occupied cells of a real kind - the invariant every
/// reachable state keeps). Together with the enumerator's contract: every
/// enumerated index applies, and no other index changes the state (or, by
/// `apply_step`, the feature vector).
pub proof fn lemma_apply_matches_legal(s: StateView, i: int, m: u8)
    requires
        s.wf(),
        s.board.cells_consistent(),
    ensures
        apply_step(s, i, m).0 == is_legal_index(
            s.phase,
            s.action_type,
            s.mover(),
            s.charges,
            s.board,
            m,
            i,
        ),
        !apply_step(s, i, m).0 ==> apply_step(s, i, m).1 == s,
{
    if m == 0 || s.phase == Phase::GameOver {
    } else if s.phase == Phase::ChooseSatellite {
    } else if s.phase == Phase::ChooseDirection {
    } else if is_add_type(s.action_type) {
    } else if is_move_type(s.action_type) {
        let rk = req_kind_of(s.action_type);
        let rel = i - move_base(s.board.n());
        let ord = rel / (m as int);
        let amount = rel % (m as int) + 1;
        if move_base(s.board.n()) <= i < move_base(s.board.n()) + total_edges() * (m as int) {
            assert(0 <= rel < total_edges() * (m as int));
            assert(0 <= ord < total_edges()) by (nonlinear_arith)
                requires
                    0 <= rel < total_edges() * (m as int),
                    m >= 1,
                    ord == rel / (m as int),
            ;
            assert(0 <= rel % (m as int) < m as int);
            lemma_edge_exists(ord);
            lemma_move_legal_iff_applicable(
                s.board,
                s.mover(),
                rk,
                edge_src(ord),
                edge_dst(ord),
                amount,
                m,
            );
        }
    }
}

/// With no artefacts left and level scores below the winning threshold,
/// the win check ends the game in favor of the current mover: the
/// artefact-exhaustion tie-break is asymmetric by design.
pub proof fn lemma_artefact_tiebreak(s: StateView)
    requires
        s.score_of(s.turn) < WIN_SCORE,
        num_artefacts(s.board.artefact) == 0,
        s.score0 == s.score1,
    ensures
        check_win_spec(s).0,
        check_win_spec(s).1.winner == (if s.turn == 0 {
            Winner::Player0
        } else {
            Winner::Player1
        }),
        check_win_spec(s).1.phase == Phase::GameOver,
{
}

/// At the turn limit with level scores, the end of the turn ends the game
/// in a draw: no mover-favoring tie-break here, in contrast to artefact
/// exhaustion.
pub proof fn lemma_turn_limit_tiebreak(s: StateView)
    requires
        s.turn_count >= s.max_turns,
        s.score0 == s.score1,
    ensures
        end_turn_spec(s).winner == Winner::Draw,
        end_turn_spec(s).phase == Phase::GameOver,
{
}

/// A non-ranged move onto an artefact cell clears the artefact and scores
/// exactly the moved amount for the mover.
pub proof fn lemma_artefact_capture(b: BoardView, turn: i8, rk: u8, sid: int, eid: int, amount: u8)
    requires
        b.consistent_lens(),
        0 <= sid < b.n(),
        0 <= eid < b.n(),
        sid != eid,
        move_applicable(b, turn, rk, sid, eid, amount as int),
        b.artefact[eid],
    ensures
        apply_move_spec(b, turn, rk, sid, eid, amount).0.artefact[eid] == false,
        apply_move_spec(b, turn, rk, sid, eid, amount).0.owner[eid] == turn,
        apply_move_spec(b, turn, rk, sid, eid, amount).1 == amount as int,
{
}

/// A ranged resolution (a tank striking an enemy stack) never changes any
/// artefact and never moves the attacker in: the destination is emptied and
/// the attacking amount stays with the source.
pub proof fn lemma_ranged_resolution(b: BoardView, turn: i8, sid: int, eid: int, amount: u8)
    requires
        b.consistent_lens(),
        0 <= sid < b.n(),
        0 <= eid < b.n(),
        sid != eid,
        move_applicable(b, turn, 2u8, sid, eid, amount as int),
        b.owner[eid] != -1,
        b.owner[eid] != turn,
    ensures
        apply_move_spec(b, turn, 2u8, sid, eid, amount).0.artefact == b.artefact,
        apply_move_spec(b, turn, 2u8, sid, eid, amount).0.owner[eid] == -1,
        apply_move_spec(b, turn, 2u8, sid, eid, amount).0.count[eid] == 0,
        apply_move_spec(b, turn, 2u8, sid, eid, amount).0.owner[sid] == turn,
        apply_move_spec(b, turn, 2u8, sid, eid, amount).1 == 0,
{
}

/// An enumerated list is empty exactly when no action index is legal in
/// phase `PerformActions`.
proof fn lemma_empty_means_none_legal(
    v: Seq<usize>,
    at: ActionType,
    turn: i8,
    charges: Seq<u8>,
    b: BoardView,
    m: u8,
)
    requires
        b.n() == NUM_CELLS,
        forall|u: usize|
            v.contains(u) <==> is_legal_index(
                Phase::PerformActions,
                at,
                turn,
                charges,
                b,
                m,
                u as int,
            ),
    ensures
        (v.len() == 0) <==> !(exists|i: int|
            is_legal_index(Phase::PerformActions, at, turn, charges, b, m, i)),
{
    if v.len() == 0 {
        if exists|i: int| is_legal_index(Phase::PerformActions, at, turn, charges, b, m, i) {
            let i = choose|i: int|
                is_legal_index(Phase::PerformActions, at, turn, charges, b, m, i);
            crate::board::lemma_edges_before_bound(NUM_CELLS as int);
            assert(total_edges() * (m as int) <= 6 * NUM_CELLS * 255) by (nonlinear_arith)
                requires
                    0 <= total_edges() <= 6 * NUM_CELLS,
                    m <= 255,
            ;
            assert(0 <= i < move_base(NUM_CELLS as int) + 6 * NUM_CELLS * 255);
            assert((i as usize) as int == i);
            assert(v.contains(i as usize));
            let k = choose|k: int| 0 <= k < v.len() && v[k] == i as usize;
            assert(false);
        }
    } else {
        assert(v.contains(v[0]));
        assert(is_legal_index(Phase::PerformActions, at, turn, charges, b, m, v[0] as int));
    }
}

/// Count the artefact cells of the board.
fn count_artefacts(v: &Vec<bool>) -> (c: usize)
    ensures
        c as int == num_artefacts(v@),
{
    let n = v.len();
    let mut c: usize = 0;
    let mut i: usize = 0;
    while i < n
        invariant
            i <= n,
            n == v@.len(),
            c <= i,
            c as int == artefacts_upto(v@, i as int),
        decreases n - i,
    {
        if v[i] {
            c += 1;
        }
        i += 1;
    }
    c
}

/// `c + 1` clamped, as executable code.
fn sat_inc_x(c: u8) -> (r: u8)
    ensures
        r == sat_inc(c),
{
    if c == 255 {
        255
    } else {
        c + 1
    }
}

/// `c + a` clamped, as executable code.
fn sat_add_x(c: u8, a: u8) -> (r: u8)
    ensures
        r == sat_add(c, a),
{
    if c as u16 + a as u16 > 255 {
        255
    } else {
        c + a
    }
}

/// The mover's score raised by `a` with clamping, as executable code.
fn sat_add_score_x(x: i16, a: u8) -> (r: i16)
    ensures
        r == sat_add_score(x, a as int),
{
    if x as i32 + a as i32 > i16::MAX as i32 {
        i16::MAX
    } else {
        x + a as i16
    }
}

impl GameState {
    /// Apply an add action of the current family on cell `cid`, re-checking
    /// the army cap and the target's eligibility (exactly the enumerator's
    /// predicate); reports whether the board changed.
    fn apply_add(&mut self, cid: usize) -> (r: bool)
        requires
            old(self)@.wf(),
        ensures
            final(self)@.wf(),
            r == crate::legal::add_legal(old(self)@.board, old(self)@.mover(), old(self)@.action_type, cid as int),
            r ==> final(self)@ == (StateView {
                board: apply_add_spec(
                    old(self)@.board,
                    old(self)@.mover(),
                    old(self)@.action_type,
                    cid as int,
                ),
                ..old(self)@
            }),
            !r ==> final(self)@ == old(self)@,
    {
        if cid >= self.unit_owner.len() {
            return false;
        }
        let turn = self.turn as i8;
        if crate::legal::army_capped(&self.unit_owner, &self.unit_count, turn) {
            return false;
        }
        if matches!(self.action_type, ActionType::AddTank) {
            let opp = if self.turn == 0 {
                self.is_p1_start[cid]
            } else {
                self.is_p0_start[cid]
            };
            let owner = self.unit_owner[cid];
            let kind = self.unit_kind[cid];
            if owner == -1 {
                if self.is_artefact[cid] || opp {
                    return false;
                }
                self.unit_owner.set(cid, turn);
                self.unit_kind.set(cid, 2);
                self.unit_count.set(cid, 1);
                return true;
            }
            if owner == turn && kind == 2 {
                let nc = sat_inc_x(self.unit_count[cid]);
                self.unit_count.set(cid, nc);
                return true;
            }
            return false;
        }
        if matches!(self.action_type, ActionType::AddBot) {
            let own = if self.turn == 0 {
                self.is_p0_start[cid]
            } else {
                self.is_p1_start[cid]
            };
            let owner = self.unit_owner[cid];
            let kind = self.unit_kind[cid];
            if owner == turn && kind == 1 {
                let nc = sat_inc_x(self.unit_count[cid]);
                self.unit_count.set(cid, nc);
                return true;
            }
            if owner == -1 && own {
                self.unit_owner.set(cid, turn);
                self.unit_kind.set(cid, 1);
                self.unit_count.set(cid, 1);
                return true;
            }
            return false;
        }
        false
    }

    /// Apply a move action of the current family along (sid, eid) with the
    /// given amount, re-checking every move predicate; reports whether the
    /// board changed.
    fn apply_move(&mut self, sid: usize, eid: usize, amount: u8) -> (r: bool)
        requires
            old(self)@.wf(),
            is_move_type(old(self)@.action_type),
        ensures
            final(self)@.wf(),
            r == move_applicable(
                old(self)@.board,
                old(self)@.mover(),
                req_kind_of(old(self)@.action_type),
                sid as int,
                eid as int,
                amount as int,
            ),
            r ==> final(self)@ == add_score(
                (StateView {
                    board: apply_move_spec(
                        old(self)@.board,
                        old(self)@.mover(),
                        req_kind_of(old(self)@.action_type),
                        sid as int,
                        eid as int,
                        amount,
                    ).0,
                    ..old(self)@
                }),
                apply_move_spec(
                    old(self)@.board,
                    old(self)@.mover(),
                    req_kind_of(old(self)@.action_type),
                    sid as int,
                    eid as int,
                    amount,
                ).1,
            ),
            !r ==> final(self)@ == old(self)@,
    {
        let n = self.unit_owner.len();
        if sid >= n || eid >= n || amount == 0 {
            return false;
        }
        let turn = self.turn as i8;
        let rk: u8 = if matches!(self.action_type, ActionType::MoveTank) {
            2
        } else {
            1
        };
        if self.unit_owner[sid] != turn || self.unit_kind[sid] != rk {
            return false;
        }
        let src_count = self.unit_count[sid];
        if amount > src_count {
            return false;
        }
        let (oa, ob): (usize, usize) = if self.turn == 0 {
            (83, 84)
        } else {
            (3, 4)
        };
        if eid == oa || eid == ob {
            return false;
        }
        if rk == 2 && self.is_artefact[eid] {
            return false;
        }
        let target_owner = self.unit_owner[eid];
        let target_kind = self.unit_kind[eid];
        let target_count = self.unit_count[eid];
        if target_owner == turn {
            if target_kind != rk {
                return false;
            }
        } else if target_owner != -1 {
            if rk == 1 {
                return false;
            }
            if target_kind == 2 && target_count >= amount {
                return false;
            }
        }
        self.unit_count.set(sid, src_count - amount);
        if src_count - amount == 0 {
            self.unit_owner.set(sid, -1);
            self.unit_kind.set(sid, 0);
        }
        let mut did_move_in = true;
        if target_owner == -1 {
            self.unit_owner.set(eid, turn);
            self.unit_kind.set(eid, rk);
            self.unit_count.set(eid, amount);
        } else if target_owner == turn {
            let nc = sat_add_x(self.unit_count[eid], amount);
            self.unit_count.set(eid, nc);
        } else {
            self.unit_owner.set(eid, -1);
            self.unit_kind.set(eid, 0);
            self.unit_count.set(eid, 0);
            if rk == 2 {
                did_move_in = false;
                if self.unit_owner[sid] == -1 {
                    self.unit_owner.set(sid, turn);
                    self.unit_kind.set(sid, rk);
                    self.unit_count.set(sid, amount);
                } else {
                    let nc = sat_add_x(self.unit_count[sid], amount);
                    self.unit_count.set(sid, nc);
                }
            } else {
                self.unit_owner.set(eid, turn);
                self.unit_kind.set(eid, rk);
                self.unit_count.set(eid, amount);
            }
        }
        if did_move_in && self.is_artefact[eid] {
            self.is_artefact.set(eid, false);
            if self.turn == 0 {
                self.score0 = sat_add_score_x(self.score0, amount);
            } else {
                self.score1 = sat_add_score_x(self.score1, amount);
            }
        }
        proof {
            assert(final(self)@.board =~= apply_move_spec(
                old(self)@.board,
                old(self)@.mover(),
                req_kind_of(old(self)@.action_type),
                sid as int,
                eid as int,
                amount,
            ).0);
        }
        true
    }

    /// Evaluate the win condition after a successful mutation.
    fn check_win(&mut self) -> (r: bool)
        requires
            old(self)@.wf(),
        ensures
            final(self)@.wf(),
            r == check_win_spec(old(self)@).0,
            final(self)@ == check_win_spec(old(self)@).1,
    {
        let my_score = if self.turn == 0 {
            self.score0
        } else {
            self.score1
        };
        if my_score >= WIN_SCORE {
            self.winner = if self.turn == 0 {
                Winner::Player0
            } else {
                Winner::Player1
            };
            self.phase = Phase::GameOver;
            return true;
        }
        let remaining = count_artefacts(&self.is_artefact);
        if remaining == 0 {
            self.winner = if self.score0 > self.score1 {
                Winner::Player0
            } else if self.score1 > self.score0 {
                Winner::Player1
            } else if self.turn == 0 {
                Winner::Player0
            } else {
                Winner::Player1
            };
            self.phase = Phase::GameOver;
            return true;
        }
        false
    }

    /// Hand control to the other player, or end the game at the turn limit.
    fn end_turn(&mut self)
        requires
            old(self)@.wf(),
        ensures
            final(self)@.wf(),
            final(self)@ == end_turn_spec(old(self)@),
    {
        if self.turn_count >= self.max_turns {
            self.phase = Phase::GameOver;
            self.winner = if self.score0 > self.score1 {
                Winner::Player0
            } else if self.score1 > self.score0 {
                Winner::Player1
            } else {
                Winner::Draw
            };
            return;
        }
        self.turn = if self.turn == 0 {
            1
        } else {
            0
        };
        if self.turn == 0 {
            self.turn_count = self.turn_count + 1;
        }
        self.phase = Phase::ChooseSatellite;
        self.active_satellite_idx = -1;
        self.action_type = ActionType::Unset;
        self.actions_remaining = 0;
        self.picked_up_charges = 0;
    }

    /// List every legal action index for the current state, sorted
    /// ascending: exactly the indices that `apply_action_index` would
    /// accept to apply.
    pub fn legal_action_indices(&self, max_move_amount: u8, topo: &Topology) -> (v: Vec<usize>)
        requires
            self@.wf(),
            topo.wf(),
        ensures
            forall|k1: int, k2: int| 0 <= k1 < k2 < v@.len() ==> v@[k1] < v@[k2],
            forall|u: usize|
                v@.contains(u) <==> is_legal_index(
                    self@.phase,
                    self@.action_type,
                    self@.mover(),
                    self@.charges,
                    self@.board,
                    max_move_amount,
                    u as int,
                ),
    {
        let r = generate_legal_action_indices(
            self.phase,
            self.action_type,
            self.turn as i8,
            &self.sat_charges,
            &self.unit_owner,
            &self.unit_kind,
            &self.unit_count,
            &self.is_artefact,
            &self.is_p0_start,
            &self.is_p1_start,
            max_move_amount,
            topo,
        );
        match r {
            Ok(v) => v,
            Err(_) => {
                proof {
                    assert(false);
                }
                Vec::new()
            },
        }
    }

    /// Apply one action index: the only mutation of a game state.
    ///
    /// Returns whether the state changed; an index outside the legal set of
    /// the current phase (or a zero amount cap, or a finished game) is a
    /// no-op reporting `false`. The full transition is `apply_step` on the
    /// state's view; `lemma_apply_matches_legal` ties the reported flag to
    /// `is_legal_index`, the predicate behind `legal_action_indices`.
    #[verifier::rlimit(60)]
    pub fn apply_action_index(
        &mut self,
        action_index: usize,
        max_move_amount: u8,
        topo: &Topology,
    ) -> (r: bool)
        requires
            old(self)@.wf(),
            topo.wf(),
        ensures
            final(self)@.wf(),
            r == apply_step(old(self)@, action_index as int, max_move_amount).0,
            final(self)@ == apply_step(old(self)@, action_index as int, max_move_amount).1,
    {
        let m = max_move_amount;
        if m == 0 || matches!(self.phase, Phase::GameOver) {
            return false;
        }
        if matches!(self.phase, Phase::ChooseSatellite) {
            if action_index >= 6 {
                return false;
            }
            let idx = action_index;
            if self.sat_charges[idx] == 0 {
                return false;
            }
            self.active_satellite_idx = idx as i8;
            let t = self.sat_type_codes[idx];
            self.action_type = if t == 0 {
                ActionType::MoveTank
            } else if t == 1 {
                ActionType::MoveBot
            } else if t == 2 {
                ActionType::AddTank
            } else if t == 3 {
                ActionType::AddBot
            } else {
                ActionType::Unset
            };
            self.picked_up_charges = self.sat_charges[idx] as i16;
            self.sat_charges.set(idx, 0);
            self.phase = Phase::ChooseDirection;
            proof {
                assert(final(self)@ =~= choose_sat_step(old(self)@, idx as int));
            }
            return true;
        }
        if matches!(self.phase, Phase::ChooseDirection) {
            if action_index != 6 && action_index != 7 {
                return false;
            }
            let dirv: i16 = if action_index == 7 {
                1
            } else {
                -1
            };
            let ghost k: nat = if old(self)@.picked_up >= 0 {
                old(self)@.picked_up as nat
            } else {
                0nat
            };
            let mut idx: i16 = self.active_satellite_idx as i16;
            let mut to_distribute: usize = if self.picked_up_charges > 0 {
                self.picked_up_charges as usize
            } else {
                0
            };
            while to_distribute > 0
                invariant
                    -1 <= idx <= 5,
                    to_distribute <= k,
                    self@ == (StateView { charges: self@.charges, ..old(self)@ }),
                    self@.charges.len() == 6,
                    distribute_charges(
                        old(self)@.charges,
                        old(self)@.active_sat as int,
                        dirv as int,
                        k,
                    ) == distribute_charges(
                        self@.charges,
                        idx as int,
                        dirv as int,
                        to_distribute as nat,
                    ),
                    dirv == 1 || dirv == -1,
                decreases to_distribute,
            {
                let ghost prev_charges = self@.charges;
                let ghost prev_idx = idx as int;
                idx = (idx + dirv + 6) % 6;
                let nc = sat_inc_x(self.sat_charges[idx as usize]);
                self.sat_charges.set(idx as usize, nc);
                to_distribute -= 1;
                proof {
                    assert(idx as int == (prev_idx + dirv + 6) % 6);
                    assert(distribute_charges(
                        prev_charges,
                        prev_idx,
                        dirv as int,
                        (to_distribute + 1) as nat,
                    ) == distribute_charges(
                        self@.charges,
                        idx as int,
                        dirv as int,
                        to_distribute as nat,
                    ));
                }
            }
            let legal = generate_legal_action_indices(
                Phase::PerformActions,
                self.action_type,
                self.turn as i8,
                &self.sat_charges,
                &self.unit_owner,
                &self.unit_kind,
                &self.unit_count,
                &self.is_artefact,
                &self.is_p0_start,
                &self.is_p1_start,
                m,
                topo,
            );
            match legal {
                Ok(v) => {
                    proof {
                        lemma_empty_means_none_legal(
                            v@,
                            self@.action_type,
                            self@.mover(),
                            self@.charges,
                            self@.board,
                            m,
                        );
                    }
                    if v.len() == 0 {
                        self.end_turn();
                    } else {
                        self.actions_remaining = self.picked_up_charges;
                        self.phase = Phase::PerformActions;
                    }
                    proof {
                        assert(final(self)@ =~= choose_dir_step(
                            old(self)@,
                            action_index as int,
                            m,
                        ));
                    }
                    return true;
                },
                Err(_) => {
                    proof {
                        assert(false);
                    }
                    return false;
                },
            }
        }
        let n = self.unit_owner.len();
        let add_b: usize = 8;
        let move_b = 8 + n;
        let mut changed = false;
        if matches!(self.action_type, ActionType::AddTank) || matches!(
            self.action_type,
            ActionType::AddBot,
        ) {
            if !(add_b <= action_index && action_index < move_b) {
                return false;
            }
            let cid = action_index - add_b;
            changed = self.apply_add(cid);
        } else if matches!(self.action_type, ActionType::MoveTank) || matches!(
            self.action_type,
            ActionType::MoveBot,
        ) {
            let num_edges = topo.num_edges();
            proof {
                assert(num_edges * (m as usize) <= 6 * NUM_CELLS * 255) by (nonlinear_arith)
                    requires
                        num_edges <= 6 * NUM_CELLS,
                        m <= 255,
                ;
            }
            let move_span = num_edges * (m as usize);
            if !(move_b <= action_index && action_index < move_b + move_span) {
                return false;
            }
            let rel = action_index - move_b;
            let ord = rel / (m as usize);
            let amount = (rel % (m as usize) + 1) as u8;
            proof {
                assert(ord as int == (rel as int) / (m as int));
                assert(rel % (m as usize) < m as usize);
                assert((ord as int) < total_edges()) by (nonlinear_arith)
                    requires
                        (rel as int) < total_edges() * (m as int),
                        m >= 1,
                        ord as int == (rel as int) / (m as int),
                        rel as int >= 0,
                ;
            }
            let edge = topo.edge_at(ord);
            match edge {
                Some(se) => {
                    changed = self.apply_move(se.0, se.1, amount);
                },
                None => {
                    proof {
                        assert(false);
                    }
                    return false;
                },
            }
        } else {
            return false;
        }
        if !changed {
            return false;
        }
        let won = self.check_win();
        if won {
            return true;
        }
        let ar = if self.actions_remaining == i16::MIN {
            i16::MIN
        } else {
            self.actions_remaining - 1
        };
        self.actions_remaining = ar;
        if ar <= 0 {
            self.end_turn();
            return true;
        }
        let legal = generate_legal_action_indices(
            Phase::PerformActions,
            self.action_type,
            self.turn as i8,
            &self.sat_charges,
            &self.unit_owner,
            &self.unit_kind,
            &self.unit_count,
            &self.is_artefact,
            &self.is_p0_start,
            &self.is_p1_start,
            m,
            topo,
        );
        match legal {
            Ok(v) => {
                proof {
                    lemma_empty_means_none_legal(
                        v@,
                        self@.action_type,
                        self@.mover(),
                        self@.charges,
                        self@.board,
                        m,
                    );
                }
                if v.len() == 0 {
                    self.end_turn();
                }
            },
            Err(_) => {
                proof {
                    assert(false);
                }
                return false;
            },
        }
        proof {
            assert(final(self)@ =~= apply_step(old(self)@, action_index as int, m).1);
        }
        true
    }
}

} // verus!
