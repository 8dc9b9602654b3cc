//! The action index space and the legal-action enumerator.
//!
//! A single non-negative integer names every decision of the game,
//! parameterized by the largest stack size transferable in one move
//! (`max_move_amount`, `m` below):
//! indices 0-5 choose a satellite slot, 6 and 7 choose a distribution
//! direction, `8 .. 8+n` add a unit to a cell, and from `8+n` on each
//! directed edge owns a block of `m` indices, one per moved amount.

use vstd::prelude::*;

use crate::board::NUM_CELLS;
use crate::board::Topology;
use crate::board::adjacency;
use crate::board::edge_dst;
use crate::board::edge_src;
use crate::board::edges_before;
use crate::board::is_edge;
use crate::board::lemma_adjacency_element;
use crate::board::lemma_board_size;
use crate::board::lemma_degree;
use crate::board::lemma_edge_in_range;
use crate::board::lemma_edge_pair;
use crate::board::lemma_edges_before_bound;
use crate::board::total_edges;
use crate::state::ARMY_CAP;
use crate::state::ActionType;
use crate::state::BoardView;
use crate::state::EngineError;
use crate::state::Phase;
use crate::state::owned_total;
use crate::state::owned_total_upto;

verus! {

/// First add-action index.
pub open spec fn add_base() -> int {
    8
}

/// First move-action index on a board of `n` cells.
pub open spec fn move_base(n: int) -> int {
    8 + n
}

/// The unit kind a move family transports: 2 (tank) for `MoveTank`,
/// 1 (bot) otherwise.
pub open spec fn req_kind_of(at: ActionType) -> u8 {
    if at == ActionType::MoveTank {
        2
    } else {
        1
    }
}

/// Whether the action family places units.
pub open spec fn is_add_type(at: ActionType) -> bool {
    at == ActionType::AddTank || at == ActionType::AddBot
}

/// Whether the action family moves units.
pub open spec fn is_move_type(at: ActionType) -> bool {
    at == ActionType::MoveTank || at == ActionType::MoveBot
}

/// The two reserved start cells of the opponent of `turn` on the canonical
/// board: the far-row pair, forbidden as a move destination.
pub open spec fn opp_start_cells(turn: i8) -> (int, int) {
    if turn == 0 {
        (83, 84)
    } else {
        (3, 4)
    }
}

/// Whether `eid` may be entered by the mover at all.
pub open spec fn dest_allowed(turn: i8, eid: int) -> bool {
    eid != opp_start_cells(turn).0 && eid != opp_start_cells(turn).1
}

/// Whether an add action of family `at` may target cell `cid`: tanks
/// reinforce an own tank stack or claim an empty cell that is neither the
/// opponent's start nor an artefact; bots reinforce an own bot stack or
/// claim the mover's own empty start hex.
pub open spec fn add_target_ok(b: BoardView, turn: i8, at: ActionType, cid: int) -> bool {
    if at == ActionType::AddTank {
        ||| (b.owner[cid] == -1 && !b.opp_start(turn, cid) && !b.artefact[cid])
        ||| (b.owner[cid] == turn && b.kind[cid] == 2)
    } else {
        ||| (b.owner[cid] == turn && b.kind[cid] == 1)
        ||| (b.owner[cid] == -1 && b.own_start(turn, cid))
    }
}

/// Whether the add action of family `at` on cell `cid` is legal: an add
/// family, an eligible target, and a mover below the army cap.
pub open spec fn add_legal(b: BoardView, turn: i8, at: ActionType, cid: int) -> bool {
    &&& is_add_type(at)
    &&& 0 <= cid < b.n()
    &&& owned_total(b.owner, b.count, turn) < ARMY_CAP
    &&& add_target_ok(b, turn, at, cid)
}

/// Whether `sid` can source a move of kind `rk` for `turn`.
pub open spec fn source_ok(b: BoardView, turn: i8, rk: u8, sid: int) -> bool {
    b.owner[sid] == turn && b.kind[sid] == rk && b.count[sid] > 0
}

/// The legal amount range (lo, hi) of a move of kind `rk` from `sid` to
/// `eid`, before clamping to `max_move_amount`; lo == 0 means no amount is
/// legal. Tanks cannot enter artefact hexes; an empty or own same-kind
/// destination takes any amount up to the source stack; bots cannot attack;
/// a tank defeats any bot stack, and an enemy tank stack only with strictly
/// more units than it holds.
pub open spec fn move_range(b: BoardView, turn: i8, rk: u8, sid: int, eid: int) -> (int, int) {
    let sc = b.count[sid] as int;
    let to = b.owner[eid];
    let tk = b.kind[eid];
    let tc = b.count[eid] as int;
    if rk == 2 && b.artefact[eid] {
        (0, 0)
    } else if to == -1 {
        (1, sc)
    } else if to == turn {
        if tk == rk {
            (1, sc)
        } else {
            (0, 0)
        }
    } else if rk == 2 {
        if tk == 1 {
            (1, sc)
        } else if tk == 2 && sc > tc {
            (tc + 1, sc)
        } else {
            (0, 0)
        }
    } else {
        (0, 0)
    }
}

/// Whether moving `amount` units of kind `rk` from `sid` to `eid` is legal,
/// regardless of any per-move amount cap.
pub open spec fn move_triple_legal(
    b: BoardView,
    turn: i8,
    rk: u8,
    sid: int,
    eid: int,
    amount: int,
) -> bool {
    &&& source_ok(b, turn, rk, sid)
    &&& dest_allowed(turn, eid)
    &&& {
        let (lo, hi) = move_range(b, turn, rk, sid, eid);
        lo >= 1 && lo <= amount && amount <= hi
    }
}

/// Whether moving `amount` units of kind `rk` from `sid` to `eid` is legal
/// under the cap `m`.
pub open spec fn move_amount_legal(
    b: BoardView,
    turn: i8,
    rk: u8,
    sid: int,
    eid: int,
    amount: int,
    m: u8,
) -> bool {
    move_triple_legal(b, turn, rk, sid, eid, amount) && amount <= m as int
}

/// Whether `eid` stands in the neighbor list of `sid`.
pub open spec fn is_neighbor(sid: int, eid: usize) -> bool {
    exists|j: int| 0 <= j < adjacency()[sid].len() && adjacency()[sid][j] == eid
}

/// Whether move-action index `i` is legal: it decodes to an edge ordinal and
/// an amount, and that move is legal.
pub open spec fn move_index_legal(b: BoardView, turn: i8, rk: u8, m: u8, i: int) -> bool {
    let rel = i - move_base(b.n());
    let ord = rel / (m as int);
    let amount = rel % (m as int) + 1;
    &&& move_base(b.n()) <= i < move_base(b.n()) + total_edges() * (m as int)
    &&& move_amount_legal(b, turn, rk, edge_src(ord), edge_dst(ord), amount, m)
}

/// Whether action index `i` is legal in the given situation. This is the
/// single predicate both the enumerator and the state machine answer to.
pub open spec fn is_legal_index(
    phase: Phase,
    at: ActionType,
    turn: i8,
    charges: Seq<u8>,
    b: BoardView,
    m: u8,
    i: int,
) -> bool {
    if m == 0 {
        false
    } else {
        match phase {
            Phase::GameOver => false,
            Phase::ChooseSatellite => 0 <= i < 6 && i < charges.len() && charges[i] > 0,
            Phase::ChooseDirection => i == 6 || i == 7,
            Phase::PerformActions => {
                if is_add_type(at) {
                    &&& add_base() <= i < move_base(b.n())
                    &&& add_legal(b, turn, at, i - add_base())
                } else if is_move_type(at) {
                    &&& b.n() == NUM_CELLS
                    &&& move_index_legal(b, turn, req_kind_of(at), m, i)
                } else {
                    false
                }
            },
        }
    }
}

/// While choosing a satellite, an index is legal exactly when it names one
/// of the six slots and that slot holds charge. With the enumerator's
/// contract this means the listing at that phase is exactly the charged
/// slots, sorted ascending.
pub proof fn lemma_choose_satellite_legal(
    at: ActionType,
    turn: i8,
    charges: Seq<u8>,
    b: BoardView,
    m: u8,
    i: int,
)
    requires
        m >= 1,
        charges.len() == 6,
    ensures
        is_legal_index(Phase::ChooseSatellite, at, turn, charges, b, m, i) <==> (0 <= i < 6
            && charges[i] > 0),
{
}

/// Army cap: with a total owned unit count at or over the cap, no add
/// action is legal for that player, whatever the cell.
pub proof fn lemma_army_cap(
    at: ActionType,
    turn: i8,
    charges: Seq<u8>,
    b: BoardView,
    m: u8,
    i: int,
)
    requires
        is_add_type(at),
        owned_total(b.owner, b.count, turn) >= ARMY_CAP,
    ensures
        !is_legal_index(Phase::PerformActions, at, turn, charges, b, m, i),
{
}

/// A tank attacking an enemy tank stack needs strictly more units than the
/// stack holds: the legal amount range starts at one above the target's
/// count (never at the count itself), and - on an attackable destination -
/// an amount is legal exactly when it exceeds the target's stack and fits
/// in the source's.
pub proof fn lemma_tank_attack_strict(
    b: BoardView,
    turn: i8,
    sid: int,
    eid: int,
    amount: int,
    m: u8,
)
    requires
        b.owner[eid] != turn,
        b.owner[eid] != -1,
        b.kind[eid] == 2,
    ensures
        move_amount_legal(b, turn, 2u8, sid, eid, amount, m) ==> amount > b.count[eid] as int,
        move_range(b, turn, 2u8, sid, eid).0 != 0 ==> move_range(b, turn, 2u8, sid, eid).0
            == b.count[eid] as int + 1,
        !move_amount_legal(b, turn, 2u8, sid, eid, b.count[eid] as int, m),
        (source_ok(b, turn, 2u8, sid) && dest_allowed(turn, eid) && !b.artefact[eid]) ==> (
        move_triple_legal(b, turn, 2u8, sid, eid, amount) <==> ((b.count[eid] as int) < amount
            && amount <= b.count[sid] as int)),
{
}

/// Prefix sums of owned units only grow with the prefix.
pub proof fn lemma_owned_total_monotone(owner: Seq<i8>, count: Seq<u8>, turn: i8, k1: int, k2: int)
    requires
        0 <= k1 <= k2,
    ensures
        owned_total_upto(owner, count, turn, k1) <= owned_total_upto(owner, count, turn, k2),
    decreases k2,
{
    if k1 < k2 {
        lemma_owned_total_monotone(owner, count, turn, k1, k2 - 1);
    }
}

/// Whether the mover already owns `ARMY_CAP` or more units in total.
pub(crate) fn army_capped(unit_owner: &Vec<i8>, unit_count: &Vec<u8>, turn: i8) -> (r: bool)
    requires
        unit_owner@.len() == unit_count@.len(),
    ensures
        r <==> owned_total(unit_owner@, unit_count@, turn) >= ARMY_CAP,
{
    let n = unit_owner.len();
    let mut total: usize = 0;
    let mut i: usize = 0;
    while i < n && total < ARMY_CAP
        invariant
            i <= n,
            n == unit_owner@.len(),
            unit_owner@.len() == unit_count@.len(),
            total == owned_total_upto(unit_owner@, unit_count@, turn, i as int) || (total
                >= ARMY_CAP && total <= owned_total_upto(unit_owner@, unit_count@, turn, i as int)),
            total <= i * 255,
        decreases n - i,
    {
        if unit_owner[i] == turn {
            total = total + unit_count[i] as usize;
        }
        i += 1;
    }
    proof {
        lemma_owned_total_monotone(unit_owner@, unit_count@, turn, i as int, n as int);
    }
    total >= ARMY_CAP
}

/// List the legal add-action indices of family `at`, sorted ascending.
fn enumerate_adds(
    at: ActionType,
    turn: i8,
    unit_owner: &Vec<i8>,
    unit_kind: &Vec<u8>,
    unit_count: &Vec<u8>,
    is_artefact: &Vec<bool>,
    is_p0_start: &Vec<bool>,
    is_p1_start: &Vec<bool>,
) -> (v: Vec<usize>)
    requires
        is_add_type(at),
        unit_kind@.len() == unit_owner@.len(),
        unit_count@.len() == unit_owner@.len(),
        is_artefact@.len() == unit_owner@.len(),
        is_p0_start@.len() == unit_owner@.len(),
        is_p1_start@.len() == unit_owner@.len(),
        unit_owner@.len() + 8 < usize::MAX,
    ensures
        forall|k1: int, k2: int| 0 <= k1 < k2 < v@.len() ==> v@[k1] < v@[k2],
        forall|u: usize|
            v@.contains(u) <==> ((add_base() <= u as int) && (u as int) < move_base(
                unit_owner@.len() as int,
            ) && add_legal(
                BoardView {
                    owner: unit_owner@,
                    kind: unit_kind@,
                    count: unit_count@,
                    artefact: is_artefact@,
                    p0_start: is_p0_start@,
                    p1_start: is_p1_start@,
                },
                turn,
                at,
                u as int - add_base(),
            )),
{
    let ghost b = BoardView {
        owner: unit_owner@,
        kind: unit_kind@,
        count: unit_count@,
        artefact: is_artefact@,
        p0_start: is_p0_start@,
        p1_start: is_p1_start@,
    };
    let n = unit_owner.len();
    let mut v: Vec<usize> = Vec::new();
    if army_capped(unit_owner, unit_count, turn) {
        return v;
    }
    let mut cid: usize = 0;
    while cid < n
        invariant
            cid <= n,
            n == unit_owner@.len(),
            unit_kind@.len() == n,
            unit_count@.len() == n,
            is_artefact@.len() == n,
            is_p0_start@.len() == n,
            is_p1_start@.len() == n,
            n + 8 < usize::MAX,
            b == (BoardView {
                owner: unit_owner@,
                kind: unit_kind@,
                count: unit_count@,
                artefact: is_artefact@,
                p0_start: is_p0_start@,
                p1_start: is_p1_start@,
            }),
            owned_total(unit_owner@, unit_count@, turn) < ARMY_CAP,
            forall|k: int| 0 <= k < v@.len() ==> 8 <= #[trigger] v@[k] && v@[k] < 8 + cid,
            forall|k1: int, k2: int| 0 <= k1 < k2 < v@.len() ==> v@[k1] < v@[k2],
            forall|u: usize|
                v@.contains(u) <==> ((8 <= u as int) && (u as int) < 8 + cid && add_target_ok(
                    b,
                    turn,
                    at,
                    u as int - 8,
                )),
        decreases n - cid,
    {
        let eligible = if matches!(at, ActionType::AddTank) {
            let owner = unit_owner[cid];
            let kind = unit_kind[cid];
            let opp = if turn == 0 {
                is_p1_start[cid]
            } else {
                is_p0_start[cid]
            };
            (owner == -1 && !opp && !is_artefact[cid]) || (owner == turn && kind == 2)
        } else {
            let owner = unit_owner[cid];
            let kind = unit_kind[cid];
            let own = if turn == 0 {
                is_p0_start[cid]
            } else {
                is_p1_start[cid]
            };
            (owner == turn && kind == 1) || (owner == -1 && own)
        };
        proof {
            assert(eligible == add_target_ok(b, turn, at, cid as int));
        }
        let ghost pre = v@;
        proof {
            if v@.contains((8 + cid) as usize) {
                let k = choose|k: int| 0 <= k < v@.len() && v@[k] == (8 + cid) as usize;
                assert(false);
            }
        }
        if eligible {
            let ghost old_v = v@;
            v.push(8 + cid);
            proof {
                assert(v@[v@.len() - 1] == 8 + cid);
                assert(forall|u: usize|
                    v@.contains(u) <==> (old_v.contains(u) || u == 8 + cid)) by {
                    assert(forall|u: usize| #[trigger]
                        v@.contains(u) ==> (old_v.contains(u) || u == 8 + cid)) by {
                        assert(forall|k: int|
                            0 <= k < v@.len() ==> (#[trigger] v@[k] == 8 + cid || old_v.contains(
                                v@[k],
                            ))) by {
                            assert(forall|k: int|
                                0 <= k < old_v.len() ==> old_v.contains(#[trigger] old_v[k]));
                        }
                    }
                    assert(forall|u: usize|
                        old_v.contains(u) ==> #[trigger] v@.contains(u)) by {
                        assert(forall|k: int|
                            0 <= k < old_v.len() ==> v@[k] == #[trigger] old_v[k]);
                    }
                }
            }
        }
        proof {
            assert forall|u: usize|
                v@.contains(u) implies ((8 <= u as int) && (u as int) < 8 + (cid + 1)
                && add_target_ok(b, turn, at, u as int - 8)) by {
                if eligible {
                    assert(pre.contains(u) || u == (8 + cid) as usize);
                    if pre.contains(u) {
                        assert((8 <= u as int) && (u as int) < 8 + cid && add_target_ok(
                            b,
                            turn,
                            at,
                            u as int - 8,
                        ));
                    }
                } else {
                    assert(pre.contains(u));
                }
            }
            assert forall|u: usize|
                ((8 <= u as int) && (u as int) < 8 + (cid + 1) && add_target_ok(
                    b,
                    turn,
                    at,
                    u as int - 8,
                )) implies v@.contains(u) by {
                if (u as int) < 8 + cid {
                    assert(pre.contains(u));
                } else {
                    assert(u == (8 + cid) as usize);
                    assert(eligible);
                }
            }
        }
        cid += 1;
    }
    v
}

/// List the legal move-action indices for kind `rk`, sorted ascending: one
/// index per edge ordinal and legal amount.
#[verifier::rlimit(60)]
fn enumerate_moves(
    turn: i8,
    rk: u8,
    unit_owner: &Vec<i8>,
    unit_kind: &Vec<u8>,
    unit_count: &Vec<u8>,
    is_artefact: &Vec<bool>,
    is_p0_start: &Vec<bool>,
    is_p1_start: &Vec<bool>,
    m: u8,
    topo: &Topology,
) -> (v: Vec<usize>)
    requires
        topo.wf(),
        m >= 1,
        unit_owner@.len() == NUM_CELLS,
        unit_kind@.len() == NUM_CELLS,
        unit_count@.len() == NUM_CELLS,
        is_artefact@.len() == NUM_CELLS,
        is_p0_start@.len() == NUM_CELLS,
        is_p1_start@.len() == NUM_CELLS,
    ensures
        forall|k1: int, k2: int| 0 <= k1 < k2 < v@.len() ==> v@[k1] < v@[k2],
        forall|u: usize|
            v@.contains(u) <==> move_index_legal(
                BoardView {
                    owner: unit_owner@,
                    kind: unit_kind@,
                    count: unit_count@,
                    artefact: is_artefact@,
                    p0_start: is_p0_start@,
                    p1_start: is_p1_start@,
                },
                turn,
                rk,
                m,
                u as int,
            ),
{
    let ghost b = BoardView {
        owner: unit_owner@,
        kind: unit_kind@,
        count: unit_count@,
        artefact: is_artefact@,
        p0_start: is_p0_start@,
        p1_start: is_p1_start@,
    };
    let mb: usize = 8 + NUM_CELLS;
    let (oa, ob): (usize, usize) = if turn == 0 {
        (83, 84)
    } else {
        (3, 4)
    };
    let mut v: Vec<usize> = Vec::new();
    let mut ord: usize = 0;
    let mut sid: usize = 0;
    while sid < NUM_CELLS
        invariant
            topo.wf(),
            m >= 1,
            sid <= NUM_CELLS,
            unit_owner@.len() == NUM_CELLS,
            unit_kind@.len() == NUM_CELLS,
            unit_count@.len() == NUM_CELLS,
            is_artefact@.len() == NUM_CELLS,
            is_p0_start@.len() == NUM_CELLS,
            is_p1_start@.len() == NUM_CELLS,
            b == (BoardView {
                owner: unit_owner@,
                kind: unit_kind@,
                count: unit_count@,
                artefact: is_artefact@,
                p0_start: is_p0_start@,
                p1_start: is_p1_start@,
            }),
            mb == 8 + NUM_CELLS,
            oa as int == opp_start_cells(turn).0,
            ob as int == opp_start_cells(turn).1,
            ord as int == edges_before(sid as int),
            ord <= 6 * sid,
            forall|k: int|
                0 <= k < v@.len() ==> mb <= #[trigger] v@[k] && (v@[k] as int) < mb + ord * (
                m as int),
            forall|k1: int, k2: int| 0 <= k1 < k2 < v@.len() ==> v@[k1] < v@[k2],
            forall|u: usize|
                v@.contains(u) <==> ((u as int) < mb + ord * (m as int) && move_index_legal(
                    b,
                    turn,
                    rk,
                    m,
                    u as int,
                )),
        decreases NUM_CELLS - sid,
    {
        let src_valid = unit_owner[sid] == turn && unit_kind[sid] == rk && unit_count[sid] > 0;
        let deg = topo.neighbors[sid].len();
        proof {
            lemma_degree(sid as int);
            lemma_edges_before_bound(sid as int);
        }
        let mut j: usize = 0;
        while j < deg
            invariant
                topo.wf(),
                m >= 1,
                sid < NUM_CELLS,
                j <= deg,
                deg == adjacency()[sid as int].len(),
                deg <= 6,
                unit_owner@.len() == NUM_CELLS,
                unit_kind@.len() == NUM_CELLS,
                unit_count@.len() == NUM_CELLS,
                is_artefact@.len() == NUM_CELLS,
                is_p0_start@.len() == NUM_CELLS,
                is_p1_start@.len() == NUM_CELLS,
                b == (BoardView {
                    owner: unit_owner@,
                    kind: unit_kind@,
                    count: unit_count@,
                    artefact: is_artefact@,
                    p0_start: is_p0_start@,
                    p1_start: is_p1_start@,
                }),
                mb == 8 + NUM_CELLS,
                oa as int == opp_start_cells(turn).0,
                ob as int == opp_start_cells(turn).1,
                src_valid == source_ok(b, turn, rk, sid as int),
                ord as int == edges_before(sid as int) + j,
                ord <= 6 * sid + j,
                forall|k: int|
                    0 <= k < v@.len() ==> mb <= #[trigger] v@[k] && (v@[k] as int) < mb + ord * (
                    m as int),
                forall|k1: int, k2: int| 0 <= k1 < k2 < v@.len() ==> v@[k1] < v@[k2],
                forall|u: usize|
                    v@.contains(u) <==> ((u as int) < mb + ord * (m as int) && move_index_legal(
                        b,
                        turn,
                        rk,
                        m,
                        u as int,
                    )),
            decreases deg - j,
        {
            let eid = topo.neighbors[sid][j];
            proof {
                assert(is_edge(ord as int, sid as int, j as int));
                lemma_edge_pair(ord as int, sid as int, j as int);
                lemma_edge_in_range(ord as int, sid as int, j as int);
                lemma_adjacency_element(sid as int, j as int);
                lemma_edges_before_bound(NUM_CELLS as int);
                lemma_edge_block(b, turn, rk, m, ord as int);
            }
            if src_valid && eid != oa && eid != ob {
                let sc = unit_count[sid];
                let to = unit_owner[eid];
                let tk = unit_kind[eid];
                let tc = unit_count[eid];
                let mut lo: u8 = 0;
                let mut hi: u8 = 0;
                if rk == 2 && is_artefact[eid] {
                } else if to == -1 {
                    lo = 1;
                    hi = sc;
                } else if to == turn {
                    if tk == rk {
                        lo = 1;
                        hi = sc;
                    }
                } else if rk == 2 {
                    if tk == 1 {
                        lo = 1;
                        hi = sc;
                    } else if tk == 2 && sc > tc {
                        lo = tc + 1;
                        hi = sc;
                    }
                }
                proof {
                    assert(lo > 0 ==> (lo as int, hi as int) == move_range(
                        b,
                        turn,
                        rk,
                        sid as int,
                        eid as int,
                    ));
                    assert(lo == 0 ==> move_range(b, turn, rk, sid as int, eid as int).0 == 0);
                }
                if lo > 0 {
                    let hic = if hi < m {
                        hi
                    } else {
                        m
                    };
                    proof {
                        assert(ord * (m as usize) <= 534 * 255) by (nonlinear_arith)
                            requires
                                ord <= 534,
                                m <= 255,
                        ;
                    }
                    let base = mb + ord * (m as usize);
                    let mut amount: usize = lo as usize;
                    if amount <= hic as usize {
                        while amount <= hic as usize
                        invariant
                            m >= 1,
                            1 <= lo,
                            (lo as int) <= amount as int,
                            hic as int == (if hi <= m {
                                hi as int
                            } else {
                                m as int
                            }),
                            amount <= hic as usize + 1,
                            mb == 8 + NUM_CELLS,
                            base == mb + ord * (m as int),
                            base <= mb + 534 * 255,
                            ord as int == edges_before(sid as int) + j,
                            (ord as int) < total_edges(),
                            total_edges() <= 6 * NUM_CELLS,
                            sid < NUM_CELLS,
                            j < deg,
                            deg == adjacency()[sid as int].len(),
                            edge_src(ord as int) == sid as int,
                            edge_dst(ord as int) == eid as int,
                            (lo as int, hi as int) == move_range(b, turn, rk, sid as int, eid as int),
                            source_ok(b, turn, rk, sid as int),
                            dest_allowed(turn, eid as int),
                            forall|k: int|
                                0 <= k < v@.len() ==> mb <= #[trigger] v@[k] && (v@[k] as int)
                                    < base + amount - 1,
                            forall|k1: int, k2: int| 0 <= k1 < k2 < v@.len() ==> v@[k1] < v@[k2],
                            forall|u: usize|
                                v@.contains(u) <==> (((u as int) < base && move_index_legal(
                                    b,
                                    turn,
                                    rk,
                                    m,
                                    u as int,
                                )) || (base + lo - 1 <= (u as int) < base + amount - 1)),
                        decreases hic as int + 1 - amount,
                    {
                        let ghost old_v = v@;
                        v.push(base + (amount - 1));
                        proof {
                            assert(v@[v@.len() - 1] == base + (amount - 1));
                            lemma_push_contains(old_v, v@, (base + (amount - 1)) as usize);
                        }
                        amount += 1;
                        }
                    }
                    proof {
                        lemma_edge_block(b, turn, rk, m, ord as int);
                        assert((ord + 1) * (m as int) == ord * (m as int) + m as int)
                            by (nonlinear_arith);
                        assert forall|u: usize|
                            base <= (u as int) < base + m as int implies (#[trigger] v@.contains(u)
                            <==> move_index_legal(b, turn, rk, m, u as int)) by {
                            assert(move_index_legal(b, turn, rk, m, u as int)
                                <==> move_amount_legal(
                                b,
                                turn,
                                rk,
                                sid as int,
                                eid as int,
                                (u as int) - base + 1,
                                m,
                            ));
                        }
                    }
                } else {
                    proof {
                        lemma_edge_block(b, turn, rk, m, ord as int);
                        assert((ord + 1) * (m as int) == ord * (m as int) + m as int)
                            by (nonlinear_arith);
                        assert forall|u: usize|
                            mb + ord * (m as int) <= (u as int) < mb + (ord + 1) * (m as int)
                            implies !move_index_legal(b, turn, rk, m, u as int) by {
                            assert(move_index_legal(b, turn, rk, m, u as int)
                                <==> move_amount_legal(
                                b,
                                turn,
                                rk,
                                sid as int,
                                eid as int,
                                (u as int) - (mb + ord * (m as int)) + 1,
                                m,
                            ));
                        }
                    }
                }
            } else {
                proof {
                    lemma_edge_block(b, turn, rk, m, ord as int);
                    assert((ord + 1) * (m as int) == ord * (m as int) + m as int)
                        by (nonlinear_arith);
                    assert forall|u: usize|
                        mb + ord * (m as int) <= (u as int) < mb + (ord + 1) * (m as int)
                        implies !move_index_legal(b, turn, rk, m, u as int) by {
                        assert(move_index_legal(b, turn, rk, m, u as int) <==> move_amount_legal(
                            b,
                            turn,
                            rk,
                            sid as int,
                            eid as int,
                            (u as int) - (mb + ord * (m as int)) + 1,
                            m,
                        ));
                    }
                }
            }
            proof {
                assert((ord + 1) * (m as int) == ord * (m as int) + m as int) by (nonlinear_arith);
            }
            ord += 1;
            j += 1;
        }
        sid += 1;
    }
    proof {
        lemma_board_size();
        assert(ord as int == total_edges());
    }
    v
}

/// Indices in the block of edge ordinal `ord` decode back to that edge and
/// the amount matching their offset.
proof fn lemma_edge_block(b: BoardView, turn: i8, rk: u8, m: u8, ord: int)
    requires
        m >= 1,
        b.n() == NUM_CELLS,
        0 <= ord < total_edges(),
    ensures
        forall|i: int|
            (move_base(NUM_CELLS as int) + ord * (m as int) <= i < move_base(NUM_CELLS as int) + (
            ord + 1) * (m as int)) ==> (#[trigger] move_index_legal(b, turn, rk, m, i)
                <==> move_amount_legal(
                b,
                turn,
                rk,
                edge_src(ord),
                edge_dst(ord),
                i - move_base(NUM_CELLS as int) - ord * (m as int) + 1,
                m,
            )),
{
    let mbase = move_base(NUM_CELLS as int);
    assert forall|i: int|
        (mbase + ord * (m as int) <= i < mbase + (ord + 1) * (m as int)) implies (
    #[trigger] move_index_legal(b, turn, rk, m, i) <==> move_amount_legal(
        b,
        turn,
        rk,
        edge_src(ord),
        edge_dst(ord),
        i - mbase - ord * (m as int) + 1,
        m,
    )) by {
        let rel = i - mbase;
        let a = rel - ord * (m as int);
        assert((ord + 1) * (m as int) == ord * (m as int) + m as int) by (nonlinear_arith);
        assert(0 <= a < m as int);
        vstd::arithmetic::div_mod::lemma_fundamental_div_mod_converse(rel, m as int, ord, a);
        assert(rel / (m as int) == ord);
        assert(rel % (m as int) == a);
        assert(ord * (m as int) + a < total_edges() * (m as int)) by (nonlinear_arith)
            requires
                0 <= a < m as int,
                0 <= ord < total_edges(),
        ;
        assert(ord * (m as int) >= 0) by (nonlinear_arith)
            requires
                ord >= 0,
                (m as int) >= 1,
        ;
    }
}

/// The board view assembled from the six per-cell arrays.
pub open spec fn board_of(
    owner: Seq<i8>,
    kind: Seq<u8>,
    count: Seq<u8>,
    artefact: Seq<bool>,
    p0_start: Seq<bool>,
    p1_start: Seq<bool>,
) -> BoardView {
    BoardView { owner, kind, count, artefact, p0_start, p1_start }
}

/// Whether the enumerator can answer at all: the per-cell arrays must agree
/// in length, and a move enumeration (reached only in `PerformActions` with
/// a move family and a non-zero amount cap) must be over the board the
/// topology was built for.
pub open spec fn enumeration_ok(phase: Phase, at: ActionType, b: BoardView, m: u8) -> bool {
    &&& b.consistent_lens()
    &&& (phase == Phase::PerformActions && is_move_type(at) && m != 0 ==> b.n() == NUM_CELLS)
}

/// List every legal action index for the given situation, sorted ascending.
///
/// The result holds exactly the indices that `is_legal_index` allows: slots
/// with charge while choosing a satellite, 6 and 7 while choosing a
/// direction, eligible add or move indices while performing actions, and
/// nothing once the game is over or when `max_move_amount` is 0.
pub fn generate_legal_action_indices(
    phase: Phase,
    at: ActionType,
    turn: i8,
    sat_charges: &Vec<u8>,
    unit_owner: &Vec<i8>,
    unit_kind: &Vec<u8>,
    unit_count: &Vec<u8>,
    is_artefact: &Vec<bool>,
    is_p0_start: &Vec<bool>,
    is_p1_start: &Vec<bool>,
    max_move_amount: u8,
    topo: &Topology,
) -> (r: Result<Vec<usize>, EngineError>)
    requires
        topo.wf(),
        unit_owner@.len() + 8 < usize::MAX,
    ensures
        r.is_ok() <==> enumeration_ok(
            phase,
            at,
            board_of(unit_owner@, unit_kind@, unit_count@, is_artefact@, is_p0_start@, is_p1_start@),
            max_move_amount,
        ),
        match r {
            Ok(v) => {
                &&& forall|k1: int, k2: int| 0 <= k1 < k2 < v@.len() ==> v@[k1] < v@[k2]
                &&& forall|u: usize|
                    v@.contains(u) <==> is_legal_index(
                        phase,
                        at,
                        turn,
                        sat_charges@,
                        board_of(
                            unit_owner@,
                            unit_kind@,
                            unit_count@,
                            is_artefact@,
                            is_p0_start@,
                            is_p1_start@,
                        ),
                        max_move_amount,
                        u as int,
                    )
            },
            Err(e) => e == (if !board_of(
                unit_owner@,
                unit_kind@,
                unit_count@,
                is_artefact@,
                is_p0_start@,
                is_p1_start@,
            ).consistent_lens() {
                EngineError::LengthMismatch
            } else {
                EngineError::TopologyMismatch
            }),
        },
{
    let ghost b = board_of(
        unit_owner@,
        unit_kind@,
        unit_count@,
        is_artefact@,
        is_p0_start@,
        is_p1_start@,
    );
    let n = unit_owner.len();
    if unit_kind.len() != n || unit_count.len() != n || is_artefact.len() != n
        || is_p0_start.len() != n || is_p1_start.len() != n {
        return Err(EngineError::LengthMismatch);
    }
    if max_move_amount == 0 {
        return Ok(Vec::new());
    }
    match phase {
        Phase::GameOver => Ok(Vec::new()),
        Phase::ChooseSatellite => {
            let lim = if sat_charges.len() < 6 {
                sat_charges.len()
            } else {
                6
            };
            let mut v: Vec<usize> = Vec::new();
            let mut i: usize = 0;
            while i < lim
                invariant
                    i <= lim,
                    lim <= 6,
                    lim <= sat_charges@.len(),
                    lim as int == (if sat_charges@.len() < 6 {
                        sat_charges@.len() as int
                    } else {
                        6
                    }),
                    forall|k: int| 0 <= k < v@.len() ==> #[trigger] v@[k] < i,
                    forall|k1: int, k2: int| 0 <= k1 < k2 < v@.len() ==> v@[k1] < v@[k2],
                    forall|u: usize|
                        v@.contains(u) <==> (u < i && u < sat_charges@.len() && sat_charges@[u as int]
                            > 0),
                decreases lim - i,
            {
                if sat_charges[i] > 0 {
                    let ghost old_v = v@;
                    v.push(i);
                    proof {
                        lemma_push_contains(old_v, v@, i);
                    }
                }
                i += 1;
            }
            Ok(v)
        },
        Phase::ChooseDirection => {
            let mut v: Vec<usize> = Vec::new();
            v.push(6);
            v.push(7);
            proof {
                assert(v@[0] == 6usize);
                assert(v@[1] == 7usize);
                assert(forall|u: usize| v@.contains(u) ==> (u == 6 || u == 7)) by {
                    assert(forall|k: int| 0 <= k < v@.len() ==> v@[k] == 6usize || v@[k] == 7usize);
                }
                assert(v@.contains(6usize) && v@.contains(7usize));
            }
            Ok(v)
        },
        Phase::PerformActions => {
            if matches!(at, ActionType::AddTank) || matches!(at, ActionType::AddBot) {
                Ok(
                    enumerate_adds(
                        at,
                        turn,
                        unit_owner,
                        unit_kind,
                        unit_count,
                        is_artefact,
                        is_p0_start,
                        is_p1_start,
                    ),
                )
            } else if matches!(at, ActionType::MoveTank) || matches!(at, ActionType::MoveBot) {
                if n != NUM_CELLS {
                    return Err(EngineError::TopologyMismatch);
                }
                let rk: u8 = if matches!(at, ActionType::MoveTank) {
                    2
                } else {
                    1
                };
                Ok(
                    enumerate_moves(
                        turn,
                        rk,
                        unit_owner,
                        unit_kind,
                        unit_count,
                        is_artefact,
                        is_p0_start,
                        is_p1_start,
                        max_move_amount,
                        topo,
                    ),
                )
            } else {
                Ok(Vec::new())
            }
        },
    }
}

/// Count of cells among the first `k` on which a tank add would be valid:
/// an own tank stack, or an empty cell that is neither the opponent's start
/// nor an artefact.
pub open spec fn tank_add_spots_upto(
    owner: Seq<i8>,
    kind: Seq<u8>,
    me: i8,
    opp_start: Seq<bool>,
    artefact: Seq<bool>,
    k: int,
) -> int
    decreases k,
{
    if k <= 0 {
        0
    } else {
        tank_add_spots_upto(owner, kind, me, opp_start, artefact, k - 1) + if (owner[k - 1] == me
            && kind[k - 1] == 2) || (owner[k - 1] == -1 && !opp_start[k - 1] && !artefact[k - 1]) {
            1int
        } else {
            0int
        }
    }
}

/// Count the cells on which a tank add would be valid, from precomputed
/// per-cell masks. The arrays must agree in length.
pub fn count_valid_tank_adds(
    unit_owner: &Vec<i8>,
    unit_kind: &Vec<u8>,
    me: i8,
    is_opp_start: &Vec<bool>,
    is_artefact: &Vec<bool>,
) -> (r: Result<usize, EngineError>)
    ensures
        r.is_ok() <==> (unit_kind@.len() == unit_owner@.len() && is_opp_start@.len()
            == unit_owner@.len() && is_artefact@.len() == unit_owner@.len()),
        match r {
            Ok(c) => c as int == tank_add_spots_upto(
                unit_owner@,
                unit_kind@,
                me,
                is_opp_start@,
                is_artefact@,
                unit_owner@.len() as int,
            ),
            Err(e) => e == EngineError::LengthMismatch,
        },
{
    let n = unit_owner.len();
    if unit_kind.len() != n || is_opp_start.len() != n || is_artefact.len() != n {
        return Err(EngineError::LengthMismatch);
    }
    let mut out: usize = 0;
    let mut i: usize = 0;
    while i < n
        invariant
            i <= n,
            n == unit_owner@.len(),
            unit_kind@.len() == n,
            is_opp_start@.len() == n,
            is_artefact@.len() == n,
            out <= i,
            out as int == tank_add_spots_upto(
                unit_owner@,
                unit_kind@,
                me,
                is_opp_start@,
                is_artefact@,
                i as int,
            ),
        decreases n - i,
    {
        let owner = unit_owner[i];
        let kind = unit_kind[i];
        if (owner == me && kind == 2) || (owner == -1 && !is_opp_start[i] && !is_artefact[i]) {
            out += 1;
        }
        i += 1;
    }
    Ok(out)
}

/// The triples of one edge with `k` ascending amounts starting at `lo`.
pub open spec fn edge_amounts(sid: usize, eid: usize, lo: int, k: nat) -> Seq<(usize, usize, u8)>
    decreases k,
{
    if k == 0 {
        Seq::empty()
    } else {
        seq![(sid, eid, lo as u8)] + edge_amounts(sid, eid, lo + 1, (k - 1) as nat)
    }
}

/// The legal triples along the `j`-th edge out of `sid`, amounts ascending.
pub open spec fn edge_triples(b: BoardView, turn: i8, rk: u8, sid: int, j: int) -> Seq<
    (usize, usize, u8),
> {
    let eid = adjacency()[sid][j];
    if source_ok(b, turn, rk, sid) && dest_allowed(turn, eid as int) {
        let (lo, hi) = move_range(b, turn, rk, sid, eid as int);
        if 1 <= lo && lo <= hi {
            edge_amounts(sid as usize, eid, lo, (hi + 1 - lo) as nat)
        } else {
            Seq::empty()
        }
    } else {
        Seq::empty()
    }
}

/// The legal triples along the first `j` edges out of `sid`, in the
/// neighbor list's order.
pub open spec fn source_triples_upto(b: BoardView, turn: i8, rk: u8, sid: int, j: int) -> Seq<
    (usize, usize, u8),
>
    decreases j,
{
    if j <= 0 {
        Seq::empty()
    } else {
        source_triples_upto(b, turn, rk, sid, j - 1) + edge_triples(b, turn, rk, sid, j - 1)
    }
}

/// The legal triples of the first `sid` source cells, in topology order.
pub open spec fn move_triples_upto(b: BoardView, turn: i8, rk: u8, sid: int) -> Seq<
    (usize, usize, u8),
>
    decreases sid,
{
    if sid <= 0 {
        Seq::empty()
    } else {
        move_triples_upto(b, turn, rk, sid - 1) + source_triples_upto(
            b,
            turn,
            rk,
            sid - 1,
            adjacency()[sid - 1].len() as int,
        )
    }
}

/// Every legal move triple, in topology order: sources ascending, each
/// source's own neighbor-list order, amounts ascending per edge.
pub open spec fn move_triples(b: BoardView, turn: i8, rk: u8) -> Seq<(usize, usize, u8)> {
    move_triples_upto(b, turn, rk, NUM_CELLS as int)
}

/// One more amount appends one more triple.
proof fn lemma_edge_amounts_snoc(sid: usize, eid: usize, lo: int, k: nat)
    ensures
        edge_amounts(sid, eid, lo, (k + 1) as nat) == edge_amounts(sid, eid, lo, k).push(
            (sid, eid, (lo + k) as u8),
        ),
    decreases k,
{
    if k == 0 {
        assert(edge_amounts(sid, eid, lo + 1, 0nat) =~= Seq::empty());
        assert(edge_amounts(sid, eid, lo, 1nat) =~= edge_amounts(sid, eid, lo, 0nat).push(
            (sid, eid, lo as u8),
        ));
    } else {
        lemma_edge_amounts_snoc(sid, eid, lo + 1, (k - 1) as nat);
        assert(edge_amounts(sid, eid, lo, (k + 1) as nat) =~= edge_amounts(sid, eid, lo, k).push(
            (sid, eid, (lo + k) as u8),
        ));
    }
}

/// Whether `eid` stands before position `j` in the neighbor list of `sid`.
pub open spec fn is_neighbor_before(sid: int, j: int, eid: usize) -> bool {
    exists|jj: int| 0 <= jj < j && adjacency()[sid][jj] == eid
}

/// List every legal move of kind `req_kind` as (source, destination,
/// amount), without any per-move amount cap.
///
/// A triple is in the list exactly when the destination neighbors the
/// source and the move passes the move-legality rules, and the list is
/// exactly `move_triples`: topology order - sources ascending, each
/// source's own neighbor-list order, amounts ascending per edge. The
/// arrays must agree in length and match the board the topology was built
/// for, and the kind must be bot (1) or tank (2).
#[verifier::rlimit(60)]
pub fn generate_move_actions(
    unit_owner: &Vec<i8>,
    unit_kind: &Vec<u8>,
    unit_count: &Vec<u8>,
    turn: i8,
    req_kind: u8,
    is_artefact: &Vec<bool>,
    topo: &Topology,
) -> (r: Result<Vec<(usize, usize, u8)>, EngineError>)
    requires
        topo.wf(),
    ensures
        r.is_ok() <==> (unit_kind@.len() == unit_owner@.len() && unit_count@.len()
            == unit_owner@.len() && is_artefact@.len() == unit_owner@.len() && (req_kind == 1
            || req_kind == 2) && unit_owner@.len() == NUM_CELLS),
        match r {
            Ok(v) => {
                &&& v@ == move_triples(
                    board_of(
                        unit_owner@,
                        unit_kind@,
                        unit_count@,
                        is_artefact@,
                        Seq::empty(),
                        Seq::empty(),
                    ),
                    turn,
                    req_kind,
                )
                &&& forall|s: usize, e: usize, a: u8|
                    v@.contains((s, e, a)) <==> ((s as int) < NUM_CELLS && is_neighbor(s as int, e)
                        && move_triple_legal(
                        board_of(
                            unit_owner@,
                            unit_kind@,
                            unit_count@,
                            is_artefact@,
                            Seq::empty(),
                            Seq::empty(),
                        ),
                        turn,
                        req_kind,
                        s as int,
                        e as int,
                        a as int,
                    ))
            },
            Err(err) => err == (if !(unit_kind@.len() == unit_owner@.len() && unit_count@.len()
                == unit_owner@.len() && is_artefact@.len() == unit_owner@.len()) {
                EngineError::LengthMismatch
            } else if !(req_kind == 1 || req_kind == 2) {
                EngineError::InvalidKind
            } else {
                EngineError::TopologyMismatch
            }),
        },
{
    let ghost b = board_of(
        unit_owner@,
        unit_kind@,
        unit_count@,
        is_artefact@,
        Seq::empty(),
        Seq::empty(),
    );
    let n = unit_owner.len();
    if unit_kind.len() != n || unit_count.len() != n || is_artefact.len() != n {
        return Err(EngineError::LengthMismatch);
    }
    if req_kind != 1 && req_kind != 2 {
        return Err(EngineError::InvalidKind);
    }
    if n != NUM_CELLS {
        return Err(EngineError::TopologyMismatch);
    }
    let (oa, ob): (usize, usize) = if turn == 0 {
        (83, 84)
    } else {
        (3, 4)
    };
    let mut v: Vec<(usize, usize, u8)> = Vec::new();
    let mut sid: usize = 0;
    while sid < NUM_CELLS
        invariant
            topo.wf(),
            sid <= NUM_CELLS,
            unit_owner@.len() == NUM_CELLS,
            unit_kind@.len() == NUM_CELLS,
            unit_count@.len() == NUM_CELLS,
            is_artefact@.len() == NUM_CELLS,
            req_kind == 1 || req_kind == 2,
            b == board_of(
                unit_owner@,
                unit_kind@,
                unit_count@,
                is_artefact@,
                Seq::empty(),
                Seq::empty(),
            ),
            oa as int == opp_start_cells(turn).0,
            ob as int == opp_start_cells(turn).1,
            v@ == move_triples_upto(b, turn, req_kind, sid as int),
            forall|s: usize, e: usize, a: u8|
                #[trigger] v@.contains((s, e, a)) <==> ((s as int) < sid as int && is_neighbor(
                    s as int,
                    e,
                ) && move_triple_legal(b, turn, req_kind, s as int, e as int, a as int)),
        decreases NUM_CELLS - sid,
    {
        let src_valid = unit_owner[sid] == turn && unit_kind[sid] == req_kind && unit_count[sid]
            > 0;
        let deg = topo.neighbors[sid].len();
        let mut j: usize = 0;
        while j < deg
            invariant
                topo.wf(),
                sid < NUM_CELLS,
                j <= deg,
                deg == adjacency()[sid as int].len(),
                unit_owner@.len() == NUM_CELLS,
                unit_kind@.len() == NUM_CELLS,
                unit_count@.len() == NUM_CELLS,
                is_artefact@.len() == NUM_CELLS,
                req_kind == 1 || req_kind == 2,
                b == board_of(
                    unit_owner@,
                    unit_kind@,
                    unit_count@,
                    is_artefact@,
                    Seq::empty(),
                    Seq::empty(),
                ),
                oa as int == opp_start_cells(turn).0,
                ob as int == opp_start_cells(turn).1,
                src_valid == source_ok(b, turn, req_kind, sid as int),
                v@ == move_triples_upto(b, turn, req_kind, sid as int) + source_triples_upto(
                    b,
                    turn,
                    req_kind,
                    sid as int,
                    j as int,
                ),
                forall|s: usize, e: usize, a: u8|
                    #[trigger] v@.contains((s, e, a)) <==> (((s as int) < sid as int && is_neighbor(
                        s as int,
                        e,
                    ) && move_triple_legal(b, turn, req_kind, s as int, e as int, a as int)) || (
                    s == sid && is_neighbor_before(sid as int, j as int, e) && move_triple_legal(
                        b,
                        turn,
                        req_kind,
                        s as int,
                        e as int,
                        a as int,
                    ))),
            decreases deg - j,
        {
            let eid = topo.neighbors[sid][j];
            proof {
                lemma_adjacency_element(sid as int, j as int);
                assert(adjacency()[sid as int][j as int] == eid);
                assert(is_neighbor_before(sid as int, j as int + 1, eid));
            }
            if src_valid && eid != oa && eid != ob {
                let sc = unit_count[sid];
                let to = unit_owner[eid];
                let tk = unit_kind[eid];
                let tc = unit_count[eid];
                let mut lo: u8 = 0;
                let mut hi: u8 = 0;
                if req_kind == 2 && is_artefact[eid] {
                } else if to == -1 {
                    lo = 1;
                    hi = sc;
                } else if to == turn {
                    if tk == req_kind {
                        lo = 1;
                        hi = sc;
                    }
                } else if req_kind == 2 {
                    if tk == 1 {
                        lo = 1;
                        hi = sc;
                    } else if tk == 2 && sc > tc {
                        lo = tc + 1;
                        hi = sc;
                    }
                }
                proof {
                    assert(lo > 0 ==> (lo as int, hi as int) == move_range(
                        b,
                        turn,
                        req_kind,
                        sid as int,
                        eid as int,
                    ));
                    assert(lo == 0 ==> move_range(b, turn, req_kind, sid as int, eid as int).0
                        == 0);
                }
                if lo > 0 {
                    let mut amount: usize = lo as usize;
                    proof {
                        if (lo as usize) > (hi as usize) {
                            assert(edge_triples(b, turn, req_kind, sid as int, j as int)
                                =~= Seq::empty());
                        }
                    }
                    while amount <= hi as usize
                        invariant
                            1 <= lo,
                            (lo as usize) <= amount,
                            amount <= hi as usize + 1,
                            sid < NUM_CELLS,
                            j < deg,
                            deg == adjacency()[sid as int].len(),
                            adjacency()[sid as int][j as int] == eid,
                            (lo as int, hi as int) == move_range(
                                b,
                                turn,
                                req_kind,
                                sid as int,
                                eid as int,
                            ),
                            source_ok(b, turn, req_kind, sid as int),
                            dest_allowed(turn, eid as int),
                            v@ == move_triples_upto(b, turn, req_kind, sid as int)
                                + source_triples_upto(b, turn, req_kind, sid as int, j as int)
                                + edge_amounts(sid, eid, lo as int, (amount - lo as usize) as nat),
                            forall|s: usize, e: usize, a: u8|
                                #[trigger] v@.contains((s, e, a)) <==> (((s as int) < sid as int
                                    && is_neighbor(
                                    s as int,
                                    e,
                                ) && move_triple_legal(
                                    b,
                                    turn,
                                    req_kind,
                                    s as int,
                                    e as int,
                                    a as int,
                                )) || (s == sid && is_neighbor_before(sid as int, j as int, e)
                                    && move_triple_legal(
                                    b,
                                    turn,
                                    req_kind,
                                    s as int,
                                    e as int,
                                    a as int,
                                )) || (s == sid && e == eid && (lo as int) <= (a as int)
                                    && (a as int) < amount as int)),
                        decreases hi as int + 1 - amount,
                    {
                        let ghost old_v = v@;
                        v.push((sid, eid, amount as u8));
                        proof {
                            assert(v@[v@.len() - 1] == (sid, eid, amount as u8));
                            lemma_push_contains(old_v, v@, (sid, eid, amount as u8));
                            lemma_edge_amounts_snoc(
                                sid,
                                eid,
                                lo as int,
                                (amount - lo as usize) as nat,
                            );
                            assert(v@ =~= move_triples_upto(b, turn, req_kind, sid as int)
                                + source_triples_upto(b, turn, req_kind, sid as int, j as int)
                                + edge_amounts(
                                sid,
                                eid,
                                lo as int,
                                (amount + 1 - lo as usize) as nat,
                            ));
                        }
                        amount += 1;
                    }
                    proof {
                        assert(edge_triples(b, turn, req_kind, sid as int, j as int)
                            == edge_amounts(sid, eid, lo as int, (amount - lo as usize) as nat));
                    }
                } else {
                    proof {
                        assert(edge_triples(b, turn, req_kind, sid as int, j as int)
                            =~= Seq::empty());
                    }
                }
            } else {
                proof {
                    assert(edge_triples(b, turn, req_kind, sid as int, j as int) =~= Seq::empty());
                }
            }
            proof {
                assert(v@ =~= move_triples_upto(b, turn, req_kind, sid as int)
                    + source_triples_upto(b, turn, req_kind, sid as int, j as int + 1));
                assert(forall|e: usize|
                    is_neighbor_before(sid as int, j as int + 1, e) <==> (is_neighbor_before(
                        sid as int,
                        j as int,
                        e,
                    ) || e == eid)) by {
                    assert(forall|e: usize, jj: int|
                        (0 <= jj < j as int + 1 && adjacency()[sid as int][jj] == e) ==> (
                        is_neighbor_before(sid as int, j as int, e) || e == eid));
                }
            }
            j += 1;
        }
        proof {
            assert(v@ =~= move_triples_upto(b, turn, req_kind, sid as int + 1));
            assert(forall|e: usize|
                is_neighbor_before(sid as int, deg as int, e) <==> is_neighbor(sid as int, e));
        }
        sid += 1;
    }
    Ok(v)
}

/// Pushing one element extends a sequence's membership by exactly it.
proof fn lemma_push_contains<A>(old_v: Seq<A>, new_v: Seq<A>, x: A)
    requires
        new_v == old_v.push(x),
    ensures
        forall|u: A| new_v.contains(u) <==> (old_v.contains(u) || u == x),
{
    assert(new_v[new_v.len() - 1] == x);
    assert(forall|u: A| #[trigger] new_v.contains(u) ==> (old_v.contains(u) || u == x)) by {
        assert(forall|k: int|
            0 <= k < new_v.len() ==> (#[trigger] new_v[k] == x || old_v.contains(new_v[k]))) by {
            assert(forall|k: int| 0 <= k < old_v.len() ==> old_v.contains(#[trigger] old_v[k]));
        }
    }
    assert(forall|u: A| old_v.contains(u) ==> #[trigger] new_v.contains(u)) by {
        assert(forall|k: int| 0 <= k < old_v.len() ==> new_v[k] == #[trigger] old_v[k]);
    }
}

} // verus!
