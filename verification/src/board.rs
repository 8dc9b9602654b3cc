//! Fixed board topology: 9 rows of widths 8,9,10,11,12,11,10,9,8 (88 cells,
//! row-major ids), and for every cell its ordered neighbor list. The directed
//! edges (source, neighbor), numbered in row-major source order and each
//! source's own list order, carry the move-action index encoding.

use vstd::prelude::*;

verus! {

/// Number of rows on the board.
pub const NUM_ROWS: usize = 9;

/// Number of cells on the board: the sum of the row widths.
pub const NUM_CELLS: usize = 88;

/// Width of row `r` of the board (0 outside the board).
pub open spec fn row_width(r: int) -> int {
    if r == 0 {
        8
    } else if r == 1 {
        9
    } else if r == 2 {
        10
    } else if r == 3 {
        11
    } else if r == 4 {
        12
    } else if r == 5 {
        11
    } else if r == 6 {
        10
    } else if r == 7 {
        9
    } else if r == 8 {
        8
    } else {
        0
    }
}

/// Row-major id of the first cell of row `r`: the sum of the widths of the
/// rows before it.
pub open spec fn row_offset(r: int) -> int
    decreases r,
{
    if r <= 0 {
        0
    } else {
        row_offset(r - 1) + row_width(r - 1)
    }
}

/// Whether (row, column) names a cell of the board.
pub open spec fn valid_rc(r: int, c: int) -> bool {
    0 <= r < 9 && 0 <= c < row_width(r)
}

/// Row-major id of the cell at (row, column).
pub open spec fn cell_id(r: int, c: int) -> int {
    row_offset(r) + c
}

/// The singleton sequence holding the cell at (r, c), or empty when (r, c)
/// is off the board.
pub open spec fn opt_cell(r: int, c: int) -> Seq<usize> {
    if valid_rc(r, c) {
        seq![cell_id(r, c) as usize]
    } else {
        Seq::empty()
    }
}

/// Neighbors of (r, c) in the row above: columns {c-1, c} on the expanding
/// half of the board (r <= 4), columns {c, c+1} on the contracting half.
pub open spec fn upper_neighbors(r: int, c: int) -> Seq<usize> {
    if r <= 4 {
        opt_cell(r - 1, c - 1) + opt_cell(r - 1, c)
    } else {
        opt_cell(r - 1, c) + opt_cell(r - 1, c + 1)
    }
}

/// Neighbors of (r, c) in the row below: columns {c, c+1} above the middle
/// row (r < 4), columns {c-1, c} from the middle row on.
pub open spec fn lower_neighbors(r: int, c: int) -> Seq<usize> {
    if r < 4 {
        opt_cell(r + 1, c) + opt_cell(r + 1, c + 1)
    } else {
        opt_cell(r + 1, c - 1) + opt_cell(r + 1, c)
    }
}

/// The ordered neighbor list of the cell at (r, c): same-row left and right,
/// then the row above, then the row below, each dropped when off the board.
pub open spec fn neighbor_seq(r: int, c: int) -> Seq<usize> {
    opt_cell(r, c - 1) + opt_cell(r, c + 1) + upper_neighbors(r, c) + lower_neighbors(r, c)
}

/// The neighbor lists of the cells of row `r`, in column order.
pub open spec fn row_neighbor_lists(r: int) -> Seq<Seq<usize>> {
    Seq::new(row_width(r) as nat, |c: int| neighbor_seq(r, c))
}

/// The neighbor lists of all cells of the rows before `r`, in row-major order.
pub open spec fn adjacency_upto(r: int) -> Seq<Seq<usize>>
    decreases r,
{
    if r <= 0 {
        Seq::empty()
    } else {
        adjacency_upto(r - 1) + row_neighbor_lists(r - 1)
    }
}

/// The neighbor list of every cell of the board, indexed by cell id.
pub open spec fn adjacency() -> Seq<Seq<usize>> {
    adjacency_upto(9)
}

/// The concrete values of `row_offset` on the board's rows.
pub proof fn lemma_row_offsets()
    ensures
        row_offset(0) == 0,
        row_offset(1) == 8,
        row_offset(2) == 17,
        row_offset(3) == 27,
        row_offset(4) == 38,
        row_offset(5) == 50,
        row_offset(6) == 61,
        row_offset(7) == 71,
        row_offset(8) == 80,
        row_offset(9) == 88,
{
    reveal_with_fuel(row_offset, 2);
    assert(row_offset(1) == 8);
    assert(row_offset(2) == 17);
    assert(row_offset(3) == 27);
    assert(row_offset(4) == 38);
    assert(row_offset(5) == 50);
    assert(row_offset(6) == 61);
    assert(row_offset(7) == 71);
    assert(row_offset(8) == 80);
    assert(row_offset(9) == 88);
}

/// The board size from the fixed row-width sequence sums to the cell
/// count the whole engine is built around.
pub proof fn lemma_board_size()
    ensures
        row_offset(9) == NUM_CELLS,
        adjacency().len() == NUM_CELLS,
{
    lemma_row_offsets();
    lemma_adjacency_upto_len(9);
}

/// `row_offset` is monotone over the board's rows.
pub proof fn lemma_row_offset_monotone(a: int, b: int)
    requires
        0 <= a <= b,
    ensures
        row_offset(a) <= row_offset(b),
    decreases b,
{
    if a < b {
        lemma_row_offset_monotone(a, b - 1);
    }
}

/// A valid (row, column) pair names a cell id on the board.
pub proof fn lemma_cell_id_range(r: int, c: int)
    requires
        valid_rc(r, c),
    ensures
        0 <= cell_id(r, c) < NUM_CELLS,
        cell_id(r, c) < row_offset(r + 1),
{
    lemma_row_offsets();
    lemma_row_offset_monotone(0, r);
    lemma_row_offset_monotone(r + 1, 9);
}

/// `adjacency_upto(r)` holds one list per cell of the first `r` rows.
pub proof fn lemma_adjacency_upto_len(r: int)
    requires
        0 <= r <= 9,
    ensures
        adjacency_upto(r).len() == row_offset(r),
    decreases r,
{
    if r > 0 {
        lemma_adjacency_upto_len(r - 1);
    }
}

proof fn lemma_adjacency_upto_index(k: int, r: int, c: int)
    requires
        valid_rc(r, c),
        r < k <= 9,
    ensures
        adjacency_upto(k)[cell_id(r, c)] == neighbor_seq(r, c),
    decreases k,
{
    lemma_cell_id_range(r, c);
    lemma_adjacency_upto_len(k - 1);
    if k == r + 1 {
        assert(adjacency_upto(k) == adjacency_upto(r) + row_neighbor_lists(r));
        assert(adjacency_upto(k)[cell_id(r, c)] == row_neighbor_lists(r)[c]);
    } else {
        lemma_adjacency_upto_index(k - 1, r, c);
        lemma_row_offset_monotone(r + 1, k - 1);
        lemma_cell_id_range(r, c);
        assert(cell_id(r, c) < row_offset(k - 1));
        assert(adjacency_upto(k)[cell_id(r, c)] == adjacency_upto(k - 1)[cell_id(r, c)]);
    }
}

/// The adjacency entry of a cell named by (row, column) is its neighbor list.
pub proof fn lemma_adjacency_index(r: int, c: int)
    requires
        valid_rc(r, c),
    ensures
        adjacency()[cell_id(r, c)] == neighbor_seq(r, c),
{
    lemma_adjacency_upto_index(9, r, c);
}

/// Width of row `r`, as executable code.
pub fn row_width_at(r: usize) -> (w: usize)
    requires
        r < 9,
    ensures
        w as int == row_width(r as int),
        1 <= w <= 12,
{
    if r == 0 {
        8
    } else if r == 1 {
        9
    } else if r == 2 {
        10
    } else if r == 3 {
        11
    } else if r == 4 {
        12
    } else if r == 5 {
        11
    } else if r == 6 {
        10
    } else if r == 7 {
        9
    } else {
        8
    }
}

/// First cell id of row `r`, as executable code.
pub fn row_offset_at(r: usize) -> (off: usize)
    requires
        r < 9,
    ensures
        off as int == row_offset(r as int),
        off <= 80,
{
    proof {
        lemma_row_offsets();
    }
    if r == 0 {
        0
    } else if r == 1 {
        8
    } else if r == 2 {
        17
    } else if r == 3 {
        27
    } else if r == 4 {
        38
    } else if r == 5 {
        50
    } else if r == 6 {
        61
    } else if r == 7 {
        71
    } else {
        80
    }
}

/// The precomputed adjacency of the fixed board: one ordered neighbor list
/// per cell. Built once at program start and shared read-only by every game
/// instance.
pub struct Topology {
    pub neighbors: Vec<Vec<usize>>,
}

/// Build the ordered neighbor list of the cell at (r, c).
#[verifier::rlimit(30)]
fn cell_neighbors_at(r: usize, c: usize) -> (nbrs: Vec<usize>)
    requires
        valid_rc(r as int, c as int),
    ensures
        nbrs@ == neighbor_seq(r as int, c as int),
{
    proof {
        lemma_row_offsets();
    }
    let w = row_width_at(r);
    let off = row_offset_at(r);
    let mut nbrs: Vec<usize> = Vec::new();
    if c > 0 {
        nbrs.push(off + c - 1);
    }
    if c + 1 < w {
        nbrs.push(off + c + 1);
    }
    if r > 0 {
        let uw = row_width_at(r - 1);
        let uoff = row_offset_at(r - 1);
        if r <= 4 {
            if c >= 1 {
                if c - 1 < uw {
                    nbrs.push(uoff + c - 1);
                }
            }
            if c < uw {
                nbrs.push(uoff + c);
            }
        } else {
            if c < uw {
                nbrs.push(uoff + c);
            }
            if c + 1 < uw {
                nbrs.push(uoff + c + 1);
            }
        }
    }
    if r < 8 {
        let lw = row_width_at(r + 1);
        let loff = row_offset_at(r + 1);
        if r < 4 {
            if c < lw {
                nbrs.push(loff + c);
            }
            if c + 1 < lw {
                nbrs.push(loff + c + 1);
            }
        } else {
            if c >= 1 {
                if c - 1 < lw {
                    nbrs.push(loff + c - 1);
                }
            }
            if c < lw {
                nbrs.push(loff + c);
            }
        }
    }
    proof {
        assert(nbrs@ =~= neighbor_seq(r as int, c as int));
    }
    nbrs
}

impl Topology {
    /// The neighbor lists match the board's adjacency exactly.
    pub open spec fn wf(&self) -> bool {
        &&& self.neighbors@.len() == NUM_CELLS
        &&& forall|sid: int|
            0 <= sid < NUM_CELLS ==> (#[trigger] self.neighbors@[sid])@ == adjacency()[sid]
    }

    /// Compute the adjacency of the fixed board.
    pub fn new() -> (t: Topology)
        ensures
            t.wf(),
    {
        let mut neighbors: Vec<Vec<usize>> = Vec::new();
        proof {
            lemma_row_offsets();
        }
        let mut r: usize = 0;
        while r < 9
            invariant
                r <= 9,
                neighbors@.len() == row_offset(r as int),
                forall|sid: int|
                    0 <= sid < neighbors@.len() ==> (#[trigger] neighbors@[sid])@
                        == adjacency()[sid],
            decreases 9 - r,
        {
            let w = row_width_at(r);
            let off = row_offset_at(r);
            let mut c: usize = 0;
            while c < w
                invariant
                    r < 9,
                    c <= w,
                    w as int == row_width(r as int),
                    w <= 12,
                    off as int == row_offset(r as int),
                    off <= 80,
                    neighbors@.len() == row_offset(r as int) + c,
                    forall|sid: int|
                        0 <= sid < neighbors@.len() ==> (#[trigger] neighbors@[sid])@
                            == adjacency()[sid],
                decreases w - c,
            {
                let nbrs = cell_neighbors_at(r, c);
                proof {
                    lemma_row_offsets();
                    lemma_adjacency_index(r as int, c as int);
                    lemma_adjacency_upto_len(9);
                }
                neighbors.push(nbrs);
                c += 1;
            }
            r += 1;
        }
        proof {
            lemma_board_size();
        }
        Topology { neighbors }
    }

    /// Total number of directed edges of the board.
    pub fn num_edges(&self) -> (e: usize)
        requires
            self.wf(),
        ensures
            e as int == total_edges(),
            e <= 6 * NUM_CELLS,
    {
        let mut e: usize = 0;
        let mut sid: usize = 0;
        while sid < NUM_CELLS
            invariant
                self.wf(),
                sid <= NUM_CELLS,
                e as int == edges_before(sid as int),
                e <= 6 * sid,
            decreases NUM_CELLS - sid,
        {
            proof {
                lemma_degree(sid as int);
            }
            e = e + self.neighbors[sid].len();
            sid += 1;
        }
        e
    }

    /// The directed edge with the given ordinal, or `None` when the ordinal
    /// is out of range.
    pub fn edge_at(&self, ord: usize) -> (r: Option<(usize, usize)>)
        requires
            self.wf(),
        ensures
            r.is_some() <==> (ord as int) < total_edges(),
            match r {
                Some(p) => p.0 as int == edge_src(ord as int) && p.1 as int == edge_dst(
                    ord as int,
                ) && (p.1 as int) < NUM_CELLS,
                None => true,
            },
    {
        let mut cur: usize = 0;
        let mut sid: usize = 0;
        while sid < NUM_CELLS
            invariant
                self.wf(),
                sid <= NUM_CELLS,
                cur as int == edges_before(sid as int),
                cur <= ord,
                cur <= 6 * sid,
            decreases NUM_CELLS - sid,
        {
            proof {
                lemma_degree(sid as int);
            }
            let deg = self.neighbors[sid].len();
            if ord - cur < deg {
                let j = ord - cur;
                let eid = self.neighbors[sid][j];
                proof {
                    assert(is_edge(ord as int, sid as int, j as int));
                    lemma_edge_in_range(ord as int, sid as int, j as int);
                    lemma_edge_pair(ord as int, sid as int, j as int);
                    lemma_adjacency_element(sid as int, j as int);
                }
                return Some((sid, eid));
            }
            cur = cur + deg;
            sid += 1;
        }
        proof {
            assert(edges_before(NUM_CELLS as int) <= ord);
        }
        None
    }
}

/// Directed edges before those leaving cell `sid`, in ordinal order: the sum
/// of the neighbor-list lengths of the cells before it.
pub open spec fn edges_before(sid: int) -> int
    decreases sid,
{
    if sid <= 0 {
        0
    } else {
        edges_before(sid - 1) + adjacency()[sid - 1].len()
    }
}

/// Total number of directed edges of the board.
pub open spec fn total_edges() -> int {
    edges_before(NUM_CELLS as int)
}

/// Whether ordinal `ord` names the `j`-th edge out of cell `sid`.
pub open spec fn is_edge(ord: int, sid: int, j: int) -> bool {
    &&& 0 <= sid < NUM_CELLS
    &&& 0 <= j < adjacency()[sid].len()
    &&& ord == edges_before(sid) + j
}

/// The (source cell, neighbor position) pair of the edge with ordinal `ord`.
pub open spec fn edge_pair(ord: int) -> (int, int) {
    choose|p: (int, int)| is_edge(ord, p.0, p.1)
}

/// Source cell of the edge with ordinal `ord`.
pub open spec fn edge_src(ord: int) -> int {
    edge_pair(ord).0
}

/// Destination cell of the edge with ordinal `ord`.
pub open spec fn edge_dst(ord: int) -> int {
    adjacency()[edge_pair(ord).0][edge_pair(ord).1] as int
}

/// Every cell of the board is named by a valid (row, column) pair.
pub proof fn lemma_locate_cell(sid: int)
    requires
        0 <= sid < NUM_CELLS,
    ensures
        exists|r: int, c: int| valid_rc(r, c) && cell_id(r, c) == sid,
{
    lemma_row_offsets();
    if sid < 8 {
        assert(valid_rc(0, sid - row_offset(0)) && cell_id(0, sid - row_offset(0)) == sid);
    } else if sid < 17 {
        assert(valid_rc(1, sid - row_offset(1)) && cell_id(1, sid - row_offset(1)) == sid);
    } else if sid < 27 {
        assert(valid_rc(2, sid - row_offset(2)) && cell_id(2, sid - row_offset(2)) == sid);
    } else if sid < 38 {
        assert(valid_rc(3, sid - row_offset(3)) && cell_id(3, sid - row_offset(3)) == sid);
    } else if sid < 50 {
        assert(valid_rc(4, sid - row_offset(4)) && cell_id(4, sid - row_offset(4)) == sid);
    } else if sid < 61 {
        assert(valid_rc(5, sid - row_offset(5)) && cell_id(5, sid - row_offset(5)) == sid);
    } else if sid < 71 {
        assert(valid_rc(6, sid - row_offset(6)) && cell_id(6, sid - row_offset(6)) == sid);
    } else if sid < 80 {
        assert(valid_rc(7, sid - row_offset(7)) && cell_id(7, sid - row_offset(7)) == sid);
    } else {
        assert(valid_rc(8, sid - row_offset(8)) && cell_id(8, sid - row_offset(8)) == sid);
    }
}

/// The element at position `j` of a neighbor list names one of the eight
/// candidate cells of (r, c), under the branch rules of `neighbor_seq`.
proof fn lemma_neighbor_elem_cases(r: int, c: int, j: int)
    requires
        valid_rc(r, c),
        0 <= j < neighbor_seq(r, c).len(),
    ensures
        ({
            let x = neighbor_seq(r, c)[j];
            ||| (valid_rc(r, c - 1) && x == cell_id(r, c - 1) as usize)
            ||| (valid_rc(r, c + 1) && x == cell_id(r, c + 1) as usize)
            ||| (r <= 4 && valid_rc(r - 1, c - 1) && x == cell_id(r - 1, c - 1) as usize)
            ||| (valid_rc(r - 1, c) && x == cell_id(r - 1, c) as usize)
            ||| (r > 4 && valid_rc(r - 1, c + 1) && x == cell_id(r - 1, c + 1) as usize)
            ||| (r >= 4 && valid_rc(r + 1, c - 1) && x == cell_id(r + 1, c - 1) as usize)
            ||| (valid_rc(r + 1, c) && x == cell_id(r + 1, c) as usize)
            ||| (r < 4 && valid_rc(r + 1, c + 1) && x == cell_id(r + 1, c + 1) as usize)
        }),
{
}

/// Distinct (row, column) pairs name distinct cells.
proof fn lemma_distinct_cells(r2: int, c2: int, r: int, c: int)
    requires
        valid_rc(r2, c2),
        valid_rc(r, c),
        r2 != r || c2 != c,
    ensures
        cell_id(r2, c2) != cell_id(r, c),
        0 <= cell_id(r2, c2) < NUM_CELLS,
{
    lemma_cell_id_range(r2, c2);
    lemma_cell_id_range(r, c);
    if r2 < r {
        lemma_row_offset_monotone(r2 + 1, r);
    }
    if r < r2 {
        lemma_row_offset_monotone(r + 1, r2);
    }
}

proof fn lemma_candidate_ranges(r: int, c: int)
    requires
        valid_rc(r, c),
    ensures
        valid_rc(r, c - 1) ==> 0 <= cell_id(r, c - 1) < NUM_CELLS,
        valid_rc(r, c + 1) ==> 0 <= cell_id(r, c + 1) < NUM_CELLS,
        valid_rc(r - 1, c - 1) ==> 0 <= cell_id(r - 1, c - 1) < NUM_CELLS,
        valid_rc(r - 1, c) ==> 0 <= cell_id(r - 1, c) < NUM_CELLS,
        valid_rc(r - 1, c + 1) ==> 0 <= cell_id(r - 1, c + 1) < NUM_CELLS,
        valid_rc(r + 1, c - 1) ==> 0 <= cell_id(r + 1, c - 1) < NUM_CELLS,
        valid_rc(r + 1, c) ==> 0 <= cell_id(r + 1, c) < NUM_CELLS,
        valid_rc(r + 1, c + 1) ==> 0 <= cell_id(r + 1, c + 1) < NUM_CELLS,
{
    if valid_rc(r, c - 1) {
        lemma_cell_id_range(r, c - 1);
    }
    if valid_rc(r, c + 1) {
        lemma_cell_id_range(r, c + 1);
    }
    if valid_rc(r - 1, c - 1) {
        lemma_cell_id_range(r - 1, c - 1);
    }
    if valid_rc(r - 1, c) {
        lemma_cell_id_range(r - 1, c);
    }
    if valid_rc(r - 1, c + 1) {
        lemma_cell_id_range(r - 1, c + 1);
    }
    if valid_rc(r + 1, c - 1) {
        lemma_cell_id_range(r + 1, c - 1);
    }
    if valid_rc(r + 1, c) {
        lemma_cell_id_range(r + 1, c);
    }
    if valid_rc(r + 1, c + 1) {
        lemma_cell_id_range(r + 1, c + 1);
    }
}

/// Every neighbor named by the adjacency is itself a cell of the board, and
/// no cell has more than six neighbors: the adjacency is internally
/// consistent.
pub proof fn lemma_adjacency_consistent(sid: int)
    requires
        0 <= sid < NUM_CELLS,
    ensures
        adjacency()[sid].len() <= 6,
        forall|j: int|
            0 <= j < adjacency()[sid].len() ==> 0 <= (#[trigger] adjacency()[sid][j])
                < NUM_CELLS,
{
    lemma_locate_cell(sid);
    let (r, c) = choose|r: int, c: int| valid_rc(r, c) && cell_id(r, c) == sid;
    lemma_adjacency_index(r, c);
    assert forall|j: int|
        0 <= j < adjacency()[sid].len() implies 0 <= (#[trigger] adjacency()[sid][j])
        < NUM_CELLS by {
        lemma_neighbor_elem_cases(r, c, j);
        lemma_candidate_ranges(r, c);
    }
}

/// A cell has at most six neighbors.
pub proof fn lemma_degree(sid: int)
    requires
        0 <= sid < NUM_CELLS,
    ensures
        adjacency()[sid].len() <= 6,
{
    lemma_adjacency_consistent(sid);
}

/// The element named by an edge position is a cell of the board.
pub proof fn lemma_adjacency_element(sid: int, j: int)
    requires
        0 <= sid < NUM_CELLS,
        0 <= j < adjacency()[sid].len(),
    ensures
        0 <= adjacency()[sid][j] < NUM_CELLS,
{
    lemma_adjacency_consistent(sid);
}

/// No cell neighbors itself.
pub proof fn lemma_no_self_loop(sid: int, j: int)
    requires
        0 <= sid < NUM_CELLS,
        0 <= j < adjacency()[sid].len(),
    ensures
        (adjacency()[sid][j]) as int != sid,
{
    lemma_locate_cell(sid);
    let (r, c) = choose|r: int, c: int| valid_rc(r, c) && cell_id(r, c) == sid;
    lemma_adjacency_index(r, c);
    lemma_neighbor_elem_cases(r, c, j);
    if valid_rc(r, c - 1) {
        lemma_distinct_cells(r, c - 1, r, c);
    }
    if valid_rc(r, c + 1) {
        lemma_distinct_cells(r, c + 1, r, c);
    }
    if valid_rc(r - 1, c - 1) {
        lemma_distinct_cells(r - 1, c - 1, r, c);
    }
    if valid_rc(r - 1, c) {
        lemma_distinct_cells(r - 1, c, r, c);
    }
    if valid_rc(r - 1, c + 1) {
        lemma_distinct_cells(r - 1, c + 1, r, c);
    }
    if valid_rc(r + 1, c - 1) {
        lemma_distinct_cells(r + 1, c - 1, r, c);
    }
    if valid_rc(r + 1, c) {
        lemma_distinct_cells(r + 1, c, r, c);
    }
    if valid_rc(r + 1, c + 1) {
        lemma_distinct_cells(r + 1, c + 1, r, c);
    }
}


proof fn lemma_concat2_contains(a: Seq<usize>, b: Seq<usize>, x: usize)
    requires
        a.contains(x) || b.contains(x),
    ensures
        (a + b).contains(x),
{
    if a.contains(x) {
        let i = choose|i: int| 0 <= i < a.len() && a[i] == x;
        assert((a + b)[i] == x);
    } else {
        let i = choose|i: int| 0 <= i < b.len() && b[i] == x;
        assert((a + b)[a.len() + i] == x);
    }
}

proof fn lemma_concat4_contains(a: Seq<usize>, b: Seq<usize>, c: Seq<usize>, d: Seq<usize>, x: usize)
    requires
        a.contains(x) || b.contains(x) || c.contains(x) || d.contains(x),
    ensures
        (a + b + c + d).contains(x),
{
    if a.contains(x) {
        let i = choose|i: int| 0 <= i < a.len() && a[i] == x;
        assert((a + b + c + d)[i] == x);
    } else if b.contains(x) {
        let i = choose|i: int| 0 <= i < b.len() && b[i] == x;
        assert((a + b + c + d)[a.len() + i] == x);
    } else if c.contains(x) {
        let i = choose|i: int| 0 <= i < c.len() && c[i] == x;
        assert((a + b + c + d)[a.len() + b.len() + i] == x);
    } else {
        let i = choose|i: int| 0 <= i < d.len() && d[i] == x;
        assert((a + b + c + d)[a.len() + b.len() + c.len() + i] == x);
    }
}

/// Whether (r, c) is one of the candidate neighbors of (r2, c2) under the
/// branch rules of `neighbor_seq`.
pub open spec fn is_candidate_of(r2: int, c2: int, r: int, c: int) -> bool {
    ||| (r == r2 && (c == c2 - 1 || c == c2 + 1))
    ||| (r == r2 - 1 && (if r2 <= 4 {
        c == c2 - 1 || c == c2
    } else {
        c == c2 || c == c2 + 1
    }))
    ||| (r == r2 + 1 && (if r2 < 4 {
        c == c2 || c == c2 + 1
    } else {
        c == c2 - 1 || c == c2
    }))
}

/// A valid candidate cell stands in the neighbor list.
proof fn lemma_in_neighbor_seq(r2: int, c2: int, r: int, c: int)
    requires
        valid_rc(r2, c2),
        valid_rc(r, c),
        is_candidate_of(r2, c2, r, c),
    ensures
        neighbor_seq(r2, c2).contains(cell_id(r, c) as usize),
{
    let me = cell_id(r, c) as usize;
    if r == r2 && c == c2 - 1 {
        assert(opt_cell(r2, c2 - 1)[0] == me);
        assert(opt_cell(r2, c2 - 1).contains(me));
    } else if r == r2 && c == c2 + 1 {
        assert(opt_cell(r2, c2 + 1)[0] == me);
        assert(opt_cell(r2, c2 + 1).contains(me));
    } else if r == r2 - 1 {
        assert(opt_cell(r, c)[0] == me);
        assert(opt_cell(r, c).contains(me));
        if r2 <= 4 {
            lemma_concat2_contains(opt_cell(r2 - 1, c2 - 1), opt_cell(r2 - 1, c2), me);
        } else {
            lemma_concat2_contains(opt_cell(r2 - 1, c2), opt_cell(r2 - 1, c2 + 1), me);
        }
        assert(upper_neighbors(r2, c2).contains(me));
    } else {
        assert(opt_cell(r, c)[0] == me);
        assert(opt_cell(r, c).contains(me));
        if r2 < 4 {
            lemma_concat2_contains(opt_cell(r2 + 1, c2), opt_cell(r2 + 1, c2 + 1), me);
        } else {
            lemma_concat2_contains(opt_cell(r2 + 1, c2 - 1), opt_cell(r2 + 1, c2), me);
        }
        assert(lower_neighbors(r2, c2).contains(me));
    }
    lemma_concat4_contains(
        opt_cell(r2, c2 - 1),
        opt_cell(r2, c2 + 1),
        upper_neighbors(r2, c2),
        lower_neighbors(r2, c2),
        me,
    );
}

proof fn lemma_symmetric_case(r2: int, c2: int, r: int, c: int)
    requires
        valid_rc(r2, c2),
        valid_rc(r, c),
        is_candidate_of(r2, c2, r, c),
    ensures
        adjacency()[cell_id(r2, c2)].contains(cell_id(r, c) as usize),
{
    lemma_adjacency_index(r2, c2);
    lemma_in_neighbor_seq(r2, c2, r, c);
}

/// The adjacency is symmetric: every neighbor's own list names the cell
/// back.
pub proof fn lemma_adjacency_symmetric(sid: int, j: int)
    requires
        0 <= sid < NUM_CELLS,
        0 <= j < adjacency()[sid].len(),
    ensures
        adjacency()[(adjacency()[sid][j]) as int].contains(sid as usize),
{
    lemma_locate_cell(sid);
    let (r, c) = choose|r: int, c: int| valid_rc(r, c) && cell_id(r, c) == sid;
    lemma_adjacency_index(r, c);
    lemma_cell_id_range(r, c);
    let x = adjacency()[sid][j];
    lemma_neighbor_elem_cases(r, c, j);
    if valid_rc(r, c - 1) && x == cell_id(r, c - 1) as usize {
        lemma_cell_id_range(r, c - 1);
        lemma_symmetric_case(r, c - 1, r, c);
    } else if valid_rc(r, c + 1) && x == cell_id(r, c + 1) as usize {
        lemma_cell_id_range(r, c + 1);
        lemma_symmetric_case(r, c + 1, r, c);
    } else if r <= 4 && valid_rc(r - 1, c - 1) && x == cell_id(r - 1, c - 1) as usize {
        lemma_cell_id_range(r - 1, c - 1);
        lemma_symmetric_case(r - 1, c - 1, r, c);
    } else if valid_rc(r - 1, c) && x == cell_id(r - 1, c) as usize {
        lemma_cell_id_range(r - 1, c);
        lemma_symmetric_case(r - 1, c, r, c);
    } else if r > 4 && valid_rc(r - 1, c + 1) && x == cell_id(r - 1, c + 1) as usize {
        lemma_cell_id_range(r - 1, c + 1);
        lemma_symmetric_case(r - 1, c + 1, r, c);
    } else if r >= 4 && valid_rc(r + 1, c - 1) && x == cell_id(r + 1, c - 1) as usize {
        lemma_cell_id_range(r + 1, c - 1);
        lemma_symmetric_case(r + 1, c - 1, r, c);
    } else if valid_rc(r + 1, c) && x == cell_id(r + 1, c) as usize {
        lemma_cell_id_range(r + 1, c);
        lemma_symmetric_case(r + 1, c, r, c);
    } else {
        lemma_cell_id_range(r + 1, c + 1);
        lemma_symmetric_case(r + 1, c + 1, r, c);
    }
}

/// No more than six edges leave each cell.
pub proof fn lemma_edges_before_bound(k: int)
    requires
        0 <= k <= NUM_CELLS,
    ensures
        0 <= edges_before(k) <= 6 * k,
    decreases k,
{
    if k > 0 {
        lemma_edges_before_bound(k - 1);
        lemma_degree(k - 1);
    }
}

/// `edges_before` is monotone over the board's cells.
pub proof fn lemma_edges_before_monotone(a: int, b: int)
    requires
        0 <= a <= b,
    ensures
        edges_before(a) <= edges_before(b),
    decreases b,
{
    if a < b {
        lemma_edges_before_monotone(a, b - 1);
    }
}

/// An edge's ordinal is below the total edge count.
pub proof fn lemma_edge_in_range(ord: int, sid: int, j: int)
    requires
        is_edge(ord, sid, j),
    ensures
        0 <= ord < total_edges(),
{
    assert(edges_before(sid + 1) == edges_before(sid) + adjacency()[sid].len());
    lemma_edges_before_monotone(0, sid);
    lemma_edges_before_monotone(sid + 1, NUM_CELLS as int);
}

/// An ordinal names at most one edge.
pub proof fn lemma_edge_unique(ord: int, s1: int, j1: int, s2: int, j2: int)
    requires
        is_edge(ord, s1, j1),
        is_edge(ord, s2, j2),
    ensures
        s1 == s2,
        j1 == j2,
{
    if s1 < s2 {
        lemma_edges_before_monotone(s1 + 1, s2);
    }
    if s2 < s1 {
        lemma_edges_before_monotone(s2 + 1, s1);
    }
}

/// The edge named by `is_edge` is the one that `edge_pair` denotes.
pub proof fn lemma_edge_pair(ord: int, sid: int, j: int)
    requires
        is_edge(ord, sid, j),
    ensures
        edge_pair(ord) == (sid, j),
        edge_src(ord) == sid,
        edge_dst(ord) == adjacency()[sid][j] as int,
{
    let w = (sid, j);
    assert(exists|p: (int, int)| is_edge(ord, p.0, p.1)) by {
        assert(is_edge(ord, w.0, w.1));
    }
    assert(is_edge(ord, edge_pair(ord).0, edge_pair(ord).1));
    lemma_edge_unique(ord, sid, j, edge_pair(ord).0, edge_pair(ord).1);
}

/// Every ordinal below the total edge count names an edge.
pub proof fn lemma_edge_exists(ord: int)
    requires
        0 <= ord < total_edges(),
    ensures
        is_edge(ord, edge_src(ord), edge_pair(ord).1),
        0 <= edge_src(ord) < NUM_CELLS,
        0 <= edge_dst(ord) < NUM_CELLS,
{
    lemma_edge_exists_below(ord, NUM_CELLS as int);
    let (sid, j) = choose|p: (int, int)| is_edge(ord, p.0, p.1);
    assert(is_edge(ord, edge_pair(ord).0, edge_pair(ord).1));
    lemma_adjacency_element(edge_pair(ord).0, edge_pair(ord).1);
}

proof fn lemma_edge_exists_below(ord: int, k: int)
    requires
        0 <= ord < edges_before(k),
        0 <= k <= NUM_CELLS,
    ensures
        exists|p: (int, int)| is_edge(ord, p.0, p.1),
    decreases k,
{
    if ord < edges_before(k - 1) {
        lemma_edge_exists_below(ord, k - 1);
    } else {
        let p = (k - 1, ord - edges_before(k - 1));
        assert(is_edge(ord, p.0, p.1));
    }
}

} // verus!
