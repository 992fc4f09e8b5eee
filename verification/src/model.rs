//! The mathematical model of a minefield.
//!
//! A [`FieldView`] is the abstract value of a [`crate::Minefield`]: a finite
//! map from coordinates to spots, together with the grid dimensions and the
//! stored mine count.  Every contract of the executable engine is stated over
//! this model, and the behaviour of `step`, `auto_step` and `toggle_flag` is
//! pinned down by the spec functions [`step_model`], [`auto_step_model`] and
//! [`toggle_flag_model`] below.

use vstd::prelude::*;

use crate::spot::{FlagToggleResult, Spot, SpotKind, SpotState, StepResult};

verus! {

/// Abstract value of a minefield: grid contents, dimensions, mine count.
#[verifier::ext_equal]
pub ghost struct FieldView {
    pub grid: Map<(int, int), Spot>,
    pub width: int,
    pub height: int,
    pub mines: int,
}

/// The coordinate rectangle `[0, w) x [0, h)`.
pub open spec fn rect(w: int, h: int) -> Set<(int, int)> {
    Set::new(|p: (int, int)| 0 <= p.0 < w && 0 <= p.1 < h)
}

/// 1 if the condition holds, 0 otherwise; used to sum neighbor counts.
pub open spec fn b2i(b: bool) -> int {
    if b {
        1
    } else {
        0
    }
}

/// Two distinct cells whose coordinates differ by at most one in each
/// direction.  This is the 8-neighborhood; it never wraps around the grid.
pub open spec fn adjacent(ax: int, ay: int, bx: int, by: int) -> bool {
    &&& !(ax == bx && ay == by)
    &&& -1 <= ax - bx <= 1
    &&& -1 <= ay - by <= 1
}

impl FieldView {
    /// Whether `(x, y)` lies on the grid.
    pub open spec fn in_bounds(self, x: int, y: int) -> bool {
        0 <= x < self.width && 0 <= y < self.height
    }

    /// The spot at `(x, y)`.
    pub open spec fn spot(self, x: int, y: int) -> Spot {
        self.grid[(x, y)]
    }

    /// Whether an on-grid mine sits at `(x, y)`.
    pub open spec fn is_mine_at(self, x: int, y: int) -> bool {
        self.in_bounds(x, y) && self.spot(x, y).kind is Mine
    }

    /// Whether an on-grid flag sits at `(x, y)`.
    pub open spec fn is_flag_at(self, x: int, y: int) -> bool {
        self.in_bounds(x, y) && self.spot(x, y).state is Flagged
    }

    /// The number of mines among the up-to-8 neighbors of `(x, y)`.
    pub open spec fn mine_neighbor_count(self, x: int, y: int) -> int {
        b2i(self.is_mine_at(x - 1, y - 1)) + b2i(self.is_mine_at(x, y - 1)) + b2i(
            self.is_mine_at(x + 1, y - 1),
        ) + b2i(self.is_mine_at(x - 1, y)) + b2i(self.is_mine_at(x + 1, y)) + b2i(
            self.is_mine_at(x - 1, y + 1),
        ) + b2i(self.is_mine_at(x, y + 1)) + b2i(self.is_mine_at(x + 1, y + 1))
    }

    /// The number of flags among the up-to-8 neighbors of `(x, y)`.
    pub open spec fn flag_neighbor_count(self, x: int, y: int) -> int {
        b2i(self.is_flag_at(x - 1, y - 1)) + b2i(self.is_flag_at(x, y - 1)) + b2i(
            self.is_flag_at(x + 1, y - 1),
        ) + b2i(self.is_flag_at(x - 1, y)) + b2i(self.is_flag_at(x + 1, y)) + b2i(
            self.is_flag_at(x - 1, y + 1),
        ) + b2i(self.is_flag_at(x, y + 1)) + b2i(self.is_flag_at(x + 1, y + 1))
    }

    /// Every empty spot carries exactly the number of mines among its
    /// neighbors.  This is the central bookkeeping invariant of the grid.
    pub open spec fn counts_ok(self) -> bool {
        forall|x: int, y: int|
            self.in_bounds(x, y) ==> ((#[trigger] self.spot(x, y)).kind matches SpotKind::Empty(n)
                ==> n as int == self.mine_neighbor_count(x, y))
    }

    /// A well-formed minefield: positive dimensions, a grid covering exactly
    /// the coordinate rectangle, and correct neighbor counts.
    pub open spec fn wf(self) -> bool {
        &&& self.width >= 1
        &&& self.height >= 1
        &&& self.grid.dom() == rect(self.width, self.height)
        &&& self.counts_ok()
    }

    /// The set of cells holding a mine.
    pub open spec fn mine_cells(self) -> Set<(int, int)> {
        Set::new(|p: (int, int)| self.in_bounds(p.0, p.1) && self.spot(p.0, p.1).kind is Mine)
    }

    /// The set of cells still hidden.
    pub open spec fn hidden_cells(self) -> Set<(int, int)> {
        Set::new(|p: (int, int)| self.in_bounds(p.0, p.1) && self.spot(p.0, p.1).state is Hidden)
    }

    /// Whether the spot at `(x, y)` meets the win condition: a flagged mine
    /// or a revealed empty cell.
    pub open spec fn spot_cleared(self, x: int, y: int) -> bool {
        &&& (self.spot(x, y).kind is Mine ==> self.spot(x, y).state is Flagged)
        &&& (self.spot(x, y).kind is Empty ==> self.spot(x, y).state is Revealed)
    }

    /// The win condition: every mine is flagged and every empty spot is
    /// revealed.
    pub open spec fn cleared(self) -> bool {
        forall|x: int, y: int| self.in_bounds(x, y) ==> #[trigger] self.spot_cleared(x, y)
    }
}

/// The field with the state of cell `(x, y)` replaced, everything else as
/// before.
pub open spec fn with_state(v: FieldView, x: int, y: int, st: SpotState) -> FieldView {
    FieldView { grid: v.grid.insert((x, y), Spot { kind: v.spot(x, y).kind, state: st }), ..v }
}

/// The coordinate rectangle is a finite set.
pub proof fn lemma_rect_finite(w: int, h: int)
    requires
        w >= 0,
        h >= 0,
    ensures
        rect(w, h).finite(),
    decreases h,
{
    if h == 0 {
        assert(rect(w, 0) =~= Set::<(int, int)>::empty());
    } else {
        lemma_rect_finite(w, h - 1);
        vstd::set_lib::lemma_int_range(0, w);
        let base = vstd::set_lib::set_int_range(0, w);
        let row = base.map(|a: int| (a, h - 1));
        base.lemma_map_finite(|a: int| (a, h - 1));
        assert forall|p: (int, int)| 0 <= p.0 < w && p.1 == h - 1 implies row.contains(p) by {
            assert(base.contains(p.0) && p == (|a: int| (a, h - 1))(p.0));
        }
        assert(rect(w, h) =~= rect(w, h - 1).union(row));
    }
}

/// Any set of cells of the rectangle is finite.
pub proof fn lemma_cells_finite(s: Set<(int, int)>, w: int, h: int)
    requires
        w >= 0,
        h >= 0,
        forall|p: (int, int)| s.contains(p) ==> #[trigger] rect(w, h).contains(p),
    ensures
        s.finite(),
{
    lemma_rect_finite(w, h);
    assert(s.subset_of(rect(w, h)));
    vstd::set_lib::lemma_len_subset(s, rect(w, h));
}

/// An empty spot with its neighbor count raised by one; a mine is unchanged,
/// since a mine's count field is unused.
pub open spec fn bump_spot(s: Spot) -> Spot {
    match s.kind {
        SpotKind::Empty(n) => Spot { kind: SpotKind::Empty((n + 1) as u32), state: s.state },
        SpotKind::Mine => s,
    }
}

/// The grid after a mine is placed at `(x, y)`: that cell becomes a mine and
/// every adjacent empty cell's neighbor count rises by exactly one.  States
/// are untouched, and no cell is counted twice.
pub open spec fn place_mine_grid(v: FieldView, x: int, y: int) -> Map<(int, int), Spot> {
    Map::new(
        |p: (int, int)| v.grid.dom().contains(p),
        |p: (int, int)|
            if p == (x, y) {
                Spot { kind: SpotKind::Mine, state: v.spot(p.0, p.1).state }
            } else if adjacent(x, y, p.0, p.1) {
                bump_spot(v.spot(p.0, p.1))
            } else {
                v.spot(p.0, p.1)
            },
    )
}

/// Placing a mine on a non-mine cell keeps the neighbor-count bookkeeping
/// exact: the new mine raises each adjacent empty cell's count by exactly
/// one, no cell is counted twice, and every other count is untouched, so a
/// well-formed field stays well-formed.
pub proof fn lemma_place_mine_counts_ok(v: FieldView, x: int, y: int)
    requires
        v.wf(),
        v.in_bounds(x, y),
        !(v.spot(x, y).kind is Mine),
    ensures
        (FieldView { grid: place_mine_grid(v, x, y), ..v }).wf(),
{
    let v2 = FieldView { grid: place_mine_grid(v, x, y), ..v };
    assert(v2.grid.dom() =~= rect(v.width, v.height));
    assert forall|a: int, b: int| !(a == x && b == y) implies #[trigger] v2.is_mine_at(a, b)
        == v.is_mine_at(a, b) by {}
    assert(v2.is_mine_at(x, y));
    assert forall|qx: int, qy: int| v2.in_bounds(qx, qy) implies ((#[trigger] v2.spot(qx, qy)).kind
        matches SpotKind::Empty(n) ==> n as int == v2.mine_neighbor_count(qx, qy)) by {
        if !(qx == x && qy == y) {
            assert(v.spot(qx, qy).kind matches SpotKind::Empty(m) ==> m as int
                == v.mine_neighbor_count(qx, qy));
            assert(v2.mine_neighbor_count(qx, qy) == v.mine_neighbor_count(qx, qy) + b2i(
                adjacent(qx, qy, x, y),
            ));
        }
    }
}

/// A witness that flood reveal starting at `(sx, sy)` reaches the last cell
/// of `path`: consecutive cells are adjacent, propagation passes only through
/// zero-count empty cells (hidden ones, except for the starting cell), and
/// every visited cell past the start is a hidden empty cell.
pub open spec fn flood_path_ok(v: FieldView, sx: int, sy: int, path: Seq<(int, int)>) -> bool {
    &&& path.len() >= 1
    &&& path[0] == (sx, sy)
    &&& forall|t: int| 0 <= t < path.len() ==> v.grid.dom().contains(#[trigger] path[t])
    &&& forall|t: int|
        1 <= t < path.len() ==> adjacent(
            path[t - 1].0,
            path[t - 1].1,
            (#[trigger] path[t]).0,
            path[t].1,
        )
    &&& forall|t: int|
        0 <= t < path.len() - 1 ==> v.grid[#[trigger] path[t]].kind == SpotKind::Empty(0u32)
    &&& forall|t: int|
        1 <= t < path.len() ==> {
            let s = v.spot((#[trigger] path[t]).0, path[t].1);
            s.state is Hidden && s.kind is Empty
        }
}

/// Whether flood reveal starting at `(sx, sy)` reaches `(tx, ty)`: some path
/// of zero-count cells witnesses it.  The start reaches itself.
pub open spec fn flood_reaches(v: FieldView, sx: int, sy: int, tx: int, ty: int) -> bool {
    exists|path: Seq<(int, int)>| flood_path_ok(v, sx, sy, path) && path.last() == (tx, ty)
}

/// The grid after flood reveal from `(sx, sy)`: exactly the reachable cells
/// are revealed, everything else keeps its state; no kind changes.
pub open spec fn flood_grid(v: FieldView, sx: int, sy: int) -> Map<(int, int), Spot> {
    Map::new(
        |p: (int, int)| v.grid.dom().contains(p),
        |p: (int, int)|
            if flood_reaches(v, sx, sy, p.0, p.1) {
                Spot { kind: v.spot(p.0, p.1).kind, state: SpotState::Revealed }
            } else {
                v.spot(p.0, p.1)
            },
    )
}

/// What `step` does: out-of-bounds coordinates are rejected; a mine explodes;
/// a zero-count empty spot triggers flood reveal; any other empty spot is
/// simply revealed.
pub open spec fn step_model(v: FieldView, x: int, y: int) -> (FieldView, StepResult) {
    if !v.in_bounds(x, y) {
        (v, StepResult::Invalid)
    } else if v.spot(x, y).kind is Mine {
        (with_state(v, x, y, SpotState::Exploded), StepResult::Boom)
    } else if v.spot(x, y).kind == SpotKind::Empty(0u32) {
        (FieldView { grid: flood_grid(v, x, y), ..v }, StepResult::Phew)
    } else {
        (with_state(v, x, y, SpotState::Revealed), StepResult::Phew)
    }
}

/// The singleton `[p]` when `p` is on the grid, else the empty sequence.
pub open spec fn keep_in_grid(v: FieldView, p: (int, int)) -> Seq<(int, int)> {
    if v.grid.dom().contains(p) {
        seq![p]
    } else {
        Seq::empty()
    }
}

/// The on-grid neighbors of `(x, y)`, in the order the engine visits them:
/// by increasing x, then increasing y.
pub open spec fn neighbor_list(v: FieldView, x: int, y: int) -> Seq<(int, int)> {
    keep_in_grid(v, (x - 1, y - 1)) + keep_in_grid(v, (x - 1, y)) + keep_in_grid(v, (x - 1, y + 1))
        + keep_in_grid(v, (x, y - 1)) + keep_in_grid(v, (x, y + 1)) + keep_in_grid(
        v,
        (x + 1, y - 1),
    ) + keep_in_grid(v, (x + 1, y)) + keep_in_grid(v, (x + 1, y + 1))
}

/// The worklist coordinates as mathematical pairs.
pub open spec fn coords_view(s: Seq<(u16, u16)>) -> Seq<(int, int)> {
    s.map_values(|q: (u16, u16)| (q.0 as int, q.1 as int))
}

/// Every entry of the neighbor list is an on-grid neighbor of `(x, y)`.
pub proof fn lemma_neighbor_list_elems(v: FieldView, x: int, y: int)
    ensures
        forall|i: int|
            0 <= i < neighbor_list(v, x, y).len() ==> {
                let p = #[trigger] neighbor_list(v, x, y)[i];
                v.grid.dom().contains(p) && adjacent(x, y, p.0, p.1)
            },
{
}

/// Every on-grid neighbor of `(x, y)` appears in the neighbor list.
pub proof fn lemma_neighbor_list_complete(v: FieldView, x: int, y: int, u: (int, int))
    requires
        v.grid.dom().contains(u),
        adjacent(x, y, u.0, u.1),
    ensures
        neighbor_list(v, x, y).contains(u),
{
    let nl = neighbor_list(v, x, y);
    assert(u.0 == x - 1 || u.0 == x || u.0 == x + 1);
    assert(u.1 == y - 1 || u.1 == y || u.1 == y + 1);
    let s1 = keep_in_grid(v, (x - 1, y - 1));
    let s2 = keep_in_grid(v, (x - 1, y));
    let s3 = keep_in_grid(v, (x - 1, y + 1));
    let s4 = keep_in_grid(v, (x, y - 1));
    let s5 = keep_in_grid(v, (x, y + 1));
    let s6 = keep_in_grid(v, (x + 1, y - 1));
    let s7 = keep_in_grid(v, (x + 1, y));
    let s8 = keep_in_grid(v, (x + 1, y + 1));
    if u == (x - 1, y - 1) {
        assert(nl[0] == u);
    } else if u == (x - 1, y) {
        assert(nl[s1.len() as int] == u);
    } else if u == (x - 1, y + 1) {
        assert(nl[(s1.len() + s2.len()) as int] == u);
    } else if u == (x, y - 1) {
        assert(nl[(s1.len() + s2.len() + s3.len()) as int] == u);
    } else if u == (x, y + 1) {
        assert(nl[(s1.len() + s2.len() + s3.len() + s4.len()) as int] == u);
    } else if u == (x + 1, y - 1) {
        assert(nl[(s1.len() + s2.len() + s3.len() + s4.len() + s5.len()) as int] == u);
    } else if u == (x + 1, y) {
        assert(nl[(s1.len() + s2.len() + s3.len() + s4.len() + s5.len() + s6.len()) as int] == u);
    } else {
        assert(u == (x + 1, y + 1));
        assert(nl[(s1.len() + s2.len() + s3.len() + s4.len() + s5.len() + s6.len()
            + s7.len()) as int] == u);
    }
}

/// During flood reveal nothing but visibility states may change: dimensions,
/// domain and kinds all stay as they were.
pub open spec fn flood_frame(v0: FieldView, cur: FieldView) -> bool {
    &&& cur.width == v0.width
    &&& cur.height == v0.height
    &&& cur.mines == v0.mines
    &&& cur.grid.dom() == v0.grid.dom()
    &&& forall|p: (int, int)|
        v0.grid.dom().contains(p) ==> (#[trigger] cur.grid[p]).kind == v0.grid[p].kind
}

/// Soundness of the traversal: any cell whose state differs from the
/// starting grid has been revealed, is reachable from the start, and was
/// hidden before (or is the start itself).
pub open spec fn flood_sound(v0: FieldView, sx: int, sy: int, cur: FieldView) -> bool {
    forall|p: (int, int)|
        v0.grid.dom().contains(p) && (#[trigger] cur.grid[p]).state != v0.grid[p].state ==> {
            &&& cur.grid[p].state is Revealed
            &&& flood_reaches(v0, sx, sy, p.0, p.1)
            &&& (p == (sx, sy) || v0.grid[p].state is Hidden)
        }
}

/// What holds of every worklist entry: an on-grid zero-count empty cell,
/// already revealed, reachable from the start, and hidden before the flood
/// began unless it is the start itself.
pub open spec fn wl_entry_ok(v0: FieldView, sx: int, sy: int, cur: FieldView, p: (int, int)) -> bool {
    &&& v0.grid.dom().contains(p)
    &&& v0.spot(p.0, p.1).kind == SpotKind::Empty(0u32)
    &&& (p == (sx, sy) || v0.spot(p.0, p.1).state is Hidden)
    &&& cur.grid[p].state is Revealed
    &&& flood_reaches(v0, sx, sy, p.0, p.1)
}

/// All worklist entries are in good standing.
pub open spec fn wl_ok(v0: FieldView, sx: int, sy: int, cur: FieldView, wls: Seq<(int, int)>) -> bool {
    forall|i: int| 0 <= i < wls.len() ==> wl_entry_ok(v0, sx, sy, cur, #[trigger] wls[i])
}

/// A processed cell: every adjacent on-grid empty cell is no longer hidden.
pub open spec fn nbrs_done(v0: FieldView, cur: FieldView, z: (int, int)) -> bool {
    forall|u: (int, int)|
        v0.grid.dom().contains(u) && adjacent(z.0, z.1, u.0, u.1) && (#[trigger] v0.grid[u]).kind
            is Empty ==> !(cur.grid[u].state is Hidden)
}

/// Progress of the traversal: every revealed zero-count cell that the flood
/// visited is either still waiting in the worklist or fully processed.
pub open spec fn flood_frontier(
    v0: FieldView,
    sx: int,
    sy: int,
    cur: FieldView,
    wls: Seq<(int, int)>,
) -> bool {
    forall|z: (int, int)|
        {
            &&& v0.grid.dom().contains(z)
            &&& v0.spot(z.0, z.1).kind == SpotKind::Empty(0u32)
            &&& (#[trigger] cur.grid[z]).state is Revealed
            &&& (z == (sx, sy) || v0.grid[z].state is Hidden)
            &&& !wls.contains(z)
        } ==> nbrs_done(v0, cur, z)
}

/// The neighbor list depends only on the grid's domain.
pub proof fn lemma_neighbor_list_same_dom(v1: FieldView, v2: FieldView, x: int, y: int)
    requires
        v1.grid.dom() == v2.grid.dom(),
    ensures
        neighbor_list(v1, x, y) == neighbor_list(v2, x, y),
{
    assert(neighbor_list(v1, x, y) =~= neighbor_list(v2, x, y));
}

/// Revealing one more cell keeps the frontier property, as long as a
/// zero-count cell goes onto the worklist when it is revealed and the
/// worklist loses no entry.
pub proof fn lemma_frontier_after_reveal(
    v0: FieldView,
    sx: int,
    sy: int,
    pre: FieldView,
    post: FieldView,
    u: (int, int),
    wls_pre: Seq<(int, int)>,
    wls_post: Seq<(int, int)>,
)
    requires
        flood_frontier(v0, sx, sy, pre, wls_pre),
        v0.grid.dom().contains(u),
        post.grid == pre.grid.insert(u, Spot { kind: pre.grid[u].kind, state: SpotState::Revealed }),
        forall|z: (int, int)| wls_pre.contains(z) ==> wls_post.contains(z),
        v0.grid[u].kind == SpotKind::Empty(0u32) ==> wls_post.contains(u),
    ensures
        flood_frontier(v0, sx, sy, post, wls_post),
{
    assert forall|z: (int, int)|
        {
            &&& v0.grid.dom().contains(z)
            &&& v0.spot(z.0, z.1).kind == SpotKind::Empty(0u32)
            &&& (#[trigger] post.grid[z]).state is Revealed
            &&& (z == (sx, sy) || v0.grid[z].state is Hidden)
            &&& !wls_post.contains(z)
        } implies nbrs_done(v0, post, z) by {
        if z == u {
            assert(false);
        } else {
            assert(post.grid[z] == pre.grid[z]);
            assert(!wls_pre.contains(z));
            assert(nbrs_done(v0, pre, z));
            assert forall|w: (int, int)|
                v0.grid.dom().contains(w) && adjacent(z.0, z.1, w.0, w.1) && (
                #[trigger] v0.grid[w]).kind is Empty implies !(post.grid[w].state is Hidden) by {
                if w == u {
                } else {
                    assert(post.grid[w] == pre.grid[w]);
                }
            }
        }
    }
}

/// Once every on-grid empty neighbor of the popped cell has been visited,
/// the popped cell no longer needs to sit in the worklist.
pub proof fn lemma_frontier_restore(
    v0: FieldView,
    sx: int,
    sy: int,
    cur: FieldView,
    wls: Seq<(int, int)>,
    cz: (int, int),
)
    requires
        flood_frontier(v0, sx, sy, cur, wls.push(cz)),
        nbrs_done(v0, cur, cz),
    ensures
        flood_frontier(v0, sx, sy, cur, wls),
{
    assert forall|z: (int, int)|
        {
            &&& v0.grid.dom().contains(z)
            &&& v0.spot(z.0, z.1).kind == SpotKind::Empty(0u32)
            &&& (#[trigger] cur.grid[z]).state is Revealed
            &&& (z == (sx, sy) || v0.grid[z].state is Hidden)
            &&& !wls.contains(z)
        } implies nbrs_done(v0, cur, z) by {
        if z != cz {
            assert forall|k: int| 0 <= k < wls.push(cz).len() implies wls.push(cz)[k] != z by {
                if k < wls.len() {
                    assert(wls.push(cz)[k] == wls[k]);
                } else {
                    assert(wls.push(cz)[k] == cz);
                }
            }
            assert(!wls.push(cz).contains(z));
        }
    }
}

/// Every neighbor of the popped cell sits in its neighbor list, so visiting
/// the list visits them all.
pub proof fn lemma_nbrs_done_from_list(v0: FieldView, cur: FieldView, cz: (int, int))
    requires
        forall|j: int|
            0 <= j < neighbor_list(v0, cz.0, cz.1).len() && v0.grid[#[trigger] neighbor_list(
                v0,
                cz.0,
                cz.1,
            )[j]].kind is Empty ==> !(cur.grid[neighbor_list(v0, cz.0, cz.1)[j]].state is Hidden),
    ensures
        nbrs_done(v0, cur, cz),
{
    assert forall|u: (int, int)|
        v0.grid.dom().contains(u) && adjacent(cz.0, cz.1, u.0, u.1) && (#[trigger] v0.grid[u]).kind
            is Empty implies !(cur.grid[u].state is Hidden) by {
        lemma_neighbor_list_complete(v0, cz.0, cz.1, u);
        let nl = neighbor_list(v0, cz.0, cz.1);
        let j = choose|j: int| 0 <= j < nl.len() && nl[j] == u;
        assert(v0.grid[nl[j]].kind is Empty);
        assert(!(cur.grid[nl[j]].state is Hidden));
    }
}

/// The start cell reaches itself.
pub proof fn lemma_reaches_start(v0: FieldView, sx: int, sy: int)
    requires
        v0.grid.dom().contains((sx, sy)),
    ensures
        flood_reaches(v0, sx, sy, sx, sy),
{
    let path = seq![(sx, sy)];
    assert(flood_path_ok(v0, sx, sy, path));
    assert(path.last() == (sx, sy));
}

/// A reachable zero-count cell passes reachability on to any adjacent
/// hidden empty cell.
pub proof fn lemma_reaches_extend(v0: FieldView, sx: int, sy: int, z: (int, int), u: (int, int))
    requires
        flood_reaches(v0, sx, sy, z.0, z.1),
        v0.grid.dom().contains(z),
        v0.spot(z.0, z.1).kind == SpotKind::Empty(0u32),
        z == (sx, sy) || v0.spot(z.0, z.1).state is Hidden,
        v0.grid.dom().contains(u),
        adjacent(z.0, z.1, u.0, u.1),
        v0.spot(u.0, u.1).kind is Empty,
        v0.spot(u.0, u.1).state is Hidden,
    ensures
        flood_reaches(v0, sx, sy, u.0, u.1),
{
    let path = choose|path: Seq<(int, int)>|
        flood_path_ok(v0, sx, sy, path) && path.last() == z;
    let p2 = path.push(u);
    assert forall|t: int| 0 <= t < p2.len() implies v0.grid.dom().contains(#[trigger] p2[t]) by {
        if t < path.len() {
            assert(p2[t] == path[t]);
        } else {
            assert(p2[t] == u);
        }
    }
    assert forall|t: int| 1 <= t < p2.len() implies adjacent(
        p2[t - 1].0,
        p2[t - 1].1,
        (#[trigger] p2[t]).0,
        p2[t].1,
    ) by {
        if t < path.len() {
            assert(p2[t] == path[t] && p2[t - 1] == path[t - 1]);
        } else {
            assert(p2[t] == u && p2[t - 1] == path[path.len() - 1]);
        }
    }
    assert forall|t: int| 0 <= t < p2.len() - 1 implies v0.grid[#[trigger] p2[t]].kind
        == SpotKind::Empty(0u32) by {
        if t < path.len() - 1 {
            assert(p2[t] == path[t]);
        } else {
            assert(p2[t] == path[path.len() - 1] && path[path.len() - 1] == z);
        }
    }
    assert forall|t: int| 1 <= t < p2.len() implies {
        let s = v0.spot((#[trigger] p2[t]).0, p2[t].1);
        s.state is Hidden && s.kind is Empty
    } by {
        if t < path.len() {
            assert(p2[t] == path[t]);
        } else {
            assert(p2[t] == u);
        }
    }
    assert(flood_path_ok(v0, sx, sy, p2));
    assert(p2.last() == u);
}

/// Once the worklist is drained, every reachable cell has been revealed:
/// induction along the witnessing path, using the frontier property at each
/// step.
pub proof fn lemma_flood_complete(
    v0: FieldView,
    sx: int,
    sy: int,
    cur: FieldView,
    path: Seq<(int, int)>,
)
    requires
        flood_frame(v0, cur),
        flood_sound(v0, sx, sy, cur),
        flood_frontier(v0, sx, sy, cur, Seq::empty()),
        cur.grid[(sx, sy)].state is Revealed,
        flood_path_ok(v0, sx, sy, path),
    ensures
        cur.grid[path.last()].state is Revealed,
    decreases path.len(),
{
    if path.len() == 1 {
        assert(path.last() == (sx, sy));
    } else {
        let pre = path.drop_last();
        assert forall|t: int| 0 <= t < pre.len() implies v0.grid.dom().contains(
            #[trigger] pre[t],
        ) by {
            assert(pre[t] == path[t]);
        }
        assert forall|t: int| 1 <= t < pre.len() implies adjacent(
            pre[t - 1].0,
            pre[t - 1].1,
            (#[trigger] pre[t]).0,
            pre[t].1,
        ) by {
            assert(pre[t] == path[t] && pre[t - 1] == path[t - 1]);
        }
        assert forall|t: int| 0 <= t < pre.len() - 1 implies v0.grid[#[trigger] pre[t]].kind
            == SpotKind::Empty(0u32) by {
            assert(pre[t] == path[t]);
        }
        assert forall|t: int| 1 <= t < pre.len() implies {
            let s = v0.spot((#[trigger] pre[t]).0, pre[t].1);
            s.state is Hidden && s.kind is Empty
        } by {
            assert(pre[t] == path[t]);
        }
        assert(flood_path_ok(v0, sx, sy, pre));
        lemma_flood_complete(v0, sx, sy, cur, pre);
        let z = path[path.len() - 2];
        let u = path.last();
        assert(pre.last() == z);
        assert(cur.grid[z].state is Revealed);
        assert(v0.grid[z].kind == SpotKind::Empty(0u32));
        assert(z == (sx, sy) || v0.grid[z].state is Hidden);
        assert(!Seq::<(int, int)>::empty().contains(z));
        assert(nbrs_done(v0, cur, z));
        assert(v0.grid[u].kind is Empty);
        assert(!(cur.grid[u].state is Hidden));
        assert(v0.grid[u].state is Hidden);
        if cur.grid[u].state != v0.grid[u].state {
            assert(cur.grid[u].state is Revealed);
        } else {
            assert(false);
        }
    }
}

/// A step never changes the dimensions, the stored mine count, or the domain
/// of the grid.
pub proof fn lemma_step_model_frame(v: FieldView, x: int, y: int)
    requires
        v.grid.dom() == rect(v.width, v.height),
    ensures
        step_model(v, x, y).0.width == v.width,
        step_model(v, x, y).0.height == v.height,
        step_model(v, x, y).0.mines == v.mines,
        step_model(v, x, y).0.grid.dom() == v.grid.dom(),
{
    let v2 = step_model(v, x, y).0;
    if v.in_bounds(x, y) {
        if v.spot(x, y).kind is Mine {
            assert(v2.grid.dom() =~= v.grid.dom());
        } else if v.spot(x, y).kind == SpotKind::Empty(0u32) {
            assert(v2.grid.dom() =~= v.grid.dom());
        } else {
            assert(v2.grid.dom() =~= v.grid.dom());
        }
    }
}

/// What the chord loop does: walk the remaining neighbors in order, step on
/// each one still hidden, and stop at the first result that is not `Phew`.
pub open spec fn chord_steps(v: FieldView, rest: Seq<(int, int)>) -> (FieldView, StepResult)
    decreases rest.len(),
{
    if rest.len() == 0 {
        (v, StepResult::Phew)
    } else {
        let p = rest[0];
        if v.grid.dom().contains(p) && v.spot(p.0, p.1).state is Hidden {
            let sr = step_model(v, p.0, p.1);
            if sr.1 != StepResult::Phew {
                sr
            } else {
                chord_steps(sr.0, rest.drop_first())
            }
        } else {
            chord_steps(v, rest.drop_first())
        }
    }
}

/// What `auto_step` does: rejected off the grid or on a mine; on a revealed
/// empty spot whose flagged-neighbor count equals its mine-neighbor count,
/// step on every hidden neighbor in order, stopping at the first explosion;
/// otherwise a no-op answering `Phew`.
pub open spec fn auto_step_model(v: FieldView, x: int, y: int) -> (FieldView, StepResult) {
    if !v.in_bounds(x, y) {
        (v, StepResult::Invalid)
    } else if v.spot(x, y).kind is Mine {
        (v, StepResult::Invalid)
    } else if v.spot(x, y).state is Revealed && v.flag_neighbor_count(x, y) == v.spot(
        x,
        y,
    ).kind->0 as int {
        chord_steps(v, neighbor_list(v, x, y))
    } else {
        (v, StepResult::Phew)
    }
}

/// What `toggle_flag` does: hidden spots gain a flag, flagged spots lose
/// theirs, every other spot (or an off-grid coordinate) is left untouched.
pub open spec fn toggle_flag_model(v: FieldView, x: int, y: int) -> (FieldView, FlagToggleResult) {
    if !v.in_bounds(x, y) {
        (v, FlagToggleResult::NoChange)
    } else {
        match v.spot(x, y).state {
            SpotState::Hidden => (with_state(v, x, y, SpotState::Flagged), FlagToggleResult::Added),
            SpotState::Flagged => (
                with_state(v, x, y, SpotState::Hidden),
                FlagToggleResult::Removed,
            ),
            _ => (v, FlagToggleResult::NoChange),
        }
    }
}

} // verus!
