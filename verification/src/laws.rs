//! The engine's guarantees that relate several operations, stated and proved
//! once and for all over the model.

use vstd::prelude::*;

use crate::model::{
    adjacent, auto_step_model, chord_steps, flood_reaches, lemma_neighbor_list_complete,
    lemma_reaches_start, lemma_step_model_frame, neighbor_list, rect, step_model, FieldView,
};
use crate::spot::{SpotKind, StepResult};

verus! {

/// Stepping on a zero-count empty spot reveals exactly the cells reachable
/// from it through zero-count cells, on top of what was already revealed:
/// the flood region is maximal, and everything beyond its boundary keeps its
/// state.
pub proof fn lemma_step_flood_reveals_reachable(v: FieldView, x: int, y: int)
    requires
        v.wf(),
        v.in_bounds(x, y),
        v.spot(x, y).kind == SpotKind::Empty(0u32),
    ensures
        forall|p: (int, int)|
            v.grid.dom().contains(p) ==> ((#[trigger] step_model(v, x, y).0.grid[p]).state
                is Revealed <==> (flood_reaches(v, x, y, p.0, p.1) || v.grid[p].state
                is Revealed)),
        forall|p: (int, int)|
            v.grid.dom().contains(p) && !flood_reaches(v, x, y, p.0, p.1)
                ==> #[trigger] step_model(v, x, y).0.grid[p] == v.grid[p],
{
}

/// Flood reveal never touches a mine or a flagged cell: every cell it
/// changes, other than the stepped one, was a hidden empty cell.
pub proof fn lemma_flood_spares_mines_and_flags(v: FieldView, x: int, y: int)
    requires
        v.wf(),
        v.in_bounds(x, y),
        v.spot(x, y).kind == SpotKind::Empty(0u32),
    ensures
        forall|p: (int, int)|
            v.grid.dom().contains(p) && p != (x, y) && #[trigger] step_model(v, x, y).0.grid[p]
                != v.grid[p] ==> v.grid[p].kind is Empty && v.grid[p].state is Hidden,
{
    assert forall|p: (int, int)|
        v.grid.dom().contains(p) && p != (x, y) && #[trigger] step_model(v, x, y).0.grid[p]
            != v.grid[p] implies v.grid[p].kind is Empty && v.grid[p].state is Hidden by {
        assert(flood_reaches(v, x, y, p.0, p.1));
        let path = choose|path: Seq<(int, int)>|
            crate::model::flood_path_ok(v, x, y, path) && path.last() == p;
        assert(path.len() >= 2);
        assert(path[path.len() - 1] == p);
    }
}

/// A chorded step on a revealed empty spot whose flagged-neighbor count does
/// not match its mine-neighbor count is a no-op answering `Phew`.
pub proof fn lemma_auto_step_noop_when_flags_mismatch(v: FieldView, x: int, y: int)
    requires
        v.wf(),
        v.in_bounds(x, y),
        v.spot(x, y).kind is Empty,
        v.spot(x, y).state is Revealed,
        v.flag_neighbor_count(x, y) != v.spot(x, y).kind->0 as int,
    ensures
        auto_step_model(v, x, y) == (v, StepResult::Phew),
{
}

/// A cell other than the stepped one either keeps its spot or gets revealed
/// by the step.
proof fn lemma_step_changes_to_revealed(v: FieldView, x: int, y: int, q: (int, int))
    requires
        v.grid.dom().contains(q),
        q != (x, y),
    ensures
        step_model(v, x, y).0.grid[q] == v.grid[q] || step_model(v, x, y).0.grid[q].state
            is Revealed,
{
}

/// A revealed cell other than the stepped one stays revealed.
proof fn lemma_step_keeps_revealed(v: FieldView, x: int, y: int, q: (int, int))
    requires
        v.grid.dom().contains(q),
        q != (x, y),
        v.grid[q].state is Revealed,
    ensures
        step_model(v, x, y).0.grid[q].state is Revealed,
{
}

/// A hidden cell that is stepped on ends up revealed whenever the step
/// answers `Phew`.
proof fn lemma_step_phew_target_revealed(v: FieldView, x: int, y: int)
    requires
        v.grid.dom().contains((x, y)),
        v.in_bounds(x, y),
        step_model(v, x, y).1 == StepResult::Phew,
    ensures
        step_model(v, x, y).0.grid[(x, y)].state is Revealed,
{
    if v.spot(x, y).kind == SpotKind::Empty(0u32) {
        lemma_reaches_start(v, x, y);
    }
}

/// The chord walk never takes a revealed cell back: once revealed, revealed
/// after the whole walk.
proof fn lemma_chord_keeps_revealed(v: FieldView, rest: Seq<(int, int)>, q: (int, int))
    requires
        v.grid.dom() == rect(v.width, v.height),
        v.grid.dom().contains(q),
        v.grid[q].state is Revealed,
    ensures
        chord_steps(v, rest).0.grid[q].state is Revealed,
    decreases rest.len(),
{
    if rest.len() > 0 {
        let p = rest[0];
        if v.grid.dom().contains(p) && v.spot(p.0, p.1).state is Hidden {
            let sr = step_model(v, p.0, p.1);
            lemma_step_keeps_revealed(v, p.0, p.1, q);
            lemma_step_model_frame(v, p.0, p.1);
            if sr.1 == StepResult::Phew {
                lemma_chord_keeps_revealed(sr.0, rest.drop_first(), q);
            }
        } else {
            lemma_chord_keeps_revealed(v, rest.drop_first(), q);
        }
    }
}

/// When the chord walk finishes without an explosion, every listed cell that
/// was hidden when the walk began has been revealed.
proof fn lemma_chord_phew_reveals_all(v: FieldView, rest: Seq<(int, int)>, u: (int, int))
    requires
        v.grid.dom() == rect(v.width, v.height),
        chord_steps(v, rest).1 == StepResult::Phew,
        rest.contains(u),
        v.grid.dom().contains(u),
        v.grid[u].state is Hidden,
    ensures
        chord_steps(v, rest).0.grid[u].state is Revealed,
    decreases rest.len(),
{
    let p = rest[0];
    if v.grid.dom().contains(p) && v.spot(p.0, p.1).state is Hidden {
        let sr = step_model(v, p.0, p.1);
        assert(sr.1 == StepResult::Phew);
        lemma_step_model_frame(v, p.0, p.1);
        if u == p {
            assert(p.0 < v.width && p.1 < v.height);
            lemma_step_phew_target_revealed(v, p.0, p.1);
            lemma_chord_keeps_revealed(sr.0, rest.drop_first(), u);
        } else {
            lemma_step_changes_to_revealed(v, p.0, p.1, u);
            if sr.0.grid[u].state is Revealed {
                lemma_chord_keeps_revealed(sr.0, rest.drop_first(), u);
            } else {
                let k = choose|k: int| 0 <= k < rest.len() && rest[k] == u;
                assert(rest.drop_first()[k - 1] == u);
                assert(rest.drop_first().contains(u));
                lemma_chord_phew_reveals_all(sr.0, rest.drop_first(), u);
            }
        }
    } else {
        let k = choose|k: int| 0 <= k < rest.len() && rest[k] == u;
        assert(k != 0);
        assert(rest.drop_first()[k - 1] == u);
        assert(rest.drop_first().contains(u));
        lemma_chord_phew_reveals_all(v, rest.drop_first(), u);
    }
}

/// A mine that is not itself stepped on keeps its spot: flood reveal passes
/// only through empty cells.
proof fn lemma_step_keeps_mine(v: FieldView, x: int, y: int, q: (int, int))
    requires
        v.grid.dom().contains(q),
        q != (x, y),
        v.grid[q].kind is Mine,
    ensures
        step_model(v, x, y).0.grid[q] == v.grid[q],
{
    if v.in_bounds(x, y) && v.spot(x, y).kind == SpotKind::Empty(0u32) {
        if flood_reaches(v, x, y, q.0, q.1) {
            let path = choose|path: Seq<(int, int)>|
                crate::model::flood_path_ok(v, x, y, path) && path.last() == q;
            assert(path.len() >= 2);
            assert(path[path.len() - 1] == q);
            assert(false);
        }
    }
}

/// The chord walk explodes as soon as a hidden mine sits among the cells
/// still to visit: mines stay hidden until their turn comes, and stepping on
/// one answers `Boom`.
proof fn lemma_chord_boom_on_hidden_mine(v: FieldView, rest: Seq<(int, int)>, k: int)
    requires
        v.grid.dom() == rect(v.width, v.height),
        0 <= k < rest.len(),
        v.grid.dom().contains(rest[k]),
        v.grid[rest[k]].kind is Mine,
        v.grid[rest[k]].state is Hidden,
    ensures
        chord_steps(v, rest).1 == StepResult::Boom,
    decreases rest.len(),
{
    let p = rest[0];
    let m = rest[k];
    if v.grid.dom().contains(p) && v.spot(p.0, p.1).state is Hidden {
        let sr = step_model(v, p.0, p.1);
        if p == m {
            assert(sr.1 == StepResult::Boom);
        } else {
            assert(k >= 1);
            if sr.1 == StepResult::Phew {
                lemma_step_model_frame(v, p.0, p.1);
                lemma_step_keeps_mine(v, p.0, p.1, m);
                assert(rest.drop_first()[k - 1] == m);
                lemma_chord_boom_on_hidden_mine(sr.0, rest.drop_first(), k - 1);
            } else {
                assert(v.spot(p.0, p.1).kind is Mine);
                assert(sr.1 == StepResult::Boom);
            }
        }
    } else {
        assert(k != 0);
        assert(rest.drop_first()[k - 1] == m);
        lemma_chord_boom_on_hidden_mine(v, rest.drop_first(), k - 1);
    }
}

/// A chorded step on a revealed empty spot with a matching flag count
/// answers `Boom` whenever a hidden (so unflagged) mine sits among the
/// neighbors: some flag must be wrong.
pub proof fn lemma_auto_step_booms_on_hidden_mine(v: FieldView, x: int, y: int, u: (int, int))
    requires
        v.wf(),
        v.in_bounds(x, y),
        v.spot(x, y).kind is Empty,
        v.spot(x, y).state is Revealed,
        v.flag_neighbor_count(x, y) == v.spot(x, y).kind->0 as int,
        v.grid.dom().contains(u),
        adjacent(x, y, u.0, u.1),
        v.grid[u].kind is Mine,
        v.grid[u].state is Hidden,
    ensures
        auto_step_model(v, x, y).1 == StepResult::Boom,
{
    let nl = neighbor_list(v, x, y);
    lemma_neighbor_list_complete(v, x, y, u);
    let k = choose|k: int| 0 <= k < nl.len() && nl[k] == u;
    lemma_chord_boom_on_hidden_mine(v, nl, k);
}

/// A chorded step that answers `Phew` on a revealed empty spot with a
/// matching flag count reveals every hidden neighbor of that spot.
pub proof fn lemma_auto_step_phew_reveals_neighbors(v: FieldView, x: int, y: int)
    requires
        v.wf(),
        v.in_bounds(x, y),
        v.spot(x, y).kind is Empty,
        v.spot(x, y).state is Revealed,
        v.flag_neighbor_count(x, y) == v.spot(x, y).kind->0 as int,
        auto_step_model(v, x, y).1 == StepResult::Phew,
    ensures
        forall|u: (int, int)|
            v.grid.dom().contains(u) && adjacent(x, y, u.0, u.1) && (#[trigger] v.grid[u]).state
                is Hidden ==> auto_step_model(v, x, y).0.grid[u].state is Revealed,
{
    let nl = neighbor_list(v, x, y);
    assert(auto_step_model(v, x, y) == chord_steps(v, nl));
    assert forall|u: (int, int)|
        v.grid.dom().contains(u) && adjacent(x, y, u.0, u.1) && (#[trigger] v.grid[u]).state
            is Hidden implies auto_step_model(v, x, y).0.grid[u].state is Revealed by {
        lemma_neighbor_list_complete(v, x, y, u);
        lemma_chord_phew_reveals_all(v, nl, u);
    }
}

} // verus!
