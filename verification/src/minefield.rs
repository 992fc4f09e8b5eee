//! The executable minefield engine.

use vstd::prelude::*;

use crate::model::{
    adjacent, auto_step_model, bump_spot, chord_steps, coords_view, flood_frame, flood_frontier,
    flood_grid, flood_path_ok, flood_reaches, flood_sound, keep_in_grid, lemma_cells_finite,
    lemma_flood_complete, lemma_frontier_after_reveal, lemma_frontier_restore,
    lemma_nbrs_done_from_list, lemma_neighbor_list_elems, lemma_neighbor_list_same_dom,
    lemma_place_mine_counts_ok, lemma_reaches_extend, lemma_reaches_start, lemma_step_model_frame,
    nbrs_done, neighbor_list, place_mine_grid, rect, step_model, toggle_flag_model, wl_entry_ok,
    wl_ok, with_state, FieldView,
};
use crate::spot::{FlagToggleResult, Spot, SpotKind, SpotState, StepResult};

verus! {

/// The grid index of `(x, y)` in a row-major field of width `w` is in range,
/// and encoding is injective.
proof fn lemma_grid_index(x: int, y: int, w: int, h: int)
    by (nonlinear_arith)
    requires
        0 <= x < w <= 65535,
        0 <= y < h <= 65535,
    ensures
        0 <= y * w + x < w * h,
        w * h <= 65535 * 65535,
    decreases 0int,
{
}

/// The spot count of a grid with 16-bit dimensions fits in 32 bits.
proof fn lemma_dims_product_bound(w: int, h: int)
    by (nonlinear_arith)
    requires
        0 <= w <= 65535,
        0 <= h <= 65535,
    ensures
        0 <= w * h <= 65535 * 65535,
    decreases 0int,
{
}

/// Two distinct in-bounds coordinates have distinct row-major indices.
proof fn lemma_grid_index_injective(x1: int, y1: int, x2: int, y2: int, w: int, h: int)
    by (nonlinear_arith)
    requires
        0 <= x1 < w,
        0 <= y1 < h,
        0 <= x2 < w,
        0 <= y2 < h,
        !(x1 == x2 && y1 == y2),
    ensures
        y1 * w + x1 != y2 * w + x2,
    decreases 0int,
{
}

/// Decoding a flat row-major index into coordinates lands on the grid, and
/// re-encoding gives the index back.
proof fn lemma_decode(i: int, w: int, h: int)
    requires
        0 < w,
        0 <= i < w * h,
    ensures
        0 <= i % w < w,
        0 <= i / w < h,
        (i / w) * w + (i % w) == i,
{
    vstd::arithmetic::div_mod::lemma_fundamental_div_mod(i, w);
    vstd::arithmetic::div_mod::lemma_mod_bound(i, w);
    vstd::arithmetic::div_mod::lemma_multiply_divide_lt(i, w, h);
    vstd::arithmetic::div_mod::lemma_div_pos_is_pos(i, w);
    vstd::arithmetic::mul::lemma_mul_is_commutative(w, i / w);
}

/// Distinct flat indices decode to distinct coordinates.
proof fn lemma_decode_injective(i1: int, i2: int, w: int, h: int)
    requires
        0 < w,
        0 <= i1 < w * h,
        0 <= i2 < w * h,
        i1 != i2,
    ensures
        !(i1 % w == i2 % w && i1 / w == i2 / w),
{
    lemma_decode(i1, w, h);
    lemma_decode(i2, w, h);
}

/// Removing the element at position `i` by a swap with the last element
/// keeps the remaining elements distinct, drawn from the original sequence,
/// and different from the removed one.
proof fn lemma_swap_remove_props(s: Seq<usize>, i: int)
    requires
        s.no_duplicates(),
        0 <= i < s.len(),
    ensures
        ({
            let s2 = s.update(i, s.last()).drop_last();
            &&& s2.no_duplicates()
            &&& forall|j: int|
                0 <= j < s2.len() ==> s.contains(#[trigger] s2[j]) && s2[j] != s[i]
        }),
{
    let s2 = s.update(i, s.last()).drop_last();
    assert forall|j: int| 0 <= j < s2.len() implies s.contains(#[trigger] s2[j]) && s2[j]
        != s[i] by {
        if j == i {
            assert(s2[j] == s[s.len() - 1]);
        } else {
            assert(s2[j] == s[j]);
        }
    }
    assert forall|j1: int, j2: int|
        0 <= j1 < s2.len() && 0 <= j2 < s2.len() && j1 != j2 implies s2[j1] != s2[j2] by {
        if j1 == i {
            assert(s2[j1] == s[s.len() - 1]);
        } else {
            assert(s2[j1] == s[j1]);
        }
        if j2 == i {
            assert(s2[j2] == s[s.len() - 1]);
        } else {
            assert(s2[j2] == s[j2]);
        }
    }
}

/// A minefield: a rectangular grid of spots supporting mine placement,
/// stepping with flood reveal, chorded auto-stepping, flagging, and win
/// detection.
#[derive(Clone, Debug)]
pub struct Minefield {
    /// The spots, row-major: `(x, y)` lives at `y * width + x`.
    field: Vec<Spot>,
    /// Number of mines in the field
    mines: u32,
    /// Width of the field grid
    width: u16,
    /// Height of the field grid
    height: u16,
}

impl View for Minefield {
    type V = FieldView;

    closed spec fn view(&self) -> FieldView {
        FieldView {
            grid: Map::new(
                |p: (int, int)| 0 <= p.0 < self.width as int && 0 <= p.1 < self.height as int,
                |p: (int, int)| self.field@[p.1 * self.width as int + p.0],
            ),
            width: self.width as int,
            height: self.height as int,
            mines: self.mines as int,
        }
    }
}

impl Minefield {
    /// Structural well-formedness: positive dimensions and a backing vector
    /// of exactly `width * height` spots.
    spec fn base_inv(&self) -> bool {
        &&& self.width >= 1
        &&& self.height >= 1
        &&& self.field@.len() == (self.width as int) * (self.height as int)
    }

    /// The invariant every public operation preserves: the grid is
    /// well-shaped and every empty spot carries its exact neighbor count.
    pub closed spec fn inv(&self) -> bool {
        &&& self.base_inv()
        &&& self@.counts_ok()
    }

    /// A well-formed minefield abstracts to a well-formed view.
    pub proof fn lemma_inv_wf(&self)
        requires
            self.inv(),
        ensures
            self@.wf(),
    {
        assert(self@.grid.dom() =~= rect(self@.width, self@.height));
    }

    /// The view's grid always covers exactly the coordinate rectangle.
    pub proof fn lemma_view_dom(&self)
        ensures
            self@.grid.dom() == rect(self@.width, self@.height),
    {
        assert(self@.grid.dom() =~= rect(self@.width, self@.height));
    }

    /// The row-major index of `(x, y)`.
    fn index_of(&self, x: u16, y: u16) -> (i: usize)
        requires
            self.base_inv(),
            x < self.width,
            y < self.height,
        ensures
            i == (y as int) * (self.width as int) + (x as int),
            i < self.field@.len(),
    {
        proof {
            lemma_grid_index(x as int, y as int, self.width as int, self.height as int);
        }
        (y as usize) * (self.width as usize) + (x as usize)
    }

    /// Read the spot at in-bounds coordinates.
    fn get_spot(&self, x: u16, y: u16) -> (s: Spot)
        requires
            self.base_inv(),
            x < self.width,
            y < self.height,
        ensures
            s == self@.spot(x as int, y as int),
    {
        let i = self.index_of(x, y);
        self.field[i]
    }

    /// Write the spot at in-bounds coordinates; the view changes by exactly
    /// one map entry.
    fn set_spot(&mut self, x: u16, y: u16, s: Spot)
        requires
            old(self).base_inv(),
            x < old(self).width,
            y < old(self).height,
        ensures
            final(self).base_inv(),
            final(self)@.grid == old(self)@.grid.insert((x as int, y as int), s),
            final(self)@.width == old(self)@.width,
            final(self)@.height == old(self)@.height,
            final(self)@.mines == old(self)@.mines,
    {
        let i = self.index_of(x, y);
        self.field[i] = s;
        proof {
            let w = self.width as int;
            let h = self.height as int;
            assert forall|p: (int, int)|
                #![all_triggers]
                0 <= p.0 < w && 0 <= p.1 < h implies self@.grid[p] == old(self)@.grid.insert(
                (x as int, y as int),
                s,
            )[p] by {
                lemma_grid_index(p.0, p.1, w, h);
                if p.0 == x as int && p.1 == y as int {
                } else {
                    lemma_grid_index_injective(p.0, p.1, x as int, y as int, w, h);
                }
            }
            assert(self@.grid =~= old(self)@.grid.insert((x as int, y as int), s));
        }
    }

    /// Raise the neighbor count of the spot at `(x, y)` by one, if it is
    /// empty; a mine is left as it is.
    fn bump(&mut self, x: u16, y: u16)
        requires
            old(self).base_inv(),
            x < old(self).width,
            y < old(self).height,
            (old(self)@.spot(x as int, y as int).kind matches SpotKind::Empty(n) ==> n
                < 0xffff_ffffu32),
        ensures
            final(self).base_inv(),
            final(self)@.grid == old(self)@.grid.insert(
                (x as int, y as int),
                bump_spot(old(self)@.spot(x as int, y as int)),
            ),
            final(self)@.width == old(self)@.width,
            final(self)@.height == old(self)@.height,
            final(self)@.mines == old(self)@.mines,
    {
        let s = self.get_spot(x, y);
        match s.kind {
            SpotKind::Empty(n) => {
                self.set_spot(x, y, Spot { kind: SpotKind::Empty(n + 1), state: s.state });
            },
            SpotKind::Mine => {
                proof {
                    assert(self@.grid =~= self@.grid.insert((x as int, y as int), s));
                }
            },
        }
    }

    /// Place a mine at the given on-grid coordinates and raise the neighbor
    /// count of every adjacent empty spot by one.  A cell already holding a
    /// mine is left untouched.
    #[verifier::rlimit(100)]
    pub fn place_mine(&mut self, x: u16, y: u16)
        requires
            old(self).inv(),
            (x as int) < old(self)@.width,
            (y as int) < old(self)@.height,
        ensures
            final(self).inv(),
            final(self)@.wf(),
            old(self)@.spot(x as int, y as int).kind is Mine ==> final(self)@ == old(self)@,
            !(old(self)@.spot(x as int, y as int).kind is Mine) ==> final(self)@ == (FieldView {
                grid: place_mine_grid(old(self)@, x as int, y as int),
                ..old(self)@
            }),
    {
        let s = self.get_spot(x, y);
        // Only place a mine in an empty spot
        if let SpotKind::Empty(_) = s.kind {
            let ghost v0 = self@;
            proof {
                self.lemma_inv_wf();
            }
            self.set_spot(x, y, Spot { kind: SpotKind::Mine, state: s.state });
            if x > 0 && y > 0 {
                self.bump(x - 1, y - 1);
            }
            if x > 0 {
                self.bump(x - 1, y);
            }
            if x > 0 && y + 1 < self.height {
                self.bump(x - 1, y + 1);
            }
            if y > 0 {
                self.bump(x, y - 1);
            }
            if y + 1 < self.height {
                self.bump(x, y + 1);
            }
            if x + 1 < self.width && y > 0 {
                self.bump(x + 1, y - 1);
            }
            if x + 1 < self.width {
                self.bump(x + 1, y);
            }
            if x + 1 < self.width && y + 1 < self.height {
                self.bump(x + 1, y + 1);
            }
            proof {
                let xi = x as int;
                let yi = y as int;
                let g = place_mine_grid(v0, xi, yi);
                assert(self@.grid[(xi, yi)] == (Spot {
                    kind: SpotKind::Mine,
                    state: v0.spot(xi, yi).state,
                }));
                assert(xi >= 1 && yi >= 1 ==> self@.grid[(xi - 1, yi - 1)] == bump_spot(
                    v0.spot(xi - 1, yi - 1),
                ));
                assert(xi >= 1 ==> self@.grid[(xi - 1, yi)] == bump_spot(v0.spot(xi - 1, yi)));
                assert(xi >= 1 && yi + 1 < v0.height ==> self@.grid[(xi - 1, yi + 1)] == bump_spot(
                    v0.spot(xi - 1, yi + 1),
                ));
                assert(yi >= 1 ==> self@.grid[(xi, yi - 1)] == bump_spot(v0.spot(xi, yi - 1)));
                assert(yi + 1 < v0.height ==> self@.grid[(xi, yi + 1)] == bump_spot(
                    v0.spot(xi, yi + 1),
                ));
                assert(xi + 1 < v0.width && yi >= 1 ==> self@.grid[(xi + 1, yi - 1)] == bump_spot(
                    v0.spot(xi + 1, yi - 1),
                ));
                assert(xi + 1 < v0.width ==> self@.grid[(xi + 1, yi)] == bump_spot(
                    v0.spot(xi + 1, yi),
                ));
                assert(xi + 1 < v0.width && yi + 1 < v0.height ==> self@.grid[(xi + 1, yi + 1)]
                    == bump_spot(v0.spot(xi + 1, yi + 1)));
                assert forall|p: (int, int)|
                    v0.grid.dom().contains(p) && !(p == (xi, yi)) && !adjacent(
                        xi,
                        yi,
                        p.0,
                        p.1,
                    ) implies #[trigger] self@.grid[p] == v0.grid[p] by {}
                assert forall|p: (int, int)| v0.grid.dom().contains(p) implies #[trigger] self@.grid[p]
                    == g[p] by {
                    if p != (xi, yi) && adjacent(xi, yi, p.0, p.1) {
                        assert(p.0 == xi - 1 || p.0 == xi || p.0 == xi + 1);
                        assert(p.1 == yi - 1 || p.1 == yi || p.1 == yi + 1);
                    }
                }
                assert(self@.grid.dom() =~= v0.grid.dom());
                assert(self@.grid =~= g);
                lemma_place_mine_counts_ok(v0, xi, yi);
            }
        }
        proof {
            self.lemma_view_dom();
        }
    }

    /// Build an existing minefield with the given number of mines randomly
    /// placed in it.  Meant to be chained right after [`Minefield::new`], so
    /// the field must hold no mine yet.  At most `width * height` mines are
    /// placed, at distinct uniformly-random positions, without touching any
    /// spot's visibility state.
    pub fn with_mines(self, mines: u32) -> (r: Self)
        requires
            self.inv(),
            forall|x: int, y: int|
                self@.in_bounds(x, y) ==> !((#[trigger] self@.spot(x, y)).kind is Mine),
        ensures
            r.inv(),
            r@.wf(),
            r@.width == self@.width,
            r@.height == self@.height,
            r@.mines == if mines as int <= self@.width * self@.height {
                mines as int
            } else {
                self@.width * self@.height
            },
            r@.mine_cells().len() == r@.mines,
            forall|x: int, y: int|
                r@.in_bounds(x, y) ==> (#[trigger] r@.spot(x, y)).state == self@.spot(x, y).state,
    {
        let mut this = self;
        proof {
            lemma_dims_product_bound(this.width as int, this.height as int);
        }
        // Total number of spots in our field
        let spot_count: usize = (this.width as usize) * (this.height as usize);

        // Limit the max number of mines to the number of available spots
        let mines: u32 = if mines as usize <= spot_count {
            mines
        } else {
            spot_count as u32
        };
        this.mines = mines;

        // Rather than picking random spots and hoping not to have hit a mined
        // one already -- which degrades badly on dense fields -- keep the
        // list of spots still free of mines and draw from it, so placement
        // ends after exactly `mines` draws.
        let mut spots_remaining: Vec<usize> = Vec::new();
        let mut k: usize = 0;
        while k < spot_count
            invariant
                spots_remaining@.len() == k as int,
                k <= spot_count,
                forall|j: int| 0 <= j < k as int ==> #[trigger] spots_remaining@[j] == j,
            decreases spot_count as int - k as int,
        {
            spots_remaining.push(k);
            k = k + 1;
        }

        proof {
            assert(this@.grid =~= self@.grid);
            lemma_same_kinds_counts_ok(self@, this@);
            lemma_cells_finite(this@.mine_cells(), this@.width, this@.height);
            assert forall|p: (int, int)| !this@.mine_cells().contains(p) by {
                if this@.in_bounds(p.0, p.1) {
                    assert(!(self@.spot(p.0, p.1).kind is Mine));
                }
            }
            assert(this@.mine_cells() =~= Set::<(int, int)>::empty());
        }
        let ghost v1 = this@;
        proof {
            assert forall|j: int| 0 <= j < spots_remaining@.len() implies !(this@.spot(
                #[trigger] spots_remaining@[j] as int % v1.width,
                spots_remaining@[j] as int / v1.width,
            ).kind is Mine) by {
                lemma_decode(spots_remaining@[j] as int, v1.width, v1.height);
                assert(!this@.mine_cells().contains(
                    (
                        spots_remaining@[j] as int % v1.width,
                        spots_remaining@[j] as int / v1.width,
                    ),
                ));
            }
        }
        let mut placed: u32 = 0;
        while placed < mines
            invariant
                this.inv(),
                this@.width == v1.width,
                this@.height == v1.height,
                this@.mines == v1.mines,
                v1.width * v1.height == spot_count as int,
                v1.width >= 1,
                mines as int <= spot_count as int,
                spot_count <= 0xffff_ffff,
                placed <= mines,
                spots_remaining@.len() + placed as int == spot_count as int,
                spots_remaining@.no_duplicates(),
                forall|j: int|
                    0 <= j < spots_remaining@.len() ==> 0 <= #[trigger] spots_remaining@[j]
                        < spot_count,
                forall|j: int|
                    0 <= j < spots_remaining@.len() ==> !(this@.spot(
                        #[trigger] spots_remaining@[j] as int % v1.width,
                        spots_remaining@[j] as int / v1.width,
                    ).kind is Mine),
                this@.mine_cells().finite(),
                this@.mine_cells().len() == placed as int,
                forall|x: int, y: int|
                    this@.in_bounds(x, y) ==> (#[trigger] this@.spot(x, y)).state == v1.spot(
                        x,
                        y,
                    ).state,
            decreases mines as int - placed as int,
        {
            let idx_rm = crate::rng::random_below(spots_remaining.len());
            let ghost old_list = spots_remaining@;
            let ghost pre = this@;
            let index = spots_remaining.swap_remove(idx_rm);
            proof {
                lemma_swap_remove_props(old_list, idx_rm as int);
                lemma_decode(index as int, v1.width, v1.height);
            }
            let x: u16 = (index % (this.width as usize)) as u16;
            let y: u16 = (index / (this.width as usize)) as u16;
            let ghost xi = x as int;
            let ghost yi = y as int;
            proof {
                assert(xi == index as int % v1.width && yi == index as int / v1.width);
                assert(!(pre.spot(xi, yi).kind is Mine));
            }
            this.place_mine(x, y);
            proof {
                // the placed cell is the only new mine
                assert(this@.mine_cells() =~= pre.mine_cells().insert((xi, yi)));
                // every remaining listed spot decodes elsewhere, so it is
                // still free of a mine
                assert forall|j: int| 0 <= j < spots_remaining@.len() implies !(this@.spot(
                    #[trigger] spots_remaining@[j] as int % v1.width,
                    spots_remaining@[j] as int / v1.width,
                ).kind is Mine) by {
                    let n2 = spots_remaining@[j] as int;
                    lemma_decode(n2, v1.width, v1.height);
                    lemma_decode_injective(n2, index as int, v1.width, v1.height);
                }
            }
            placed = placed + 1;
        }
        proof {
            this.lemma_view_dom();
        }
        this
    }

    /// Check if the minefield has been cleared: every mine flagged and every
    /// empty spot revealed.
    pub fn is_cleared(&self) -> (r: bool)
        requires
            self.inv(),
        ensures
            r == self@.cleared(),
    {
        let mut x: u16 = 0;
        while x < self.width
            invariant
                self.inv(),
                x <= self.width,
                forall|i: int, j: int|
                    0 <= i < x as int && 0 <= j < self@.height ==> #[trigger] self@.spot_cleared(
                        i,
                        j,
                    ),
            decreases self.width as int - x as int,
        {
            let mut y: u16 = 0;
            while y < self.height
                invariant
                    self.inv(),
                    x < self.width,
                    y <= self.height,
                    forall|i: int, j: int|
                        0 <= i < x as int && 0 <= j < self@.height ==> #[trigger] self@.spot_cleared(
                            i,
                            j,
                        ),
                    forall|j: int|
                        0 <= j < y as int ==> #[trigger] self@.spot_cleared(x as int, j),
                decreases self.height as int - y as int,
            {
                let s = self.get_spot(x, y);
                match s.kind {
                    SpotKind::Mine => {
                        if s.state != SpotState::Flagged {
                            proof {
                                assert(self@.in_bounds(x as int, y as int));
                                assert(!self@.spot_cleared(x as int, y as int));
                            }
                            return false;
                        }
                    },
                    SpotKind::Empty(_) => {
                        if s.state != SpotState::Revealed {
                            proof {
                                assert(self@.in_bounds(x as int, y as int));
                                assert(!self@.spot_cleared(x as int, y as int));
                            }
                            return false;
                        }
                    },
                }
                y = y + 1;
            }
            x = x + 1;
        }
        true
    }

    /// Create an empty minefield grid (with all spots hidden), with the given
    /// width and height.  A zero width or height is raised to 1.
    pub fn new(width: u16, height: u16) -> (r: Self)
        ensures
            r.inv(),
            r@.wf(),
            r@.width == if width == 0 {
                1int
            } else {
                width as int
            },
            r@.height == if height == 0 {
                1int
            } else {
                height as int
            },
            r@.mines == 0,
            forall|x: int, y: int|
                r@.in_bounds(x, y) ==> #[trigger] r@.spot(x, y) == (Spot {
                    kind: SpotKind::Empty(0),
                    state: SpotState::Hidden,
                }),
    {
        // Enforce a minimum number of spots
        let width = if width == 0 {
            1
        } else {
            width
        };
        let height = if height == 0 {
            1
        } else {
            height
        };
        proof {
            lemma_dims_product_bound(width as int, height as int);
        }
        let total: usize = (width as usize) * (height as usize);
        let mut field: Vec<Spot> = Vec::new();
        let mut k: usize = 0;
        while k < total
            invariant
                field@.len() == k,
                k <= total,
                forall|j: int|
                    0 <= j < k ==> field@[j] == (Spot {
                        kind: SpotKind::Empty(0),
                        state: SpotState::Hidden,
                    }),
            decreases total - k,
        {
            field.push(Spot { kind: SpotKind::Empty(0), state: SpotState::Hidden });
            k = k + 1;
        }
        let r = Minefield { field, mines: 0, width, height };
        proof {
            r.lemma_view_dom();
            assert forall|x: int, y: int| r@.in_bounds(x, y) implies #[trigger] r@.spot(x, y)
                == (Spot { kind: SpotKind::Empty(0), state: SpotState::Hidden }) by {
                lemma_grid_index(x, y, width as int, height as int);
            }
        }
        r
    }

    /// Set a flag on a hidden spot, or clear the flag if the spot had one, or
    /// do nothing if the spot cannot be flagged.
    pub fn toggle_flag(&mut self, x: u16, y: u16) -> (r: FlagToggleResult)
        requires
            old(self).inv(),
        ensures
            final(self).inv(),
            final(self)@.wf(),
            final(self)@ == toggle_flag_model(old(self)@, x as int, y as int).0,
            r == toggle_flag_model(old(self)@, x as int, y as int).1,
    {
        proof {
            self.lemma_view_dom();
        }
        if x < self.width && y < self.height {
            let s = self.get_spot(x, y);
            match s.state {
                SpotState::Hidden => {
                    self.set_spot(x, y, Spot { kind: s.kind, state: SpotState::Flagged });
                    proof {
                        lemma_same_kinds_counts_ok(old(self)@, self@);
                    }
                    FlagToggleResult::Added
                },
                SpotState::Flagged => {
                    self.set_spot(x, y, Spot { kind: s.kind, state: SpotState::Hidden });
                    proof {
                        lemma_same_kinds_counts_ok(old(self)@, self@);
                    }
                    FlagToggleResult::Removed
                },
                _ => FlagToggleResult::NoChange,
            }
        } else {
            FlagToggleResult::NoChange
        }
    }

    /// Count the flags placed on the neighbors of `(x, y)`.
    fn count_flagged_neighbors(&self, x: u16, y: u16) -> (c: u8)
        requires
            self.base_inv(),
            x < self.width,
            y < self.height,
        ensures
            c as int == self@.flag_neighbor_count(x as int, y as int),
    {
        let w = self.width;
        let h = self.height;
        let mut c: u8 = 0;
        if x >= 1 && y >= 1 && self.get_spot(x - 1, y - 1).state == SpotState::Flagged {
            c = c + 1;
        }
        if y >= 1 && self.get_spot(x, y - 1).state == SpotState::Flagged {
            c = c + 1;
        }
        if x + 1 < w && y >= 1 && self.get_spot(x + 1, y - 1).state == SpotState::Flagged {
            c = c + 1;
        }
        if x >= 1 && self.get_spot(x - 1, y).state == SpotState::Flagged {
            c = c + 1;
        }
        if x + 1 < w && self.get_spot(x + 1, y).state == SpotState::Flagged {
            c = c + 1;
        }
        if x >= 1 && y + 1 < h && self.get_spot(x - 1, y + 1).state == SpotState::Flagged {
            c = c + 1;
        }
        if y + 1 < h && self.get_spot(x, y + 1).state == SpotState::Flagged {
            c = c + 1;
        }
        if x + 1 < w && y + 1 < h && self.get_spot(x + 1, y + 1).state == SpotState::Flagged {
            c = c + 1;
        }
        c
    }

    /// Automatically step on all hidden (i.e. not flagged) neighbors of a
    /// revealed empty spot at the given coordinates, provided exactly as many
    /// flags sit around the spot as it counts neighboring mines.  The first
    /// explosion stops the walk.
    pub fn auto_step(&mut self, x: u16, y: u16) -> (r: StepResult)
        requires
            old(self).inv(),
        ensures
            final(self).inv(),
            final(self)@.wf(),
            final(self)@ == auto_step_model(old(self)@, x as int, y as int).0,
            r == auto_step_model(old(self)@, x as int, y as int).1,
    {
        let ghost xi = x as int;
        let ghost yi = y as int;
        proof {
            self.lemma_view_dom();
        }
        if !(x < self.width && y < self.height) {
            return StepResult::Invalid;
        }
        let s = self.get_spot(x, y);
        match s.kind {
            SpotKind::Mine => StepResult::Invalid,
            SpotKind::Empty(mine_count) => {
                // count the flags around the given coords
                let placed_flags = self.count_flagged_neighbors(x, y);
                // only try to autostep if the user has placed enough flags
                // around the spot whose neighbors will be autorevealed
                if s.state == SpotState::Revealed && placed_flags as u32 == mine_count {
                    let ghost v0 = self@;
                    let ghost nl = neighbor_list(v0, xi, yi);
                    let ghost tgt = chord_steps(v0, nl);
                    let nbrs = self.neighbors_coords(x, y);
                    proof {
                        self.lemma_inv_wf();
                        assert(auto_step_model(v0, xi, yi) == tgt);
                        lemma_neighbor_list_elems(v0, xi, yi);
                        assert(nl.skip(0) =~= nl);
                    }
                    let mut i: usize = 0;
                    while i < nbrs.len()
                        invariant
                            self.inv(),
                            v0.wf(),
                            self@.grid.dom() == v0.grid.dom(),
                            self@.width == v0.width,
                            self@.height == v0.height,
                            i <= nbrs@.len(),
                            nbrs@.len() == nl.len(),
                            forall|j: int|
                                0 <= j < nl.len() ==> ((#[trigger] nbrs@[j]).0 as int,
                                nbrs@[j].1 as int) == nl[j],
                            nl == neighbor_list(v0, xi, yi),
                            forall|j: int|
                                0 <= j < nl.len() ==> v0.grid.dom().contains(#[trigger] nl[j]),
                            chord_steps(self@, nl.skip(i as int)) == tgt,
                            v0 == old(self)@,
                            tgt == auto_step_model(old(self)@, x as int, y as int),
                        decreases nbrs@.len() - i as int,
                    {
                        let (nx, ny) = nbrs[i];
                        let ghost u = (nx as int, ny as int);
                        proof {
                            assert(u == nl[i as int]);
                            assert(self@.grid.dom().contains(u));
                            assert(nl.skip(i as int).drop_first() =~= nl.skip(i as int + 1));
                            assert(nl.skip(i as int)[0] == u);
                        }
                        let sp = self.get_spot(nx, ny);
                        if sp.state == SpotState::Hidden {
                            let ghost pre = self@;
                            let sr = self.step(nx, ny);
                            proof {
                                lemma_step_model_frame(pre, u.0, u.1);
                            }
                            // Stepped on an unflagged mine!
                            if sr != StepResult::Phew {
                                proof {
                                    assert(chord_steps(pre, nl.skip(i as int)) == (self@, sr));
                                    self.lemma_view_dom();
                                }
                                return sr;
                            }
                        }
                        i = i + 1;
                    }
                    proof {
                        assert(nl.skip(nl.len() as int) =~= Seq::<(int, int)>::empty());
                        self.lemma_view_dom();
                    }
                    StepResult::Phew
                } else {
                    StepResult::Phew
                }
            },
        }
    }

    /// Step on a given spot of the field.  Coordinates `(0, 0)` are the
    /// top-left point of the field grid.  Stepping on a mine explodes it --
    /// even a flagged one, flags guard only against `auto_step` -- and
    /// stepping on an empty spot with no neighboring mines flood-reveals the
    /// whole connected zero-count region and its border.
    pub fn step(&mut self, x: u16, y: u16) -> (r: StepResult)
        requires
            old(self).inv(),
        ensures
            final(self).inv(),
            final(self)@.wf(),
            final(self)@ == step_model(old(self)@, x as int, y as int).0,
            r == step_model(old(self)@, x as int, y as int).1,
    {
        let ghost xi = x as int;
        let ghost yi = y as int;
        proof {
            self.lemma_view_dom();
        }
        if !(x < self.width && y < self.height) {
            // Step is outside minefield
            return StepResult::Invalid;
        }
        let s = self.get_spot(x, y);
        match s.kind {
            SpotKind::Mine => {
                // Stepped on a mine
                self.set_spot(x, y, Spot { kind: s.kind, state: SpotState::Exploded });
                proof {
                    assert(self@ =~= with_state(old(self)@, xi, yi, SpotState::Exploded));
                    lemma_same_kinds_counts_ok(old(self)@, self@);
                    self.lemma_view_dom();
                }
                StepResult::Boom
            },
            SpotKind::Empty(n) => {
                // Reveal the spot
                let ghost v0 = self@;
                proof {
                    self.lemma_inv_wf();
                }
                self.set_spot(x, y, Spot { kind: s.kind, state: SpotState::Revealed });
                proof {
                    assert(self@ =~= with_state(v0, xi, yi, SpotState::Revealed));
                    lemma_same_kinds_counts_ok(v0, self@);
                }
                // flood reveal if this is an empty spot with no neighboring mines
                if n == 0 {
                    self.flood(x, y, Ghost(v0));
                }
                proof {
                    self.lemma_view_dom();
                }
                // Stepped on empty field
                StepResult::Phew
            },
        }
    }

    /// The worklist-driven flood reveal: starting from the already-revealed
    /// zero-count spot at `(x, y)`, reveal every hidden empty neighbor of
    /// each zero-count cell reached, and keep expanding through the
    /// zero-count ones.  Mines and flagged cells are never touched.
    #[verifier::rlimit(100)]
    fn flood(&mut self, x: u16, y: u16, Ghost(v0): Ghost<FieldView>)
        requires
            old(self).base_inv(),
            v0.wf(),
            v0.in_bounds(x as int, y as int),
            v0.grid[(x as int, y as int)].kind == SpotKind::Empty(0u32),
            old(self)@ == with_state(v0, x as int, y as int, SpotState::Revealed),
        ensures
            final(self).inv(),
            final(self)@ == (FieldView { grid: flood_grid(v0, x as int, y as int), ..v0 }),
    {
        let ghost sx = x as int;
        let ghost sy = y as int;
        let mut wl: Vec<(u16, u16)> = Vec::new();
        wl.push((x, y));
        proof {
            lemma_reaches_start(v0, sx, sy);
            assert(coords_view(wl@) =~= seq![(sx, sy)]);
            assert(self@.grid.dom() =~= v0.grid.dom());
            lemma_cells_finite(self@.hidden_cells(), v0.width, v0.height);
            assert forall|p: (int, int)|
                v0.grid.dom().contains(p) && (#[trigger] self@.grid[p]).state
                    != v0.grid[p].state implies {
                &&& self@.grid[p].state is Revealed
                &&& flood_reaches(v0, sx, sy, p.0, p.1)
                &&& (p == (sx, sy) || v0.grid[p].state is Hidden)
            } by {
                assert(p == (sx, sy));
            }
            assert(flood_sound(v0, sx, sy, self@));
            assert forall|z: (int, int)|
                {
                    &&& v0.grid.dom().contains(z)
                    &&& v0.spot(z.0, z.1).kind == SpotKind::Empty(0u32)
                    &&& (#[trigger] self@.grid[z]).state is Revealed
                    &&& (z == (sx, sy) || v0.grid[z].state is Hidden)
                    &&& !coords_view(wl@).contains(z)
                } implies nbrs_done(v0, self@, z) by {
                assert(coords_view(wl@)[0] == (sx, sy));
                if z != (sx, sy) {
                    assert(self@.grid[z] == v0.grid[z]);
                    assert(false);
                } else {
                    assert(coords_view(wl@).contains(z));
                    assert(false);
                }
            }
            assert(flood_frontier(v0, sx, sy, self@, coords_view(wl@)));
        }
        loop
            invariant
                self.base_inv(),
                v0.wf(),
                v0.grid.dom().contains((sx, sy)),
                v0.grid[(sx, sy)].kind == SpotKind::Empty(0u32),
                flood_frame(v0, self@),
                flood_sound(v0, sx, sy, self@),
                self@.grid[(sx, sy)].state is Revealed,
                wl_ok(v0, sx, sy, self@, coords_view(wl@)),
                flood_frontier(v0, sx, sy, self@, coords_view(wl@)),
                self@.hidden_cells().finite(),
            ensures
                wl@.len() == 0,
                self.base_inv(),
                flood_frame(v0, self@),
                flood_sound(v0, sx, sy, self@),
                self@.grid[(sx, sy)].state is Revealed,
                flood_frontier(v0, sx, sy, self@, coords_view(wl@)),
            decreases self@.hidden_cells().len(), wl@.len(),
        {
            let ghost h0 = self@.hidden_cells().len();
            let ghost l0 = wl@.len();
            let ghost old_wl = wl@;
            let popped = wl.pop();
            let (cx, cy) = match popped {
                Some(p) => p,
                None => {
                    break ;
                },
            };
            let ghost cz = (cx as int, cy as int);
            proof {
                assert(coords_view(old_wl)[l0 - 1] == cz);
                assert(wl_entry_ok(v0, sx, sy, self@, cz));
                assert(coords_view(old_wl) =~= coords_view(wl@).push(cz));
                assert forall|j: int| 0 <= j < coords_view(wl@).len() implies wl_entry_ok(
                    v0,
                    sx,
                    sy,
                    self@,
                    #[trigger] coords_view(wl@)[j],
                ) by {
                    assert(coords_view(wl@)[j] == coords_view(old_wl)[j]);
                }
                assert(wl_ok(v0, sx, sy, self@, coords_view(wl@)));
            }
            let nbrs = self.neighbors_coords(cx, cy);
            let ghost nl = neighbor_list(v0, cz.0, cz.1);
            proof {
                lemma_neighbor_list_same_dom(self@, v0, cz.0, cz.1);
                lemma_neighbor_list_elems(v0, cz.0, cz.1);
            }
            let mut i: usize = 0;
            while i < nbrs.len()
                invariant
                    self.base_inv(),
                    v0.wf(),
                    v0.grid.dom().contains((sx, sy)),
                    v0.grid[(sx, sy)].kind == SpotKind::Empty(0u32),
                    flood_frame(v0, self@),
                    flood_sound(v0, sx, sy, self@),
                    self@.grid[(sx, sy)].state is Revealed,
                    wl_entry_ok(v0, sx, sy, self@, cz),
                    wl_ok(v0, sx, sy, self@, coords_view(wl@)),
                    flood_frontier(v0, sx, sy, self@, coords_view(wl@).push(cz)),
                    i <= nbrs@.len(),
                    nbrs@.len() == nl.len(),
                    forall|j: int|
                        0 <= j < nl.len() ==> ((#[trigger] nbrs@[j]).0 as int, nbrs@[j].1 as int)
                            == nl[j],
                    nl == neighbor_list(v0, cz.0, cz.1),
                    forall|j: int|
                        0 <= j < nl.len() ==> v0.grid.dom().contains(#[trigger] nl[j]) && adjacent(
                            cz.0,
                            cz.1,
                            nl[j].0,
                            nl[j].1,
                        ),
                    forall|j: int|
                        0 <= j < i as int && v0.grid[#[trigger] nl[j]].kind is Empty ==> !(
                        self@.grid[nl[j]].state is Hidden),
                    self@.hidden_cells().finite(),
                    self@.hidden_cells().len() <= h0,
                    self@.hidden_cells().len() + wl@.len() <= h0 + l0 - 1,
                decreases nbrs@.len() - i as int,
            {
                let (nx, ny) = nbrs[i];
                let ghost u = (nx as int, ny as int);
                proof {
                    assert(u == nl[i as int]);
                    assert(v0.grid.dom().contains(u) && adjacent(cz.0, cz.1, u.0, u.1));
                }
                let sp = self.get_spot(nx, ny);
                if sp.state == SpotState::Hidden {
                    if let SpotKind::Empty(m) = sp.kind {
                        let ghost pre = self@;
                        self.set_spot(nx, ny, Spot { kind: sp.kind, state: SpotState::Revealed });
                        proof {
                            // the spot is hidden now, so it was hidden at the start
                            assert(v0.grid[u].state is Hidden);
                            assert(v0.grid[u].kind == SpotKind::Empty(m));
                            lemma_reaches_extend(v0, sx, sy, cz, u);
                            assert(self@.grid.dom() =~= v0.grid.dom());
                            assert forall|p: (int, int)|
                                v0.grid.dom().contains(p) && (#[trigger] self@.grid[p]).state
                                    != v0.grid[p].state implies {
                                &&& self@.grid[p].state is Revealed
                                &&& flood_reaches(v0, sx, sy, p.0, p.1)
                                &&& (p == (sx, sy) || v0.grid[p].state is Hidden)
                            } by {
                                if p != u {
                                    assert(self@.grid[p] == pre.grid[p]);
                                }
                            }
                            assert(flood_sound(v0, sx, sy, self@));
                            // one hidden cell fewer
                            assert(self@.hidden_cells() =~= pre.hidden_cells().remove(u));
                            assert(pre.hidden_cells().contains(u));
                            assert(self@.grid[cz] == pre.grid[cz]);
                        }
                        if m == 0 {
                            let ghost wl_pre = wl@;
                            wl.push((nx, ny));
                            proof {
                                assert(coords_view(wl@) =~= coords_view(wl_pre).push(u));
                                assert(wl_entry_ok(v0, sx, sy, self@, u));
                                assert forall|j: int|
                                    0 <= j < coords_view(wl@).len() implies wl_entry_ok(
                                    v0,
                                    sx,
                                    sy,
                                    self@,
                                    #[trigger] coords_view(wl@)[j],
                                ) by {
                                    if j < coords_view(wl_pre).len() {
                                        assert(coords_view(wl@)[j] == coords_view(wl_pre)[j]);
                                        assert(wl_entry_ok(
                                            v0,
                                            sx,
                                            sy,
                                            pre,
                                            coords_view(wl_pre)[j],
                                        ));
                                        assert(coords_view(wl_pre)[j] != u);
                                    } else {
                                        assert(coords_view(wl@)[j] == u);
                                    }
                                }
                                assert(wl_ok(v0, sx, sy, self@, coords_view(wl@)));
                                let wls_pre = coords_view(wl_pre).push(cz);
                                let wls_post = coords_view(wl@).push(cz);
                                assert forall|z: (int, int)| wls_pre.contains(z) implies wls_post.contains(
                                    z,
                                ) by {
                                    let k = choose|k: int|
                                        0 <= k < wls_pre.len() && wls_pre[k] == z;
                                    if k < coords_view(wl_pre).len() {
                                        assert(wls_post[k] == z);
                                    } else {
                                        assert(wls_post[wls_post.len() - 1] == cz);
                                    }
                                }
                                assert(wls_post[coords_view(wl_pre).len() as int] == u);
                                assert(wls_post.contains(u));
                                lemma_frontier_after_reveal(
                                    v0,
                                    sx,
                                    sy,
                                    pre,
                                    self@,
                                    u,
                                    wls_pre,
                                    wls_post,
                                );
                            }
                        } else {
                            proof {
                                assert forall|j: int|
                                    0 <= j < coords_view(wl@).len() implies wl_entry_ok(
                                    v0,
                                    sx,
                                    sy,
                                    self@,
                                    #[trigger] coords_view(wl@)[j],
                                ) by {
                                    assert(wl_entry_ok(v0, sx, sy, pre, coords_view(wl@)[j]));
                                    assert(coords_view(wl@)[j] != u);
                                }
                                assert(wl_ok(v0, sx, sy, self@, coords_view(wl@)));
                                lemma_frontier_after_reveal(
                                    v0,
                                    sx,
                                    sy,
                                    pre,
                                    self@,
                                    u,
                                    coords_view(wl@).push(cz),
                                    coords_view(wl@).push(cz),
                                );
                            }
                        }
                    }
                }
                i = i + 1;
            }
            proof {
                lemma_nbrs_done_from_list(v0, self@, cz);
                lemma_frontier_restore(v0, sx, sy, self@, coords_view(wl@), cz);
            }
        }
        proof {
            assert(coords_view(wl@) =~= Seq::<(int, int)>::empty());
            let g = flood_grid(v0, sx, sy);
            assert forall|p: (int, int)| v0.grid.dom().contains(p) implies #[trigger] self@.grid[p]
                == g[p] by {
                if flood_reaches(v0, sx, sy, p.0, p.1) {
                    let path = choose|path: Seq<(int, int)>|
                        flood_path_ok(v0, sx, sy, path) && path.last() == p;
                    lemma_flood_complete(v0, sx, sy, self@, path);
                    assert(self@.grid[p].state is Revealed);
                    assert(self@.grid[p].kind == v0.grid[p].kind);
                } else {
                    assert(self@.grid[p] == v0.grid[p]);
                }
            }
            assert(self@.grid.dom() =~= g.dom());
            assert(self@.grid =~= g);
            assert(self@ =~= (FieldView { grid: g, ..v0 }));
            assert forall|a: int, b: int|
                self@.in_bounds(a, b) implies (#[trigger] self@.spot(a, b)).kind == v0.spot(
                a,
                b,
            ).kind by {
                assert(v0.grid.dom().contains((a, b)));
            }
            lemma_same_kinds_counts_ok(v0, self@);
        }
    }

    /// Every spot of the field with its coordinates, row by row: the pair
    /// for `(x, y)` sits at index `y * width + x`.  This is the read
    /// interface a renderer walks.
    pub fn spots(&self) -> (r: Vec<((u16, u16), Spot)>)
        requires
            self.inv(),
        ensures
            r@.len() == self@.width * self@.height,
            forall|x: int, y: int|
                self@.in_bounds(x, y) ==> #[trigger] r@[y * self@.width + x] == (
                ((x as u16, y as u16), self@.spot(x, y))),
    {
        let ghost w = self@.width;
        let mut r: Vec<((u16, u16), Spot)> = Vec::new();
        let mut y: u16 = 0;
        while y < self.height
            invariant
                self.inv(),
                w == self@.width,
                y <= self.height,
                r@.len() == y as int * w,
                forall|i: int, j: int|
                    0 <= i < w && 0 <= j < y as int ==> #[trigger] r@[j * w + i] == (
                    ((i as u16, j as u16), self@.spot(i, j))),
            decreases self.height as int - y as int,
        {
            let mut x: u16 = 0;
            while x < self.width
                invariant
                    self.inv(),
                    w == self@.width,
                    y < self.height,
                    x <= self.width,
                    r@.len() == y as int * w + x as int,
                    forall|i: int, j: int|
                        0 <= i < w && 0 <= j < y as int ==> #[trigger] r@[j * w + i] == (
                        ((i as u16, j as u16), self@.spot(i, j))),
                    forall|i: int|
                        0 <= i < x as int ==> #[trigger] r@[y as int * w + i] == (
                        ((i as u16, y as u16), self@.spot(i, y as int))),
                decreases self.width as int - x as int,
            {
                let s = self.get_spot(x, y);
                let ghost r0 = r@;
                r.push(((x, y), s));
                proof {
                    assert forall|i: int, j: int| 0 <= i < w && 0 <= j < y as int implies #[trigger] r@[j
                        * w + i] == (((i as u16, j as u16), self@.spot(i, j))) by {
                        lemma_grid_index(i, j, w, y as int);
                        vstd::arithmetic::mul::lemma_mul_is_commutative(w, y as int);
                        assert(j * w + i < r0.len());
                        assert(r@[j * w + i] == r0[j * w + i]);
                    }
                }
                x = x + 1;
            }
            proof {
                assert((y as int + 1) * w == y as int * w + w) by (nonlinear_arith);
            }
            y = y + 1;
        }
        proof {
            vstd::arithmetic::mul::lemma_mul_is_commutative(w, self@.height);
            assert forall|x: int, y2: int| self@.in_bounds(x, y2) implies #[trigger] r@[y2 * w + x]
                == (((x as u16, y2 as u16), self@.spot(x, y2))) by {
                lemma_grid_index(x, y2, w, self@.height);
            }
        }
        r
    }

    /// The coordinates of all on-grid neighbors within a range of 1 unit of
    /// the given coordinates, by increasing x, then increasing y.  Neighbors
    /// never wrap around the grid edges.
    pub fn neighbors_coords(&self, x: u16, y: u16) -> (r: Vec<(u16, u16)>)
        requires
            self.inv(),
        ensures
            r@.len() == neighbor_list(self@, x as int, y as int).len(),
            forall|i: int|
                0 <= i < r@.len() ==> ((#[trigger] r@[i]).0 as int, r@[i].1 as int)
                    == neighbor_list(self@, x as int, y as int)[i],
    {
        let w = self.width;
        let h = self.height;
        let ghost xi = x as int;
        let ghost yi = y as int;
        let ghost s1 = keep_in_grid(self@, (xi - 1, yi - 1));
        let ghost s2 = s1 + keep_in_grid(self@, (xi - 1, yi));
        let ghost s3 = s2 + keep_in_grid(self@, (xi - 1, yi + 1));
        let ghost s4 = s3 + keep_in_grid(self@, (xi, yi - 1));
        let ghost s5 = s4 + keep_in_grid(self@, (xi, yi + 1));
        let ghost s6 = s5 + keep_in_grid(self@, (xi + 1, yi - 1));
        let ghost s7 = s6 + keep_in_grid(self@, (xi + 1, yi));
        let ghost s8 = s7 + keep_in_grid(self@, (xi + 1, yi + 1));
        let mut r: Vec<(u16, u16)> = Vec::new();
        if x >= 1 && x - 1 < w && y >= 1 && y - 1 < h {
            r.push((x - 1, y - 1));
        }
        proof {
            assert(coords_view(r@) =~= s1);
        }
        if x >= 1 && x - 1 < w && y < h {
            r.push((x - 1, y));
        }
        proof {
            assert(coords_view(r@) =~= s2);
        }
        if x >= 1 && x - 1 < w && h >= 1 && y < h - 1 {
            r.push((x - 1, y + 1));
        }
        proof {
            assert(coords_view(r@) =~= s3);
        }
        if x < w && y >= 1 && y - 1 < h {
            r.push((x, y - 1));
        }
        proof {
            assert(coords_view(r@) =~= s4);
        }
        if x < w && h >= 1 && y < h - 1 {
            r.push((x, y + 1));
        }
        proof {
            assert(coords_view(r@) =~= s5);
        }
        if w >= 1 && x < w - 1 && y >= 1 && y - 1 < h {
            r.push((x + 1, y - 1));
        }
        proof {
            assert(coords_view(r@) =~= s6);
        }
        if w >= 1 && x < w - 1 && y < h {
            r.push((x + 1, y));
        }
        proof {
            assert(coords_view(r@) =~= s7);
        }
        if w >= 1 && x < w - 1 && h >= 1 && y < h - 1 {
            r.push((x + 1, y + 1));
        }
        proof {
            assert(coords_view(r@) =~= s8);
            assert(s8 == neighbor_list(self@, xi, yi));
        }
        r
    }

    /// The width of the minefield.
    pub fn width(&self) -> (w: u16)
        ensures
            w as int == self@.width,
    {
        self.width
    }

    /// The height of the minefield.
    pub fn height(&self) -> (h: u16)
        ensures
            h as int == self@.height,
    {
        self.height
    }

    /// The number of mines in the minefield.
    pub fn mines(&self) -> (m: u32)
        ensures
            m as int == self@.mines,
    {
        self.mines
    }

    /// Get a reference to the spot at the given coordinates, if they are on
    /// the grid.
    pub fn spot(&self, x: u16, y: u16) -> (r: Option<&Spot>)
        requires
            self.inv(),
        ensures
            r is Some <==> self@.in_bounds(x as int, y as int),
            r matches Some(s) ==> *s == self@.spot(x as int, y as int),
    {
        if x < self.width && y < self.height {
            let i = self.index_of(x, y);
            Some(&self.field[i])
        } else {
            None
        }
    }
}

/// Two views over the same rectangle with the same kinds everywhere have the
/// same mine-neighbor counts, so correct counts carry over.
proof fn lemma_same_kinds_counts_ok(v1: FieldView, v2: FieldView)
    requires
        v1.counts_ok(),
        v1.width == v2.width,
        v1.height == v2.height,
        forall|x: int, y: int|
            v2.in_bounds(x, y) ==> (#[trigger] v2.spot(x, y)).kind == v1.spot(x, y).kind,
    ensures
        v2.counts_ok(),
{
    assert forall|x: int, y: int| v2.in_bounds(x, y) implies ((#[trigger] v2.spot(x, y)).kind
        matches SpotKind::Empty(n) ==> n as int == v2.mine_neighbor_count(x, y)) by {
        assert(v2.spot(x, y).kind == v1.spot(x, y).kind);
        assert(v2.mine_neighbor_count(x, y) == v1.mine_neighbor_count(x, y));
    }
}

} // verus!
