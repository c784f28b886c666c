//! The cellular automaton itself: a double-buffered world of packed cells.
//!
//! Each generation of the world is a set of tiles laid out by a `TileGrid`;
//! within a tile, cells are packed one bit each, thirty-two per storage
//! word, row by row.  Two generations are kept and a flipping index selects
//! the current one; an update step reads the current generation and writes
//! the other, then flips.  The transition rule is the standard one: a live
//! cell with two or three live neighbours survives, a dead cell with exactly
//! three live neighbours is born, every other cell is dead.

use vstd::prelude::*;

use crate::tiling::TileGrid;
use crate::tiling::div_ceil_spec;
use crate::tiling::lemma_div_ceil_basics;
use crate::tiling::lemma_tile_address;
use crate::tiling::lemma_tile_dims_positive;

verus! {

/// The mathematical contents of a tile store: one word sequence per tile.
pub open spec fn store_seq(v: Vec<Vec<u32>>) -> Seq<Seq<u32>> {
    Seq::new(v@.len(), |i: int| v@[i]@)
}

/// Bit `b` of word `w`.
pub open spec fn get_bit(w: u32, b: u32) -> bool {
    (w >> b) & 1 == 1
}

/// Number of packed storage words per cell row of the tiles in tile column
/// `tx`.
pub open spec fn spec_words_per_row(g: TileGrid, tx: int) -> int {
    div_ceil_spec(g.spec_tile_width(tx), 32)
}

/// Number of packed storage words held by tile `t`.
pub open spec fn spec_tile_words(g: TileGrid, t: int) -> int {
    spec_words_per_row(g, t % g.spec_grid_width()) * g.spec_tile_height(
        t / g.spec_grid_width(),
    )
}

/// A tile store matches the grid geometry: one word vector per tile, each of
/// exactly the packed size of its tile.
pub open spec fn store_wf(g: TileGrid, s: Seq<Seq<u32>>) -> bool {
    &&& s.len() == g.spec_tile_count()
    &&& forall|t: int| 0 <= t < s.len() ==> #[trigger] s[t].len() == spec_tile_words(g, t)
}

/// The state of global cell `(x, y)` in tile store `s`: the cell's bit
/// within the packed word of its tile.
pub open spec fn spec_cell(g: TileGrid, s: Seq<Seq<u32>>, x: int, y: int) -> bool
    recommends
        g.wf(),
        store_wf(g, s),
        0 <= x < g.width,
        0 <= y < g.height,
{
    let t = g.spec_tile_index(x, y);
    let lx = g.spec_local_x(x);
    let ly = g.spec_local_y(y);
    let wrow = spec_words_per_row(g, g.spec_tile_x(x));
    get_bit(s[t][ly * wrow + lx / 32], (lx % 32) as u32)
}

/// The state of `(x, y)`, with everything outside the grid dead.
pub open spec fn spec_cell_or_dead(g: TileGrid, s: Seq<Seq<u32>>, x: int, y: int) -> bool {
    &&& 0 <= x < g.width
    &&& 0 <= y < g.height
    &&& spec_cell(g, s, x, y)
}

pub open spec fn b2i(b: bool) -> int {
    if b {
        1
    } else {
        0
    }
}

/// Number of live cells among the eight neighbours of `(x, y)`; neighbours
/// beyond the edge of the grid count as dead.
pub open spec fn spec_live_neighbors(g: TileGrid, s: Seq<Seq<u32>>, x: int, y: int) -> int {
    b2i(spec_cell_or_dead(g, s, x - 1, y - 1)) + b2i(spec_cell_or_dead(g, s, x, y - 1)) + b2i(
        spec_cell_or_dead(g, s, x + 1, y - 1),
    ) + b2i(spec_cell_or_dead(g, s, x - 1, y)) + b2i(spec_cell_or_dead(g, s, x + 1, y)) + b2i(
        spec_cell_or_dead(g, s, x - 1, y + 1),
    ) + b2i(spec_cell_or_dead(g, s, x, y + 1)) + b2i(spec_cell_or_dead(g, s, x + 1, y + 1))
}

/// The transition rule: a cell is live in the next generation iff it has
/// exactly three live neighbours, or it is live now and has exactly two.
pub open spec fn life_rule(alive: bool, neighbors: int) -> bool {
    neighbors == 3 || (alive && neighbors == 2)
}

/// The next state of global cell `(x, y)` given the current store `s`.
pub open spec fn spec_next_cell(g: TileGrid, s: Seq<Seq<u32>>, x: int, y: int) -> bool {
    life_rule(spec_cell(g, s, x, y), spec_live_neighbors(g, s, x, y))
}

/// One step of the transition rule, as executable code: exactly
/// `life_rule`.  Pure and independent of the tiling.
pub fn transition(alive: bool, live_neighbors: u32) -> (r: bool)
    ensures
        r == life_rule(alive, live_neighbors as int),
{
    live_neighbors == 3 || (alive && live_neighbors == 2)
}

/// The double-buffered world: two tile stores over one grid, with a
/// flipping index naming the current one.
pub struct World {
    grid: TileGrid,
    gen_a: Vec<Vec<u32>>,
    gen_b: Vec<Vec<u32>>,
    active: bool,
}

/// The generation index after one flip.
pub open spec fn spec_flip(p: bool) -> bool {
    !p
}

/// Flipping the generation index twice returns it to its original value.
pub proof fn lemma_flip_involutive(p: bool)
    ensures
        spec_flip(spec_flip(p)) == p,
{
}

impl World {
    pub closed spec fn spec_grid(self) -> TileGrid {
        self.grid
    }

    pub closed spec fn spec_active(self) -> bool {
        self.active
    }

    /// The tile store of generation `which` (`false` names generation A,
    /// `true` generation B).
    pub closed spec fn store(self, which: bool) -> Seq<Seq<u32>> {
        if which {
            store_seq(self.gen_b)
        } else {
            store_seq(self.gen_a)
        }
    }

    /// The tile store of the current generation.
    pub open spec fn current(self) -> Seq<Seq<u32>> {
        self.store(self.spec_active())
    }

    pub open spec fn wf(self) -> bool {
        &&& self.spec_grid().wf()
        &&& (self.spec_grid().width as int) * (self.spec_grid().height as int) <= usize::MAX
        &&& store_wf(self.spec_grid(), self.store(false))
        &&& store_wf(self.spec_grid(), self.store(true))
    }

    /// Builds a world of two all-dead generations over the given grid, with
    /// generation A current.
    pub fn new(grid: TileGrid) -> (r: World)
        requires
            grid.wf(),
            (grid.width as int) * (grid.height as int) <= usize::MAX,
        ensures
            r.wf(),
            r.spec_grid() == grid,
            !r.spec_active(),
            forall|x: int, y: int|
                0 <= x < grid.width && 0 <= y < grid.height ==> !spec_cell(
                    grid,
                    r.current(),
                    x,
                    y,
                ),
    {
        let gen_a = new_dead_store(&grid);
        let gen_b = new_dead_store(&grid);
        let r = World { grid, gen_a, gen_b, active: false };
        proof {
            assert forall|x: int, y: int|
                0 <= x < grid.width && 0 <= y < grid.height implies !spec_cell(
                grid,
                r.current(),
                x,
                y,
            ) by {
                lemma_tile_address(grid, x, y);
                lemma_tile_index_split(grid, x, y);
                lemma_word_index_bounds(
                    grid,
                    grid.spec_tile_index(x, y),
                    grid.spec_local_x(x),
                    grid.spec_local_y(y),
                );
                lemma_bit_of_zero((grid.spec_local_x(x) % 32) as u32);
            }
        }
        r
    }

    /// The index (zero or one) of the current generation's tile set.
    pub fn active_index(&self) -> (r: usize)
        ensures
            r == if self.spec_active() {
                1int
            } else {
                0int
            },
            r < 2,
    {
        if self.active {
            1
        } else {
            0
        }
    }

    /// The index of the other tile set, the write target of the next update
    /// pass.  Never the index the pass reads.
    pub fn inactive_index(&self) -> (r: usize)
        ensures
            r == if self.spec_active() {
                0int
            } else {
                1int
            },
            r < 2,
    {
        if self.active {
            0
        } else {
            1
        }
    }

    /// Flips which generation is current, without touching either store.
    pub fn flip(&mut self)
        ensures
            final (self).spec_active() == spec_flip(old(self).spec_active()),
            final (self).spec_grid() == old(self).spec_grid(),
            final (self).store(false) == old(self).store(false),
            final (self).store(true) == old(self).store(true),
    {
        self.active = !self.active;
    }
}

/// Allocates an all-zero tile store for the grid.
fn new_dead_store(g: &TileGrid) -> (r: Vec<Vec<u32>>)
    requires
        g.wf(),
        (g.width as int) * (g.height as int) <= usize::MAX,
    ensures
        store_wf(*g, store_seq(r)),
        forall|t: int, k: int|
            0 <= t < store_seq(r).len() && 0 <= k < store_seq(r)[t].len() ==> store_seq(r)[t][k]
                == 0u32,
{
    let count = g.tile_count();
    let gw = g.grid_width();
    let mut store: Vec<Vec<u32>> = Vec::new();
    let mut t: u32 = 0;
    while t < count
        invariant
            g.wf(),
            (g.width as int) * (g.height as int) <= usize::MAX,
            gw == g.spec_grid_width(),
            count == g.spec_tile_count(),
            t <= count,
            store_seq(store).len() == t,
            forall|t2: int|
                0 <= t2 < t ==> #[trigger] store_seq(store)[t2].len() == spec_tile_words(*g, t2),
            forall|t2: int, k: int|
                0 <= t2 < t && 0 <= k < store_seq(store)[t2].len() ==> store_seq(store)[t2][k]
                    == 0u32,
        decreases count - t,
    {
        let words = tile_word_len(g, t);
        let mut tile: Vec<u32> = Vec::new();
        let mut k: usize = 0;
        while k < words
            invariant
                k <= words,
                tile.len() == k,
                forall|i: int| 0 <= i < k ==> tile@[i] == 0u32,
            decreases words - k,
        {
            tile.push(0);
            k = k + 1;
        }
        let ghost prev = store;
        store.push(tile);
        proof {
            assert forall|t2: int| 0 <= t2 < t + 1 implies #[trigger] store_seq(store)[t2].len()
                == spec_tile_words(*g, t2) by {
                if t2 < t {
                    assert(store_seq(store)[t2] == store_seq(prev)[t2]);
                    assert(store_seq(prev)[t2].len() == spec_tile_words(*g, t2));
                } else {
                    assert(store@[t2] == tile);
                    assert(store_seq(store)[t2] == tile@);
                }
            }
            assert forall|t2: int, k2: int|
                0 <= t2 < t + 1 && 0 <= k2 < store_seq(store)[t2].len()
                implies store_seq(store)[t2][k2] == 0u32 by {
                if t2 < t {
                    assert(store_seq(store)[t2] == store_seq(prev)[t2]);
                } else {
                    assert(store@[t2] == tile);
                    assert(store_seq(store)[t2] == tile@);
                }
            }
        }
        t = t + 1;
    }
    store
}

/// Number of packed words of tile `t`, as a machine size.
fn tile_word_len(g: &TileGrid, t: u32) -> (r: usize)
    requires
        g.wf(),
        (g.width as int) * (g.height as int) <= usize::MAX,
        t < g.spec_tile_count(),
    ensures
        r == spec_tile_words(*g, t as int),
{
    let gw = g.grid_width();
    let tx = t % gw;
    let ty = t / gw;
    proof {
        lemma_tile_split(*g, t as int);
        lemma_tile_words_fit(*g, t as int);
    }
    let wrow = words_per_row_at(g, tx);
    let th = g.tile_height_at(ty);
    (wrow as usize) * (th as usize)
}

/// Number of packed words per cell row of tile column `tx`.
fn words_per_row_at(g: &TileGrid, tx: u32) -> (r: u32)
    requires
        g.wf(),
        tx < g.spec_grid_width(),
    ensures
        r == spec_words_per_row(*g, tx as int),
        1 <= r,
    {
    let tw = g.tile_width_at(tx);
    proof {
        lemma_div_ceil_basics(tw as int, 32);
    }
    tw / 32 + if tw % 32 == 0 {
        0
    } else {
        1
    }
}

/// The row-major tile index of a global cell splits back into that cell's
/// tile column and tile row.
pub proof fn lemma_tile_index_split(g: TileGrid, x: int, y: int)
    requires
        g.wf(),
        0 <= x < g.width,
        0 <= y < g.height,
    ensures
        g.spec_tile_index(x, y) % g.spec_grid_width() == g.spec_tile_x(x),
        g.spec_tile_index(x, y) / g.spec_grid_width() == g.spec_tile_y(y),
{
    lemma_tile_address(g, x, y);
    let gw = g.spec_grid_width();
    let tx = g.spec_tile_x(x);
    let ty = g.spec_tile_y(y);
    vstd::arithmetic::div_mod::lemma_fundamental_div_mod_converse(ty * gw + tx, gw, ty, tx);
}

/// A tile index splits into a column `t % grid_width` in range and a row
/// `t / grid_width` in range.
pub proof fn lemma_tile_split(g: TileGrid, t: int)
    requires
        g.wf(),
        0 <= t < g.spec_tile_count(),
    ensures
        0 <= t % g.spec_grid_width() < g.spec_grid_width(),
        0 <= t / g.spec_grid_width() < g.spec_grid_height(),
{
    let gw = g.spec_grid_width();
    let gh = g.spec_grid_height();
    lemma_div_ceil_basics(g.width as int, g.max_tile_dim as int);
    lemma_div_ceil_basics(g.height as int, g.max_tile_dim as int);
    vstd::arithmetic::div_mod::lemma_fundamental_div_mod(t, gw);
    vstd::arithmetic::div_mod::lemma_mod_bound(t, gw);
    vstd::arithmetic::div_mod::lemma_div_pos_is_pos(t, gw);
    assert(t / gw < gh) by (nonlinear_arith)
        requires
            gw * (t / gw) + t % gw == t,
            0 <= t % gw,
            t < gw * gh,
            gw > 0,
    ;
}

/// The packed word count of any tile fits the machine word: it is bounded
/// by the cell count of the whole grid.
pub proof fn lemma_tile_words_fit(g: TileGrid, t: int)
    requires
        g.wf(),
        (g.width as int) * (g.height as int) <= usize::MAX,
        0 <= t < g.spec_tile_count(),
    ensures
        0 <= spec_tile_words(g, t) <= usize::MAX,
        spec_words_per_row(g, t % g.spec_grid_width()) >= 1,
{
    let tx = t % g.spec_grid_width();
    let ty = t / g.spec_grid_width();
    lemma_tile_split(g, t);
    lemma_tile_dims_positive(g, tx, ty);
    let tw = g.spec_tile_width(tx);
    let th = g.spec_tile_height(ty);
    let wrow = spec_words_per_row(g, tx);
    lemma_div_ceil_basics(tw, 32);
    assert(wrow <= tw);
    assert(wrow * th <= (g.width as int) * (g.height as int)) by (nonlinear_arith)
        requires
            0 <= wrow <= tw,
            0 < th,
            tw <= g.width,
            th <= g.height,
    ;
    assert(wrow * th >= 0) by (nonlinear_arith)
        requires
            wrow >= 0,
            th >= 0,
    ;
}

/// Bounds for the packed word index of a local cell: the word lies inside
/// its tile's vector.
pub proof fn lemma_word_index_bounds(g: TileGrid, t: int, lx: int, ly: int)
    requires
        g.wf(),
        0 <= t < g.spec_tile_count(),
        0 <= lx < g.spec_tile_width(t % g.spec_grid_width()),
        0 <= ly < g.spec_tile_height(t / g.spec_grid_width()),
    ensures
        0 <= ly * spec_words_per_row(g, t % g.spec_grid_width()) + lx / 32 < spec_tile_words(
            g,
            t,
        ),
        0 <= lx / 32 < spec_words_per_row(g, t % g.spec_grid_width()),
        0 <= lx % 32 < 32,
{
    let tx = t % g.spec_grid_width();
    let ty = t / g.spec_grid_width();
    lemma_tile_split(g, t);
    lemma_tile_dims_positive(g, tx, ty);
    let tw = g.spec_tile_width(tx);
    let th = g.spec_tile_height(ty);
    let wrow = spec_words_per_row(g, tx);
    lemma_div_ceil_basics(tw, 32);
    vstd::arithmetic::div_mod::lemma_fundamental_div_mod(lx, 32);
    vstd::arithmetic::div_mod::lemma_mod_bound(lx, 32);
    vstd::arithmetic::div_mod::lemma_div_pos_is_pos(lx, 32);
    // lx / 32 < wrow: thirty-two times the word column stays below the
    // clipped tile width, which div_ceil covers.
    assert(lx / 32 < wrow) by (nonlinear_arith)
        requires
            32 * (lx / 32) + lx % 32 == lx,
            0 <= lx % 32 < 32,
            lx < tw,
            tw <= wrow * 32,
    ;
    assert(ly * wrow + lx / 32 < th * wrow) by (nonlinear_arith)
        requires
            0 <= lx / 32 < wrow,
            0 <= ly < th,
    ;
    assert(th * wrow == wrow * th) by (nonlinear_arith);
    assert(ly * wrow >= 0) by (nonlinear_arith)
        requires
            ly >= 0,
            wrow >= 0,
    ;
}


/// Reads one cell of a tile store, through the packed tiled addressing.
pub fn store_get_cell(g: &TileGrid, tiles: &Vec<Vec<u32>>, x: u32, y: u32) -> (r: bool)
    requires
        g.wf(),
        (g.width as int) * (g.height as int) <= usize::MAX,
        store_wf(*g, store_seq(*tiles)),
        x < g.width,
        y < g.height,
    ensures
        r == spec_cell(*g, store_seq(*tiles), x as int, y as int),
{
    proof {
        lemma_tile_address(*g, x as int, y as int);
        lemma_tile_index_split(*g, x as int, y as int);
        lemma_word_index_bounds(
            *g,
            g.spec_tile_index(x as int, y as int),
            g.spec_local_x(x as int),
            g.spec_local_y(y as int),
        );
        lemma_tile_words_fit(*g, g.spec_tile_index(x as int, y as int));
        let ti = g.spec_tile_index(x as int, y as int);
        assert(store_seq(*tiles).len() == tiles@.len());
        assert(store_seq(*tiles)[ti] == tiles@[ti]@);
        assert(store_seq(*tiles)[ti].len() == spec_tile_words(*g, ti));
    }
    let t = g.tile_index(x, y);
    let (lx, ly) = g.local_offset(x, y);
    let tx = x / g.max_tile_dim;
    let wrow = words_per_row_at(g, tx);
    let widx: usize = (ly as usize) * (wrow as usize) + (lx / 32) as usize;
    let word = tiles[t as usize][widx];
    (word >> (lx % 32)) & 1 == 1
}

/// Counts the live cells among the eight neighbours of `(x, y)` in a tile
/// store; neighbours beyond the edge of the grid are dead.
pub fn count_live_neighbors(g: &TileGrid, tiles: &Vec<Vec<u32>>, x: u32, y: u32) -> (r: u32)
    requires
        g.wf(),
        (g.width as int) * (g.height as int) <= usize::MAX,
        store_wf(*g, store_seq(*tiles)),
        x < g.width,
        y < g.height,
    ensures
        r == spec_live_neighbors(*g, store_seq(*tiles), x as int, y as int),
        r <= 8,
{
    let up = y > 0;
    let down = y + 1 < g.height;
    let left = x > 0;
    let right = x + 1 < g.width;
    let nw = left && up && store_get_cell(g, tiles, x - 1, y - 1);
    let nn = up && store_get_cell(g, tiles, x, y - 1);
    let ne = right && up && store_get_cell(g, tiles, x + 1, y - 1);
    let ww = left && store_get_cell(g, tiles, x - 1, y);
    let ee = right && store_get_cell(g, tiles, x + 1, y);
    let sw = left && down && store_get_cell(g, tiles, x - 1, y + 1);
    let ss = down && store_get_cell(g, tiles, x, y + 1);
    let se = right && down && store_get_cell(g, tiles, x + 1, y + 1);
    let ghost s = store_seq(*tiles);
    proof {
        assert(nw == spec_cell_or_dead(*g, s, x - 1, y - 1));
        assert(nn == spec_cell_or_dead(*g, s, x as int, y - 1));
        assert(ne == spec_cell_or_dead(*g, s, x + 1, y - 1));
        assert(ww == spec_cell_or_dead(*g, s, x - 1, y as int));
        assert(ee == spec_cell_or_dead(*g, s, x + 1, y as int));
        assert(sw == spec_cell_or_dead(*g, s, x - 1, y + 1));
        assert(ss == spec_cell_or_dead(*g, s, x as int, y + 1));
        assert(se == spec_cell_or_dead(*g, s, x + 1, y + 1));
    }
    let mut n: u32 = 0;
    if nw {
        n = n + 1;
    }
    if nn {
        n = n + 1;
    }
    if ne {
        n = n + 1;
    }
    if ww {
        n = n + 1;
    }
    if ee {
        n = n + 1;
    }
    if sw {
        n = n + 1;
    }
    if ss {
        n = n + 1;
    }
    if se {
        n = n + 1;
    }
    n
}


/// Global cell column of local column `lx` of tile `t`.
pub open spec fn spec_global_x(g: TileGrid, t: int, lx: int) -> int {
    (t % g.spec_grid_width()) * g.max_tile_dim + lx
}

/// Global cell row of local row `ly` of tile `t`.
pub open spec fn spec_global_y(g: TileGrid, t: int, ly: int) -> int {
    (t / g.spec_grid_width()) * g.max_tile_dim + ly
}

/// The bit the update pass writes at bit `b` of word column `wx`, cell row
/// `ly` of tile `t`: the next state of the cell packed there, or a clear
/// bit where the word overhangs the clipped tile width.
pub open spec fn spec_next_word_bit(
    g: TileGrid,
    s: Seq<Seq<u32>>,
    t: int,
    wx: int,
    ly: int,
    b: int,
) -> bool {
    let lx = wx * 32 + b;
    &&& lx < g.spec_tile_width(t % g.spec_grid_width())
    &&& spec_next_cell(g, s, spec_global_x(g, t, lx), spec_global_y(g, t, ly))
}

/// The first `upto` tiles of `ns` hold, bit for bit, the next generation of
/// store `s`.
pub open spec fn store_next_ok(g: TileGrid, s: Seq<Seq<u32>>, ns: Seq<Seq<u32>>, upto: int) -> bool {
    forall|t2: int, k: int, b: u32|
        0 <= t2 < upto && 0 <= k < spec_tile_words(g, t2) && b < 32 ==> #[trigger] get_bit(
            ns[t2][k],
            b,
        ) == spec_next_word_bit(
            g,
            s,
            t2,
            k % spec_words_per_row(g, t2 % g.spec_grid_width()),
            k / spec_words_per_row(g, t2 % g.spec_grid_width()),
            b as int,
        )
}

/// Setting bit `b` leaves every other bit of the word as it was.
proof fn lemma_bit_or_set(w: u32, b: u32, j: u32)
    by (bit_vector)
    requires
        b < 32,
        j < 32,
    ensures
        get_bit(w | (1u32 << b), j) == (j == b || get_bit(w, j)),
{
}

/// Computes the packed word of next-generation cells at word column `wx`,
/// cell row `ly` of tile `t`, reading the current generation from `tiles`.
#[verifier::loop_isolation(false)]
fn next_word(g: &TileGrid, tiles: &Vec<Vec<u32>>, t: u32, wx: u32, ly: u32) -> (r: u32)
    requires
        g.wf(),
        (g.width as int) * (g.height as int) <= usize::MAX,
        store_wf(*g, store_seq(*tiles)),
        t < g.spec_tile_count(),
        wx < spec_words_per_row(*g, (t as int) % g.spec_grid_width()),
        ly < g.spec_tile_height((t as int) / g.spec_grid_width()),
    ensures
        forall|b: u32|
            b < 32 ==> #[trigger] get_bit(r, b) == spec_next_word_bit(
                *g,
                store_seq(*tiles),
                t as int,
                wx as int,
                ly as int,
                b as int,
            ),
{
    proof {
        lemma_tile_split(*g, t as int);
        lemma_tile_dims_positive(*g, (t as int) % g.spec_grid_width(), (t as int) / g.spec_grid_width());
        lemma_div_ceil_basics(g.spec_tile_width((t as int) % g.spec_grid_width()), 32);
    }
    let gw = g.grid_width();
    let tx = t % gw;
    let tile_w = g.tile_width_at(tx);
    let mut word: u32 = 0;
    let mut b: u32 = 0;
    proof {
        assert forall|j: u32| j < 32 implies !(#[trigger] get_bit(0u32, j)) by {
            lemma_bit_of_zero(j);
        }
    }
    while b < 32
        invariant
            b <= 32,
            forall|j: u32|
                j < b ==> #[trigger] get_bit(word, j) == spec_next_word_bit(
                    *g,
                    store_seq(*tiles),
                    t as int,
                    wx as int,
                    ly as int,
                    j as int,
                ),
            forall|j: u32| b <= j < 32 ==> !(#[trigger] get_bit(word, j)),
        decreases 32 - b,
    {
        let lx64 = (wx as u64) * 32 + (b as u64);
        if lx64 < tile_w as u64 {
            let lx = lx64 as u32;
            let (gx, gy) = g.global_of_local(t, lx, ly);
            let alive = store_get_cell(g, tiles, gx, gy);
            let n = count_live_neighbors(g, tiles, gx, gy);
            if transition(alive, n) {
                let ghost wold = word;
                word = word | (1u32 << b);
                proof {
                    assert forall|j: u32| j < 32 implies #[trigger] get_bit(word, j) == (j == b
                        || get_bit(wold, j)) by {
                        lemma_bit_or_set(wold, b, j);
                    }
                }
            }
        }
        b = b + 1;
    }
    word
}

/// Computes a whole next-generation tile store from the current one.
#[verifier::loop_isolation(false)]
fn next_store(g: &TileGrid, tiles: &Vec<Vec<u32>>) -> (r: Vec<Vec<u32>>)
    requires
        g.wf(),
        (g.width as int) * (g.height as int) <= usize::MAX,
        store_wf(*g, store_seq(*tiles)),
    ensures
        store_wf(*g, store_seq(r)),
        forall|x: int, y: int|
            0 <= x < g.width && 0 <= y < g.height ==> spec_cell(*g, store_seq(r), x, y)
                == spec_next_cell(*g, store_seq(*tiles), x, y),
{
    let count = g.tile_count();
    let gw = g.grid_width();
    let mut new_store: Vec<Vec<u32>> = Vec::new();
    let mut t: u32 = 0;
    while t < count
        invariant
            t <= count,
            store_seq(new_store).len() == t,
            forall|t2: int|
                0 <= t2 < t ==> #[trigger] store_seq(new_store)[t2].len() == spec_tile_words(
                    *g,
                    t2,
                ),
            store_next_ok(*g, store_seq(*tiles), store_seq(new_store), t as int),
        decreases count - t,
    {
        proof {
            lemma_tile_split(*g, t as int);
            lemma_tile_dims_positive(
                *g,
                (t as int) % g.spec_grid_width(),
                (t as int) / g.spec_grid_width(),
            );
            lemma_tile_words_fit(*g, t as int);
        }
        let tx = t % gw;
        let ty = t / gw;
        let wrow = words_per_row_at(g, tx);
        let tile_h = g.tile_height_at(ty);
        let mut tile: Vec<u32> = Vec::new();
        let mut ly: u32 = 0;
        while ly < tile_h
            invariant
                ly <= tile_h,
                tile@.len() == (ly as int) * (wrow as int),
                forall|k: int, b: u32|
                    0 <= k < tile@.len() && b < 32 ==> #[trigger] get_bit(tile@[k], b)
                        == spec_next_word_bit(
                        *g,
                        store_seq(*tiles),
                        t as int,
                        k % (wrow as int),
                        k / (wrow as int),
                        b as int,
                    ),
            decreases tile_h - ly,
        {
            let mut wx: u32 = 0;
            while wx < wrow
                invariant
                    wx <= wrow,
                    tile@.len() == (ly as int) * (wrow as int) + wx,
                    ly < tile_h,
                    forall|k: int, b: u32|
                        0 <= k < tile@.len() && b < 32 ==> #[trigger] get_bit(tile@[k], b)
                            == spec_next_word_bit(
                            *g,
                            store_seq(*tiles),
                            t as int,
                            k % (wrow as int),
                            k / (wrow as int),
                            b as int,
                        ),
                decreases wrow - wx,
            {
                proof {
                    assert((ly as int) * (wrow as int) + wx + 1 <= (tile_h as int) * (wrow as int))
                        by (nonlinear_arith)
                        requires
                            0 <= ly,
                            (ly as int) < (tile_h as int),
                            0 <= wx < (wrow as int),
                    ;
                    assert((tile_h as int) * (wrow as int) == (wrow as int) * (tile_h as int))
                        by (nonlinear_arith);
                }
                let w = next_word(g, tiles, t, wx, ly);
                let ghost klen = tile@.len() as int;
                tile.push(w);
                proof {
                    vstd::arithmetic::div_mod::lemma_fundamental_div_mod_converse(
                        klen,
                        wrow as int,
                        ly as int,
                        wx as int,
                    );
                }
                wx = wx + 1;
            }
            proof {
                assert((ly as int) * (wrow as int) + (wrow as int) == ((ly as int) + 1) * (
                wrow as int)) by (nonlinear_arith);
            }
            ly = ly + 1;
        }
        let ghost prev = new_store;
        new_store.push(tile);
        proof {
            assert((tile_h as int) * (wrow as int) == (wrow as int) * (tile_h as int))
                by (nonlinear_arith);
            assert forall|t2: int| 0 <= t2 < t + 1 implies #[trigger] store_seq(new_store)[t2].len()
                == spec_tile_words(*g, t2) by {
                if t2 < t {
                    assert(store_seq(new_store)[t2] == store_seq(prev)[t2]);
                } else {
                    assert(new_store@[t2] == tile);
                    assert(store_seq(new_store)[t2] == tile@);
                }
            }
            assert forall|t2: int, k: int, b: u32|
                0 <= t2 < t + 1 && 0 <= k < spec_tile_words(*g, t2) && b < 32 implies #[trigger]
            get_bit(store_seq(new_store)[t2][k], b) == spec_next_word_bit(
                *g,
                store_seq(*tiles),
                t2,
                k % spec_words_per_row(*g, t2 % g.spec_grid_width()),
                k / spec_words_per_row(*g, t2 % g.spec_grid_width()),
                b as int,
            ) by {
                if t2 < t {
                    assert(store_seq(new_store)[t2] == store_seq(prev)[t2]);
                } else {
                    assert(new_store@[t2] == tile);
                    assert(store_seq(new_store)[t2] == tile@);
                }
            }
        }
        t = t + 1;
    }
    proof {
        lemma_next_store_cells(*g, store_seq(*tiles), store_seq(new_store));
    }
    new_store
}

/// If a store holds, word for word, the next generation of `s`, then cell
/// by cell it is the image of `s` under the transition rule.
proof fn lemma_next_store_cells(g: TileGrid, s: Seq<Seq<u32>>, ns: Seq<Seq<u32>>)
    requires
        g.wf(),
        store_wf(g, s),
        ns.len() == g.spec_tile_count(),
        forall|t2: int|
            0 <= t2 < ns.len() ==> #[trigger] ns[t2].len() == spec_tile_words(g, t2),
        store_next_ok(g, s, ns, g.spec_tile_count()),
    ensures
        forall|x: int, y: int|
            0 <= x < g.width && 0 <= y < g.height ==> spec_cell(g, ns, x, y) == spec_next_cell(
                g,
                s,
                x,
                y,
            ),
{
    assert forall|x: int, y: int| 0 <= x < g.width && 0 <= y < g.height implies spec_cell(g, ns, x, y)
        == spec_next_cell(g, s, x, y) by {
        lemma_tile_address(g, x, y);
        lemma_tile_index_split(g, x, y);
        let t = g.spec_tile_index(x, y);
        let lx = g.spec_local_x(x);
        let ly = g.spec_local_y(y);
        let wrow = spec_words_per_row(g, g.spec_tile_x(x));
        lemma_word_index_bounds(g, t, lx, ly);
        let k = ly * wrow + lx / 32;
        let b = (lx % 32) as u32;
        // Split the word index back into its cell row and word column.
        vstd::arithmetic::div_mod::lemma_fundamental_div_mod_converse(k, wrow, ly, lx / 32);
        assert(get_bit(ns[t][k], b) == spec_next_word_bit(g, s, t, lx / 32, ly, b as int));
        // The packed local column rebuilt from its word column and bit is
        // the local column itself.
        vstd::arithmetic::div_mod::lemma_fundamental_div_mod(lx, 32);
        assert((lx / 32) * 32 + b == lx);
        // The global coordinate rebuilt from the tile and local offset is
        // the cell itself.
        assert(spec_global_x(g, t, lx) == x && spec_global_y(g, t, ly) == y);
    }
}

impl World {
    /// Runs one update step: computes the next generation of the current
    /// tile store into the other store, then flips which one is current.
    /// The generation that was read survives untouched as the next write
    /// target; the compute pass never reads and writes the same store.
    pub fn update(&mut self)
        requires
            old(self).wf(),
        ensures
            final (self).wf(),
            final (self).spec_grid() == old(self).spec_grid(),
            final (self).spec_active() == spec_flip(old(self).spec_active()),
            final (self).store(old(self).spec_active()) == old(self).current(),
            forall|x: int, y: int|
                0 <= x < old(self).spec_grid().width && 0 <= y < old(self).spec_grid().height
                    ==> spec_cell(old(self).spec_grid(), final (self).current(), x, y)
                    == spec_next_cell(old(self).spec_grid(), old(self).current(), x, y),
    {
        if self.active {
            let ns = next_store(&self.grid, &self.gen_b);
            self.gen_a = ns;
        } else {
            let ns = next_store(&self.grid, &self.gen_a);
            self.gen_b = ns;
        }
        self.active = !self.active;
    }
}


/// One round of a xorshift bit mixer: exact, word-level, and the same in
/// specification and executable code.
pub open spec fn spec_xorshift64(x0: u64) -> u64 {
    let x1 = x0 ^ (x0 << 13);
    let x2 = x1 ^ (x1 >> 7);
    x2 ^ (x2 << 17)
}

fn xorshift64(x: u64) -> (r: u64)
    ensures
        r == spec_xorshift64(x),
{
    let x1 = x ^ (x << 13);
    let x2 = x1 ^ (x1 >> 7);
    x2 ^ (x2 << 17)
}

/// The packed word the seeding pass writes at word `k` of tile `t`: a
/// pseudo-random function of the seed and the word's position alone.
pub open spec fn spec_seed_word(seed: u64, t: u64, k: u64) -> u32 {
    let mixed = spec_xorshift64(spec_xorshift64((seed ^ (t << 32) ^ k) | 1));
    (mixed & 0xFFFF_FFFF) as u32
}

fn seed_word(seed: u64, t: u64, k: u64) -> (r: u32)
    ensures
        r == spec_seed_word(seed, t, k),
{
    let mixed = xorshift64(xorshift64((seed ^ (t << 32) ^ k) | 1));
    (mixed & 0xFFFF_FFFF) as u32
}

/// Every word of the store is the seeding function of its position.
pub open spec fn store_seeded(g: TileGrid, s: Seq<Seq<u32>>, seed: u64) -> bool {
    forall|t: int, k: int|
        0 <= t < s.len() && 0 <= k < s[t].len() ==> #[trigger] s[t][k] == spec_seed_word(
            seed,
            t as u64,
            k as u64,
        )
}

/// Builds the pseudo-random tile store for the given seed.
#[verifier::loop_isolation(false)]
fn seeded_store(g: &TileGrid, seed: u64) -> (r: Vec<Vec<u32>>)
    requires
        g.wf(),
        (g.width as int) * (g.height as int) <= usize::MAX,
    ensures
        store_wf(*g, store_seq(r)),
        store_seeded(*g, store_seq(r), seed),
{
    let count = g.tile_count();
    let mut store: Vec<Vec<u32>> = Vec::new();
    let mut t: u32 = 0;
    while t < count
        invariant
            t <= count,
            store_seq(store).len() == t,
            forall|t2: int|
                0 <= t2 < t ==> #[trigger] store_seq(store)[t2].len() == spec_tile_words(*g, t2),
            forall|t2: int, k2: int|
                0 <= t2 < t && 0 <= k2 < store_seq(store)[t2].len() ==> #[trigger] store_seq(
                    store,
                )[t2][k2] == spec_seed_word(seed, t2 as u64, k2 as u64),
        decreases count - t,
    {
        let words = tile_word_len(g, t);
        let mut tile: Vec<u32> = Vec::new();
        let mut k: usize = 0;
        while k < words
            invariant
                k <= words,
                tile@.len() == k,
                forall|i: int|
                    0 <= i < k ==> #[trigger] tile@[i] == spec_seed_word(seed, t as u64, i as u64),
            decreases words - k,
        {
            tile.push(seed_word(seed, t as u64, k as u64));
            k = k + 1;
        }
        let ghost prev = store;
        store.push(tile);
        proof {
            assert forall|t2: int| 0 <= t2 < t + 1 implies #[trigger] store_seq(store)[t2].len()
                == spec_tile_words(*g, t2) by {
                if t2 < t {
                    assert(store_seq(store)[t2] == store_seq(prev)[t2]);
                } else {
                    assert(store@[t2] == tile);
                    assert(store_seq(store)[t2] == tile@);
                }
            }
            assert forall|t2: int, k2: int|
                0 <= t2 < t + 1 && 0 <= k2 < store_seq(store)[t2].len() implies #[trigger]
            store_seq(store)[t2][k2] == spec_seed_word(seed, t2 as u64, k2 as u64) by {
                if t2 < t {
                    assert(store_seq(store)[t2] == store_seq(prev)[t2]);
                } else {
                    assert(store@[t2] == tile);
                    assert(store_seq(store)[t2] == tile@);
                }
            }
        }
        t = t + 1;
    }
    store
}

/// Number of live cells in the first `n` cells of row `y`.
pub open spec fn spec_count_row(g: TileGrid, s: Seq<Seq<u32>>, y: int, n: int) -> int
    decreases n,
{
    if n <= 0 {
        0
    } else {
        spec_count_row(g, s, y, n - 1) + b2i(spec_cell(g, s, n - 1, y))
    }
}

/// Number of live cells in the first `n` rows.
pub open spec fn spec_count_rows(g: TileGrid, s: Seq<Seq<u32>>, n: int) -> int
    decreases n,
{
    if n <= 0 {
        0
    } else {
        spec_count_rows(g, s, n - 1) + spec_count_row(g, s, n - 1, g.width as int)
    }
}

/// Total number of live cells of store `s`.
pub open spec fn spec_live_count(g: TileGrid, s: Seq<Seq<u32>>) -> int {
    spec_count_rows(g, s, g.height as int)
}

/// A row prefix holds between zero and `n` live cells.
proof fn lemma_count_row_bounds(g: TileGrid, s: Seq<Seq<u32>>, y: int, n: int)
    requires
        n >= 0,
    ensures
        0 <= spec_count_row(g, s, y, n) <= n,
    decreases n,
{
    if n > 0 {
        lemma_count_row_bounds(g, s, y, n - 1);
    }
}

/// A rows prefix holds between zero and `n * width` live cells.
proof fn lemma_count_rows_bounds(g: TileGrid, s: Seq<Seq<u32>>, n: int)
    requires
        n >= 0,
    ensures
        0 <= spec_count_rows(g, s, n) <= n * (g.width as int),
    decreases n,
{
    if n > 0 {
        lemma_count_rows_bounds(g, s, n - 1);
        lemma_count_row_bounds(g, s, n - 1, g.width as int);
        assert((n - 1) * (g.width as int) + (g.width as int) == n * (g.width as int))
            by (nonlinear_arith);
    } else {
        assert(n * (g.width as int) == 0) by (nonlinear_arith)
            requires
                n == 0,
        ;
    }
}

/// Counts the live cells of a whole tile store, cell by cell.
#[verifier::loop_isolation(false)]
fn store_live_count(g: &TileGrid, tiles: &Vec<Vec<u32>>) -> (r: u64)
    requires
        g.wf(),
        (g.width as int) * (g.height as int) <= usize::MAX,
        store_wf(*g, store_seq(*tiles)),
    ensures
        r == spec_live_count(*g, store_seq(*tiles)),
{
    let ghost s = store_seq(*tiles);
    let mut c: u64 = 0;
    let mut y: u32 = 0;
    while y < g.height
        invariant
            y <= g.height,
            c == spec_count_rows(*g, s, y as int),
        decreases g.height - y,
    {
        let mut x: u32 = 0;
        while x < g.width
            invariant
                x <= g.width,
                y < g.height,
                c == spec_count_rows(*g, s, y as int) + spec_count_row(*g, s, y as int, x as int),
            decreases g.width - x,
        {
            proof {
                lemma_count_rows_bounds(*g, s, y as int);
                lemma_count_row_bounds(*g, s, y as int, x as int);
                assert((y as int) * (g.width as int) + (g.width as int) <= (g.height as int) * (
                g.width as int)) by (nonlinear_arith)
                    requires
                        0 <= y < (g.height as int),
                ;
                assert((g.height as int) * (g.width as int) == (g.width as int) * (
                g.height as int)) by (nonlinear_arith);
                assert((g.width as int) * (g.height as int) < u64::MAX) by (nonlinear_arith)
                    requires
                        0 < (g.width as int) <= u32::MAX,
                        0 < (g.height as int) <= u32::MAX,
                ;
            }
            if store_get_cell(g, tiles, x, y) {
                c = c + 1;
            }
            x = x + 1;
        }
        y = y + 1;
    }
    c
}

impl World {
    /// Seeds the current generation with a pseudo-random pattern that is a
    /// function of the seed alone; the other generation is untouched.
    pub fn init(&mut self, seed: u64)
        requires
            old(self).wf(),
        ensures
            final (self).wf(),
            final (self).spec_grid() == old(self).spec_grid(),
            final (self).spec_active() == old(self).spec_active(),
            final (self).store(!old(self).spec_active()) == old(self).store(
                !old(self).spec_active(),
            ),
            store_seeded(final (self).spec_grid(), final (self).current(), seed),
    {
        let ns = seeded_store(&self.grid, seed);
        if self.active {
            self.gen_b = ns;
        } else {
            self.gen_a = ns;
        }
    }

    /// Reads one cell of the current generation.
    pub fn get_cell(&self, x: u32, y: u32) -> (r: bool)
        requires
            self.wf(),
            x < self.spec_grid().width,
            y < self.spec_grid().height,
        ensures
            r == spec_cell(self.spec_grid(), self.current(), x as int, y as int),
    {
        if self.active {
            store_get_cell(&self.grid, &self.gen_b, x, y)
        } else {
            store_get_cell(&self.grid, &self.gen_a, x, y)
        }
    }

    /// Number of live cells of the current generation.
    pub fn live_count(&self) -> (r: u64)
        requires
            self.wf(),
        ensures
            r == spec_live_count(self.spec_grid(), self.current()),
    {
        if self.active {
            store_live_count(&self.grid, &self.gen_b)
        } else {
            store_live_count(&self.grid, &self.gen_a)
        }
    }

    /// The grid geometry the world was built over.
    pub fn grid(&self) -> (r: TileGrid)
        ensures
            r == self.spec_grid(),
    {
        self.grid
    }
}


/// Clearing bit `b` leaves every other bit of the word as it was.
proof fn lemma_bit_clear(w: u32, b: u32, j: u32)
    by (bit_vector)
    requires
        b < 32,
        j < 32,
    ensures
        get_bit(w & !(1u32 << b), j) == (j != b && get_bit(w, j)),
{
}

/// Two distinct global cells never share tile, word and bit: the packed
/// addressing is injective.
pub proof fn lemma_cell_address_injective(g: TileGrid, x: int, y: int, x2: int, y2: int)
    requires
        g.wf(),
        0 <= x < g.width,
        0 <= y < g.height,
        0 <= x2 < g.width,
        0 <= y2 < g.height,
        g.spec_tile_index(x, y) == g.spec_tile_index(x2, y2),
        g.spec_local_y(y) * spec_words_per_row(g, g.spec_tile_x(x)) + g.spec_local_x(x) / 32
            == g.spec_local_y(y2) * spec_words_per_row(g, g.spec_tile_x(x2)) + g.spec_local_x(
            x2,
        ) / 32,
        g.spec_local_x(x) % 32 == g.spec_local_x(x2) % 32,
    ensures
        x == x2,
        y == y2,
{
    lemma_tile_address(g, x, y);
    lemma_tile_address(g, x2, y2);
    lemma_tile_index_split(g, x, y);
    lemma_tile_index_split(g, x2, y2);
    let t = g.spec_tile_index(x, y);
    lemma_word_index_bounds(g, t, g.spec_local_x(x), g.spec_local_y(y));
    lemma_word_index_bounds(g, t, g.spec_local_x(x2), g.spec_local_y(y2));
    let wrow = spec_words_per_row(g, g.spec_tile_x(x));
    let k = g.spec_local_y(y) * wrow + g.spec_local_x(x) / 32;
    // Same tile index means same tile column and row, hence the same word
    // stride; the word index then splits uniquely into cell row and word
    // column, and the bit recovers the cell column.
    assert(g.spec_tile_x(x) == g.spec_tile_x(x2) && g.spec_tile_y(y) == g.spec_tile_y(y2));
    vstd::arithmetic::div_mod::lemma_fundamental_div_mod_converse(
        k,
        wrow,
        g.spec_local_y(y),
        g.spec_local_x(x) / 32,
    );
    vstd::arithmetic::div_mod::lemma_fundamental_div_mod_converse(
        k,
        wrow,
        g.spec_local_y(y2),
        g.spec_local_x(x2) / 32,
    );
    vstd::arithmetic::div_mod::lemma_fundamental_div_mod(g.spec_local_x(x), 32);
    vstd::arithmetic::div_mod::lemma_fundamental_div_mod(g.spec_local_x(x2), 32);
}

/// Writes one cell of a tile store, leaving every other cell of every tile
/// untouched.
#[verifier::loop_isolation(false)]
fn store_set_cell(g: &TileGrid, tiles: &mut Vec<Vec<u32>>, x: u32, y: u32, alive: bool)
    requires
        g.wf(),
        (g.width as int) * (g.height as int) <= usize::MAX,
        store_wf(*g, store_seq(*old(tiles))),
        x < g.width,
        y < g.height,
    ensures
        store_wf(*g, store_seq(*final(tiles))),
        spec_cell(*g, store_seq(*final(tiles)), x as int, y as int) == alive,
        forall|x2: int, y2: int|
            0 <= x2 < g.width && 0 <= y2 < g.height && !(x2 == x as int && y2 == y as int)
                ==> spec_cell(*g, store_seq(*final(tiles)), x2, y2) == spec_cell(
                *g,
                store_seq(*old(tiles)),
                x2,
                y2,
            ),
{
    proof {
        lemma_tile_address(*g, x as int, y as int);
        lemma_tile_index_split(*g, x as int, y as int);
        lemma_word_index_bounds(
            *g,
            g.spec_tile_index(x as int, y as int),
            g.spec_local_x(x as int),
            g.spec_local_y(y as int),
        );
        lemma_tile_words_fit(*g, g.spec_tile_index(x as int, y as int));
        let ti = g.spec_tile_index(x as int, y as int);
        assert(store_seq(*tiles).len() == tiles@.len());
        assert(store_seq(*tiles)[ti] == tiles@[ti]@);
        assert(store_seq(*tiles)[ti].len() == spec_tile_words(*g, ti));
    }
    let t = g.tile_index(x, y);
    let (lx, ly) = g.local_offset(x, y);
    let tx = x / g.max_tile_dim;
    let wrow = words_per_row_at(g, tx);
    let widx: usize = (ly as usize) * (wrow as usize) + (lx / 32) as usize;
    let b = lx % 32;
    let tile = vstd::std_specs::vec::vec_index_mut(tiles, t as usize);
    let word = vstd::std_specs::vec::vec_index_mut(tile, widx);
    let ghost wold = *word;
    if alive {
        *word = *word | (1u32 << b);
    } else {
        *word = *word & !(1u32 << b);
    }
    proof {
        assert forall|j: u32| j < 32 implies #[trigger] get_bit(*word, j) == (if j == b {
            alive
        } else {
            get_bit(wold, j)
        }) by {
            if alive {
                lemma_bit_or_set(wold, b, j);
            } else {
                lemma_bit_clear(wold, b, j);
            }
        }
        let s_old = store_seq(*old(tiles));
        let s_new = store_seq(*tiles);
        let ti = t as int;
        let ki = widx as int;
        assert forall|t2: int| 0 <= t2 < s_new.len() implies #[trigger] s_new[t2]
            == (if t2 == ti {
            s_old[t2].update(ki, *word)
        } else {
            s_old[t2]
        }) by {
            if t2 == ti {
                assert(s_new[t2] =~= s_old[t2].update(ki, *word));
            } else {
                assert(s_new[t2] =~= s_old[t2]);
            }
        }
        assert forall|x2: int, y2: int|
            0 <= x2 < g.width && 0 <= y2 < g.height && !(x2 == x as int && y2 == y as int)
            implies spec_cell(*g, s_new, x2, y2) == spec_cell(*g, s_old, x2, y2) by {
            lemma_tile_address(*g, x2, y2);
            lemma_tile_index_split(*g, x2, y2);
            lemma_word_index_bounds(
                *g,
                g.spec_tile_index(x2, y2),
                g.spec_local_x(x2),
                g.spec_local_y(y2),
            );
            if g.spec_tile_index(x2, y2) == ti {
                let k2 = g.spec_local_y(y2) * spec_words_per_row(*g, g.spec_tile_x(x2))
                    + g.spec_local_x(x2) / 32;
                if k2 == ki {
                    // Same tile and word: by injectivity the bit must
                    // differ, and the untouched bits survive the write.
                    if g.spec_local_x(x2) % 32 == b as int {
                        lemma_cell_address_injective(*g, x as int, y as int, x2, y2);
                        assert(false);
                    }
                }
            }
        }
    }
}

impl World {
    /// Writes one cell of the current generation; every other cell of both
    /// generations is untouched.
    pub fn set_cell(&mut self, x: u32, y: u32, alive: bool)
        requires
            old(self).wf(),
            x < old(self).spec_grid().width,
            y < old(self).spec_grid().height,
        ensures
            final(self).wf(),
            final(self).spec_grid() == old(self).spec_grid(),
            final(self).spec_active() == old(self).spec_active(),
            final(self).store(!old(self).spec_active()) == old(self).store(
                !old(self).spec_active(),
            ),
            spec_cell(final(self).spec_grid(), final(self).current(), x as int, y as int)
                == alive,
            forall|x2: int, y2: int|
                0 <= x2 < old(self).spec_grid().width && 0 <= y2 < old(self).spec_grid().height
                    && !(x2 == x as int && y2 == y as int) ==> spec_cell(
                    old(self).spec_grid(),
                    final(self).current(),
                    x2,
                    y2,
                ) == spec_cell(old(self).spec_grid(), old(self).current(), x2, y2),
    {
        let g = self.grid;
        if self.active {
            store_set_cell(&g, &mut self.gen_b, x, y, alive);
        } else {
            store_set_cell(&g, &mut self.gen_a, x, y, alive);
        }
    }
}

/// Every bit of the zero word is clear.
pub proof fn lemma_bit_of_zero(b: u32)
    by (bit_vector)
    requires
        b < 32,
    ensures
        !get_bit(0u32, b),
{
}

} // verus!
