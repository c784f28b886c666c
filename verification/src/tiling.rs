//! Tile-grid geometry and addressing.
//!
//! A logical grid of `width x height` cells is split into a row-major grid of
//! tiles, each at most `max_tile_dim` cells on a side; tiles at the right and
//! bottom edges are clipped to the remainder.  The tiles cover the logical
//! grid exactly, and mapping a global cell coordinate to a tile index plus
//! local offset and back recovers the coordinate.

use vstd::prelude::*;

verus! {

/// Ceiling division on mathematical integers, for a positive divisor.
pub open spec fn div_ceil_spec(a: int, b: int) -> int
    recommends
        b > 0,
{
    if a % b == 0 {
        a / b
    } else {
        a / b + 1
    }
}

/// The facts about ceiling division that the grid geometry rests on: the
/// quotient is at least one and at most `a`, `div_ceil_spec(a, b)` tiles of
/// size `b` reach past `a`, and one tile fewer falls short of it.
pub proof fn lemma_div_ceil_basics(a: int, b: int)
    requires
        a > 0,
        b > 0,
    ensures
        1 <= div_ceil_spec(a, b) <= a,
        div_ceil_spec(a, b) * b >= a,
        (div_ceil_spec(a, b) - 1) * b < a,
{
    vstd::arithmetic::div_mod::lemma_fundamental_div_mod(a, b);
    vstd::arithmetic::div_mod::lemma_mod_bound(a, b);
    vstd::arithmetic::div_mod::lemma_div_pos_is_pos(a, b);

    let q = a / b;
    let r = a % b;
    assert(a == b * q + r);
    assert(q * b == b * q) by (nonlinear_arith);
    assert(0 <= r < b);
    assert(q >= 0);
    assert(q <= q * b || q * b + b <= q * b + r) by (nonlinear_arith)
        requires
            q >= 0,
            b > 0,
            r >= 0,
    ;
    assert(q * b + b > q * b + r);
    assert((q + 1) * b == q * b + b) by (nonlinear_arith);
    assert((q - 1) * b == q * b - b) by (nonlinear_arith);
    if r == 0 {
        assert(q * b == a);
        assert(q > 0) by (nonlinear_arith)
            requires
                q * b == a,
                a > 0,
                b > 0,
        ;
        assert(q <= q * b) by (nonlinear_arith)
            requires
                q > 0,
                b > 0,
        ;
    } else {
        assert(q * b == a - r);
        assert(q <= q * b) by (nonlinear_arith)
            requires
                q >= 0,
                b > 0,
        ;
    }
}

/// Geometry of a tile grid: the logical dimensions in cells and the maximum
/// tile side length, from which every other quantity is derived.
#[derive(Clone, Copy, PartialEq, Eq, Structural, Debug)]
pub struct TileGrid {
    pub width: u32,
    pub height: u32,
    pub max_tile_dim: u32,
}

impl TileGrid {
    /// The geometry is meaningful: no dimension is zero, and the tile count
    /// fits the machine word used to index tiles.
    pub open spec fn wf(self) -> bool {
        &&& self.width > 0
        &&& self.height > 0
        &&& self.max_tile_dim > 0
        &&& self.spec_grid_width() * self.spec_grid_height() <= u32::MAX
    }

    /// Number of tiles across.
    pub open spec fn spec_grid_width(self) -> int {
        div_ceil_spec(self.width as int, self.max_tile_dim as int)
    }

    /// Number of tile rows.
    pub open spec fn spec_grid_height(self) -> int {
        div_ceil_spec(self.height as int, self.max_tile_dim as int)
    }

    /// Total number of tiles, row-major.
    pub open spec fn spec_tile_count(self) -> int {
        self.spec_grid_width() * self.spec_grid_height()
    }

    /// Width in cells of the tiles in tile column `tx`: the full
    /// `max_tile_dim` everywhere but possibly the last column, which keeps
    /// the remainder.
    pub open spec fn spec_tile_width(self, tx: int) -> int
        recommends
            0 <= tx < self.spec_grid_width(),
    {
        if self.width - tx * self.max_tile_dim < self.max_tile_dim {
            self.width - tx * self.max_tile_dim
        } else {
            self.max_tile_dim as int
        }
    }

    /// Height in cells of the tiles in tile row `ty`.
    pub open spec fn spec_tile_height(self, ty: int) -> int
        recommends
            0 <= ty < self.spec_grid_height(),
    {
        if self.height - ty * self.max_tile_dim < self.max_tile_dim {
            self.height - ty * self.max_tile_dim
        } else {
            self.max_tile_dim as int
        }
    }

    pub fn new(width: u32, height: u32, max_tile_dim: u32) -> (r: TileGrid)
        requires
            width > 0,
            height > 0,
            max_tile_dim > 0,
            div_ceil_spec(width as int, max_tile_dim as int) * div_ceil_spec(
                height as int,
                max_tile_dim as int,
            ) <= u32::MAX,
        ensures
            r.wf(),
            r.width == width,
            r.height == height,
            r.max_tile_dim == max_tile_dim,
    {
        TileGrid { width, height, max_tile_dim }
    }


    /// Builds the grid only when the geometry is meaningful on this
    /// machine: every dimension positive and the tile count within the
    /// 32-bit index range.  Returns `None` exactly otherwise.
    pub fn try_new(width: u32, height: u32, max_tile_dim: u32) -> (r: Option<TileGrid>)
        ensures
            r is Some <==> (width > 0 && height > 0 && max_tile_dim > 0 && div_ceil_spec(
                width as int,
                max_tile_dim as int,
            ) * div_ceil_spec(height as int, max_tile_dim as int) <= u32::MAX),
            r is Some ==> r->Some_0 == (TileGrid { width, height, max_tile_dim })
                && r->Some_0.wf(),
    {
        if width == 0 || height == 0 || max_tile_dim == 0 {
            return None;
        }
        proof {
            lemma_div_ceil_basics(width as int, max_tile_dim as int);
            lemma_div_ceil_basics(height as int, max_tile_dim as int);
        }
        let gw = (width / max_tile_dim) as u64 + if width % max_tile_dim == 0 {
            0
        } else {
            1
        };
        let gh = (height / max_tile_dim) as u64 + if height % max_tile_dim == 0 {
            0
        } else {
            1
        };
        proof {
            assert(gw * gh <= (width as int) * (height as int)) by (nonlinear_arith)
                requires
                    1 <= gw <= width,
                    1 <= gh <= height,
            ;
            assert((width as int) * (height as int) <= 0xFFFF_FFFF * 0xFFFF_FFFF)
                by (nonlinear_arith)
                requires
                    width <= 0xFFFF_FFFFu32,
                    height <= 0xFFFF_FFFFu32,
                    0 < width,
                    0 < height,
            ;
        }
        let count = gw * gh;
        if count <= u32::MAX as u64 {
            Some(TileGrid { width, height, max_tile_dim })
        } else {
            None
        }
    }

    /// Number of tiles across, computed without overflow.
    pub fn grid_width(&self) -> (r: u32)
        requires
            self.wf(),
        ensures
            r == self.spec_grid_width(),
    {
        proof {
            lemma_div_ceil_basics(self.width as int, self.max_tile_dim as int);
        }
        let q = self.width / self.max_tile_dim;
        if self.width % self.max_tile_dim == 0 {
            q
        } else {
            q + 1
        }
    }

    /// Number of tile rows.
    pub fn grid_height(&self) -> (r: u32)
        requires
            self.wf(),
        ensures
            r == self.spec_grid_height(),
    {
        proof {
            lemma_div_ceil_basics(self.height as int, self.max_tile_dim as int);
        }
        let q = self.height / self.max_tile_dim;
        if self.height % self.max_tile_dim == 0 {
            q
        } else {
            q + 1
        }
    }

    /// Total tile count of one generation.
    pub fn tile_count(&self) -> (r: u32)
        requires
            self.wf(),
        ensures
            r == self.spec_tile_count(),
    {
        proof {
            lemma_div_ceil_basics(self.width as int, self.max_tile_dim as int);
            lemma_div_ceil_basics(self.height as int, self.max_tile_dim as int);
            assert(self.spec_grid_width() * self.spec_grid_height() >= 0) by (nonlinear_arith)
                requires
                    self.spec_grid_width() >= 0,
                    self.spec_grid_height() >= 0,
            ;
        }
        self.grid_width() * self.grid_height()
    }

    /// Width in cells of the tiles in tile column `tx`.
    pub fn tile_width_at(&self, tx: u32) -> (r: u32)
        requires
            self.wf(),
            tx < self.spec_grid_width(),
        ensures
            r == self.spec_tile_width(tx as int),
            1 <= r <= self.max_tile_dim,
    {
        proof {
            lemma_div_ceil_basics(self.height as int, self.max_tile_dim as int);
            lemma_tile_dims_positive(*self, tx as int, 0);
        }
        let start = tx * self.max_tile_dim;
        let rest = self.width - start;
        if rest < self.max_tile_dim {
            rest
        } else {
            self.max_tile_dim
        }
    }

    /// Height in cells of the tiles in tile row `ty`.
    pub fn tile_height_at(&self, ty: u32) -> (r: u32)
        requires
            self.wf(),
            ty < self.spec_grid_height(),
        ensures
            r == self.spec_tile_height(ty as int),
            1 <= r <= self.max_tile_dim,
    {
        proof {
            lemma_div_ceil_basics(self.width as int, self.max_tile_dim as int);
            lemma_tile_dims_positive(*self, 0, ty as int);
        }
        let start = ty * self.max_tile_dim;
        let rest = self.height - start;
        if rest < self.max_tile_dim {
            rest
        } else {
            self.max_tile_dim
        }
    }
}

/// Sum of the widths of the first `n` tile columns.
pub open spec fn row_widths_sum(g: TileGrid, n: int) -> int
    decreases n,
{
    if n <= 0 {
        0
    } else {
        row_widths_sum(g, n - 1) + g.spec_tile_width(n - 1)
    }
}

/// Sum of the heights of the first `n` tile rows.
pub open spec fn col_heights_sum(g: TileGrid, n: int) -> int
    decreases n,
{
    if n <= 0 {
        0
    } else {
        col_heights_sum(g, n - 1) + g.spec_tile_height(n - 1)
    }
}

/// Every tile column short of the last is a full `max_tile_dim` wide, so the
/// first `n` columns span exactly `n * max_tile_dim` cells.
proof fn lemma_row_sum_full(g: TileGrid, n: int)
    requires
        g.width > 0,
        g.max_tile_dim > 0,
        0 <= n <= g.spec_grid_width() - 1,
    ensures
        row_widths_sum(g, n) == n * g.max_tile_dim,
    decreases n,
{
    let m = g.max_tile_dim as int;
    lemma_div_ceil_basics(g.width as int, m);
    if n > 0 {
        lemma_row_sum_full(g, n - 1);
        let gw = g.spec_grid_width();
        assert((n - 1) * m + m <= (gw - 1) * m) by (nonlinear_arith)
            requires
                n <= gw - 1,
                m > 0,
        ;
        assert(g.spec_tile_width(n - 1) == m);
        assert((n - 1) * m + m == n * m) by (nonlinear_arith);
    } else {
        assert(n * m == 0) by (nonlinear_arith)
            requires
                n == 0,
        ;
    }
}

proof fn lemma_col_sum_full(g: TileGrid, n: int)
    requires
        g.height > 0,
        g.max_tile_dim > 0,
        0 <= n <= g.spec_grid_height() - 1,
    ensures
        col_heights_sum(g, n) == n * g.max_tile_dim,
    decreases n,
{
    let m = g.max_tile_dim as int;
    lemma_div_ceil_basics(g.height as int, m);
    if n > 0 {
        lemma_col_sum_full(g, n - 1);
        let gh = g.spec_grid_height();
        assert((n - 1) * m + m <= (gh - 1) * m) by (nonlinear_arith)
            requires
                n <= gh - 1,
                m > 0,
        ;
        assert(g.spec_tile_height(n - 1) == m);
        assert((n - 1) * m + m == n * m) by (nonlinear_arith);
    } else {
        assert(n * m == 0) by (nonlinear_arith)
            requires
                n == 0,
        ;
    }
}

/// The tile grid covers the logical area exactly once: the tile widths of one
/// row of tiles sum to the logical width, the tile heights of one column sum
/// to the logical height, and the tile count is the product of the two
/// ceiling divisions.
pub proof fn lemma_tiles_cover_grid(g: TileGrid)
    requires
        g.width > 0,
        g.height > 0,
        g.max_tile_dim > 0,
    ensures
        row_widths_sum(g, g.spec_grid_width()) == g.width,
        col_heights_sum(g, g.spec_grid_height()) == g.height,
        g.spec_tile_count() == div_ceil_spec(g.width as int, g.max_tile_dim as int)
            * div_ceil_spec(g.height as int, g.max_tile_dim as int),
{
    let m = g.max_tile_dim as int;
    let gw = g.spec_grid_width();
    let gh = g.spec_grid_height();
    lemma_div_ceil_basics(g.width as int, m);
    lemma_div_ceil_basics(g.height as int, m);
    lemma_row_sum_full(g, gw - 1);
    lemma_col_sum_full(g, gh - 1);
    assert((gw - 1) * m == gw * m - m) by (nonlinear_arith);
    assert((gh - 1) * m == gh * m - m) by (nonlinear_arith);
    assert(g.width - (gw - 1) * m <= m);
    assert(g.spec_tile_width(gw - 1) == g.width - (gw - 1) * m);
    assert(g.height - (gh - 1) * m <= m);
    assert(g.spec_tile_height(gh - 1) == g.height - (gh - 1) * m);
}

impl TileGrid {
    /// Tile column holding global cell column `x`.
    pub open spec fn spec_tile_x(self, x: int) -> int {
        x / (self.max_tile_dim as int)
    }

    /// Tile row holding global cell row `y`.
    pub open spec fn spec_tile_y(self, y: int) -> int {
        y / (self.max_tile_dim as int)
    }

    /// Row-major index of the tile holding global cell `(x, y)`.
    pub open spec fn spec_tile_index(self, x: int, y: int) -> int {
        self.spec_tile_y(y) * self.spec_grid_width() + self.spec_tile_x(x)
    }

    /// Cell column within its tile.
    pub open spec fn spec_local_x(self, x: int) -> int {
        x % (self.max_tile_dim as int)
    }

    /// Cell row within its tile.
    pub open spec fn spec_local_y(self, y: int) -> int {
        y % (self.max_tile_dim as int)
    }

    /// Row-major index of the tile holding global cell `(x, y)`.
    pub fn tile_index(&self, x: u32, y: u32) -> (r: u32)
        requires
            self.wf(),
            x < self.width,
            y < self.height,
        ensures
            r == self.spec_tile_index(x as int, y as int),
            r < self.spec_tile_count(),
    {
        proof {
            lemma_tile_address(*self, x as int, y as int);
        }
        (y / self.max_tile_dim) * self.grid_width() + x / self.max_tile_dim
    }

    /// Offset of global cell `(x, y)` within its tile.
    pub fn local_offset(&self, x: u32, y: u32) -> (r: (u32, u32))
        requires
            self.wf(),
            x < self.width,
            y < self.height,
        ensures
            r.0 == self.spec_local_x(x as int),
            r.1 == self.spec_local_y(y as int),
            r.0 < self.spec_tile_width(self.spec_tile_x(x as int)),
            r.1 < self.spec_tile_height(self.spec_tile_y(y as int)),
    {
        proof {
            lemma_tile_address(*self, x as int, y as int);
        }
        (x % self.max_tile_dim, y % self.max_tile_dim)
    }

    /// Global coordinate of the cell at `(lx, ly)` within tile `t`.
    pub fn global_of_local(&self, t: u32, lx: u32, ly: u32) -> (r: (u32, u32))
        requires
            self.wf(),
            t < self.spec_tile_count(),
            lx < self.spec_tile_width((t as int) % self.spec_grid_width()),
            ly < self.spec_tile_height((t as int) / self.spec_grid_width()),
        ensures
            r.0 < self.width,
            r.1 < self.height,
            r.0 == ((t as int) % self.spec_grid_width()) * self.max_tile_dim + lx,
            r.1 == ((t as int) / self.spec_grid_width()) * self.max_tile_dim + ly,
            self.spec_tile_index(r.0 as int, r.1 as int) == t,
            self.spec_local_x(r.0 as int) == lx,
            self.spec_local_y(r.1 as int) == ly,
    {
        proof {
            lemma_tile_round_trip(*self, t as int, lx as int, ly as int);
        }
        let gw = self.grid_width();
        let tx = t % gw;
        let ty = t / gw;
        (tx * self.max_tile_dim + lx, ty * self.max_tile_dim + ly)
    }
}

/// Addressing a global cell is sound: the tile index is in range, and the
/// local offset stays within the (possibly clipped) bounds of that tile.
/// Together with `lemma_tile_round_trip` this says the tiles partition the
/// grid with no gaps and no overlaps.
pub proof fn lemma_tile_address(g: TileGrid, x: int, y: int)
    requires
        g.wf(),
        0 <= x < g.width,
        0 <= y < g.height,
    ensures
        0 <= g.spec_tile_x(x) < g.spec_grid_width(),
        0 <= g.spec_tile_y(y) < g.spec_grid_height(),
        0 <= g.spec_tile_index(x, y) < g.spec_tile_count(),
        0 <= g.spec_local_x(x) < g.spec_tile_width(g.spec_tile_x(x)),
        0 <= g.spec_local_y(y) < g.spec_tile_height(g.spec_tile_y(y)),
        g.spec_tile_x(x) * g.max_tile_dim + g.spec_local_x(x) == x,
        g.spec_tile_y(y) * g.max_tile_dim + g.spec_local_y(y) == y,
{
    let m = g.max_tile_dim as int;
    let gw = g.spec_grid_width();
    let gh = g.spec_grid_height();
    let tx = g.spec_tile_x(x);
    let ty = g.spec_tile_y(y);
    lemma_div_ceil_basics(g.width as int, m);
    lemma_div_ceil_basics(g.height as int, m);
    vstd::arithmetic::div_mod::lemma_fundamental_div_mod(x, m);
    vstd::arithmetic::div_mod::lemma_fundamental_div_mod(y, m);
    vstd::arithmetic::div_mod::lemma_mod_bound(x, m);
    vstd::arithmetic::div_mod::lemma_mod_bound(y, m);
    vstd::arithmetic::div_mod::lemma_div_pos_is_pos(x, m);
    vstd::arithmetic::div_mod::lemma_div_pos_is_pos(y, m);
    assert(m * tx == tx * m && m * ty == ty * m) by (nonlinear_arith);
    // The tile coordinate is in range: x < width <= gw * m forces x / m < gw.
    assert(tx < gw) by (nonlinear_arith)
        requires
            tx * m + g.spec_local_x(x) == x,
            0 <= g.spec_local_x(x),
            x < g.width,
            g.width <= gw * m,
            m > 0,
    ;
    assert(ty < gh) by (nonlinear_arith)
        requires
            ty * m + g.spec_local_y(y) == y,
            0 <= g.spec_local_y(y),
            y < g.height,
            g.height <= gh * m,
            m > 0,
    ;
    // Row-major tile index bound.
    assert(ty * gw + tx < gh * gw) by (nonlinear_arith)
        requires
            0 <= tx < gw,
            0 <= ty < gh,
    ;
    assert(gh * gw == gw * gh) by (nonlinear_arith);
    // The local offset respects the clipped tile width: x < width gives
    // local_x == x - tx * m < width - tx * m.
    assert(g.spec_local_x(x) < g.spec_tile_width(tx));
    assert(g.spec_local_y(y) < g.spec_tile_height(ty));
}

/// Mapping back from a tile index and a local offset recovers the global
/// cell: the round trip is the identity, and no local coordinate escapes its
/// tile.
pub proof fn lemma_tile_round_trip(g: TileGrid, t: int, lx: int, ly: int)
    requires
        g.wf(),
        0 <= t < g.spec_tile_count(),
        0 <= lx < g.spec_tile_width(t % g.spec_grid_width()),
        0 <= ly < g.spec_tile_height(t / g.spec_grid_width()),
    ensures
        0 <= (t % g.spec_grid_width()) * g.max_tile_dim + lx < g.width,
        0 <= (t / g.spec_grid_width()) * g.max_tile_dim + ly < g.height,
        g.spec_tile_index(
            (t % g.spec_grid_width()) * g.max_tile_dim + lx,
            (t / g.spec_grid_width()) * g.max_tile_dim + ly,
        ) == t,
        g.spec_local_x((t % g.spec_grid_width()) * g.max_tile_dim + lx) == lx,
        g.spec_local_y((t / g.spec_grid_width()) * g.max_tile_dim + ly) == ly,
{
    let m = g.max_tile_dim as int;
    let gw = g.spec_grid_width();
    let gh = g.spec_grid_height();
    lemma_div_ceil_basics(g.width as int, m);
    lemma_div_ceil_basics(g.height as int, m);
    vstd::arithmetic::div_mod::lemma_fundamental_div_mod(t, gw);
    vstd::arithmetic::div_mod::lemma_mod_bound(t, gw);
    vstd::arithmetic::div_mod::lemma_div_pos_is_pos(t, gw);
    let tx = t % gw;
    let ty = t / gw;
    // The tile row is in range because t < gw * gh.
    assert(ty < gh) by (nonlinear_arith)
        requires
            gw * ty + tx == t,
            0 <= tx,
            t < g.spec_tile_count(),
            g.spec_tile_count() == gw * gh,
            gw > 0,
    ;
    let x = tx * m + lx;
    let y = ty * m + ly;
    lemma_tile_dims_positive(g, tx, ty);
    // The rebuilt coordinates stay inside the grid: the local offset is
    // bounded by the clipped tile size.
    assert(x < g.width && y < g.height);
    assert(x >= 0 && y >= 0) by (nonlinear_arith)
        requires
            0 <= tx,
            0 <= ty,
            m > 0,
            0 <= lx,
            0 <= ly,
            x == tx * m + lx,
            y == ty * m + ly,
    ;
    // Dividing the rebuilt coordinate by the tile size recovers the tile
    // coordinate and local offset.
    vstd::arithmetic::div_mod::lemma_fundamental_div_mod_converse(x, m, tx, lx);
    vstd::arithmetic::div_mod::lemma_fundamental_div_mod_converse(y, m, ty, ly);
    assert(m * tx == tx * m && m * ty == ty * m) by (nonlinear_arith);
    assert(g.spec_tile_x(x) == tx && g.spec_local_x(x) == lx);
    assert(g.spec_tile_y(y) == ty && g.spec_local_y(y) == ly);
    assert(g.spec_tile_index(x, y) == ty * gw + tx);
    assert(ty * gw + tx == gw * ty + tx) by (nonlinear_arith);
}

/// The three quantities a shader program needs to recompute the host-side
/// tile addressing: the tile stride, the number of tiles across, and the
/// total tile count (the length of the bound texture array).
#[derive(Clone, Copy, PartialEq, Eq, Structural, Debug)]
pub struct ShaderDefs {
    pub tile_size: u32,
    pub grid_width: u32,
    pub grid_length: u32,
}

impl TileGrid {
    /// The tile stride exported to shaders: the larger side of the first
    /// tile.  Equal to `max_tile_dim` unless the whole grid is one tile.
    pub open spec fn spec_shader_tile_size(self) -> int {
        let w0 = self.spec_tile_width(0);
        let h0 = self.spec_tile_height(0);
        if w0 >= h0 {
            w0
        } else {
            h0
        }
    }

    /// The addressing parameters handed to the compute and fragment shader
    /// programs as compile-time definitions.
    pub fn shader_defs(&self) -> (r: ShaderDefs)
        requires
            self.wf(),
        ensures
            r.tile_size == self.spec_shader_tile_size(),
            r.grid_width == self.spec_grid_width(),
            r.grid_length == self.spec_tile_count(),
    {
        proof {
            lemma_div_ceil_basics(self.width as int, self.max_tile_dim as int);
            lemma_div_ceil_basics(self.height as int, self.max_tile_dim as int);
        }
        let w0 = self.tile_width_at(0);
        let h0 = self.tile_height_at(0);
        let tile_size = if w0 >= h0 {
            w0
        } else {
            h0
        };
        ShaderDefs { tile_size, grid_width: self.grid_width(), grid_length: self.tile_count() }
    }
}

/// Shader-side addressing built from the exported definitions agrees with
/// the host-side addressing cell for cell: dividing a global coordinate by
/// the exported tile stride yields the same tile index and local offset as
/// dividing by `max_tile_dim`.
pub proof fn lemma_shader_defs_consistent(g: TileGrid, x: int, y: int)
    requires
        g.wf(),
        0 <= x < g.width,
        0 <= y < g.height,
    ensures
        (y / g.spec_shader_tile_size()) * g.spec_grid_width() + x / g.spec_shader_tile_size()
            == g.spec_tile_index(x, y),
        x % g.spec_shader_tile_size() == g.spec_local_x(x),
        y % g.spec_shader_tile_size() == g.spec_local_y(y),
{
    let m = g.max_tile_dim as int;
    let ts = g.spec_shader_tile_size();
    lemma_div_ceil_basics(g.width as int, m);
    lemma_div_ceil_basics(g.height as int, m);
    lemma_tile_dims_positive(g, 0, 0);
    if g.width >= m || g.height >= m {
        assert(ts == m);
    } else {
        // The grid is a single tile: both divisors exceed the coordinate,
        // so every division is zero and every remainder is the coordinate.
        assert(g.spec_tile_width(0) == g.width && g.spec_tile_height(0) == g.height);
        assert(x < ts && y < ts && x < m && y < m);
        vstd::arithmetic::div_mod::lemma_basic_div(x, ts);
        vstd::arithmetic::div_mod::lemma_basic_div(y, ts);
        vstd::arithmetic::div_mod::lemma_basic_div(x, m);
        vstd::arithmetic::div_mod::lemma_basic_div(y, m);
        vstd::arithmetic::div_mod::lemma_small_mod(x as nat, ts as nat);
        vstd::arithmetic::div_mod::lemma_small_mod(y as nat, ts as nat);
        vstd::arithmetic::div_mod::lemma_small_mod(x as nat, m as nat);
        vstd::arithmetic::div_mod::lemma_small_mod(y as nat, m as nat);
    }
}

/// Number of compute workgroups needed to span `size` invocations at eight
/// invocations per workgroup per axis.
pub fn dispatch_dim(size: u32) -> (r: u32)
    ensures
        r == div_ceil_spec(size as int, 8),
        8 * r >= size,
{
    proof {
        if size > 0 {
            lemma_div_ceil_basics(size as int, 8);
            assert(div_ceil_spec(size as int, 8) * 8 == 8 * div_ceil_spec(size as int, 8))
                by (nonlinear_arith);
        }
    }
    size / 8 + if size % 8 == 0 {
        0
    } else {
        1
    }
}

/// Every tile in range has a positive size no larger than `max_tile_dim`,
/// and its origin lies inside the logical grid.
pub proof fn lemma_tile_dims_positive(g: TileGrid, tx: int, ty: int)
    requires
        g.width > 0,
        g.height > 0,
        g.max_tile_dim > 0,
        0 <= tx < g.spec_grid_width(),
        0 <= ty < g.spec_grid_height(),
    ensures
        0 <= tx * g.max_tile_dim < g.width,
        0 <= ty * g.max_tile_dim < g.height,
        1 <= g.spec_tile_width(tx) <= g.max_tile_dim,
        1 <= g.spec_tile_height(ty) <= g.max_tile_dim,
{
    let m = g.max_tile_dim as int;
    lemma_div_ceil_basics(g.width as int, m);
    lemma_div_ceil_basics(g.height as int, m);
    let gw = g.spec_grid_width();
    let gh = g.spec_grid_height();
    assert(tx * m <= (gw - 1) * m && ty * m <= (gh - 1) * m) by (nonlinear_arith)
        requires
            tx <= gw - 1,
            ty <= gh - 1,
            m > 0,
            0 <= tx,
            0 <= ty,
    ;
    assert(tx * m >= 0 && ty * m >= 0) by (nonlinear_arith)
        requires
            0 <= tx,
            0 <= ty,
            m > 0,
    ;
}

} // verus!
