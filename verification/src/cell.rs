//! Grid cells: a cell is a fixed-size square region of the plane keyed by the
//! integer pair `(floor(x / size), floor(y / size))`, and a player's area of
//! interest is the rectangle of cells within the configured radii of its own
//! cell, clipped to the world bounds.

use vstd::prelude::*;

verus! {

/// Default cell edge length.
pub const L: i32 = 20;

/// Default world bound on cell x coordinates: cells 0 ..= H are inside.
pub const H: i32 = 200;

/// Default world bound on cell y coordinates: cells 0 ..= V are inside.
pub const V: i32 = 200;

/// Default AOI radius along x, in cells.
pub const AOI_H_SIDE: i32 = 10;

/// Default AOI radius along y, in cells.
pub const AOI_V_SIDE: i32 = 10;

/// Integer key of one grid cell.
#[derive(Clone, Copy, PartialEq, Eq, Structural, Debug, Hash)]
pub struct CellId {
    pub x: i32,
    pub y: i32,
}

/// Fixed parameters of one world: the cell edge length, the world bounds on
/// cell coordinates (cells `0 ..= max_x` by `0 ..= max_y` are inside), and the
/// AOI radii in cells.
#[derive(Clone, Copy, PartialEq, Eq, Structural, Debug)]
pub struct WorldConfig {
    pub cell_size: i32,
    pub max_x: i32,
    pub max_y: i32,
    pub h: i32,
    pub v: i32,
}

impl WorldConfig {
    /// A usable configuration: cells have positive area, bounds and radii are
    /// not negative.
    pub open spec fn wf(self) -> bool {
        &&& self.cell_size >= 1
        &&& self.max_x >= 0
        &&& self.max_y >= 0
        &&& self.h >= 0
        &&& self.v >= 0
    }

    pub fn new(cell_size: i32, max_x: i32, max_y: i32, h: i32, v: i32) -> (cfg: WorldConfig)
        requires
            cell_size >= 1,
            max_x >= 0,
            max_y >= 0,
            h >= 0,
            v >= 0,
        ensures
            cfg == (WorldConfig { cell_size, max_x, max_y, h, v }),
            cfg.wf(),
    {
        WorldConfig { cell_size, max_x, max_y, h, v }
    }
}

impl Default for WorldConfig {
    /// The stock configuration: 20-unit cells, a world of 200 cells each
    /// way, and a 10-cell AOI radius on both axes.
    fn default() -> (cfg: WorldConfig)
        ensures
            cfg == (WorldConfig { cell_size: L, max_x: H, max_y: V, h: AOI_H_SIDE, v: AOI_V_SIDE }),
            cfg.wf(),
    {
        WorldConfig { cell_size: L, max_x: H, max_y: V, h: AOI_H_SIDE, v: AOI_V_SIDE }
    }
}

/// Mathematical cell coordinate of a position coordinate: the floor of
/// `p / size`. In specification code `/` is Euclidean division, which for a
/// positive divisor is exactly the floor.
pub open spec fn cell_coord(p: int, size: int) -> int {
    p / size
}

/// The cell a position falls in.
pub open spec fn spec_cell_of(x: int, y: int, size: int) -> CellId {
    CellId { x: cell_coord(x, size) as i32, y: cell_coord(y, size) as i32 }
}

proof fn lemma_floor_div_range(a: int, b: int)
    requires
        b >= 1,
        i32::MIN <= a <= i32::MAX,
    ensures
        i32::MIN <= a / b <= i32::MAX,
        a >= 0 ==> 0 <= a / b <= a,
        a < 0 ==> a <= a / b <= 0,
{
    assert(a >= 0 ==> 0 <= a / b <= a) by (nonlinear_arith)
        requires b >= 1,
    ;
    assert(a < 0 ==> a <= a / b <= 0) by (nonlinear_arith)
        requires b >= 1,
    ;
}

/// Floor division of a coordinate by the (positive) cell size, computed over
/// magnitudes so that machine division (which truncates) and mathematical
/// division (which floors) agree.
pub fn floor_div(a: i32, b: i32) -> (q: i32)
    requires
        b >= 1,
    ensures
        q as int == a as int / b as int,
{
    proof {
        lemma_floor_div_range(a as int, b as int);
    }
    if a >= 0 {
        let uq: u32 = (a as u32) / (b as u32);
        uq as i32
    } else {
        let na: u32 = (-(a as i64)) as u32;
        let ub: u32 = b as u32;
        let qn: u32 = na / ub;
        let rn: u32 = na % ub;
        proof {
            let aa = a as int;
            let bb = b as int;
            vstd::arithmetic::div_mod::lemma_fundamental_div_mod(-aa, bb);
            if rn == 0 {
                assert(aa == bb * (-(qn as int)) + 0) by (nonlinear_arith)
                    requires -aa == bb * (qn as int) + (rn as int) && rn == 0,
                ;
                vstd::arithmetic::div_mod::lemma_fundamental_div_mod_converse(
                    aa, bb, -(qn as int), 0);
            } else {
                assert(aa == bb * (-(qn as int) - 1) + (bb - rn as int)) by (nonlinear_arith)
                    requires -aa == bb * (qn as int) + (rn as int),
                ;
                vstd::arithmetic::div_mod::lemma_fundamental_div_mod_converse(
                    aa, bb, -(qn as int) - 1, bb - rn as int);
            }
        }
        if rn == 0 {
            (-(qn as i64)) as i32
        } else {
            proof {
                assert(b == 1 ==> rn == 0);
                if b >= 2 {
                    assert((na as int) / (b as int) <= (na as int) / 2) by (nonlinear_arith)
                        requires b >= 2 && na >= 0,
                    ;
                }
            }
            (-(qn as i64) - 1) as i32
        }
    }
}

/// Cell key of a position.
pub fn calculate_grid_id(x: i32, y: i32, cell_size: i32) -> (r: (i32, i32))
    requires
        cell_size >= 1,
    ensures
        r.0 as int == cell_coord(x as int, cell_size as int),
        r.1 as int == cell_coord(y as int, cell_size as int),
        (CellId { x: r.0, y: r.1 }) == spec_cell_of(x as int, y as int, cell_size as int),
{
    (floor_div(x, cell_size), floor_div(y, cell_size))
}

/// Whether a move from `pre_location` to `curr_location` crosses a cell
/// boundary.
pub fn is_player_grid_change(pre_location: (i32, i32), curr_location: (i32, i32), cell_size: i32) -> (changed: bool)
    requires
        cell_size >= 1,
    ensures
        changed == (spec_cell_of(pre_location.0 as int, pre_location.1 as int, cell_size as int)
            != spec_cell_of(curr_location.0 as int, curr_location.1 as int, cell_size as int)),
{
    let (p_n_x, p_n_y) = calculate_grid_id(pre_location.0, pre_location.1, cell_size);
    let (c_n_x, c_n_y) = calculate_grid_id(curr_location.0, curr_location.1, cell_size);
    p_n_x != c_n_x || p_n_y != c_n_y
}

/// A rectangle of cells, both ends inclusive; empty when a minimum exceeds
/// its maximum.
#[derive(Clone, Copy, PartialEq, Eq, Structural, Debug)]
pub struct CellRect {
    pub min_x: i32,
    pub max_x: i32,
    pub min_y: i32,
    pub max_y: i32,
}

impl CellRect {
    /// Whether the rectangle covers cell `c`.
    pub open spec fn spec_contains(self, c: CellId) -> bool {
        &&& self.min_x <= c.x <= self.max_x
        &&& self.min_y <= c.y <= self.max_y
    }

    /// Executable membership test.
    pub fn contains(&self, c: CellId) -> (r: bool)
        ensures
            r == self.spec_contains(c),
    {
        self.min_x <= c.x && c.x <= self.max_x && self.min_y <= c.y && c.y <= self.max_y
    }
}

/// The radius predicate: cell `c` lies within `h` cells of `center` along x
/// and within `v` cells along y.
pub open spec fn in_radius(center: CellId, c: CellId, h: int, v: int) -> bool {
    &&& center.x - h <= c.x <= center.x + h
    &&& center.y - v <= c.y <= center.y + v
}

/// Whether cell `c` lies inside the world bounds.
pub open spec fn in_bounds(c: CellId, cfg: WorldConfig) -> bool {
    &&& 0 <= c.x <= cfg.max_x
    &&& 0 <= c.y <= cfg.max_y
}

/// The AOI view of a player whose own cell is `center`: every cell within the
/// configured radii, clipped to the world bounds.
pub open spec fn spec_aoi_rect(center: CellId, cfg: WorldConfig) -> CellRect {
    CellRect {
        min_x: max_int(0, center.x - cfg.h) as i32,
        max_x: min_int(cfg.max_x as int, center.x + cfg.h) as i32,
        min_y: max_int(0, center.y - cfg.v) as i32,
        max_y: min_int(cfg.max_y as int, center.y + cfg.v) as i32,
    }
}

pub open spec fn max_int(a: int, b: int) -> int {
    if a >= b { a } else { b }
}

pub open spec fn min_int(a: int, b: int) -> int {
    if a <= b { a } else { b }
}

/// The AOI view of `center`: radii applied, then clipped to the bounds.
pub fn aoi_rect(center: CellId, cfg: WorldConfig) -> (r: CellRect)
    requires
        cfg.wf(),
    ensures
        r == spec_aoi_rect(center, cfg),
        forall|c: CellId| r.spec_contains(c) <==> in_radius(center, c, cfg.h as int, cfg.v as int)
            && in_bounds(c, cfg),
{
    let min_x = clamp_lo(center.x as i64 - cfg.h as i64);
    let max_x = clamp_hi(center.x as i64 + cfg.h as i64, cfg.max_x);
    let min_y = clamp_lo(center.y as i64 - cfg.v as i64);
    let max_y = clamp_hi(center.y as i64 + cfg.v as i64, cfg.max_y);
    CellRect { min_x, max_x, min_y, max_y }
}

/// Law: visibility between two in-bounds cells is exactly the radius
/// predicate, and it is symmetric — if B's cell is in A's AOI view, then A's
/// cell is in B's AOI view.
pub proof fn lemma_aoi_symmetry(a: CellId, b: CellId, cfg: WorldConfig)
    requires
        cfg.wf(),
        in_bounds(a, cfg),
        in_bounds(b, cfg),
    ensures
        spec_aoi_rect(a, cfg).spec_contains(b) == in_radius(a, b, cfg.h as int, cfg.v as int),
        spec_aoi_rect(a, cfg).spec_contains(b) == spec_aoi_rect(b, cfg).spec_contains(a),
{
}

/// Lower edge of a clipped interval: not below 0.
fn clamp_lo(raw: i64) -> (r: i32)
    requires
        i32::MIN - i32::MAX <= raw <= i32::MAX,
    ensures
        r as int == max_int(0, raw as int),
{
    if raw < 0 {
        0
    } else {
        raw as i32
    }
}

/// Upper edge of a clipped interval: not above the bound.
fn clamp_hi(raw: i64, bound: i32) -> (r: i32)
    requires
        bound >= 0,
        i32::MIN <= raw <= i32::MAX + i32::MAX,
    ensures
        r as int == min_int(bound as int, raw as int),
{
    if raw > bound as i64 {
        bound
    } else {
        raw as i32
    }
}

} // verus!
