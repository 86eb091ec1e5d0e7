//! Mapping a pointer position to a board cell.
//!
//! All lengths share one unit: whole pixels, or any finer subdivision the
//! caller measures in. The grid's first intersection lies at `origin` on both
//! axes, neighbouring lines are `spacing` apart, and there are `side` lines
//! per axis.

use vstd::prelude::*;
use crate::logic::Position;

verus! {

/// The measurements of the drawn grid, taken anew on every render pass.
#[derive(Clone, Copy, Debug, PartialEq, Eq, Structural)]
pub struct BoardGeometry {
    /// Offset of the first grid line from the surface's edge; also the width
    /// of the margin around the grid.
    pub origin: u32,
    /// Distance between neighbouring grid lines.
    pub spacing: u32,
    /// Number of grid lines per axis.
    pub side: u32,
}

/// Distance from the first grid line to the last.
pub open spec fn extent(g: BoardGeometry) -> int {
    g.spacing * (g.side - 1)
}

/// The spacing that [`BoardGeometry::measure`] gives a grid of `side` lines
/// on a surface `surface` units wide.
pub open spec fn measured_spacing(surface: int, side: int) -> int {
    (74 * surface) / (100 * (side - 1))
}

/// The width of the square drawing surface in a window `width` by `height`
/// units: two thirds of the width or nine tenths of the height, whichever is
/// less.
pub open spec fn surface_in(width: int, height: int) -> int {
    if (2 * width) / 3 <= (9 * height) / 10 {
        (2 * width) / 3
    } else {
        (9 * height) / 10
    }
}

/// The width of the square drawing surface in a window of the given size.
pub fn surface_for(width: u32, height: u32) -> (surface: u32)
    ensures
        surface == surface_in(width as int, height as int),
{
    let across: u64 = 2 * width as u64 / 3;
    let down: u64 = 9 * height as u64 / 10;
    if across <= down {
        across as u32
    } else {
        down as u32
    }
}

/// The grid of `side` lines on a surface `surface` units wide: spaced by
/// [`measured_spacing`] and centred. There is none for fewer than two lines
/// or where the spacing would be zero.
pub open spec fn layout(surface: u32, side: u32) -> Option<BoardGeometry> {
    let spacing = measured_spacing(surface as int, side as int);
    if side >= 2 && spacing >= 1 {
        Some(
            BoardGeometry {
                origin: ((surface - spacing * (side - 1)) / 2) as u32,
                spacing: spacing as u32,
                side,
            },
        )
    } else {
        None
    }
}

/// Coordinate of grid line `index`.
pub open spec fn line_at(g: BoardGeometry, index: int) -> int {
    g.origin + index * g.spacing
}

/// The smallest coordinate that still registers: four ninths of the margin
/// before the first line.
pub open spec fn band_low(g: BoardGeometry) -> int {
    (5 * g.origin) / 9
}

/// The largest coordinate that still registers: one eighteenth of the margin
/// past the last line.
pub open spec fn band_high(g: BoardGeometry) -> int {
    g.origin + extent(g) + g.origin / 18
}

/// Whether coordinate `p` lies in the tolerance band around the grid.
pub open spec fn in_band(g: BoardGeometry, p: int) -> bool {
    band_low(g) <= p <= band_high(g)
}

/// Index of the line whose hit region holds `p`, before clamping: the
/// offset from the first line, shifted by half a spacing and divided by the
/// spacing, rounded down.
pub open spec fn raw_index(g: BoardGeometry, p: int) -> int {
    (2 * (p - g.origin) + g.spacing) / (2 * g.spacing)
}

/// `raw_index` pulled back onto the grid, so that the band beyond the edge
/// lines resolves to the edge lines.
pub open spec fn clamped_index(g: BoardGeometry, p: int) -> int {
    let i = raw_index(g, p);
    if i < 0 {
        0
    } else if i >= g.side {
        g.side - 1
    } else {
        i
    }
}

/// The line index that coordinate `p` resolves to on one axis, if any.
pub open spec fn axis_cell(g: BoardGeometry, p: int) -> Option<int> {
    if g.well_formed() && in_band(g, p) {
        Some(clamped_index(g, p))
    } else {
        None
    }
}

/// The cell that the pointer position `(px, py)` resolves to, if any.
pub open spec fn cell_at(g: BoardGeometry, px: int, py: int) -> Option<(int, int)> {
    match (axis_cell(g, px), axis_cell(g, py)) {
        (Some(x), Some(y)) => Some((x, y)),
        _ => None,
    }
}

/// Twice the distance between coordinate `p` and grid line `index`.
pub open spec fn distance2(g: BoardGeometry, p: int, index: int) -> int {
    let d = 2 * (p - line_at(g, index));
    if d < 0 {
        -d
    } else {
        d
    }
}

impl BoardGeometry {
    /// A geometry is usable when it has at least one line and the lines are
    /// apart.
    pub open spec fn well_formed(&self) -> bool {
        self.spacing >= 1 && self.side >= 1
    }

    /// Runtime form of [`BoardGeometry::well_formed`].
    pub fn is_well_formed(&self) -> (b: bool)
        ensures
            b == self.well_formed(),
    {
        self.spacing >= 1 && self.side >= 1
    }

    /// Lays a grid of `side` lines out on a square surface `surface` units
    /// wide: the grid spans 74 hundredths of the surface, shortened to a whole
    /// number of spacings, and is centred. There is no layout for fewer than
    /// two lines or for a surface too small to keep the lines apart.
    pub fn measure(surface: u32, side: u32) -> (r: Option<BoardGeometry>)
        ensures
            r == layout(surface, side),
            r matches Some(g) ==> g.well_formed(),
    {
        if side < 2 {
            return None;
        }
        let gaps: u64 = side as u64 - 1;
        let spacing: u64 = (74 * surface as u64) / (100 * gaps);
        if spacing < 1 {
            return None;
        }
        proof {
            lemma_floor_sign(74 * surface as int, 100 * gaps as int);
            assert(spacing * gaps <= surface) by (nonlinear_arith)
                requires
                    (100 * gaps) * spacing <= 74 * surface,
                    gaps >= 1,
                    spacing >= 0,
                    surface >= 0,
            ;
            assert(spacing <= spacing * gaps) by (nonlinear_arith)
                requires
                    gaps >= 1,
                    spacing >= 0,
            ;
        }
        let span: u64 = spacing * gaps;
        let origin: u64 = (surface as u64 - span) / 2;
        Some(BoardGeometry { origin: origin as u32, spacing: spacing as u32, side })
    }

    /// Coordinate of grid line `index`, the same on both axes.
    pub fn intersection(&self, index: u32) -> (p: u64)
        ensures
            p == line_at(*self, index as int),
    {
        assert(index * self.spacing <= 0xffff_ffff * 0xffff_ffff) by (nonlinear_arith)
            requires
                index <= 0xffff_ffff,
                self.spacing <= 0xffff_ffff,
        ;
        let step: u64 = index as u64 * self.spacing as u64;
        self.origin as u64 + step
    }

    /// Resolves one pointer coordinate to a line index.
    pub fn index_on_axis(&self, p: i32) -> (r: Option<u32>)
        ensures
            match r {
                Some(i) => axis_cell(*self, p as int) == Some(i as int),
                None => axis_cell(*self, p as int) is None,
            },
    {
        if !self.is_well_formed() {
            return None;
        }
        let origin: i128 = self.origin as i128;
        let spacing: i128 = self.spacing as i128;
        let last: i128 = self.side as i128 - 1;
        assert(spacing * last <= 0xffff_ffff * 0xffff_ffff && spacing * last >= 0)
            by (nonlinear_arith)
            requires
                0 <= spacing <= 0xffff_ffff,
                0 <= last <= 0xffff_ffff,
        ;
        let low: i128 = (5 * origin) / 9;
        let high: i128 = origin + spacing * last + origin / 18;
        let at: i128 = p as i128;
        if at < low || at > high {
            return None;
        }
        let shifted: i128 = 2 * (at - origin) + spacing;
        let width: i128 = 2 * spacing;
        if shifted < 0 {
            proof {
                lemma_floor_sign(shifted as int, width as int);
            }
            return Some(0);
        }
        let index: i128 = shifted / width;
        proof {
            lemma_floor_sign(shifted as int, width as int);
        }
        if index > last {
            Some(self.side - 1)
        } else {
            Some(index as u32)
        }
    }

    /// Resolves a pointer position to the nearest cell, or to no cell when
    /// the pointer is outside the tolerance band on either axis.
    pub fn locate(&self, pointer: Position<i32>) -> (r: Option<Position<u32>>)
        ensures
            match r {
                Some(cell) => cell_at(*self, pointer.0 as int, pointer.1 as int) == Some(
                    (cell.0 as int, cell.1 as int),
                ),
                None => cell_at(*self, pointer.0 as int, pointer.1 as int) is None,
            },
    {
        match self.index_on_axis(pointer.0) {
            None => None,
            Some(x) => match self.index_on_axis(pointer.1) {
                None => None,
                Some(y) => Some(Position(x, y)),
            },
        }
    }
}

/// For a positive divisor the rounded-down quotient is negative exactly when
/// the dividend is.
pub proof fn lemma_floor_sign(n: int, d: int)
    requires
        d > 0,
    ensures
        n < 0 <==> n / d < 0,
        n >= 0 ==> 0 <= d * (n / d) <= n < d * (n / d) + d,
{
    vstd::arithmetic::div_mod::lemma_fundamental_div_mod(n, d);
    vstd::arithmetic::div_mod::lemma_mod_bound(n, d);
    if n < 0 {
        assert(n / d < 0) by (nonlinear_arith)
            requires
                d > 0,
                n < 0,
                n == d * (n / d) + n % d,
                0 <= n % d < d,
        ;
    } else {
        assert(n / d >= 0) by (nonlinear_arith)
            requires
                d > 0,
                n >= 0,
                n == d * (n / d) + n % d,
                0 <= n % d < d,
        ;
    }
}

/// A pointer anywhere on the drawn grid resolves to a line of the grid, and
/// no other line of the grid is closer to it.
pub proof fn lemma_nearest_inside_grid(g: BoardGeometry, p: int, other: int)
    requires
        g.well_formed(),
        line_at(g, 0) <= p <= line_at(g, g.side - 1),
        0 <= other < g.side,
    ensures
        axis_cell(g, p) is Some,
        0 <= axis_cell(g, p).unwrap() < g.side,
        axis_cell(g, p).unwrap() == raw_index(g, p),
        distance2(g, p, axis_cell(g, p).unwrap()) <= distance2(g, p, other),
{
    let s = g.spacing as int;
    let d = p - g.origin;
    let n = 2 * d + s;
    let w = 2 * s;
    let q = n / w;
    lemma_floor_sign(n, w);
    assert(d <= s * (g.side - 1));
    assert(q < g.side) by (nonlinear_arith)
        requires
            w * q <= n,
            n == 2 * d + s,
            w == 2 * s,
            s >= 1,
            d <= s * (g.side - 1),
    ;
    assert(in_band(g, p));
    assert(clamped_index(g, p) == q);
    assert(2 * (p - line_at(g, q)) == n - s - w * q) by (nonlinear_arith)
        requires
            n == 2 * (p - g.origin) + s,
            w == 2 * s,
            line_at(g, q) == g.origin + q * s,
    ;
    assert(distance2(g, p, q) <= s);
    if other != q {
        assert(2 * (p - line_at(g, other)) == 2 * (p - line_at(g, q)) + w * (q - other))
            by (nonlinear_arith)
            requires
                w == 2 * s,
                line_at(g, q) == g.origin + q * s,
                line_at(g, other) == g.origin + other * s,
        ;
        if other < q {
            assert(w * (q - other) >= w) by (nonlinear_arith)
                requires
                    q - other >= 1,
                    w >= 0,
            ;
        } else {
            assert(w * (q - other) <= -w) by (nonlinear_arith)
                requires
                    q - other <= -1,
                    w >= 0,
            ;
        }
        assert(distance2(g, p, other) >= s);
    }
}

/// Whatever a coordinate resolves to is a line of the grid.
pub proof fn lemma_index_in_range(g: BoardGeometry, p: int)
    ensures
        axis_cell(g, p) matches Some(i) ==> 0 <= i < g.side,
{
}

/// A pointer outside the tolerance band on either axis resolves to no cell.
pub proof fn lemma_outside_band_no_cell(g: BoardGeometry, px: int, py: int)
    requires
        !in_band(g, px) || !in_band(g, py),
    ensures
        cell_at(g, px, py) is None,
{
}

/// A pointer exactly on an intersection resolves to that intersection.
pub proof fn lemma_intersection_resolves_to_itself(g: BoardGeometry, x: int, y: int)
    requires
        g.well_formed(),
        0 <= x < g.side,
        0 <= y < g.side,
    ensures
        cell_at(g, line_at(g, x), line_at(g, y)) == Some((x, y)),
{
    lemma_line_resolves_to_itself(g, x);
    lemma_line_resolves_to_itself(g, y);
}

/// One axis of [`lemma_intersection_resolves_to_itself`].
pub proof fn lemma_line_resolves_to_itself(g: BoardGeometry, index: int)
    requires
        g.well_formed(),
        0 <= index < g.side,
    ensures
        axis_cell(g, line_at(g, index)) == Some(index),
{
    let s = g.spacing as int;
    let p = line_at(g, index);
    let n = 2 * (p - g.origin) + s;
    let w = 2 * s;
    assert(n == w * index + s) by (nonlinear_arith)
        requires
            n == 2 * (p - g.origin) + s,
            p == g.origin + index * s,
            w == 2 * s,
    ;
    assert(index * s <= (g.side - 1) * s) by (nonlinear_arith)
        requires
            index <= g.side - 1,
            s >= 0,
    ;
    assert(index * s >= 0) by (nonlinear_arith)
        requires
            index >= 0,
            s >= 0,
    ;
    assert(extent(g) == (g.side - 1) * s) by (nonlinear_arith)
        requires
            extent(g) == s * (g.side - 1),
    ;
    assert(in_band(g, p));
    vstd::arithmetic::div_mod::lemma_fundamental_div_mod_converse(n, w, index, s);
}

} // verus!
