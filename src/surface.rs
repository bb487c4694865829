//! From a pointer's pixel position in the window to its physical ring, and
//! from there to its cells.

use vstd::prelude::*;
use crate::config::TouccaTouchConfig;
use crate::geometry::{cells_for, expansion, SECTIONS};

verus! {

/// The window's client rectangle, in pixels; the playfield is the circle
/// inscribed in it.
#[derive(Clone, Copy, Debug, PartialEq, Eq, Structural)]
pub struct WindowRect {
    pub left: i32,
    pub top: i32,
    pub right: i32,
    pub bottom: i32,
}

/// Twice the offset of pixel column `x` to the right of the centre.
pub open spec fn twice_dx(rect: WindowRect, x: i32) -> int {
    2 * x - (rect.left + rect.right)
}

/// Twice the offset of pixel row `y` above the centre.
pub open spec fn twice_dy(rect: WindowRect, y: i32) -> int {
    (rect.top + rect.bottom) - 2 * y
}

/// Four times the squared distance of pixel `(x, y)` from the centre.
pub open spec fn twice_dist_sq(rect: WindowRect, x: i32, y: i32) -> int {
    twice_dx(rect, x) * twice_dx(rect, x) + twice_dy(rect, y) * twice_dy(rect, y)
}

/// Twice the playfield's radius: the shorter side of the rectangle, plus
/// twice the compensation.
pub open spec fn twice_radius(rect: WindowRect, compensation: i32) -> int {
    let w = rect.right - rect.left;
    let h = rect.bottom - rect.top;
    (if w < h {
        w
    } else {
        h
    }) + 2 * compensation
}

/// A point at squared distance `d2` lies on a playfield of radius `r` (the
/// same unit): its distance is not greater than the radius.
pub open spec fn on_surface(d2: int, r: int) -> bool {
    r >= 0 && d2 <= r * r
}

/// `k` is the physical ring of a point at squared distance `d2` on a
/// playfield of radius `r` cut into `divisions` rings: `k` is
/// `floor(divisions * distance / r)`.
pub open spec fn is_ring_of(k: int, divisions: int, d2: int, r: int) -> bool {
    &&& 0 <= k
    &&& k * k * (r * r) <= divisions * divisions * d2
    &&& divisions * divisions * d2 < (k + 1) * (k + 1) * (r * r)
}

/// The physical ring of a point at squared distance `d2` on a playfield of
/// radius `r`; a playfield of radius 0 has only ring 0.
pub open spec fn physical_ring(divisions: int, d2: int, r: int) -> int {
    if r <= 0 {
        0
    } else {
        choose|k: int| is_ring_of(k, divisions, d2, r)
    }
}

/// There is one physical ring only.
proof fn lemma_ring_unique(k: int, j: int, divisions: int, d2: int, r: int)
    requires
        is_ring_of(k, divisions, d2, r),
        is_ring_of(j, divisions, d2, r),
        r > 0,
    ensures
        k == j,
{
    let rr = r * r;
    if k < j {
        assert((k + 1) * (k + 1) * rr <= j * j * rr) by (nonlinear_arith)
            requires
                0 <= k < j,
                rr >= 0,
        ;
    } else if j < k {
        assert((j + 1) * (j + 1) * rr <= k * k * rr) by (nonlinear_arith)
            requires
                0 <= j < k,
                rr >= 0,
        ;
    }
}

/// The physical ring of a point at squared distance `d2` (not beyond the
/// radius `r`) on a playfield cut into `divisions` rings.
fn ring_of(divisions: usize, d2: u128, r: u128) -> (k: usize)
    requires
        0 < r <= 0x4_0000_0000,
        d2 <= r * r,
        divisions <= 20,
    ensures
        k == physical_ring(divisions as int, d2 as int, r as int),
        k <= divisions,
{
    assert(r * r <= 0x10_0000_0000_0000_0000) by (nonlinear_arith)
        requires
            0 < r <= 0x4_0000_0000,
    ;
    let rr: u128 = r * r;
    assert(rr > 0) by (nonlinear_arith)
        requires
            r > 0,
            rr == r * r,
    ;
    assert(divisions * divisions <= 400) by (nonlinear_arith)
        requires
            divisions <= 20,
    ;
    let dd: u128 = (divisions as u128) * (divisions as u128);
    assert(dd * d2 <= 400 * rr) by (nonlinear_arith)
        requires
            dd <= 400,
            d2 <= rr,
    ;
    let target: u128 = dd * d2;
    let mut k: usize = 0;
    let mut done = false;
    assert(0 * 0 * rr == 0) by (nonlinear_arith);
    while !done && k < divisions
        invariant
            k <= divisions <= 20,
            rr <= 0x10_0000_0000_0000_0000,
            rr == r * r,
            rr > 0,
            target == divisions * divisions * d2,
            k * k * rr <= target,
            done ==> target < (k + 1) * (k + 1) * rr,
        decreases divisions - k, if done { 0int } else { 1int },
    {
        let next: u128 = (k + 1) as u128;
        assert(next * next <= 441) by (nonlinear_arith)
            requires
                next <= 21,
        ;
        let sq: u128 = next * next;
        assert(sq * rr <= 441 * rr) by (nonlinear_arith)
            requires
                sq <= 441,
        ;
        let lhs: u128 = sq * rr;
        if lhs > target {
            done = true;
        } else {
            k += 1;
        }
    }
    proof {
        if k == divisions {
            assert(target < (k + 1) * (k + 1) * rr) by (nonlinear_arith)
                requires
                    k == divisions,
                    target == divisions * divisions * d2,
                    d2 <= rr,
                    rr > 0,
            ;
        }
        assert(is_ring_of(k as int, divisions as int, d2 as int, r as int));
        lemma_ring_unique(
            k as int,
            physical_ring(divisions as int, d2 as int, r as int),
            divisions as int,
            d2 as int,
            r as int,
        );
    }
    k
}

impl TouccaTouchConfig {
    /// The cells that pointer `id`, at pixel `(x, y)` of window `rect` and in
    /// `section`, activates. A point beyond the playfield's radius activates
    /// nothing and leaves the mode alone; otherwise its physical ring is
    /// `floor(divisions * distance / radius)` and the mode maps it.
    pub fn point_cells(&mut self, ptr_id: u32, section: usize, x: i32, y: i32, rect: &WindowRect) -> (r:
        Vec<usize>)
        requires
            old(self).wf(),
            section < SECTIONS,
        ensures
            final(self).divisions == old(self).divisions,
            final(self).radius_compensation == old(self).radius_compensation,
            final(self).pointer_radius == old(self).pointer_radius,
            final(self).wf(),
            !on_surface(
                twice_dist_sq(*rect, x, y),
                twice_radius(*rect, old(self).radius_compensation),
            ) ==> r@.len() == 0 && final(self).mode == old(self).mode,
            on_surface(twice_dist_sq(*rect, x, y), twice_radius(*rect, old(self).radius_compensation))
                ==> {
                let ring = physical_ring(
                    old(self).divisions as int,
                    twice_dist_sq(*rect, x, y),
                    twice_radius(*rect, old(self).radius_compensation),
                ) as usize;
                &&& final(self).mode.observed(old(self).mode, ptr_id, ring)
                &&& r@ == cells_for(
                    expansion(old(self).pointer_radius as nat, section as int),
                    old(self).mode.rings_for(ptr_id, ring),
                )
            },
    {
        let dx: i128 = 2 * (x as i128) - (rect.left as i128 + rect.right as i128);
        let dy: i128 = (rect.top as i128 + rect.bottom as i128) - 2 * (y as i128);
        let w: i128 = rect.right as i128 - rect.left as i128;
        let h: i128 = rect.bottom as i128 - rect.top as i128;
        let side: i128 = if w < h {
            w
        } else {
            h
        };
        let radius: i128 = side + 2 * (self.radius_compensation as i128);
        assert(dx * dx <= 0x4_0000_0000_0000_0000) by (nonlinear_arith)
            requires
                -0x2_0000_0000 <= dx <= 0x2_0000_0000,
        ;
        assert(dy * dy <= 0x4_0000_0000_0000_0000) by (nonlinear_arith)
            requires
                -0x2_0000_0000 <= dy <= 0x2_0000_0000,
        ;
        assert(dx * dx >= 0 && dy * dy >= 0) by (nonlinear_arith);
        let d2: i128 = dx * dx + dy * dy;
        if radius < 0 {
            return Vec::new();
        }
        assert(radius * radius <= 0x10_0000_0000_0000_0000) by (nonlinear_arith)
            requires
                0 <= radius <= 0x4_0000_0000,
        ;
        if d2 > radius * radius {
            return Vec::new();
        }
        let ring: usize = if radius == 0 {
            0
        } else {
            ring_of(self.divisions, d2 as u128, radius as u128)
        };
        self.mode.to_cells(ptr_id, section, ring, self.pointer_radius)
    }
}

} // verus!
