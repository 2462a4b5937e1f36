//! Square cells of the lattice and the way they are quartered.

use vstd::prelude::*;
use crate::types::{Position, Quadrant};

verus! {

/// A square region of the lattice: its centre and `size`, the length of its
/// side. It covers the points from half the size below the centre up to,
/// but not including, half the size above it, on each axis.
#[derive(Clone, Copy, PartialEq, Eq, Structural, Debug)]
pub struct Cell {
    pub position: Position,
    pub size: u32,
}

impl Cell {
    /// Whether the cell lies within the range of the coordinates.
    pub open spec fn fits(self) -> bool {
        &&& i32::MIN <= self.position.0 - self.size / 2
        &&& self.position.0 + self.size / 2 <= i32::MAX
        &&& i32::MIN <= self.position.1 - self.size / 2
        &&& self.position.1 + self.size / 2 <= i32::MAX
    }

    /// Whether `p` is one of the points that the cell covers.
    pub open spec fn contains(self, p: Position) -> bool {
        &&& self.position.0 - self.size / 2 <= p.0 < self.position.0 + self.size / 2
        &&& self.position.1 - self.size / 2 <= p.1 < self.position.1 + self.size / 2
    }

    /// The quadrant of `p` as seen from the centre: west of it or not,
    /// south of it or not. A point level with the centre counts as east of
    /// it, or north.
    pub open spec fn quadrant_of(self, p: Position) -> Quadrant {
        if p.0 < self.position.0 {
            if p.1 < self.position.1 {
                Quadrant::SW
            } else {
                Quadrant::NW
            }
        } else if p.1 < self.position.1 {
            Quadrant::SE
        } else {
            Quadrant::NE
        }
    }

    /// The cell of half the size that fills the quadrant `q` of this one:
    /// its centre lies a quarter of the size from this centre, on each axis.
    pub open spec fn quarter(self, q: Quadrant) -> Cell {
        let step = self.size / 4;
        let position = match q {
            Quadrant::NW => Position(
                (self.position.0 - step) as i32,
                (self.position.1 + step) as i32,
            ),
            Quadrant::NE => Position(
                (self.position.0 + step) as i32,
                (self.position.1 + step) as i32,
            ),
            Quadrant::SW => Position(
                (self.position.0 - step) as i32,
                (self.position.1 - step) as i32,
            ),
            Quadrant::SE => Position(
                (self.position.0 + step) as i32,
                (self.position.1 - step) as i32,
            ),
        };
        Cell { position, size: self.size / 2 }
    }

    /// Whether halving this cell again and again ever puts `a` and `b` into
    /// different quadrants. Once the size is too small to have a quarter of
    /// its own the centres no longer move, and two points that share a
    /// quadrant share it for good.
    pub open spec fn separates(self, a: Position, b: Position) -> bool
        decreases self.size,
    {
        self.quadrant_of(a) != self.quadrant_of(b) || (self.size >= 1 && self.quarter(
            self.quadrant_of(a),
        ).separates(a, b))
    }

    /// Decides whether the cell lies within the range of the coordinates.
    pub fn is_within_range(&self) -> (r: bool)
        ensures
            r == self.fits(),
    {
        let half: i64 = (self.size / 2) as i64;
        let x: i64 = self.position.0 as i64;
        let y: i64 = self.position.1 as i64;
        x - half >= i32::MIN as i64 && x + half <= i32::MAX as i64 && y - half >= i32::MIN as i64
            && y + half <= i32::MAX as i64
    }

    /// Classifies `p` by the centre of the cell.
    pub fn classify(&self, p: Position) -> (q: Quadrant)
        ensures
            q == self.quadrant_of(p),
    {
        if p.0 < self.position.0 {
            if p.1 < self.position.1 {
                Quadrant::SW
            } else {
                Quadrant::NW
            }
        } else if p.1 < self.position.1 {
            Quadrant::SE
        } else {
            Quadrant::NE
        }
    }

    /// Computes the cell that fills the quadrant `q`.
    pub fn subdivide(&self, q: Quadrant) -> (c: Cell)
        requires
            self.fits(),
        ensures
            c == self.quarter(q),
            c.fits(),
    {
        let step: i64 = (self.size / 4) as i64;
        let x: i64 = self.position.0 as i64;
        let y: i64 = self.position.1 as i64;
        let position = match q {
            Quadrant::NW => Position((x - step) as i32, (y + step) as i32),
            Quadrant::NE => Position((x + step) as i32, (y + step) as i32),
            Quadrant::SW => Position((x - step) as i32, (y - step) as i32),
            Quadrant::SE => Position((x + step) as i32, (y - step) as i32),
        };
        Cell { position, size: self.size / 2 }
    }

    /// Decides whether halving the cell ever tells `a` from `b`.
    pub fn tells_apart(&self, a: Position, b: Position) -> (r: bool)
        requires
            self.fits(),
        ensures
            r == self.separates(a, b),
    {
        let mut cell = *self;
        loop
            invariant
                cell.fits(),
                cell.separates(a, b) == self.separates(a, b),
            decreases cell.size,
        {
            let q = cell.classify(a);
            if q != cell.classify(b) {
                return true;
            }
            if cell.size == 0 {
                return false;
            }
            cell = cell.subdivide(q);
        }
    }
}

} // verus!
