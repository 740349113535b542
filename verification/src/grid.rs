//! The mathematical model of a world, and the arithmetic of its cell indices.

use vstd::prelude::*;
use crate::particle::{Particle, canonical_empty};
use crate::variant::Variant;

verus! {

/// What a world is to a contract: its dimensions, its cells, laid out row
/// after row so that cell `(x, y)` stands at `x + y * width`, the ambient
/// scalars and the number of ticks it has been through.
pub struct Grid {
    pub width: int,
    pub height: int,
    pub cells: Seq<Particle>,
    pub heat: u8,
    pub pressure: u8,
    pub wind: u8,
    pub generation: u64,
}

impl Grid {
    /// Both dimensions are positive and there is exactly one particle per cell.
    pub open spec fn wf(self) -> bool {
        &&& 0 < self.width
        &&& 0 < self.height
        &&& self.cells.len() == self.width * self.height
    }

    /// `self` differs from `other` in its cells at most: the dimensions, the
    /// ambient scalars and the count of ticks are the same.
    pub open spec fn same_frame(self, other: Grid) -> bool {
        &&& self.width == other.width
        &&& self.height == other.height
        &&& self.heat == other.heat
        &&& self.pressure == other.pressure
        &&& self.wind == other.wind
        &&& self.generation == other.generation
    }

    /// `(x, y)` names a cell of the grid.
    pub open spec fn contains(self, x: int, y: int) -> bool {
        0 <= x < self.width && 0 <= y < self.height
    }

    /// `(x, y)` lies in the window that neighbour reads look through: the
    /// grid without its last column and its last row.
    pub open spec fn visible(self, x: int, y: int) -> bool {
        0 <= x < self.width - 1 && 0 <= y < self.height - 1
    }

    /// The position of cell `(x, y)` in `cells`.
    pub open spec fn index(self, x: int, y: int) -> int {
        x + y * self.width
    }

    /// The particle in cell `(x, y)`.
    pub open spec fn at(self, x: int, y: int) -> Particle {
        self.cells[self.index(x, y)]
    }

    /// The grid with `p` in cell `(x, y)` and every other cell as it was.
    pub open spec fn put(self, x: int, y: int, p: Particle) -> Grid {
        Grid { cells: self.cells.update(self.index(x, y), p), ..self }
    }

    /// What a neighbour read of `(x, y)` yields: the cell's particle inside
    /// the window, the canonical empty particle everywhere else.
    pub open spec fn read(self, x: int, y: int) -> Particle {
        if self.visible(x, y) {
            self.at(x, y)
        } else {
            canonical_empty()
        }
    }

    /// A rule may move a particle to `(x, y)`: it is a cell of the grid and a
    /// neighbour read of it yields an empty particle.
    ///
    /// The last column and the last row lie outside the window and so are
    /// always open, whatever they hold.
    pub open spec fn open_at(self, x: int, y: int) -> bool {
        self.contains(x, y) && self.read(x, y).variant == Variant::Empty
    }

    /// The grid after the particle `p` of cell `(x, y)` has moved to
    /// `(tx, ty)`: `p` stands there, and `(x, y)` holds the canonical empty
    /// particle.
    pub open spec fn relocate(self, x: int, y: int, tx: int, ty: int, p: Particle) -> Grid {
        self.put(tx, ty, p).put(x, y, canonical_empty())
    }

    /// The grid of a newly made world: every cell holds the canonical empty
    /// particle, the ambient scalars are zero and no tick has passed.
    pub open spec fn blank(width: int, height: int) -> Grid {
        Grid {
            width,
            height,
            cells: Seq::new((width * height) as nat, |i: int| canonical_empty()),
            heat: 0,
            pressure: 0,
            wind: 0,
            generation: 0,
        }
    }

    /// The grid with the canonical empty particle in every cell, and
    /// everything else as it was.
    pub open spec fn cleared(self) -> Grid {
        Grid { cells: Seq::new(self.cells.len(), |i: int| canonical_empty()), ..self }
    }

    /// The grid one tick later in its count: the counter goes up by one and
    /// starts again at zero after `u64::MAX`.
    pub open spec fn aged(self) -> Grid {
        Grid {
            generation: if self.generation == u64::MAX {
                0
            } else {
                (self.generation + 1) as u64
            },
            ..self
        }
    }

    /// The number of cells among the first `n` whose variant is not `Empty`.
    pub open spec fn occupied_upto(self, n: int) -> nat
        decreases n,
    {
        if n <= 0 {
            0
        } else {
            let rest = self.occupied_upto(n - 1);
            if self.cells[n - 1].variant == Variant::Empty {
                rest
            } else {
                rest + 1
            }
        }
    }

    /// The number of cells whose variant is not `Empty`.
    pub open spec fn occupied(self) -> nat {
        self.occupied_upto(self.cells.len() as int)
    }

    /// A cell's index lies inside `cells`.
    pub proof fn lemma_index_bounds(self, x: int, y: int)
        requires
            self.wf(),
            self.contains(x, y),
        ensures
            0 <= self.index(x, y) < self.cells.len(),
            self.index(x, y) < self.width * self.height,
    {
        let w = self.width;
        let h = self.height;
        assert(0 <= y * w && y * w + w <= h * w) by (nonlinear_arith)
            requires
                0 <= y < h,
                0 < w,
        ;
    }

    /// Two cells with the same index are the same cell.
    pub proof fn lemma_index_injective(self, x1: int, y1: int, x2: int, y2: int)
        requires
            self.wf(),
            self.contains(x1, y1),
            self.contains(x2, y2),
            self.index(x1, y1) == self.index(x2, y2),
        ensures
            x1 == x2,
            y1 == y2,
    {
        let w = self.width;
        if y1 < y2 {
            assert(y1 * w + w <= y2 * w) by (nonlinear_arith)
                requires
                    y1 < y2,
                    0 < w,
            ;
        } else if y2 < y1 {
            assert(y2 * w + w <= y1 * w) by (nonlinear_arith)
                requires
                    y2 < y1,
                    0 < w,
            ;
        }
    }

    /// Writing a cell keeps the grid well formed and its dimensions.
    pub proof fn lemma_put_wf(self, x: int, y: int, p: Particle)
        requires
            self.wf(),
            self.contains(x, y),
        ensures
            self.put(x, y, p).wf(),
            self.put(x, y, p).width == self.width,
            self.put(x, y, p).height == self.height,
    {
        self.lemma_index_bounds(x, y);
    }

    /// Writing a cell changes that cell and no other.
    pub proof fn lemma_put_at(self, x: int, y: int, p: Particle, a: int, b: int)
        requires
            self.wf(),
            self.contains(x, y),
            self.contains(a, b),
        ensures
            self.put(x, y, p).at(a, b) == (if a == x && b == y {
                p
            } else {
                self.at(a, b)
            }),
    {
        self.lemma_index_bounds(x, y);
        self.lemma_index_bounds(a, b);
        if self.index(x, y) == self.index(a, b) {
            self.lemma_index_injective(x, y, a, b);
        }
    }

    /// Writing a cell, seen from every cell at once: the grid stays well
    /// formed, the cell holds what was written, every other cell holds what
    /// it held, and nothing but cells has changed.
    pub proof fn lemma_put(self, x: int, y: int, p: Particle)
        requires
            self.wf(),
            self.contains(x, y),
        ensures
            self.put(x, y, p).wf(),
            self.put(x, y, p).same_frame(self),
            self.put(x, y, p).at(x, y) == p,
            forall|a: int, b: int|
                self.contains(a, b) && !(a == x && b == y) ==> #[trigger] self.put(x, y, p).at(
                    a,
                    b,
                ) == self.at(a, b),
    {
        self.lemma_put_wf(x, y, p);
        self.lemma_put_at(x, y, p, x, y);
        assert forall|a: int, b: int| self.contains(a, b) && !(a == x && b == y) implies #[trigger]
            self.put(x, y, p).at(a, b) == self.at(a, b) by {
            self.lemma_put_at(x, y, p, a, b);
        }
    }
}

} // verus!
