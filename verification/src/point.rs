//! Lattice points, their neighbours and their symmetry orbits.

use vstd::prelude::*;

verus! {

/// A cell of the triangular lattice, given by two signed coordinates.
#[derive(Debug, Clone, Copy, PartialEq, Eq, Structural)]
pub struct Point(i32, i32);

impl View for Point {
    type V = (int, int);

    closed spec fn view(&self) -> (int, int) {
        (self.0 as int, self.1 as int)
    }
}

/// The coordinates of every point of a sequence, in order.
pub open spec fn coords(points: Seq<Point>) -> Seq<(int, int)> {
    points.map_values(|p: Point| p@)
}

/// Whether a cell lies on one of the two coordinate axes.
pub open spec fn on_axis(c: (int, int)) -> bool {
    c.0 == 0 || c.1 == 0
}

/// Whether a cell lies in the fundamental domain `x >= y >= 0`, the wedge
/// from which the symmetry group reaches the whole pattern.
pub open spec fn in_domain(c: (int, int)) -> bool {
    c.0 >= c.1 && c.1 >= 0
}

/// The six cells adjacent to a cell, in the fixed order right, left, top,
/// bottom, top right, bottom left.
pub open spec fn adjacent(c: (int, int)) -> Seq<(int, int)> {
    seq![
        (c.0 + 1, c.1),
        (c.0 - 1, c.1),
        (c.0, c.1 + 1),
        (c.0, c.1 - 1),
        (c.0 - 1, c.1 + 1),
        (c.0 + 1, c.1 - 1),
    ]
}

/// The images of a cell under the symmetry group of order twelve: one for
/// the origin, six for a cell `(x, 0)` off the origin, twelve otherwise.
pub open spec fn orbit(c: (int, int)) -> Seq<(int, int)> {
    let (x, y) = c;
    let sum = x + y;
    if x == 0 && y == 0 {
        seq![(0int, 0int)]
    } else if y == 0 {
        seq![(x, 0int), (0int, x), (-x, 0int), (0int, -x), (x, -x), (-x, x)]
    } else {
        seq![
            (x, y),
            (-x, -y),
            (y, x),
            (-y, -x),
            (-x, sum),
            (-y, sum),
            (x, -sum),
            (y, -sum),
            (sum, -x),
            (sum, -y),
            (-sum, x),
            (-sum, y),
        ]
    }
}

/// Whether every coordinate that occurs in the orbit of a cell is an `i32`.
pub open spec fn orbit_fits(c: (int, int)) -> bool {
    &&& i32::MIN < c.0 <= i32::MAX
    &&& i32::MIN < c.1 <= i32::MAX
    &&& i32::MIN < c.0 + c.1 <= i32::MAX
}

/// Whether every coordinate of the six adjacent cells is an `i32`.
pub open spec fn adjacent_fits(c: (int, int)) -> bool {
    &&& i32::MIN < c.0 < i32::MAX
    &&& i32::MIN < c.1 < i32::MAX
}

impl Point {
    pub fn new(x: i32, y: i32) -> (p: Point)
        ensures
            p@ == (x as int, y as int),
    {
        Point(x, y)
    }

    pub fn origin() -> (p: Point)
        ensures
            p@ == (0int, 0int),
    {
        Point(0, 0)
    }

    pub fn x(&self) -> (x: i32)
        ensures
            x == self@.0,
    {
        self.0
    }

    pub fn y(&self) -> (y: i32)
        ensures
            y == self@.1,
    {
        self.1
    }

    pub fn on_axis(&self) -> (b: bool)
        ensures
            b == on_axis(self@),
    {
        self.0 == 0 || self.1 == 0
    }

    /// The orbit of this point under the symmetry group, the point itself
    /// first.
    pub fn reflection(&self) -> (images: Vec<Point>)
        requires
            orbit_fits(self@),
        ensures
            images@.len() == orbit(self@).len(),
            coords(images@) == orbit(self@),
    {
        let x: i32 = self.0;
        let y: i32 = self.1;
        let images = if x == 0 && y == 0 {
            vec![Point(0, 0)]
        } else if y == 0 {
            let nx: i32 = -x;
            vec![Point(x, 0), Point(0, x), Point(nx, 0), Point(0, nx), Point(x, nx), Point(nx, x)]
        } else {
            let sum: i32 = x + y;
            let nx: i32 = -x;
            let ny: i32 = -y;
            let nsum: i32 = -sum;
            vec![
                Point(x, y),
                Point(nx, ny),
                Point(y, x),
                Point(ny, nx),
                Point(nx, sum),
                Point(ny, sum),
                Point(x, nsum),
                Point(y, nsum),
                Point(sum, nx),
                Point(sum, ny),
                Point(nsum, x),
                Point(nsum, y),
            ]
        };
        assert(coords(images@) =~= orbit(self@));
        images
    }

    /// The six adjacent points, in the order of [`adjacent`].
    pub fn neighbours(&self) -> (around: Vec<Point>)
        requires
            adjacent_fits(self@),
        ensures
            around@.len() == 6,
            coords(around@) == adjacent(self@),
    {
        let around = vec![
            Point(self.0 + 1, self.1),
            Point(self.0 - 1, self.1),
            Point(self.0, self.1 + 1),
            Point(self.0, self.1 - 1),
            Point(self.0 - 1, self.1 + 1),
            Point(self.0 + 1, self.1 - 1),
        ];
        assert(coords(around@) =~= adjacent(self@));
        around
    }

    /// The size of an orbit: one image for the origin, six for a cell
    /// `(x, 0)` off the origin, twelve for every other cell, among them
    /// the cells with `x > y > 0`.
    pub proof fn lemma_orbit_len(c: (int, int))
        ensures
            c == (0int, 0int) ==> orbit(c).len() == 1,
            c.0 != 0 && c.1 == 0 ==> orbit(c).len() == 6,
            c.1 != 0 ==> orbit(c).len() == 12,
            c.0 > c.1 > 0 ==> orbit(c).len() == 12,
            orbit(c)[0] == c,
    {
    }

    /// Every cell has six adjacent cells.
    pub proof fn lemma_adjacent_len(c: (int, int))
        ensures
            adjacent(c).len() == 6,
    {
    }

    /// Two points with the same coordinates are the same point.
    pub proof fn lemma_view_injective(a: Point, b: Point)
        ensures
            a@ == b@ <==> a == b,
    {
    }
}

} // verus!
