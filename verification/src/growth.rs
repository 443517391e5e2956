//! The growth state of one pattern: the frontier, the visited cells and the
//! cells filled so far, with the rule that advances them by one draw.

use crate::bit::Bit;
use crate::extend;
use crate::point::{adjacent, coords, in_domain, on_axis, orbit, Point};
use vstd::prelude::*;

verus! {

/// The most draws one growth can take: up to here every coordinate that a
/// draw computes is an `i32`, whichever cells are drawn.
pub const MAX_STEPS: usize = 0x7fff_ffff;

/// The cells adjacent to `c` that lie in the fundamental domain and are not
/// among `closed`, in the order of [`adjacent`].
pub open spec fn extension(c: (int, int), closed: Seq<(int, int)>) -> Seq<(int, int)> {
    adjacent(c).filter(|q: (int, int)| in_domain(q) && !closed.contains(q))
}

/// Every cell of an extension is adjacent to `c`, lies in the fundamental
/// domain and is not visited; and every adjacent cell of that kind is in
/// the extension.
pub proof fn lemma_extension_members(c: (int, int), closed: Seq<(int, int)>)
    ensures
        forall|i: int|
            0 <= i < extension(c, closed).len() ==> {
                let e = #[trigger] extension(c, closed)[i];
                adjacent(c).contains(e) && in_domain(e) && !closed.contains(e)
            },
        forall|j: int|
            0 <= j < 6 && in_domain(#[trigger] adjacent(c)[j]) && !closed.contains(adjacent(c)[j])
                ==> extension(c, closed).contains(adjacent(c)[j]),
{
    let pred = |q: (int, int)| in_domain(q) && !closed.contains(q);
    let ext = adjacent(c).filter(pred);
    assert forall|i: int| 0 <= i < ext.len() implies {
        let e = #[trigger] ext[i];
        adjacent(c).contains(e) && in_domain(e) && !closed.contains(e)
    } by {
        adjacent(c).lemma_filter_pred(pred, i);
        assert(ext.contains(ext[i]));
        adjacent(c).lemma_filter_contains_rev(pred, ext[i]);
    }
    assert forall|j: int|
        0 <= j < 6 && in_domain(#[trigger] adjacent(c)[j]) && !closed.contains(
            adjacent(c)[j],
        ) implies ext.contains(adjacent(c)[j]) by {
        adjacent(c).lemma_filter_contains(pred, j);
    }
}

/// A cell adjacent to `c` is one of the six that [`adjacent`] lists.
pub proof fn lemma_adjacent_members(c: (int, int), e: (int, int))
    requires
        adjacent(c).contains(e),
    ensures
        e == (c.0 + 1, c.1) || e == (c.0 - 1, c.1) || e == (c.0, c.1 + 1) || e == (c.0, c.1 - 1)
            || e == (c.0 - 1, c.1 + 1) || e == (c.0 + 1, c.1 - 1),
{
    let j = choose|j: int| 0 <= j < adjacent(c).len() && adjacent(c)[j] == e;
    assert(0 <= j < 6);
}

/// The three sequences of a growth, as cell coordinates.
pub struct GrowthView {
    /// The frontier: cells that the next draw may pick. A cell can stand
    /// here more than once.
    pub open: Seq<(int, int)>,
    /// The cells drawn so far, in the order of the draws.
    pub closed: Seq<(int, int)>,
    /// The orbits of the activated cells, in the order of the draws.
    pub filled: Seq<(int, int)>,
}

impl GrowthView {
    /// Where every growth starts: the origin alone in the frontier.
    pub open spec fn start() -> GrowthView {
        GrowthView { open: seq![(0int, 0int)], closed: Seq::empty(), filled: Seq::empty() }
    }

    /// The state after the frontier cell at `index` is drawn with `bit`.
    /// The cell leaves the frontier and is visited. If it lies on an axis
    /// or the bit is high it is activated: its orbit is filled and its
    /// extension joins the frontier.
    pub open spec fn step(self, index: int, bit: bool) -> GrowthView {
        let c = self.open[index];
        if on_axis(c) || bit {
            GrowthView {
                open: self.open.remove(index) + extension(c, self.closed),
                closed: self.closed.push(c),
                filled: self.filled + orbit(c),
            }
        } else {
            GrowthView {
                open: self.open.remove(index),
                closed: self.closed.push(c),
                filled: self.filled,
            }
        }
    }

    /// Whether the frontier cell at `i` is the tip of the growth: the cell
    /// of the x-axis that lies farthest out among those in the frontier,
    /// and farther out than every visited cell of that axis.
    pub open spec fn is_tip(self, i: int) -> bool {
        &&& 0 <= i < self.open.len()
        &&& self.open[i].1 == 0
        &&& forall|j: int|
            0 <= j < self.open.len() && (#[trigger] self.open[j]).1 == 0 ==> self.open[j].0
                <= self.open[i].0
        &&& forall|j: int|
            0 <= j < self.closed.len() && (#[trigger] self.closed[j]).1 == 0 ==> self.closed[j].0
                < self.open[i].0
    }

    /// What holds of every state that a growth reaches: the frontier and
    /// the visited cells lie in the fundamental domain, the coordinates of
    /// a cell add up to no more than the number of draws taken, and the
    /// frontier holds a tip.
    pub open spec fn inv(self) -> bool {
        &&& forall|i: int|
            0 <= i < self.open.len() ==> in_domain(#[trigger] self.open[i]) && self.open[i].0
                + self.open[i].1 <= self.closed.len()
        &&& forall|i: int|
            0 <= i < self.closed.len() ==> in_domain(#[trigger] self.closed[i])
                && self.closed[i].0 + self.closed[i].1 < self.closed.len()
        &&& exists|i: int| self.is_tip(i)
    }

    /// The start state satisfies the invariant.
    pub proof fn lemma_start_inv()
        ensures
            GrowthView::start().inv(),
    {
        assert(GrowthView::start().is_tip(0));
    }

    /// A draw keeps the invariant: whatever cell of the frontier is drawn,
    /// and with whatever bit, the state that follows is reachable too.
    pub proof fn lemma_step_inv(self, index: int, bit: bool)
        requires
            self.inv(),
            0 <= index < self.open.len(),
        ensures
            self.step(index, bit).inv(),
    {
        let next = self.step(index, bit);
        let c = self.open[index];
        let rest = self.open.remove(index);
        let activated = on_axis(c) || bit;
        let ext = if activated {
            extension(c, self.closed)
        } else {
            Seq::empty()
        };
        let t = choose|i: int| self.is_tip(i);
        let m = self.open[t].0;
        assert(next.open =~= rest + ext);
        assert(next.closed == self.closed.push(c));
        lemma_extension_members(c, self.closed);
        assert forall|i: int| 0 <= i < ext.len() implies in_domain(#[trigger] ext[i]) && ext[i].0
            + ext[i].1 <= c.0 + c.1 + 1 && ext[i].0 <= c.0 + 1 && (ext[i].1 == 0 ==> c.1 <= 1) by {
            assert(ext[i] == extension(c, self.closed)[i]);
            lemma_adjacent_members(c, ext[i]);
        }
        assert forall|i: int| 0 <= i < next.open.len() implies in_domain(#[trigger] next.open[i])
            && next.open[i].0 + next.open[i].1 <= next.closed.len() by {
            if i < rest.len() {
                assert(rest[i] == self.open[if i < index { i } else { i + 1 }]);
            } else {
                assert(next.open[i] == ext[i - rest.len()]);
            }
        }
        assert forall|i: int| 0 <= i < next.closed.len() implies in_domain(
            #[trigger] next.closed[i],
        ) && next.closed[i].0 + next.closed[i].1 < next.closed.len() by {
            if i < self.closed.len() {
                assert(next.closed[i] == self.closed[i]);
            }
        }
        // The tip moves one cell out when the draw puts a cell of the
        // x-axis beyond it into the frontier, and stays where it is
        // otherwise.
        let grows = activated && ((c.1 == 0 && c.0 == m) || (c.1 == 1 && c.0 + 1 > m));
        if grows {
            let far = (c.0 + 1, 0int);
            let j = if c.1 == 0 { 0int } else { 5int };
            assert(adjacent(c)[j] == far);
            assert(!self.closed.contains(far));
            assert(extension(c, self.closed).contains(far));
            let k = choose|k: int| 0 <= k < ext.len() && ext[k] == far;
            let w = rest.len() + k;
            assert(next.open[w] == far);
            assert forall|i: int|
                0 <= i < next.open.len() && (#[trigger] next.open[i]).1 == 0 implies next.open[i].0
                <= far.0 by {
                if i < rest.len() {
                    assert(rest[i] == self.open[if i < index { i } else { i + 1 }]);
                } else {
                    assert(next.open[i] == ext[i - rest.len()]);
                }
            }
            assert forall|i: int|
                0 <= i < next.closed.len() && (#[trigger] next.closed[i]).1 == 0 implies next.closed[i].0
                < far.0 by {
                if i < self.closed.len() {
                    assert(next.closed[i] == self.closed[i]);
                }
            }
            assert(next.is_tip(w));
        } else {
            assert(index != t);
            let w = if t < index { t } else { t - 1 };
            assert(rest[w] == self.open[t]);
            assert(next.open[w] == self.open[t]);
            assert forall|i: int|
                0 <= i < next.open.len() && (#[trigger] next.open[i]).1 == 0 implies next.open[i].0
                <= m by {
                if i < rest.len() {
                    assert(rest[i] == self.open[if i < index { i } else { i + 1 }]);
                } else {
                    assert(next.open[i] == ext[i - rest.len()]);
                    lemma_adjacent_members(c, ext[i - rest.len()]);
                }
            }
            assert forall|i: int|
                0 <= i < next.closed.len() && (#[trigger] next.closed[i]).1 == 0 implies next.closed[i].0
                < m by {
                if i < self.closed.len() {
                    assert(next.closed[i] == self.closed[i]);
                }
            }
            assert(next.is_tip(w));
        }
    }

    /// The frontier of a reachable state is never empty, so a draw is
    /// always possible.
    pub proof fn lemma_frontier_nonempty(self)
        requires
            self.inv(),
        ensures
            self.open.len() > 0,
    {
    }
}

/// One growth in progress. It starts with the origin in its frontier and
/// advances by one draw at a time.
pub struct Growth {
    open: Vec<Point>,
    closed: Vec<Point>,
    filled: Vec<Point>,
}

impl View for Growth {
    type V = GrowthView;

    closed spec fn view(&self) -> GrowthView {
        GrowthView {
            open: coords(self.open@),
            closed: coords(self.closed@),
            filled: coords(self.filled@),
        }
    }
}

impl Growth {
    pub fn new() -> (growth: Growth)
        ensures
            growth@ == GrowthView::start(),
            growth@.inv(),
    {
        let growth = Growth { open: vec![Point::origin()], closed: Vec::new(), filled: Vec::new() };
        proof {
            assert(growth@.open =~= GrowthView::start().open);
            assert(growth@.closed =~= GrowthView::start().closed);
            assert(growth@.filled =~= GrowthView::start().filled);
            GrowthView::lemma_start_inv();
        }
        growth
    }

    /// Draws the frontier point at `index` with `bit`, as
    /// [`GrowthView::step`] describes.
    pub fn step(&mut self, index: usize, bit: Bit)
        requires
            old(self)@.inv(),
            index < old(self)@.open.len(),
            old(self)@.closed.len() < MAX_STEPS,
        ensures
            final(self)@ == old(self)@.step(index as int, bit@),
            final(self)@.inv(),
    {
        let ghost before = self@;
        let point = self.open.remove(index);
        assert(point@ == before.open[index as int]);
        assert(coords(self.open@) =~= before.open.remove(index as int));
        if point.on_axis() || bit.as_bool() {
            let mut reflection = point.reflection();
            let ghost filled = self.filled@;
            self.filled.append(&mut reflection);
            assert(coords(self.filled@) =~= coords(filled) + orbit(point@));
            let mut fresh = extend(&point, &self.closed);
            let ghost open = self.open@;
            self.open.append(&mut fresh);
            assert(coords(self.open@) =~= coords(open) + extension(point@, before.closed));
        }
        self.closed.push(point);
        assert(coords(self.closed@) =~= before.closed.push(point@));
        proof {
            before.lemma_step_inv(index as int, bit@);
        }
    }

    /// The frontier.
    pub fn open(&self) -> (open: &Vec<Point>)
        ensures
            coords(open@) == self@.open,
    {
        &self.open
    }

    /// The visited points, in the order of the draws.
    pub fn closed(&self) -> (closed: &Vec<Point>)
        ensures
            coords(closed@) == self@.closed,
    {
        &self.closed
    }

    /// The points filled so far.
    pub fn filled(&self) -> (filled: &Vec<Point>)
        ensures
            coords(filled@) == self@.filled,
    {
        &self.filled
    }

    /// Ends the growth and hands out the filled points.
    pub fn into_filled(self) -> (filled: Vec<Point>)
        ensures
            coords(filled@) == self@.filled,
    {
        self.filled
    }
}

} // verus!
