use vstd::arithmetic::div_mod::{lemma_div_is_ordered, lemma_div_multiples_vanish};
use vstd::arithmetic::mul::lemma_mul_inequality;
use vstd::prelude::*;

use crate::error::Error;

verus! {

/// How many panes can be live at once.
pub const MAX_BASE_PANES: usize = 8;

/// The last point of each axis of the pane grid: coordinates run from 0 to this.
pub const GRID_MAX: u8 = 255;

/// A rectangle of the pane grid, showing buffer `buf_num`.
#[derive(Clone, Copy, Debug, PartialEq, Eq, Structural)]
pub struct Pane {
    pub buf_num: usize,
    pub row0: u8,
    pub col0: u8,
    pub row1: u8,
    pub col1: u8,
}

/// The axis along which a pane is cut in two: `Row` stacks the halves, `Col` sets them side by
/// side.
#[derive(Clone, Copy, Debug, PartialEq, Eq, Structural)]
pub enum SplitType {
    Row,
    Col,
}

/// A pane's corners are in order on both axes.
pub open spec fn pane_ok(p: Pane) -> bool {
    p.row0 <= p.row1 && p.col0 <= p.col1
}

/// An empty slot, or one holding a pane with its corners in order.
pub open spec fn slot_ok(slot: Option<Pane>) -> bool {
    match slot {
        Some(p) => pane_ok(p),
        None => true,
    }
}

/// The pane's extent on `axis`.
pub open spec fn extent(p: Pane, axis: SplitType) -> (int, int) {
    match axis {
        SplitType::Row => (p.row0 as int, p.row1 as int),
        SplitType::Col => (p.col0 as int, p.col1 as int),
    }
}

/// The pane with its extent on `axis` set to `lo`..`hi`.
pub open spec fn with_extent(p: Pane, axis: SplitType, lo: int, hi: int) -> Pane {
    match axis {
        SplitType::Row => Pane { row0: lo as u8, row1: hi as u8, ..p },
        SplitType::Col => Pane { col0: lo as u8, col1: hi as u8, ..p },
    }
}

/// The middle of `lo`..`hi`, rounded down.
pub open spec fn midpoint(lo: int, hi: int) -> int {
    lo + (hi - lo) / 2
}

/// Where a grid point `p` goes when a pane spanning `lo`..`hi` is split: a point below the
/// middle of that span is drawn toward 0, one above it toward the grid's end, each by the factor
/// `GRID_MAX / (GRID_MAX + (hi - lo))`, rounding toward the point's own side; the middle stays.
pub open spec fn scale_point(p: int, lo: int, hi: int) -> int {
    let max = GRID_MAX as int;
    let mid = midpoint(lo, hi);
    if p < mid {
        p * max / (max + (hi - lo))
    } else if p > mid {
        max - (max - p) * max / (max + (hi - lo))
    } else {
        p
    }
}

/// A pane after a split of the span `lo`..`hi` on `axis` made room: both of its ends on that
/// axis are scaled.
pub open spec fn scaled_pane(p: Pane, axis: SplitType, lo: int, hi: int) -> Pane {
    with_extent(
        p,
        axis,
        scale_point(extent(p, axis).0, lo, hi),
        scale_point(extent(p, axis).1, lo, hi),
    )
}

/// The slot table after pane `target` is split on `axis`, the new half going to slot `free`:
/// every live pane is scaled; then the target keeps the lower half of its scaled span and the
/// new pane, otherwise a copy of it, takes the upper half.
pub open spec fn split_layout(panes: Seq<Option<Pane>>, target: int, axis: SplitType, free: int) -> Seq<
    Option<Pane>,
> {
    let t = panes[target]->Some_0;
    let (lo, hi) = extent(t, axis);
    let lo2 = scale_point(lo, lo, hi);
    let hi2 = scale_point(hi, lo, hi);
    let mid = midpoint(lo2, hi2);
    Seq::new(
        panes.len(),
        |i: int|
            if i == target {
                Some(with_extent(t, axis, lo2, mid))
            } else if i == free {
                Some(with_extent(t, axis, mid, hi2))
            } else {
                match panes[i] {
                    Some(p) => Some(scaled_pane(p, axis, lo, hi)),
                    None => None,
                }
            },
    )
}

/// The number of live panes in a slot table.
pub open spec fn live_count(panes: Seq<Option<Pane>>) -> nat
    decreases panes.len(),
{
    if panes.len() == 0 {
        0
    } else {
        live_count(panes.drop_last()) + if panes.last() is Some {
            1nat
        } else {
            0nat
        }
    }
}

proof fn lemma_scale_bounds(p: int, lo: int, hi: int)
    requires
        0 <= lo <= hi <= GRID_MAX,
        0 <= p <= GRID_MAX,
    ensures
        0 <= scale_point(p, lo, hi) <= GRID_MAX,
        p < midpoint(lo, hi) ==> scale_point(p, lo, hi) <= p,
        p >= midpoint(lo, hi) ==> scale_point(p, lo, hi) >= p,
{
    let max = GRID_MAX as int;
    let d = max + (hi - lo);
    if p < midpoint(lo, hi) {
        lemma_mul_inequality(max, d, p);
        lemma_div_is_ordered(p * max, d * p, d);
        lemma_div_multiples_vanish(p, d);
        assert(p * max == max * p) by (nonlinear_arith);
        assert(d * p == p * d) by (nonlinear_arith);
        assert(0 <= p * max) by (nonlinear_arith)
            requires
                0 <= p,
                0 <= max,
        ;
        lemma_div_is_ordered(0, p * max, d);
    } else if p > midpoint(lo, hi) {
        let q = max - p;
        lemma_mul_inequality(max, d, q);
        lemma_div_is_ordered(q * max, d * q, d);
        lemma_div_multiples_vanish(q, d);
        assert(d * q == q * d) by (nonlinear_arith);
        assert(0 <= q * max) by (nonlinear_arith)
            requires
                0 <= q,
                0 <= max,
        ;
        lemma_div_is_ordered(0, q * max, d);
    }
}

proof fn lemma_scale_ordered(p: int, q: int, lo: int, hi: int)
    requires
        0 <= lo <= hi <= GRID_MAX,
        0 <= p <= q <= GRID_MAX,
    ensures
        scale_point(p, lo, hi) <= scale_point(q, lo, hi),
{
    let max = GRID_MAX as int;
    let d = max + (hi - lo);
    let mid = midpoint(lo, hi);
    lemma_scale_bounds(p, lo, hi);
    lemma_scale_bounds(q, lo, hi);
    if q < mid {
        lemma_mul_inequality(p, q, max);
        lemma_div_is_ordered(p * max, q * max, d);
    } else if p > mid {
        lemma_mul_inequality(max - q, max - p, max);
        lemma_div_is_ordered((max - q) * max, (max - p) * max, d);
    }
}

fn scale(p: u8, lo: u8, hi: u8) -> (r: u8)
    requires
        lo <= hi,
    ensures
        r == scale_point(p as int, lo as int, hi as int),
{
    proof {
        lemma_scale_bounds(p as int, lo as int, hi as int);
    }
    let max: u32 = GRID_MAX as u32;
    let span: u32 = (hi - lo) as u32;
    let mid: u8 = lo + (hi - lo) / 2;
    if p < mid {
        ((p as u32) * max / (max + span)) as u8
    } else if p > mid {
        (max - (max - p as u32) * max / (max + span)) as u8
    } else {
        p
    }
}

fn scale_pane(p: Pane, axis: SplitType, lo: u8, hi: u8) -> (r: Pane)
    requires
        lo <= hi,
        pane_ok(p),
    ensures
        r == scaled_pane(p, axis, lo as int, hi as int),
        pane_ok(r),
{
    proof {
        let (a, b) = extent(p, axis);
        lemma_scale_ordered(a, b, lo as int, hi as int);
        lemma_scale_bounds(a, lo as int, hi as int);
        lemma_scale_bounds(b, lo as int, hi as int);
    }
    match axis {
        SplitType::Row => Pane { row0: scale(p.row0, lo, hi), row1: scale(p.row1, lo, hi), ..p },
        SplitType::Col => Pane { col0: scale(p.col0, lo, hi), col1: scale(p.col1, lo, hi), ..p },
    }
}

/// The live panes: a fixed table of slots, each empty or holding a pane of the grid.
pub struct PaneManager {
    base_panes: Vec<Option<Pane>>,
}

impl PaneManager {
    /// The table has `MAX_BASE_PANES` slots, and every live pane has its corners in order;
    /// `use_type_invariant` on a manager, then `lemma_well_formed`, brings these facts to a
    /// caller.
    #[verifier::type_invariant]
    pub closed spec fn well_formed(&self) -> bool {
        &&& self.base_panes@.len() == MAX_BASE_PANES
        &&& forall|i: int| 0 <= i < self.base_panes@.len() ==> slot_ok(#[trigger] self.base_panes@[i])
    }

    /// What a well-formed manager's slot table is like.
    pub proof fn lemma_well_formed(&self)
        requires
            self.well_formed(),
        ensures
            self.panes().len() == MAX_BASE_PANES,
            forall|i: int| 0 <= i < MAX_BASE_PANES ==> slot_ok(#[trigger] self.panes()[i]),
    {
    }

    /// The slot table.
    pub closed spec fn panes(&self) -> Seq<Option<Pane>> {
        self.base_panes@
    }

    /// One pane, for buffer 0, covering the whole grid.
    pub fn new() -> (r: PaneManager)
        ensures
            r.panes().len() == MAX_BASE_PANES,
            r.panes()[0] == Some(
                Pane { buf_num: 0, row0: 0, col0: 0, row1: GRID_MAX, col1: GRID_MAX },
            ),
            forall|i: int| 1 <= i < MAX_BASE_PANES ==> r.panes()[i] is None,
    {
        let mut base_panes: Vec<Option<Pane>> = Vec::new();
        base_panes.push(Some(Pane { buf_num: 0, row0: 0, col0: 0, row1: GRID_MAX, col1: GRID_MAX }));
        while base_panes.len() < MAX_BASE_PANES
            invariant
                1 <= base_panes@.len() <= MAX_BASE_PANES,
                base_panes@[0] == Some(
                    Pane { buf_num: 0, row0: 0, col0: 0, row1: GRID_MAX, col1: GRID_MAX },
                ),
                forall|i: int| 1 <= i < base_panes@.len() ==> base_panes@[i] is None,
            decreases MAX_BASE_PANES - base_panes@.len(),
        {
            base_panes.push(None);
        }
        PaneManager { base_panes }
    }

    /// The pane in slot `i`, if that slot holds one.
    pub fn pane(&self, i: usize) -> (r: Option<Pane>)
        ensures
            r == if i < self.panes().len() {
                self.panes()[i as int]
            } else {
                None
            },
    {
        if i < self.base_panes.len() {
            self.base_panes[i]
        } else {
            None
        }
    }

    /// Cuts pane `pane_num` in two on `split_type`, making room by scaling every live pane
    /// toward the ends of the grid, and returns the slot of the new half: the first free one.
    /// Fails, changing nothing, where `pane_num` names no live pane, or else where no slot is
    /// free.
    pub fn split(&mut self, pane_num: usize, split_type: SplitType) -> (r: Result<usize, Error>)
        ensures
            (pane_num >= MAX_BASE_PANES || old(self).panes()[pane_num as int] is None) ==> r
                == Err::<usize, Error>(Error::InvalidPaneId),
            (pane_num < MAX_BASE_PANES && old(self).panes()[pane_num as int] is Some && forall|
                i: int,
            | 0 <= i < MAX_BASE_PANES ==> old(self).panes()[i] is Some) ==> r == Err::<
                usize,
                Error,
            >(Error::PaneCapacityExceeded),
            (pane_num < MAX_BASE_PANES && old(self).panes()[pane_num as int] is Some && exists|
                i: int,
            | 0 <= i < MAX_BASE_PANES && old(self).panes()[i] is None) ==> r is Ok,
            r is Err ==> final(self).panes() == old(self).panes(),
            r matches Ok(free) ==> {
                &&& pane_num < MAX_BASE_PANES
                &&& old(self).panes()[pane_num as int] is Some
                &&& free < MAX_BASE_PANES
                &&& old(self).panes()[free as int] is None
                &&& forall|i: int| 0 <= i < free ==> old(self).panes()[i] is Some
                &&& final(self).panes() == split_layout(
                    old(self).panes(),
                    pane_num as int,
                    split_type,
                    free as int,
                )
            },
    {
        proof {
            use_type_invariant(&*self);
        }
        let n = self.base_panes.len();
        if pane_num >= n {
            return Err(Error::InvalidPaneId);
        }
        let target = match self.base_panes[pane_num] {
            Some(p) => p,
            None => {
                return Err(Error::InvalidPaneId);
            },
        };
        let mut free: usize = 0;
        while free < n && self.base_panes[free].is_some()
            invariant
                n == self.base_panes@.len(),
                free <= n,
                forall|i: int| 0 <= i < free ==> self.base_panes@[i] is Some,
            decreases n - free,
        {
            free = free + 1;
        }
        if free == n {
            return Err(Error::PaneCapacityExceeded);
        }
        let (lo, hi) = match split_type {
            SplitType::Row => (target.row0, target.row1),
            SplitType::Col => (target.col0, target.col1),
        };
        let ghost old_panes = self.base_panes@;
        let mut next: Vec<Option<Pane>> = Vec::new();
        let mut i: usize = 0;
        while i < n
            invariant
                n == MAX_BASE_PANES,
                self.base_panes@ == old_panes,
                old_panes.len() == n,
                next@.len() == i,
                i <= n,
                lo <= hi,
                forall|j: int| 0 <= j < n ==> slot_ok(#[trigger] old_panes[j]),
                forall|j: int| 0 <= j < i ==> slot_ok(#[trigger] next@[j]),
                forall|j: int|
                    0 <= j < i ==> #[trigger] next@[j] == match old_panes[j] {
                        Some(p) => Some(scaled_pane(p, split_type, lo as int, hi as int)),
                        None => None,
                    },
            decreases n - i,
        {
            match self.base_panes[i] {
                Some(p) => {
                    assert(slot_ok(old_panes[i as int]));
                    next.push(Some(scale_pane(p, split_type, lo, hi)));
                },
                None => {
                    next.push(None);
                },
            }
            i = i + 1;
        }
        proof {
            lemma_scale_ordered(lo as int, hi as int, lo as int, hi as int);
            lemma_scale_bounds(lo as int, lo as int, hi as int);
            lemma_scale_bounds(hi as int, lo as int, hi as int);
        }
        let lo2 = scale(lo, lo, hi);
        let hi2 = scale(hi, lo, hi);
        let mid = lo2 + (hi2 - lo2) / 2;
        let (kept, added) = match split_type {
            SplitType::Row => (
                Pane { row0: lo2, row1: mid, ..target },
                Pane { row0: mid, row1: hi2, ..target },
            ),
            SplitType::Col => (
                Pane { col0: lo2, col1: mid, ..target },
                Pane { col0: mid, col1: hi2, ..target },
            ),
        };
        next.set(pane_num, Some(kept));
        next.set(free, Some(added));
        proof {
            assert(next@ =~= split_layout(old_panes, pane_num as int, split_type, free as int));
            assert forall|j: int| 0 <= j < n implies slot_ok(#[trigger] next@[j]) by {
                if j != pane_num && j != free {
                    assert(slot_ok(old_panes[j]));
                }
            }
        }
        self.base_panes = next;
        Ok(free)
    }

    /// `split` stacking the halves, one above the other.
    pub fn hsplit(&mut self, pane_num: usize) -> (r: Result<usize, Error>)
        ensures
            (pane_num >= MAX_BASE_PANES || old(self).panes()[pane_num as int] is None) ==> r
                == Err::<usize, Error>(Error::InvalidPaneId),
            (pane_num < MAX_BASE_PANES && old(self).panes()[pane_num as int] is Some && forall|
                i: int,
            | 0 <= i < MAX_BASE_PANES ==> old(self).panes()[i] is Some) ==> r == Err::<
                usize,
                Error,
            >(Error::PaneCapacityExceeded),
            (pane_num < MAX_BASE_PANES && old(self).panes()[pane_num as int] is Some && exists|
                i: int,
            | 0 <= i < MAX_BASE_PANES && old(self).panes()[i] is None) ==> r is Ok,
            r is Err ==> final(self).panes() == old(self).panes(),
            r matches Ok(free) ==> {
                &&& pane_num < MAX_BASE_PANES
                &&& old(self).panes()[pane_num as int] is Some
                &&& free < MAX_BASE_PANES
                &&& old(self).panes()[free as int] is None
                &&& forall|i: int| 0 <= i < free ==> old(self).panes()[i] is Some
                &&& final(self).panes() == split_layout(
                    old(self).panes(),
                    pane_num as int,
                    SplitType::Row,
                    free as int,
                )
            },
    {
        self.split(pane_num, SplitType::Row)
    }

    /// `split` setting the halves side by side.
    pub fn vsplit(&mut self, pane_num: usize) -> (r: Result<usize, Error>)
        ensures
            (pane_num >= MAX_BASE_PANES || old(self).panes()[pane_num as int] is None) ==> r
                == Err::<usize, Error>(Error::InvalidPaneId),
            (pane_num < MAX_BASE_PANES && old(self).panes()[pane_num as int] is Some && forall|
                i: int,
            | 0 <= i < MAX_BASE_PANES ==> old(self).panes()[i] is Some) ==> r == Err::<
                usize,
                Error,
            >(Error::PaneCapacityExceeded),
            (pane_num < MAX_BASE_PANES && old(self).panes()[pane_num as int] is Some && exists|
                i: int,
            | 0 <= i < MAX_BASE_PANES && old(self).panes()[i] is None) ==> r is Ok,
            r is Err ==> final(self).panes() == old(self).panes(),
            r matches Ok(free) ==> {
                &&& pane_num < MAX_BASE_PANES
                &&& old(self).panes()[pane_num as int] is Some
                &&& free < MAX_BASE_PANES
                &&& old(self).panes()[free as int] is None
                &&& forall|i: int| 0 <= i < free ==> old(self).panes()[i] is Some
                &&& final(self).panes() == split_layout(
                    old(self).panes(),
                    pane_num as int,
                    SplitType::Col,
                    free as int,
                )
            },
    {
        self.split(pane_num, SplitType::Col)
    }

    /// How many panes are live.
    pub fn num_base_panes(&self) -> (r: usize)
        ensures
            r == live_count(self.panes()),
    {
        let mut count: usize = 0;
        let mut i: usize = 0;
        while i < self.base_panes.len()
            invariant
                i <= self.base_panes@.len(),
                count == live_count(self.base_panes@.subrange(0, i as int)),
                count <= i,
            decreases self.base_panes@.len() - i,
        {
            proof {
                assert(self.base_panes@.subrange(0, i + 1).drop_last() =~= self.base_panes@.subrange(
                    0,
                    i as int,
                ));
            }
            if self.base_panes[i].is_some() {
                count = count + 1;
            }
            i = i + 1;
        }
        proof {
            assert(self.base_panes@.subrange(0, i as int) =~= self.base_panes@);
        }
        count
    }
}

} // verus!
