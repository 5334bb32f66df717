use vstd::prelude::*;

use crate::time::Timestamp;

verus! {

/// A strict order on points in time.
pub trait TimeOrder: Sized {
    spec fn spec_before(&self, other: &Self) -> bool;

    fn before(&self, other: &Self) -> (r: bool)
        ensures
            r == self.spec_before(other),
    ;
}

impl TimeOrder for Timestamp {
    open spec fn spec_before(&self, other: &Self) -> bool {
        Timestamp::spec_before(self, other)
    }

    fn before(&self, other: &Self) -> (r: bool) {
        Timestamp::before(self, other)
    }
}

/// A filter on points in time: everything, or an open interval.
pub enum Window<T> {
    Unbound,
    Bound { start: T, end: T },
}

impl<T> Window<T> {
    pub fn new(start: T, end: T) -> (r: Self)
        ensures
            r == (Window::Bound { start, end }),
    {
        Window::Bound { start, end }
    }
}

impl<T: TimeOrder> Window<T> {
    /// Membership: `start < point < end`, or anything when unbound.
    pub open spec fn holds(&self, point: &T) -> bool {
        match self {
            Window::Unbound => true,
            Window::Bound { start, end } => start.spec_before(point) && point.spec_before(end),
        }
    }

    pub fn contains(&self, item: &T) -> (r: bool)
        ensures
            r == self.holds(item),
    {
        match self {
            Window::Unbound => true,
            Window::Bound { start, end } => start.before(item) && item.before(end),
        }
    }
}

/// A bounded window excludes both of its ends, and the unbounded window
/// admits every point.
pub proof fn window_is_open(start: Timestamp, end: Timestamp, point: Timestamp)
    ensures
        !(Window::Bound { start, end }).holds(&start),
        !(Window::Bound { start, end }).holds(&end),
        Window::<Timestamp>::Unbound.holds(&point),
{
}

} // verus!
