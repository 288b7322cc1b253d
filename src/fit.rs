//! The search for the largest point size at which a text, wrapped to a box's
//! width, fits the box's height. The caller measures each trial size.
use vstd::prelude::*;

verus! {

/// A binary search over the point sizes `[low, high]`, remembering the
/// largest size that fitted so far (`best`, the smallest size at first).
pub struct FitSearch {
    pub low: i32,
    pub high: i32,
    pub best: u16,
}

impl FitSearch {
    /// A search over `[min_pt, max_pt]`.
    pub fn new(min_pt: u16, max_pt: u16) -> (r: FitSearch)
        ensures
            r.low == min_pt,
            r.high == max_pt,
            r.best == min_pt,
    {
        FitSearch { low: min_pt as i32, high: max_pt as i32, best: min_pt }
    }

    pub open spec fn well_formed(&self) -> bool {
        0 <= self.low <= u16::MAX + 1 && -1 <= self.high <= u16::MAX
    }

    pub open spec fn spec_trial(&self) -> Option<u16> {
        if self.low <= self.high {
            Some(((self.low + self.high) / 2) as u16)
        } else {
            None
        }
    }

    /// The size to try next: the middle of the range, or none once the
    /// range is empty and `best` is the answer.
    pub fn next_trial(&self) -> (r: Option<u16>)
        requires
            self.well_formed(),
        ensures
            r == self.spec_trial(),
    {
        if self.low <= self.high {
            Some(((self.low + self.high) / 2) as u16)
        } else {
            None
        }
    }

    /// Takes the outcome for the trial size: if the text fitted, it becomes
    /// `best` and larger sizes are tried; else smaller ones.
    pub fn record(&mut self, fits: bool)
        requires
            old(self).well_formed(),
            old(self).spec_trial() is Some,
        ensures
            final(self).well_formed(),
            *final(self) == old(self).recorded(fits),
            final(self).high - final(self).low < old(self).high - old(self).low,
    {
        let mid = (self.low + self.high) / 2;
        if fits {
            self.best = mid as u16;
            self.low = mid + 1;
        } else {
            self.high = mid - 1;
        }
    }

    /// The search after the outcome for its trial size.
    pub open spec fn recorded(self, fits: bool) -> FitSearch {
        let mid = (self.low + self.high) / 2;
        if fits {
            FitSearch { low: (mid + 1) as i32, high: self.high, best: mid as u16 }
        } else {
            FitSearch { low: self.low, high: (mid - 1) as i32, best: self.best }
        }
    }
}

/// What the search knows when every size up to `t` fits and none above it
/// does: `best` is the largest size seen to fit (or `min_pt` while none
/// has), sizes below `low` fit and sizes above `high` do not.
pub open spec fn fit_inv(s: FitSearch, min_pt: int, max_pt: int, t: int) -> bool {
    &&& min_pt <= s.low <= s.high + 1
    &&& s.high <= max_pt
    &&& s.low == min_pt ==> s.best == min_pt
    &&& s.low > min_pt ==> s.best == s.low - 1 && s.best <= t
    &&& s.high < max_pt ==> s.high + 1 > t
}

/// The largest size in `[min_pt, max_pt]` that is at most `t`, or `min_pt`
/// when there is none.
pub open spec fn largest_fit(min_pt: int, max_pt: int, t: int) -> int {
    if t < min_pt {
        min_pt
    } else if t > max_pt {
        max_pt
    } else {
        t
    }
}

/// A new search over a non-empty range starts in that state.
pub proof fn fit_search_starts(min_pt: u16, max_pt: u16, t: int)
    requires
        min_pt <= max_pt,
    ensures
        fit_inv(FitSearch { low: min_pt as i32, high: max_pt as i32, best: min_pt }, min_pt as int, max_pt as int, t),
{
}

/// Answering the trial truthfully (it fits exactly when it is at most `t`)
/// keeps that state.
pub proof fn fit_search_answer_keeps(s: FitSearch, min_pt: u16, max_pt: u16, t: int)
    requires
        s.well_formed(),
        s.spec_trial() is Some,
        fit_inv(s, min_pt as int, max_pt as int, t),
    ensures
        fit_inv(s.recorded((s.low + s.high) / 2 <= t), min_pt as int, max_pt as int, t),
{
}

/// When no size is left to try, `best` is the largest size in the range
/// that fits, or the smallest size of the range if none does.
pub proof fn fit_search_ends_with_largest(s: FitSearch, min_pt: u16, max_pt: u16, t: int)
    requires
        min_pt <= max_pt,
        s.spec_trial() is None,
        fit_inv(s, min_pt as int, max_pt as int, t),
    ensures
        s.best == largest_fit(min_pt as int, max_pt as int, t),
{
}

} // verus!
