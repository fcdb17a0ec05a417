use vstd::prelude::*;

verus! {

/// A fraction `num / den` clamped to `[0, 1]`, used to ask a histogram for a
/// percentile (`Quantile::new(99, 100)` is the 99th percentile).
#[derive(Clone, Copy, Debug)]
pub struct Quantile {
    num: u64,
    den: u64,
}

/// The numerator that `Quantile::new(num, den)` keeps: `num` clamped to `[0, den]`.
pub open spec fn clamped_num(num: int, den: int) -> int {
    if num <= 0 {
        0
    } else if num >= den {
        den
    } else {
        num
    }
}

impl View for Quantile {
    type V = (nat, nat);

    closed spec fn view(&self) -> (nat, nat) {
        (self.num as nat, self.den as nat)
    }
}

impl Quantile {
    /// A well-formed quantile has a positive denominator and lies in `[0, 1]`.
    pub closed spec fn wf(&self) -> bool {
        self.den > 0 && self.num <= self.den
    }

    pub proof fn lemma_wf(&self)
        requires
            self.wf(),
        ensures
            self@.1 > 0,
            self@.0 <= self@.1,
            self@.1 <= u64::MAX,
    {
    }

    /// The quantile `num / den`, clamped to `[0, 1]`: a negative numerator
    /// gives `0`, one above `den` gives `1`.
    pub fn new(num: i64, den: u64) -> (q: Quantile)
        requires
            den > 0,
        ensures
            q.wf(),
            q@.1 == den,
            q@.0 == clamped_num(num as int, den as int),
    {
        if num <= 0 {
            Quantile { num: 0, den }
        } else if num as u64 >= den {
            Quantile { num: den, den }
        } else {
            Quantile { num: num as u64, den }
        }
    }

    /// The numerator, in `[0, den()]`.
    pub fn num(&self) -> (r: u64)
        ensures
            r == self@.0,
    {
        self.num
    }

    /// The denominator, positive.
    pub fn den(&self) -> (r: u64)
        ensures
            r == self@.1,
    {
        self.den
    }
}

} // verus!
