use vstd::prelude::*;

verus! {

/// Fixed-point scale: a trigonometric value `v` in `[-1, 1]` is stored as
/// the integer `round(v * SCALE)`.
pub const SCALE: i64 = 1024;

/// `SCALE` squared.
pub const SCALE2: i64 = SCALE * SCALE;

/// `SCALE` cubed.
pub const SCALE3: i64 = SCALE * SCALE * SCALE;

/// `SCALE` to the fourth power.
pub const SCALE4: i64 = SCALE * SCALE * SCALE * SCALE;

/// The cosine and sine of one angle, in fixed point at scale `SCALE`.
#[derive(Clone, Copy, PartialEq, Eq, Structural)]
pub struct TrigPair {
    pub c: i64,
    pub s: i64,
}

impl TrigPair {
    /// Well-formed: both components lie in `[-SCALE, SCALE]` and the squared
    /// norm is at most `norm_cap()`, the largest value that rounding an exact
    /// unit vector to this scale can reach.
    pub open spec fn wf(self) -> bool {
        &&& -SCALE <= self.c <= SCALE
        &&& -SCALE <= self.s <= SCALE
        &&& self.c * self.c + self.s * self.s <= norm_cap()
    }

    /// Exactly on the unit circle in the fixed-point model.
    pub open spec fn is_unit(self) -> bool {
        self.c * self.c + self.s * self.s == SCALE * SCALE
    }

    /// Builds a pair, accepting exactly the well-formed values.
    pub fn new(c: i64, s: i64) -> (r: Option<TrigPair>)
        ensures
            match r {
                Some(t) => t == (TrigPair { c, s }) && t.wf(),
                None => !(TrigPair { c, s }).wf(),
            },
    {
        if -SCALE <= c && c <= SCALE && -SCALE <= s && s <= SCALE {
            proof {
                lemma_square_in_range(c as int);
                lemma_square_in_range(s as int);
            }
            if c * c + s * s <= SCALE * SCALE + 2 * SCALE {
                return Some(TrigPair { c, s });
            }
        }
        None
    }
}

/// Upper bound on the squared norm of a well-formed pair: rounding each
/// component of an exact unit vector moves it by at most 1/2, so the squared
/// norm stays below `SCALE^2 + 2*SCALE`.
pub open spec fn norm_cap() -> int {
    SCALE * SCALE + 2 * SCALE
}

/// The square of a fixed-point trig component is small and non-negative.
pub proof fn lemma_square_in_range(c: int)
    by (nonlinear_arith)
    requires
        -SCALE <= c <= SCALE,
    ensures
        0 <= c * c <= SCALE * SCALE,
{
}

/// Every entry of the table is well-formed.
pub open spec fn wf_table(t: Seq<TrigPair>) -> bool {
    forall|i: int| 0 <= i < t.len() ==> (#[trigger] t[i]).wf()
}

} // verus!
