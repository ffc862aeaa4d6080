//! Canonical per-axis ranges and their semantics.
//!
//! Each of the three selection axes (line, field, character) is governed by
//! one [`GridSliceRange`]: a `from` bound, a `to` bound (possibly unbounded),
//! a non-zero `step`, and an `exclude` flag.  A range is first *normalized*
//! against the concrete length of the sequence it filters (resolving negative
//! wraparound indices and reflecting the bounds when the step is negative),
//! and indices are then tested for membership with [`is_inside_range`].
//!
//! The `exclude` flag is parsed and carried through resolution and
//! normalization, but the membership test deliberately does not consult it:
//! selection semantics are unaffected by `!` markers in the expression.

use vstd::arithmetic::div_mod::{
    lemma_div_pos_is_pos, lemma_fundamental_div_mod, lemma_mod_multiples_basic,
};
use vstd::math::abs;
use vstd::prelude::*;

verus! {

/// The upper bound of a range: either open ("extend to the end of the
/// sequence") or a concrete index, where a negative index counts back from
/// the end of the sequence.
#[derive(Clone, Copy, Debug, PartialEq, Eq, Structural)]
pub enum EndBound {
    Unbounded,
    Index(i64),
}

/// The canonical range for one axis, before normalization: resolved from the
/// expression's from/to/step endpoint groups by the parser.
#[derive(Clone, Copy, Debug, PartialEq, Eq, Structural)]
pub struct GridSliceRange {
    pub from: i64,
    pub to: EndBound,
    pub step: i64,
    pub exclude: bool,
}

/// The three canonical ranges of a full slice expression.
#[derive(Clone, Copy, Debug, PartialEq, Eq, Structural)]
pub struct GridSliceFilter {
    pub line: GridSliceRange,
    pub field: GridSliceRange,
    pub character: GridSliceRange,
}

/// The mathematical model of a [`GridSliceRange`]: unbounded integers, with
/// `to == None` standing for an open upper bound.
pub ghost struct RangeModel {
    pub from: int,
    pub to: Option<int>,
    pub step: int,
    pub exclude: bool,
}

/// The mathematical model of a [`GridSliceFilter`].
pub ghost struct FilterModel {
    pub line: RangeModel,
    pub field: RangeModel,
    pub character: RangeModel,
}

impl View for GridSliceRange {
    type V = RangeModel;

    open spec fn view(&self) -> RangeModel {
        RangeModel {
            from: self.from as int,
            to: match self.to {
                EndBound::Unbounded => None,
                EndBound::Index(t) => Some(t as int),
            },
            step: self.step as int,
            exclude: self.exclude,
        }
    }
}

impl View for GridSliceFilter {
    type V = FilterModel;

    open spec fn view(&self) -> FilterModel {
        FilterModel { line: self.line@, field: self.field@, character: self.character@ }
    }
}

/// The range an axis gets when the expression says nothing about it:
/// everything, in order (`from = 0`, open upper bound, `step = 1`).
pub open spec fn default_range_model() -> RangeModel {
    RangeModel { from: 0, to: None, step: 1, exclude: false }
}

/// Index `i` is selected by the (normalized) range `m` iff it lies at or
/// above the lower bound, at or below the upper bound (when one is set), and
/// at a whole number of steps from the lower bound.
pub open spec fn range_contains(m: RangeModel, i: int) -> bool
    recommends
        m.step != 0,
{
    &&& m.from <= i
    &&& match m.to {
        Option::None => true,
        Option::Some(t) => i <= t,
    }
    &&& abs(m.from - i) % abs(m.step) == 0
}

/// Normalization of a range against the concrete sequence length `n`:
/// negative bounds wrap around from the end (clipped at 0), and a negative
/// step reflects the bounds so that membership testing can walk the reversed
/// sequence with an increasing index.  An open upper bound stays open under a
/// positive step, and acts as "last element" (`n - 1`) under a negative one.
pub open spec fn normalize_model(m: RangeModel, n: int) -> RangeModel {
    let from = if m.from < 0 {
        if n + m.from < 0 {
            0
        } else {
            n + m.from
        }
    } else {
        m.from
    };
    if m.step > 0 {
        let to = match m.to {
            Option::None => Option::<int>::None,
            Option::Some(t) => Option::Some(
                if t < 0 {
                    if n + t < 0 {
                        0
                    } else {
                        n + t
                    }
                } else {
                    t
                },
            ),
        };
        RangeModel { from, to, step: m.step, exclude: m.exclude }
    } else {
        let to = match m.to {
            Option::None => if n - 1 < 0 {
                0
            } else {
                n - 1
            },
            Option::Some(t) => if t < 0 {
                if n + t < 0 {
                    0
                } else {
                    n + t
                }
            } else {
                t
            },
        };
        RangeModel { from: n - to - 1, to: Option::Some(n - from - 1), step: m.step, exclude: m.exclude }
    }
}

/// A raw line range forces the input to be fully buffered when it has a
/// genuine negative `from`, a genuine negative `to` (an open upper bound does
/// not count), or a negative step: each of these needs the total line count
/// before any line can be judged.
pub open spec fn spec_needs_buffering(m: RangeModel) -> bool {
    ||| m.from < 0
    ||| match m.to {
        Option::Some(t) => t < 0,
        Option::None => false,
    }
    ||| m.step < 0
}

/// A range that streaming mode leaves raw is already in normal form: with a
/// non-negative `from`, a non-negative (or open) `to` and a positive step,
/// normalization against any length changes nothing.
pub proof fn lemma_streaming_range_is_normal(m: RangeModel, n: int)
    requires
        !spec_needs_buffering(m),
        m.step != 0,
    ensures
        normalize_model(m, n) == m,
{
}

impl GridSliceFilter {
    /// The buffering decision rule, applied to this filter's line range.
    pub fn needs_buffering(&self) -> (b: bool)
        ensures
            b == spec_needs_buffering(self.line@),
    {
        self.line.from < 0 || (match self.line.to {
            EndBound::Index(t) => t < 0,
            EndBound::Unbounded => false,
        }) || self.line.step < 0
    }
}

/// Computes [`normalize_model`] on a concrete range and length.
pub fn normalize_range(range: &GridSliceRange, length: usize) -> (r: GridSliceRange)
    requires
        length <= i64::MAX,
    ensures
        r@ == normalize_model(range@, length as int),
{
    let n = length as i64;
    let from = if range.from < 0 {
        let t = n + range.from;
        if t < 0 {
            0
        } else {
            t
        }
    } else {
        range.from
    };
    if range.step > 0 {
        let to = match range.to {
            EndBound::Unbounded => EndBound::Unbounded,
            EndBound::Index(t0) => EndBound::Index(
                if t0 < 0 {
                    let u = n + t0;
                    if u < 0 {
                        0
                    } else {
                        u
                    }
                } else {
                    t0
                },
            ),
        };
        GridSliceRange { from, to, step: range.step, exclude: range.exclude }
    } else {
        let t1 = match range.to {
            EndBound::Unbounded => if n == 0 {
                0
            } else {
                n - 1
            },
            EndBound::Index(t0) => if t0 < 0 {
                let u = n + t0;
                if u < 0 {
                    0
                } else {
                    u
                }
            } else {
                t0
            },
        };
        GridSliceRange {
            from: n - t1 - 1,
            to: EndBound::Index(n - from - 1),
            step: range.step,
            exclude: range.exclude,
        }
    }
}

/// A pinned range selects exactly one index: `{from: k, to: k, step: 1}`
/// contains `i` iff `i == k`.
pub proof fn lemma_pin_selects_one(k: int, e: bool, i: int)
    ensures
        range_contains(RangeModel { from: k, to: Some(k), step: 1, exclude: e }, i) <==> i == k,
{
    if i == k {
        assert(abs(k - i) % abs(1) == 0);
    }
}

/// The `k`-th member of the arithmetic progression that starts at `a` and
/// advances by `d`.
pub open spec fn progression_member(a: int, d: int, k: int) -> int {
    a + k * d
}

/// For a non-zero step `s` and bounds `a`, `b`, the selected index set of the
/// range `{from: a, to: b, step: s}` is the arithmetic progression
/// `{a, a + |s|, a + 2|s|, ...}` intersected with `[a, b]`.
pub proof fn lemma_range_membership(a: int, b: int, s: int, e: bool, i: int)
    requires
        s != 0,
    ensures
        range_contains(RangeModel { from: a, to: Some(b), step: s, exclude: e }, i) <==> (a <= i
            <= b && exists|k: int| 0 <= k && i == #[trigger] progression_member(a, abs(s) as int, k)),
{
    let d = abs(s) as int;
    assert(d > 0);
    if range_contains(RangeModel { from: a, to: Some(b), step: s, exclude: e }, i) {
        assert(abs(a - i) == i - a);
        assert((i - a) % d == 0);
        lemma_fundamental_div_mod(i - a, d);
        let q = (i - a) / d;
        lemma_div_pos_is_pos(i - a, d);
        assert(i - a == d * q);
        assert(d * q == q * d) by (nonlinear_arith);
        assert(0 <= q && i == progression_member(a, d, q));
    }
    if a <= i <= b && exists|k: int|
        0 <= k && i == #[trigger] progression_member(a, abs(s) as int, k) {
        let k = choose|k: int| 0 <= k && i == #[trigger] progression_member(a, abs(s) as int, k);
        assert(abs(a - i) == k * d) by {
            assert(k * d >= 0) by (nonlinear_arith)
                requires
                    k >= 0,
                    d > 0,
            ;
        }
        lemma_mod_multiples_basic(k, d);
    }
}

/// Decides [`range_contains`] for a concrete range and index.
pub fn is_inside_range(range: &GridSliceRange, current: i64) -> (b: bool)
    requires
        range.step != 0,
    ensures
        b == range_contains(range@, current as int),
{
    if current < range.from {
        return false;
    }
    match range.to {
        EndBound::Index(t) => if current > t {
            return false;
        },
        EndBound::Unbounded => {},
    }
    let d: i128 = range.from as i128 - current as i128;
    let s: i128 = range.step as i128;
    let da: u128 = if d < 0 {
        (-d) as u128
    } else {
        d as u128
    };
    let sa: u128 = if s < 0 {
        (-s) as u128
    } else {
        s as u128
    };
    assert(da == abs(range.from - current as int));
    assert(sa == abs(range.step as int));
    da % sa == 0
}

} // verus!
