//! Equality and order of scalars, as numbers.
//!
//! `==` and `<` compare values, not patterns: the two zeros are equal, and a
//! NaN is neither equal to anything nor ordered with anything, itself included.

use vstd::prelude::*;
use vstd::std_specs::cmp::{PartialEqSpecImpl, PartialOrdSpecImpl};
use core::cmp::Ordering;
use crate::scalar::{Scalar, lemma_rank_order};

verus! {

/// Both are numbers, and the same number.
pub open spec fn equal(a: Scalar, b: Scalar) -> bool {
    !a.nan() && !b.nan() && a.value() == b.value()
}

/// Both are numbers, and the first is the smaller.
pub open spec fn less(a: Scalar, b: Scalar) -> bool {
    !a.nan() && !b.nan() && a.value() < b.value()
}

/// Both are numbers, and the first is not the larger.
pub open spec fn less_or_equal(a: Scalar, b: Scalar) -> bool {
    !a.nan() && !b.nan() && a.value() <= b.value()
}

impl PartialEqSpecImpl for Scalar {
    open spec fn obeys_eq_spec() -> bool {
        true
    }

    open spec fn eq_spec(&self, other: &Scalar) -> bool {
        equal(*self, *other)
    }
}

impl PartialEq for Scalar {
    fn eq(&self, other: &Scalar) -> (r: bool)
        ensures
            r == equal(*self, *other),
    {
        proof {
            lemma_rank_order(*self, *other);
        }
        !self.is_nan() && !other.is_nan() && self.signed_rank() == other.signed_rank()
    }
}

impl PartialOrdSpecImpl for Scalar {
    open spec fn obeys_partial_cmp_spec() -> bool {
        true
    }

    open spec fn partial_cmp_spec(&self, other: &Scalar) -> Option<Ordering> {
        if self.nan() || other.nan() {
            None
        } else if self.value() < other.value() {
            Some(Ordering::Less)
        } else if self.value() == other.value() {
            Some(Ordering::Equal)
        } else {
            Some(Ordering::Greater)
        }
    }
}

impl PartialOrd for Scalar {
    fn partial_cmp(&self, other: &Scalar) -> (r: Option<Ordering>)
        ensures
            r == Some(Ordering::Less) <==> less(*self, *other),
            r == Some(Ordering::Greater) <==> less(*other, *self),
            r == Some(Ordering::Equal) <==> equal(*self, *other),
            r is None <==> self.nan() || other.nan(),
    {
        proof {
            lemma_rank_order(*self, *other);
        }
        if self.is_nan() || other.is_nan() {
            None
        } else {
            let a: i64 = self.signed_rank();
            let b: i64 = other.signed_rank();
            if a < b {
                Some(Ordering::Less)
            } else if a == b {
                Some(Ordering::Equal)
            } else {
                Some(Ordering::Greater)
            }
        }
    }
}

} // verus!
