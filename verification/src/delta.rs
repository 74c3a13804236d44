//! Arithmetic overlays on a 128-bit unsigned counter.
//!
//! A delta is a pending `+v` or `-v` on a value that is not yet known.  It
//! applies to a concrete base producing a concrete result, or fails when the
//! result would underflow or exceed the configured upper bound.  Two deltas
//! compose into one by summing their signed magnitudes.

use vstd::prelude::*;

verus! {

/// A pending addition (`plus == true`) or subtraction (`plus == false`) of
/// `amount`, bounded above by `limit`.
#[derive(Clone, Copy, PartialEq, Eq, Structural, Debug)]
pub struct DeltaOp {
    pub plus: bool,
    pub amount: u128,
    pub limit: u128,
}

/// A delta that adds `amount`, bounded above by `limit`.
pub fn delta_add(amount: u128, limit: u128) -> (r: DeltaOp)
    ensures
        r == (DeltaOp { plus: true, amount, limit }),
{
    DeltaOp { plus: true, amount, limit }
}

/// A delta that subtracts `amount`, bounded above by `limit`.
pub fn delta_sub(amount: u128, limit: u128) -> (r: DeltaOp)
    ensures
        r == (DeltaOp { plus: false, amount, limit }),
{
    DeltaOp { plus: false, amount, limit }
}

impl DeltaOp {
    /// The delta's effect as a signed integer.
    pub open spec fn signed(self) -> int {
        if self.plus {
            self.amount as int
        } else {
            -(self.amount as int)
        }
    }

    /// What applying this delta to `base` yields: the new value, or `None` on
    /// underflow or on exceeding `limit`.
    pub open spec fn apply_spec(self, base: u128) -> Option<u128> {
        if self.plus {
            if base + self.amount <= self.limit {
                Some((base + self.amount) as u128)
            } else {
                None
            }
        } else {
            if self.amount <= base {
                Some((base - self.amount) as u128)
            } else {
                None
            }
        }
    }

    /// Applies this delta to a concrete base value.
    pub fn apply_to(&self, base: u128) -> (r: Option<u128>)
        ensures
            r == self.apply_spec(base),
    {
        if self.plus {
            if self.amount <= self.limit && base <= self.limit - self.amount {
                Some(base + self.amount)
            } else {
                None
            }
        } else {
            if self.amount <= base {
                Some(base - self.amount)
            } else {
                None
            }
        }
    }

    /// What composing `newer` on top of `older` yields: one delta whose signed
    /// effect is the sum of the two, keeping the newer bound, or `None` when
    /// the summed magnitude cannot be represented.
    pub open spec fn merge_spec(newer: DeltaOp, older: DeltaOp) -> Option<DeltaOp> {
        let net = older.signed() + newer.signed();
        if net >= 0 {
            if net <= u128::MAX {
                Some(DeltaOp { plus: true, amount: net as u128, limit: newer.limit })
            } else {
                None
            }
        } else {
            if -net <= u128::MAX {
                Some(DeltaOp { plus: false, amount: (-net) as u128, limit: newer.limit })
            } else {
                None
            }
        }
    }

    /// Composes `self` (the newer delta) over `older`.
    pub fn merge_over(&self, older: &DeltaOp) -> (r: Option<DeltaOp>)
        ensures
            r == DeltaOp::merge_spec(*self, *older),
    {
        let limit = self.limit;
        if self.plus == older.plus {
            if self.plus {
                if older.amount <= u128::MAX - self.amount {
                    Some(DeltaOp { plus: true, amount: older.amount + self.amount, limit })
                } else {
                    None
                }
            } else {
                if older.amount <= u128::MAX - self.amount {
                    let sum = older.amount + self.amount;
                    if sum == 0 {
                        Some(DeltaOp { plus: true, amount: 0, limit })
                    } else {
                        Some(DeltaOp { plus: false, amount: sum, limit })
                    }
                } else {
                    None
                }
            }
        } else {
            let (pos, neg) = if self.plus {
                (self.amount, older.amount)
            } else {
                (older.amount, self.amount)
            };
            if neg <= pos {
                Some(DeltaOp { plus: true, amount: pos - neg, limit })
            } else {
                Some(DeltaOp { plus: false, amount: neg - pos, limit })
            }
        }
    }
}

} // verus!
