//! Tagged numeric quantities and the closed set of stat names.
//!
//! A [`Value`] carries one stat change together with its application mode:
//! set absolutely, add a delta, or grow by a percentage. Continuous amounts
//! are fixed-point thousandths (see [`crate::fixed`]); whole-number amounts
//! are `u32`.

use vstd::prelude::*;

use crate::fixed::clamp_i64;
use crate::fixed::fixed_sub;

verus! {

/// A stat change: an absolute value, an additive delta, or a percentage
/// growth. `F`/`AddF` carry fixed-point thousandths, `U`/`AddU` carry whole
/// `u32` amounts, and `Perc` carries a percentage in thousandths.
#[derive(Copy, Clone, Debug, PartialEq, Eq, Structural)]
pub enum Value {
    F(i64),
    U(u32),
    AddF(i64),
    AddU(u32),
    Perc(i64),
}

/// The closed set of stat names a skill specification may touch.
#[derive(Copy, Clone, Debug, PartialEq, Eq, Hash, PartialOrd, Ord, Structural)]
pub enum Attribute {
    MaxHp,
    HpPerSec,
    Range,
    Acceleration,
    Dps,
    Duration,
    Cooldown,
    Speed,
}

/// The additive difference between two values of like shape, used to present
/// an upgrade as a change over the current level. Absolute values of unlike
/// shapes have no difference; deltas and percentages stand for themselves.
pub open spec fn spec_delta(a: Value, b: Value) -> Option<Value> {
    match a {
        Value::F(v1) => match b {
            Value::F(v2) => Some(Value::AddF(clamp_i64(v1 - v2) as i64)),
            _ => None,
        },
        Value::U(v1) => match b {
            Value::U(v2) => Some(Value::AddF(((v1 - v2) * 1000) as i64)),
            _ => None,
        },
        Value::AddF(v1) => Some(Value::AddF(v1)),
        Value::AddU(v1) => Some(Value::AddF((v1 * 1000) as i64)),
        Value::Perc(v1) => Some(Value::Perc(v1)),
    }
}

/// Whether a value sets its target absolutely, as opposed to adding a delta
/// or growing it. Only absolute entries are re-applied on a hot reload:
/// re-playing a delta or a growth would compound it.
pub open spec fn is_absolute(v: Value) -> bool {
    match v {
        Value::F(_) => true,
        Value::U(_) => true,
        _ => false,
    }
}

/// Whether a value denotes no change at all: zero for whole amounts, and
/// anything under one hundredth of a unit for fixed-point amounts.
pub open spec fn spec_is_zero(v: Value) -> bool {
    match v {
        Value::F(x) => -10 < x < 10,
        Value::U(x) => x == 0,
        Value::AddF(x) => -10 < x < 10,
        Value::AddU(x) => x == 0,
        Value::Perc(x) => -10 < x < 10,
    }
}

impl Value {
    /// The additive difference of `self` over `other`, for display of an
    /// upgrade against the current level.
    pub fn delta(&self, other: Value) -> (r: Option<Value>)
        ensures
            r == spec_delta(*self, other),
    {
        match self {
            Value::F(v1) => match other {
                Value::F(v2) => Some(Value::AddF(fixed_sub(*v1, v2))),
                _ => None,
            },
            Value::U(v1) => match other {
                Value::U(v2) => Some(Value::AddF((*v1 as i64 - v2 as i64) * 1000)),
                _ => None,
            },
            Value::AddF(v1) => Some(Value::AddF(*v1)),
            Value::AddU(v1) => Some(Value::AddF(*v1 as i64 * 1000)),
            Value::Perc(v1) => Some(Value::Perc(*v1)),
        }
    }

    /// Whether this value denotes no change.
    pub fn is_zero(&self) -> (r: bool)
        ensures
            r == spec_is_zero(*self),
    {
        match self {
            Value::F(v) => -10 < *v && *v < 10,
            Value::U(v) => *v == 0,
            Value::AddF(v) => -10 < *v && *v < 10,
            Value::AddU(v) => *v == 0,
            Value::Perc(v) => -10 < *v && *v < 10,
        }
    }
}

} // verus!
