//! Value capability traits and the standard value type.
//!
//! A variable's domain holds values of a single type. The capability
//! traits declare, opt-in, what a value type can do beyond equality:
//! a total order, arithmetic, and successor/distance for contiguous
//! integer-like ranges. `StandardValue` is a concrete value type that
//! offers all of the capabilities for its integer variant.

use vstd::prelude::*;

verus! {

/// The base capability for any value that can live in a domain: it can be
/// cloned, compared for equality and hashed. This is a marker trait.
pub trait ValueEquality: Sized {

}

/// A capability for values that have a defined total order.
pub trait ValueOrdering: ValueEquality {

}

/// A capability for values that support basic arithmetic.
///
/// Each operation returns `None` when the operands do not support it
/// (for example, adding booleans) or when the mathematical result does
/// not fit the underlying representation.
pub trait ValueArithmetic: Sized {
    /// What `add` returns.
    spec fn add_spec(self, other: Self) -> Option<Self>;

    /// What `sub` returns.
    spec fn sub_spec(self, other: Self) -> Option<Self>;

    /// What `abs` returns.
    spec fn abs_spec(self) -> Option<Self>;

    /// Adds two values.
    fn add(&self, other: &Self) -> (r: Option<Self>)
        ensures
            r == self.add_spec(*other),
    ;

    /// Subtracts `other` from `self`.
    fn sub(&self, other: &Self) -> (r: Option<Self>)
        ensures
            r == self.sub_spec(*other),
    ;

    /// Returns the absolute value.
    fn abs(&self) -> (r: Option<Self>)
        ensures
            r == self.abs_spec(),
    ;
}

/// A capability for values that can be laid out as a contiguous range:
/// every value has a successor, and any two values are a well-defined
/// number of steps apart.
pub trait ValueRange: Sized {
    /// What `successor` returns.
    spec fn successor_spec(self) -> Option<Self>;

    /// What `distance` returns.
    spec fn distance_spec(self, other: Self) -> Option<u64>;

    /// Returns the next value, or `None` when there is none.
    fn successor(&self) -> (r: Option<Self>)
        ensures
            r == self.successor_spec(),
    ;

    /// Returns the number of steps between two values, or `None` when
    /// the values are not range-capable.
    fn distance(&self, other: &Self) -> (r: Option<u64>)
        ensures
            r == self.distance_spec(*other),
    ;
}

/// A concrete value type offering the standard capabilities: a 64-bit
/// integer (with ordering, arithmetic and range support) or a boolean.
#[derive(Debug, Clone, Copy, PartialEq, Eq, Hash, PartialOrd, Ord, Structural)]
pub enum StandardValue {
    /// A 64-bit integer value.
    Int(i64),
    /// A boolean value.
    Bool(bool),
}

/// The total order used by the solver on `StandardValue`: integers in
/// numeric order, then booleans with `false` before `true`.
pub open spec fn sv_le(a: StandardValue, b: StandardValue) -> bool {
    match (a, b) {
        (StandardValue::Int(x), StandardValue::Int(y)) => x <= y,
        (StandardValue::Int(_), StandardValue::Bool(_)) => true,
        (StandardValue::Bool(_), StandardValue::Int(_)) => false,
        (StandardValue::Bool(x), StandardValue::Bool(y)) => !x || y,
    }
}

impl StandardValue {
    /// Compares two values in the solver's total order.
    pub fn leq(&self, other: &Self) -> (r: bool)
        ensures
            r == sv_le(*self, *other),
    {
        match (self, other) {
            (StandardValue::Int(x), StandardValue::Int(y)) => x <= y,
            (StandardValue::Int(_), StandardValue::Bool(_)) => true,
            (StandardValue::Bool(_), StandardValue::Int(_)) => false,
            (StandardValue::Bool(x), StandardValue::Bool(y)) => !*x || *y,
        }
    }

    /// True of the integer variant.
    pub open spec fn is_int(self) -> bool {
        self is Int
    }

    /// The integer carried by the integer variant.
    pub open spec fn int_value(self) -> int {
        self->Int_0 as int
    }
}

impl ValueEquality for StandardValue {

}

impl ValueOrdering for StandardValue {

}

impl ValueArithmetic for StandardValue {
    open spec fn add_spec(self, other: Self) -> Option<Self> {
        match (self, other) {
            (StandardValue::Int(a), StandardValue::Int(b)) => if i64::MIN <= a + b <= i64::MAX {
                Some(StandardValue::Int((a + b) as i64))
            } else {
                None
            },
            _ => None,
        }
    }

    open spec fn sub_spec(self, other: Self) -> Option<Self> {
        match (self, other) {
            (StandardValue::Int(a), StandardValue::Int(b)) => if i64::MIN <= a - b <= i64::MAX {
                Some(StandardValue::Int((a - b) as i64))
            } else {
                None
            },
            _ => None,
        }
    }

    open spec fn abs_spec(self) -> Option<Self> {
        match self {
            StandardValue::Int(a) => if a == i64::MIN {
                None
            } else if a < 0 {
                Some(StandardValue::Int((-a) as i64))
            } else {
                Some(StandardValue::Int(a))
            },
            _ => None,
        }
    }

    fn add(&self, other: &Self) -> (r: Option<Self>) {
        match (self, other) {
            (StandardValue::Int(a), StandardValue::Int(b)) => {
                let s: i128 = (*a as i128) + (*b as i128);
                if i64::MIN as i128 <= s && s <= i64::MAX as i128 {
                    Some(StandardValue::Int(s as i64))
                } else {
                    None
                }
            },
            _ => None,
        }
    }

    fn sub(&self, other: &Self) -> (r: Option<Self>) {
        match (self, other) {
            (StandardValue::Int(a), StandardValue::Int(b)) => {
                let s: i128 = (*a as i128) - (*b as i128);
                if i64::MIN as i128 <= s && s <= i64::MAX as i128 {
                    Some(StandardValue::Int(s as i64))
                } else {
                    None
                }
            },
            _ => None,
        }
    }

    fn abs(&self) -> (r: Option<Self>) {
        match self {
            StandardValue::Int(a) => {
                if *a == i64::MIN {
                    None
                } else if *a < 0 {
                    Some(StandardValue::Int(-*a))
                } else {
                    Some(StandardValue::Int(*a))
                }
            },
            _ => None,
        }
    }
}

impl ValueRange for StandardValue {
    open spec fn successor_spec(self) -> Option<Self> {
        match self {
            StandardValue::Int(a) => if a < i64::MAX {
                Some(StandardValue::Int((a + 1) as i64))
            } else {
                None
            },
            _ => None,
        }
    }

    open spec fn distance_spec(self, other: Self) -> Option<u64> {
        match (self, other) {
            (StandardValue::Int(a), StandardValue::Int(b)) => if a <= b {
                Some((b - a) as u64)
            } else {
                Some((a - b) as u64)
            },
            _ => None,
        }
    }

    fn successor(&self) -> (r: Option<Self>) {
        match self {
            StandardValue::Int(a) => {
                if *a < i64::MAX {
                    Some(StandardValue::Int(*a + 1))
                } else {
                    None
                }
            },
            _ => None,
        }
    }

    fn distance(&self, other: &Self) -> (r: Option<u64>) {
        match (self, other) {
            (StandardValue::Int(a), StandardValue::Int(b)) => {
                let d: i128 = if a <= b {
                    (*b as i128) - (*a as i128)
                } else {
                    (*a as i128) - (*b as i128)
                };
                Some(d as u64)
            },
            _ => None,
        }
    }
}

} // verus!
