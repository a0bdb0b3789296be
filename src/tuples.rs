//! The kind of a homogeneous tuple `(x, y, z, w)`, decided by its `w`.
use vstd::prelude::*;

verus! {

/// What a tuple stands for: a position (`w` is 1), a direction (`w` is 0),
/// or a generic tuple (any other `w`).
#[derive(Clone, Copy, Debug, PartialEq, Eq, Structural)]
pub enum TupleType {
    Point,
    Vector,
    Tuple,
}

impl TupleType {
    /// The kind of a tuple, given whether its `w` compares equal to 0 and
    /// whether it compares equal to 1. The test against 0 comes first.
    pub fn classify(w_is_zero: bool, w_is_one: bool) -> (r: TupleType)
        ensures
            w_is_zero ==> r == TupleType::Vector,
            !w_is_zero && w_is_one ==> r == TupleType::Point,
            !w_is_zero && !w_is_one ==> r == TupleType::Tuple,
    {
        if w_is_zero {
            TupleType::Vector
        } else if w_is_one {
            TupleType::Point
        } else {
            TupleType::Tuple
        }
    }

    /// Whether negating or scaling a tuple of this kind leaves its `w` as it
    /// is: so for points and vectors, which stay what they are; a generic
    /// tuple has its `w` transformed with the other components.
    pub fn keeps_w(&self) -> (r: bool)
        ensures
            r == (*self != TupleType::Tuple),
    {
        match self {
            TupleType::Tuple => false,
            _ => true,
        }
    }
}

} // verus!
