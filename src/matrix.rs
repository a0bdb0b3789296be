//! Square matrices held as rows of entries: construction and entry-wise
//! equality under a caller's comparison.
use vstd::prelude::*;

verus! {

/// Constructors and comparison for matrices held as `Vec<Vec<T>>`.
pub struct Matrix;

/// `m` has `n` rows of `n` entries, all equal to `value`.
pub open spec fn filled_square<T>(m: Seq<Vec<T>>, n: nat, value: T) -> bool {
    &&& m.len() == n
    &&& forall|i: int| 0 <= i < n ==> #[trigger] m[i]@.len() == n
    &&& forall|i: int, j: int| 0 <= i < n && 0 <= j < n ==> #[trigger] m[i]@[j] == value
}

/// `a` and `b` have as many rows, and each row of `a` as many entries as the
/// row of `b` at the same place.
pub open spec fn same_shape<T>(a: Seq<Vec<T>>, b: Seq<Vec<T>>) -> bool {
    &&& a.len() == b.len()
    &&& forall|i: int| 0 <= i < a.len() ==> #[trigger] a[i]@.len() == b[i]@.len()
}

fn square_of<T: Copy>(n: usize, value: T) -> (r: Vec<Vec<T>>)
    ensures
        filled_square(r@, n as nat, value),
{
    let mut m: Vec<Vec<T>> = Vec::new();
    let mut i: usize = 0;
    while i < n
        invariant
            i <= n,
            m@.len() == i,
            forall|k: int| 0 <= k < i ==> #[trigger] m@[k]@.len() == n,
            forall|k: int, j: int| 0 <= k < i && 0 <= j < n ==> #[trigger] m@[k]@[j] == value,
        decreases n - i,
    {
        let mut row: Vec<T> = Vec::new();
        let mut j: usize = 0;
        while j < n
            invariant
                j <= n,
                row@.len() == j,
                forall|k: int| 0 <= k < j ==> #[trigger] row@[k] == value,
            decreases n - j,
        {
            row.push(value);
            j += 1;
        }
        m.push(row);
        i += 1;
    }
    m
}

impl Matrix {
    /// A 4 by 4 matrix whose entries are all the default of `T` (zero, for a
    /// number type).
    pub fn construct_empty_4x4<T: Copy + Default>() -> (r: Vec<Vec<T>>)
        ensures
            exists|zero: T| call_ensures(T::default, (), zero) && filled_square(r@, 4, zero),
    {
        square_of(4, T::default())
    }

    /// A 3 by 3 matrix whose entries are all the default of `T`.
    pub fn construct_empty_3x3<T: Copy + Default>() -> (r: Vec<Vec<T>>)
        ensures
            exists|zero: T| call_ensures(T::default, (), zero) && filled_square(r@, 3, zero),
    {
        square_of(3, T::default())
    }

    /// A 2 by 2 matrix whose entries are all the default of `T`.
    pub fn construct_empty_2x2<T: Copy + Default>() -> (r: Vec<Vec<T>>)
        ensures
            exists|zero: T| call_ensures(T::default, (), zero) && filled_square(r@, 2, zero),
    {
        square_of(2, T::default())
    }

    /// Whether `m1` and `m2` have the same shape and `eq` holds of every pair
    /// of entries at the same place.
    pub fn are_equal<T, F: Fn(&T, &T) -> bool>(m1: &Vec<Vec<T>>, m2: &Vec<Vec<T>>, eq: F) -> (r:
        bool)
        requires
            forall|a: &T, b: &T| #[trigger] eq.requires((a, b)),
        ensures
            r ==> same_shape(m1@, m2@),
            r ==> forall|i: int, j: int|
                0 <= i < m1@.len() && 0 <= j < m1@[i]@.len() ==> #[trigger] eq.ensures(
                    (&m1@[i]@[j], &m2@[i]@[j]),
                    true,
                ),
            !r ==> !same_shape(m1@, m2@) || exists|i: int, j: int|
                0 <= i < m1@.len() && 0 <= j < m1@[i]@.len() && #[trigger] eq.ensures(
                    (&m1@[i]@[j], &m2@[i]@[j]),
                    false,
                ),
    {
        if m1.len() != m2.len() {
            return false;
        }
        let mut i: usize = 0;
        while i < m1.len()
            invariant
                forall|a: &T, b: &T| #[trigger] eq.requires((a, b)),
                i <= m1@.len(),
                m1@.len() == m2@.len(),
                forall|k: int| 0 <= k < i ==> #[trigger] m1@[k]@.len() == m2@[k]@.len(),
                forall|k: int, j: int|
                    0 <= k < i && 0 <= j < m1@[k]@.len() ==> #[trigger] eq.ensures(
                        (&m1@[k]@[j], &m2@[k]@[j]),
                        true,
                    ),
            decreases m1.len() - i,
        {
            let row1 = &m1[i];
            let row2 = &m2[i];
            if row1.len() != row2.len() {
                return false;
            }
            let mut j: usize = 0;
            while j < row1.len()
                invariant
                    forall|a: &T, b: &T| #[trigger] eq.requires((a, b)),
                    i < m1@.len(),
                    m1@.len() == m2@.len(),
                    row1@ == m1@[i as int]@,
                    row2@ == m2@[i as int]@,
                    row1@.len() == row2@.len(),
                    j <= row1@.len(),
                    forall|k: int| 0 <= k < j ==> #[trigger] eq.ensures((&row1@[k], &row2@[k]), true),
                decreases row1.len() - j,
            {
                let same = eq(&row1[j], &row2[j]);
                if !same {
                    assert(eq.ensures((&m1@[i as int]@[j as int], &m2@[i as int]@[j as int]), false));
                    return false;
                }
                j += 1;
            }
            i += 1;
        }
        true
    }
}

} // verus!
