use vstd::prelude::*;

verus! {

/// A vector whose length is not the one a fixed-size array asked for.
#[derive(Debug, Clone, Copy, PartialEq, Eq)]
pub struct ShapeMismatch {
    pub expected: usize,
    pub actual: usize,
}

/// Relies on std's `TryFrom<Vec<T>> for [T; N]`: the array holds the vector's
/// items when its length is `N`, and the vector comes back unchanged otherwise.
#[verifier::external_body]
fn try_into_array<T, const N: usize>(v: Vec<T>) -> (r: Result<[T; N], Vec<T>>)
    ensures
        match r {
            Ok(a) => v@.len() == N && a@ == v@,
            Err(w) => v@.len() != N && w@ == v@,
        },
{
    <[T; N] as std::convert::TryFrom<Vec<T>>>::try_from(v)
}

/// Moves the items of a vector into an array of length `N`, or reports the
/// two lengths when they differ.
pub fn vec_to_array<T, const N: usize>(v: Vec<T>) -> (r: Result<[T; N], ShapeMismatch>)
    ensures
        v@.len() == N ==> r is Ok && r->Ok_0@ == v@,
        v@.len() != N ==> r == Err::<[T; N], ShapeMismatch>(
            ShapeMismatch { expected: N, actual: v@.len() as usize },
        ),
{
    let actual = v.len();
    match try_into_array::<T, N>(v) {
        Ok(a) => Ok(a),
        Err(_) => Err(ShapeMismatch { expected: N, actual }),
    }
}

} // verus!
