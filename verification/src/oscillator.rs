//! The shape checks of the oscillator network. The dynamics are arithmetic
//! on reals and are the caller's.

use vstd::prelude::*;

verus! {

/// The velocity-Verlet integrator of the network: symplectic and of second
/// order. It has no state.
#[derive(Clone, Copy, Debug, PartialEq, Eq, Structural)]
pub struct VerletIntegrator;

impl VerletIntegrator {
    /// The integrator.
    pub fn new() -> (v: Self)
        ensures
            v == VerletIntegrator,
    {
        VerletIntegrator
    }
}

/// Why a coupling matrix or a state is refused.
#[derive(Clone, Copy, Debug, PartialEq, Eq, Structural)]
pub enum ShapeError {
    /// The matrix has another number of rows than there are oscillators.
    RowCount,
    /// A row has another number of entries than there are oscillators.
    ColumnCount,
    /// The state has another number of oscillators than the matrix.
    StateSize,
}

impl ShapeError {
    /// A line of text for logs.
    pub fn message(&self) -> (s: &'static str)
        ensures
            s@ == (match self {
                ShapeError::RowCount => "Coupling matrix row count mismatch"@,
                ShapeError::ColumnCount => "Coupling matrix column count mismatch"@,
                ShapeError::StateSize => "State size doesn't match coupling matrix"@,
            }),
    {
        match self {
            ShapeError::RowCount => "Coupling matrix row count mismatch",
            ShapeError::ColumnCount => "Coupling matrix column count mismatch",
            ShapeError::StateSize => "State size doesn't match coupling matrix",
        }
    }
}

/// Whether a matrix with rows of these lengths is square of size `n`.
pub open spec fn is_square(row_lengths: Seq<usize>, n: usize) -> bool {
    row_lengths.len() == n && forall|i: int| 0 <= i < row_lengths.len() ==> row_lengths[i] == n
}

/// Accepts a coupling matrix for `n` oscillators, given the lengths of its
/// rows: it must have `n` rows of `n` entries each. A wrong number of rows is
/// reported before a row of wrong length.
pub fn check_coupling_shape(row_lengths: &[usize], n: usize) -> (r: Result<(), ShapeError>)
    ensures
        r is Ok <==> is_square(row_lengths@, n),
        row_lengths@.len() != n ==> r == Err::<(), ShapeError>(ShapeError::RowCount),
        row_lengths@.len() == n && !is_square(row_lengths@, n) ==> r == Err::<(), ShapeError>(
            ShapeError::ColumnCount,
        ),
{
    if row_lengths.len() != n {
        return Err(ShapeError::RowCount);
    }
    let mut i: usize = 0;
    while i < row_lengths.len()
        invariant
            i <= row_lengths@.len(),
            row_lengths@.len() == n,
            forall|j: int| 0 <= j < i ==> row_lengths@[j] == n,
        decreases row_lengths@.len() - i,
    {
        if row_lengths[i] != n {
            return Err(ShapeError::ColumnCount);
        }
        i = i + 1;
    }
    Ok(())
}

/// Accepts a state of `state_oscillators` oscillators for a step with a
/// coupling matrix of `coupling_rows` rows: the two must agree.
pub fn check_step_shape(state_oscillators: usize, coupling_rows: usize) -> (r: Result<
    (),
    ShapeError,
>)
    ensures
        state_oscillators == coupling_rows ==> r is Ok,
        state_oscillators != coupling_rows ==> r == Err::<(), ShapeError>(ShapeError::StateSize),
{
    if state_oscillators != coupling_rows {
        Err(ShapeError::StateSize)
    } else {
        Ok(())
    }
}

} // verus!
