//! Dense three-axis tensors of `u64`, stored in `ndarray::Array3`.
use ndarray::Array3;
use vstd::prelude::*;

verus! {

/// A dense three-axis array of `u64` in row-major order, held in an
/// `ndarray::Array3`. Verus sees it through `tensor_shape` and
/// `tensor_cells` alone.
#[verifier::external_body]
pub struct Tensor3 {
    cells: Array3<u64>,
}

impl Tensor3 {
    /// The lengths of the three axes.
    pub fn shape(&self) -> (r: (usize, usize, usize))
        ensures
            r == tensor_shape(*self),
    {
        dim3(self)
    }

    /// The cell at index `(i, j, k)`.
    pub fn get(&self, i: usize, j: usize, k: usize) -> (r: u64)
        requires
            in_shape(tensor_shape(*self), (i, j, k)),
        ensures
            r == tensor_cells(*self)[(i, j, k)],
    {
        get3(self, i, j, k)
    }
}

/// The lengths of the three axes of an array.
pub uninterp spec fn tensor_shape(t: Tensor3) -> (usize, usize, usize);

/// The cells of an array, keyed by their index triple.
pub uninterp spec fn tensor_cells(t: Tensor3) -> Map<(usize, usize, usize), u64>;

/// Whether `p` indexes a cell of an array of shape `s`.
pub open spec fn in_shape(s: (usize, usize, usize), p: (usize, usize, usize)) -> bool {
    p.0 < s.0 && p.1 < s.1 && p.2 < s.2
}

/// The product of the non-zero axis lengths.
pub open spec fn nonzero_size(n0: int, n1: int, n2: int) -> int {
    (if n0 == 0 { 1 } else { n0 }) * (if n1 == 0 { 1 } else { n1 }) * (if n2 == 0 { 1 } else { n2 })
}

/// Whether an array of `u64` of this shape can be allocated without a
/// size overflow.
pub open spec fn shape_fits(n0: int, n1: int, n2: int) -> bool {
    nonzero_size(n0, n1, n2) * 8 <= isize::MAX
}

/// Relies on `ndarray::Array3::zeros`: an array of the given shape whose
/// cells are all zero. It panics when the byte size overflows, which
/// `shape_fits` excludes.
#[verifier::external_body]
pub(crate) fn zeros3(n0: usize, n1: usize, n2: usize) -> (r: Tensor3)
    requires
        shape_fits(n0 as int, n1 as int, n2 as int),
    ensures
        tensor_shape(r) == (n0, n1, n2),
        tensor_cells(r) == Map::new(
            |p: (usize, usize, usize)| in_shape((n0, n1, n2), p),
            |p: (usize, usize, usize)| 0u64,
        ),
{
    Tensor3 { cells: Array3::<u64>::zeros((n0, n1, n2)) }
}

/// Relies on `ndarray::ArrayBase::dim`: the axis lengths.
#[verifier::external_body]
pub(crate) fn dim3(t: &Tensor3) -> (r: (usize, usize, usize))
    ensures
        r == tensor_shape(*t),
{
    t.cells.dim()
}

/// Relies on indexing an `ndarray::Array3` by `[i, j, k]`: the cell there.
/// It panics out of bounds, which `requires` excludes.
#[verifier::external_body]
pub(crate) fn get3(t: &Tensor3, i: usize, j: usize, k: usize) -> (r: u64)
    requires
        in_shape(tensor_shape(*t), (i, j, k)),
    ensures
        r == tensor_cells(*t)[(i, j, k)],
{
    t.cells[[i, j, k]]
}

/// Relies on assigning through a mutable index `[i, j, k]` of an
/// `ndarray::Array3`: that cell alone changes. It panics out of bounds,
/// which `requires` excludes.
#[verifier::external_body]
pub(crate) fn set3(t: &mut Tensor3, i: usize, j: usize, k: usize, v: u64)
    requires
        in_shape(tensor_shape(*old(t)), (i, j, k)),
    ensures
        tensor_shape(*final(t)) == tensor_shape(*old(t)),
        tensor_cells(*final(t)) == tensor_cells(*old(t)).insert((i, j, k), v),
{
    t.cells[[i, j, k]] = v;
}

} // verus!
