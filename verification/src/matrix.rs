use vstd::prelude::*;
use crate::types::{ErrorKind, InnerType};

verus! {

#[verifier::external_type_specification]
#[verifier::external_body]
pub struct ExShapeError(ndarray::ShapeError);

/// A two-dimensional table of cells, stored row after row.
#[verifier::external_body]
#[derive(Debug, PartialEq)]
pub struct Matrix {
    cells: ndarray::Array2<InnerType>,
}

/// The cells of a matrix, row after row.
pub uninterp spec fn matrix_cells(m: Matrix) -> Seq<InnerType>;

/// The number of rows and the number of columns of a matrix.
pub uninterp spec fn matrix_shape(m: Matrix) -> (nat, nat);

/// The product of the lengths of those axes that are not empty (1 when both are).
pub open spec fn nonzero_size(rows: nat, cols: nat) -> nat {
    if rows == 0 && cols == 0 {
        1
    } else if rows == 0 {
        cols
    } else if cols == 0 {
        rows
    } else {
        rows * cols
    }
}

/// Whether `from_shape_vec` accepts the shape `(rows, cols)` for `len` cells:
/// the cells fill the shape exactly, and the lengths of its non-empty axes
/// multiply to at most `isize::MAX`.
pub open spec fn shape_accepts(rows: nat, cols: nat, len: nat) -> bool {
    &&& rows * cols == len
    &&& nonzero_size(rows, cols) <= isize::MAX
}

/// The cells of row `i` of a matrix with `cols` columns.
pub open spec fn row_of(cells: Seq<InnerType>, cols: nat, i: nat) -> Seq<InnerType> {
    cells.subrange((i * cols) as int, (i * cols + cols) as int)
}

/// The cells of column `j` of a matrix with `rows` rows and `cols` columns.
pub open spec fn column_of(cells: Seq<InnerType>, rows: nat, cols: nat, j: nat) -> Seq<InnerType> {
    Seq::new(rows, |k: int| cells[k * cols + j])
}

/// `ndarray::Array2::from_shape_vec` with the shape `(rows, cols)` in row-major
/// order: it succeeds exactly when `shape_accepts` holds, and the matrix then holds
/// the given cells in their order.
#[verifier::external_body]
fn nd_from_shape_vec(rows: usize, cols: usize, v: Vec<InnerType>) -> (r: Result<Matrix, ndarray::ShapeError>)
    ensures
        r is Ok <==> shape_accepts(rows as nat, cols as nat, v@.len()),
        r matches Ok(m) ==> matrix_shape(m) == (rows as nat, cols as nat) && matrix_cells(m) == v@,
{
    match ndarray::Array2::from_shape_vec((rows, cols), v) {
        Ok(cells) => Ok(Matrix { cells }),
        Err(e) => Err(e),
    }
}

/// `ndarray::Array2::dim`: the number of rows and of columns; an owned array
/// holds exactly that many cells.
#[verifier::external_body]
fn nd_dim(m: &Matrix) -> (r: (usize, usize))
    ensures
        (r.0 as nat, r.1 as nat) == matrix_shape(*m),
        matrix_cells(*m).len() == r.0 * r.1,
{
    m.cells.dim()
}

/// `ndarray::Array2::row` followed by `to_vec`: a copy of the cells of row `i`.
#[verifier::external_body]
fn nd_row(m: &Matrix, i: usize) -> (r: Vec<InnerType>)
    requires
        i < matrix_shape(*m).0,
    ensures
        r@ == row_of(matrix_cells(*m), matrix_shape(*m).1, i as nat),
{
    m.cells.row(i).to_vec()
}

/// `ndarray::Array2::column` followed by `to_vec`: a copy of the cells of column `j`.
#[verifier::external_body]
fn nd_column(m: &Matrix, j: usize) -> (r: Vec<InnerType>)
    requires
        j < matrix_shape(*m).1,
    ensures
        r@ == column_of(matrix_cells(*m), matrix_shape(*m).0, matrix_shape(*m).1, j as nat),
{
    m.cells.column(j).to_vec()
}

impl Clone for Matrix {
    /// `Clone` of `ndarray::Array2`: a matrix with the same shape and the same cells.
    #[verifier::external_body]
    fn clone(&self) -> (r: Matrix)
        ensures
            matrix_shape(r) == matrix_shape(*self),
            matrix_cells(r) == matrix_cells(*self),
    {
        Matrix { cells: self.cells.clone() }
    }
}

impl Matrix {
    /// The matrix with `rows` rows and `cols` columns whose cells, row after row, are `v`.
    pub fn from_shape_vec(rows: usize, cols: usize, v: Vec<InnerType>) -> (r: Result<Matrix, ErrorKind>)
        ensures
            r is Ok <==> shape_accepts(rows as nat, cols as nat, v@.len()),
            r matches Ok(m) ==> matrix_shape(m) == (rows as nat, cols as nat) && matrix_cells(m) == v@,
            r matches Err(e) ==> e == ErrorKind::ShapeMismatch,
    {
        match nd_from_shape_vec(rows, cols, v) {
            Ok(m) => Ok(m),
            Err(_) => Err(ErrorKind::ShapeMismatch),
        }
    }

    /// The number of rows and the number of columns.
    pub fn shape(&self) -> (r: (usize, usize))
        ensures
            (r.0 as nat, r.1 as nat) == matrix_shape(*self),
            matrix_cells(*self).len() == r.0 * r.1,
    {
        nd_dim(self)
    }

    /// A copy of the cells of row `i`.
    pub fn row(&self, i: usize) -> (r: Vec<InnerType>)
        requires
            i < matrix_shape(*self).0,
        ensures
            r@ == row_of(matrix_cells(*self), matrix_shape(*self).1, i as nat),
    {
        nd_row(self, i)
    }

    /// A copy of the cells of column `j`.
    pub fn column(&self, j: usize) -> (r: Vec<InnerType>)
        requires
            j < matrix_shape(*self).1,
        ensures
            r@ == column_of(matrix_cells(*self), matrix_shape(*self).0, matrix_shape(*self).1, j as nat),
    {
        nd_column(self, j)
    }
}

} // verus!
