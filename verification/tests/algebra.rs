use lams_rs::linear_algebra::{Matrix, Tensor, Vector};
use lams_rs::scalar::Scalar;

#[derive(Clone, Copy, Debug, PartialEq)]
struct Real(f64);

impl Scalar for Real {
    fn zero() -> Self {
        Real(0.0)
    }

    fn one() -> Self {
        Real(1.0)
    }

    fn from_count(n: u32) -> Self {
        Real(n as f64)
    }

    fn plus(self, rhs: Self) -> Self {
        Real(self.0 + rhs.0)
    }

    fn minus(self, rhs: Self) -> Self {
        Real(self.0 - rhs.0)
    }

    fn times(self, rhs: Self) -> Self {
        Real(self.0 * rhs.0)
    }

    fn over(self, rhs: Self) -> Self {
        Real(self.0 / rhs.0)
    }

    fn root(self) -> Self {
        Real(self.0.sqrt())
    }

    fn power(self, exponent: u32) -> Self {
        Real(self.0.powi(exponent as i32))
    }

    fn at_most(self, rhs: Self) -> bool {
        self.0 <= rhs.0
    }
}

fn reals(values: &[f64]) -> Vec<Real> {
    values.iter().map(|&x| Real(x)).collect()
}

fn grid(rows: &[&[f64]]) -> Vec<Vec<Real>> {
    rows.iter().map(|row| reals(row)).collect()
}

fn matrix(rows: usize, cols: usize, values: &[f64]) -> Matrix<Real> {
    let mut m = Matrix::new(rows, cols);
    m.matrix_set(reals(values));
    m
}

fn vector(values: &[f64]) -> Vector<Real> {
    let mut v = Vector::new(values.len());
    v.vector_set(reals(values));
    v
}

#[test]
fn test_new_vector() {
    let v: Vector<Real> = Vector::new(3);
    assert_eq!(v.size, 3);
    assert_eq!(v.data, vec![Real(0.0); 3]);
    assert_eq!(v.data.len(), 3);
}

#[test]
fn test_set_vector() {
    let mut v: Vector<Real> = Vector::new(3);
    v.vector_set(reals(&[1.0, 2.0, 3.0]));
    assert_eq!(v.size, 3);
    assert_eq!(v.data, reals(&[1.0, 2.0, 3.0]));
    assert_eq!(v.data.len(), 3);
}

#[test]
fn test_add_vectors() {
    let mut v1: Vector<Real> = Vector::new(3);
    let mut v2: Vector<Real> = Vector::new(3);

    v1.vector_set(reals(&[1.0, 2.0, 3.0]));
    v2.vector_set(reals(&[3.0, 4.0, 5.0]));

    let v3 = Vector::vector_add(&v1, &v2);
    assert_eq!(v3.size, 3);
    assert_eq!(v3.data, reals(&[4.0, 6.0, 8.0]));
    assert_eq!(v3.data.len(), 3);
}

#[test]
fn test_sub_vectors() {
    let v1: Vector<Real> = Vector::new(3);
    let v2: Vector<Real> = Vector::new(3);

    let v3 = Vector::vector_sub(&v1, &v2);
    assert_eq!(v3.size, 3);
    assert_eq!(v3.data, vec![Real(0.0); 3]);
    assert_eq!(v3.data.len(), 3);
}

#[test]
fn test_scale_vector() {
    let mut v1: Vector<Real> = Vector::new(3);
    v1.vector_set(reals(&[1.0, 2.0, 3.0]));

    let v2 = Vector::vector_scale(&v1, Real(2.0));
    assert_eq!(v2.size, 3);
    assert_eq!(v2.data, reals(&[2.0, 4.0, 6.0]));
    assert_eq!(v2.data.len(), 3);
}

#[test]
fn test_dot_vector() {
    let mut v1: Vector<Real> = Vector::new(3);
    let mut v2: Vector<Real> = Vector::new(3);

    v1.vector_set(reals(&[1.0, 2.0, 3.0]));
    v2.vector_set(reals(&[3.0, 4.0, 5.0]));

    let v3 = Vector::vector_dot(&v1, &v2);
    assert_eq!(v3, Real(26.0));
}

#[test]
fn test_norm_vector() {
    let mut v1: Vector<Real> = Vector::new(3);
    v1.vector_set(reals(&[1.0, 2.0, 2.0]));

    let v2 = Vector::vector_norm(&v1);
    assert_eq!(v2, Real(3.0));
}

#[test]
fn test_normalize_vector() {
    let mut v1: Vector<Real> = Vector::new(3);
    v1.vector_set(reals(&[1.0, 2.0, 3.0]));

    let v2 = Vector::vector_normalize(&v1);
    assert_eq!(v2.size, 3);
    assert_eq!(
        v2.data,
        reals(&[0.2672612419124244, 0.5345224838248488, 0.8017837257372732])
    );
    assert_eq!(v2.data.len(), 3);
}

#[test]
fn test_cross_vectors() {
    let mut v1: Vector<Real> = Vector::new(3);
    let mut v2: Vector<Real> = Vector::new(3);

    v1.vector_set(reals(&[1.0, 2.0, 3.0]));
    v2.vector_set(reals(&[3.0, 4.0, 5.0]));

    let v3 = Vector::vector_cross(&v1, &v2);
    assert_eq!(v3.size, 3);
    assert_eq!(v3.data, reals(&[-2.0, 4.0, -2.0]));
    assert_eq!(v3.data.len(), 3);
}

#[test]
fn test_matrix_new() {
    let m: Matrix<Real> = Matrix::new(3, 3);
    assert_eq!(m.rows, 3);
    assert_eq!(m.cols, 3);
    assert_eq!(m.data, vec![vec![Real(0.0); 3]; 3]);
    assert_eq!(m.data.len(), 3);
    assert_eq!(m.data[0].len(), 3);
}

#[test]
fn test_set_matrix() {
    let mut m: Matrix<Real> = Matrix::new(3, 3);

    m.matrix_set(reals(&[1.0, 2.0, 3.0, 4.0, 5.0, 6.0, 7.0, 8.0, 9.0]));

    assert_eq!(m.rows, 3);
    assert_eq!(m.cols, 3);
    assert_eq!(
        m.data,
        grid(&[&[1.0, 2.0, 3.0], &[4.0, 5.0, 6.0], &[7.0, 8.0, 9.0]])
    );
    assert_eq!(m.data.len(), 3);
    assert_eq!(m.data[0].len(), 3);
}

#[test]
fn test_add_matrices() {
    let mut m1: Matrix<Real> = Matrix::new(3, 3);
    m1.matrix_set(reals(&[1.0, 2.0, 3.0, 4.0, 5.0, 6.0, 7.0, 8.0, 9.0]));

    let mut m2: Matrix<Real> = Matrix::new(3, 3);
    m2.matrix_set(reals(&[1.0, 2.0, 3.0, 4.0, 5.0, 6.0, 7.0, 8.0, 9.0]));

    let m3 = Matrix::matrix_add(&m1, &m2);
    assert_eq!(m3.rows, 3);
    assert_eq!(m3.cols, 3);

    assert_eq!(
        m3.data,
        grid(&[&[2.0, 4.0, 6.0], &[8.0, 10.0, 12.0], &[14.0, 16.0, 18.0]])
    );

    assert_eq!(m3.data.len(), 3);
}

#[test]
fn test_sub_matrices() {
    let mut m1: Matrix<Real> = Matrix::new(3, 3);
    m1.matrix_set(reals(&[1.0, 2.0, 3.0, 4.0, 5.0, 6.0, 7.0, 8.0, 9.0]));

    let mut m2: Matrix<Real> = Matrix::new(3, 3);
    m2.matrix_set(reals(&[1.0, 2.0, 3.0, 4.0, 5.0, 6.0, 7.0, 8.0, 9.0]));

    let m3 = Matrix::matrix_sub(&m1, &m2);
    assert_eq!(m3.rows, 3);
    assert_eq!(m3.cols, 3);

    assert_eq!(
        m3.data,
        grid(&[&[0.0, 0.0, 0.0], &[0.0, 0.0, 0.0], &[0.0, 0.0, 0.0]])
    );

    assert_eq!(m3.data.len(), 3);
}

#[test]
fn test_scale_matrix() {
    let mut m1: Matrix<Real> = Matrix::new(3, 3);
    m1.matrix_set(reals(&[1.0, 2.0, 3.0, 4.0, 5.0, 6.0, 7.0, 8.0, 9.0]));

    let m2 = Matrix::matrix_scale(&m1, Real(2.0));

    assert_eq!(m2.rows, 3);
    assert_eq!(m2.cols, 3);
    assert_eq!(
        m2.data,
        grid(&[&[2.0, 4.0, 6.0], &[8.0, 10.0, 12.0], &[14.0, 16.0, 18.0]])
    );
    assert_eq!(m2.data.len(), 3);
}

#[test]
fn test_mul_matrices() {
    let mut m1: Matrix<Real> = Matrix::new(3, 3);
    m1.matrix_set(reals(&[1.0, 2.0, 3.0, 4.0, 5.0, 6.0, 7.0, 8.0, 9.0]));

    let mut m2: Matrix<Real> = Matrix::new(3, 3);
    m2.matrix_set(reals(&[-1.0, 2.0, -3.0, 4.0, -5.0, 6.0, -7.0, 8.0, -9.0]));

    let m3 = Matrix::matrix_mul(&m1, &m2);

    assert_eq!(m3.rows, 3);
    assert_eq!(m3.cols, 3);
    assert_eq!(
        m3.data,
        grid(&[
            &[-14.0, 16.0, -18.0],
            &[-26.0, 31.0, -36.0],
            &[-38.0, 46.0, -54.0]
        ])
    );
}

#[test]
fn test_matrix_vector_mul() {
    let mut m1: Matrix<Real> = Matrix::new(3, 3);
    m1.matrix_set(reals(&[1.0, 2.0, 3.0, 4.0, 5.0, 6.0, 7.0, 8.0, 9.0]));

    let mut v1: Vector<Real> = Vector::new(3);
    v1.vector_set(reals(&[1.0, 2.0, 3.0]));

    let m2 = Matrix::matrix_vector_mul(&m1, &v1);

    assert_eq!(m2.rows, 3);
    assert_eq!(m2.cols, 1);
    assert_eq!(m2.data, grid(&[&[14.0], &[32.0], &[50.0]]));
}

#[test]
fn test_matrix_transpose() {
    let mut m1: Matrix<Real> = Matrix::new(3, 3);
    m1.matrix_set(reals(&[1.0, 2.0, 3.0, 4.0, 5.0, 6.0, 7.0, 8.0, 9.0]));

    let m2 = Matrix::matrix_transpose(&m1);

    assert_eq!(m2.rows, 3);
    assert_eq!(m2.cols, 3);
    assert_eq!(
        m2.data,
        grid(&[&[1.0, 4.0, 7.0], &[2.0, 5.0, 8.0], &[3.0, 6.0, 9.0]])
    );

    // A matrix that is not square.
    let mut m3: Matrix<Real> = Matrix::new(3, 2);
    m3.matrix_set(reals(&[1.0, 2.0, 3.0, 4.0, 5.0, 6.0]));

    let m4 = Matrix::matrix_transpose(&m3);

    assert_eq!(m4.rows, 2);
    assert_eq!(m4.cols, 3);
    assert_eq!(m4.data, grid(&[&[1.0, 3.0, 5.0], &[2.0, 4.0, 6.0]]));
}

#[test]
fn test_matrix_fill() {
    let mut m1: Matrix<Real> = Matrix::new(3, 3);

    m1.matrix_fill(Real(1.0));

    assert_eq!(m1.rows, 3);
    assert_eq!(m1.cols, 3);
    assert_eq!(
        m1.data,
        grid(&[&[1.0, 1.0, 1.0], &[1.0, 1.0, 1.0], &[1.0, 1.0, 1.0]])
    );
}

#[test]
fn test_tensor_new() {
    let t1: Tensor<Real> = Tensor::tensor_new(3, 3, 3);

    assert_eq!(t1.rank, 3);
    assert_eq!(t1.rows, 3);
    assert_eq!(t1.cols, 3);

    for i in 0..t1.rank {
        assert_eq!(
            t1.data[i].data,
            grid(&[&[0.0, 0.0, 0.0], &[0.0, 0.0, 0.0], &[0.0, 0.0, 0.0]])
        );
    }
}

#[test]
fn test_tensor_set() {
    let mut t1: Tensor<Real> = Tensor::tensor_new(3, 3, 3);

    let m1 = matrix(3, 3, &[1.0, 2.0, 3.0, 4.0, 5.0, 6.0, 7.0, 8.0, 9.0]);
    let m2 = matrix(3, 3, &[9.0, 8.0, 7.0, 6.0, 5.0, 4.0, 3.0, 2.0, 1.0]);
    let m3 = matrix(3, 3, &[1.0, 2.0, 3.0, 4.0, 5.0, 6.0, 7.0, 8.0, 9.0]);

    let mv = vec![m1, m2, m3];

    let clone = mv.clone();

    t1.tensor_set(clone);

    assert_eq!(t1.rank, 3);
    assert_eq!(t1.rows, 3);
    assert_eq!(t1.cols, 3);

    for i in 0..t1.rank {
        assert_eq!(t1.data[i].data, mv[i].data);
    }
}

#[test]
fn test_tensor_insert() {
    let mut t1: Tensor<Real> = Tensor::tensor_new(3, 3, 3);

    let m1 = matrix(3, 3, &[1.0, 2.0, 3.0, 4.0, 5.0, 6.0, 7.0, 8.0, 9.0]);
    let m2 = matrix(3, 3, &[9.0, 8.0, 7.0, 6.0, 5.0, 4.0, 3.0, 2.0, 1.0]);
    let m3 = matrix(3, 3, &[1.0, 2.0, 3.0, 4.0, 5.0, 6.0, 7.0, 8.0, 9.0]);

    let mv = vec![m1, m2, m3];

    let clone = mv.clone();

    for i in 0..t1.rank {
        t1.tensor_insert(clone[i].clone(), i);
    }

    assert_eq!(t1.rank, 3);
    assert_eq!(t1.rows, 3);
    assert_eq!(t1.cols, 3);

    for i in 0..t1.rank {
        assert_eq!(t1.data[i].data, mv[i].data);
    }
}

#[test]
fn test_tensor_add() {
    let mut t1: Tensor<Real> = Tensor::tensor_new(3, 3, 3);

    let m1 = matrix(3, 3, &[1.0, 2.0, 3.0, 4.0, 5.0, 6.0, 7.0, 8.0, 9.0]);
    let m2 = matrix(3, 3, &[9.0, 8.0, 7.0, 6.0, 5.0, 4.0, 3.0, 2.0, 1.0]);
    let m3 = matrix(3, 3, &[1.0, 2.0, 3.0, 4.0, 5.0, 6.0, 7.0, 8.0, 9.0]);

    let mv1 = vec![m1, m2, m3];

    let clone1 = mv1.clone();

    t1.tensor_set(clone1);

    let mut t2: Tensor<Real> = Tensor::tensor_new(3, 3, 3);

    let m4 = matrix(3, 3, &[1.0, 2.0, 3.0, 4.0, 5.0, 6.0, 7.0, 8.0, 9.0]);
    let m5 = matrix(3, 3, &[9.0, 8.0, 7.0, 6.0, 5.0, 4.0, 3.0, 2.0, 1.0]);
    let m6 = matrix(3, 3, &[1.0, 2.0, 3.0, 4.0, 5.0, 6.0, 7.0, 8.0, 9.0]);

    let mv2 = vec![m4, m5, m6];

    let clone2 = mv2.clone();

    t2.tensor_set(clone2);

    let expected = mv1
        .iter()
        .zip(mv2.iter())
        .map(|(a, b)| Matrix::matrix_add(a, b))
        .collect::<Vec<_>>();

    let t3 = Tensor::tensor_add(&t1, &t2);

    assert_eq!(t3.rank, 3);
    assert_eq!(t3.rows, 3);
    assert_eq!(t3.cols, 3);

    for i in 0..t3.rank {
        assert_eq!(t3.data[i].data, expected[i].data);
    }
}

#[test]
fn add_and_sub_act_entry_by_entry() {
    let v = vector(&[0.5, -1.25, 8.0, 1e300]);
    let u = vector(&[0.25, 4.0, -8.0, 1e300]);
    let sum = Vector::vector_add(&v, &u);
    let difference = Vector::vector_sub(&v, &u);
    assert_eq!(sum.size, 4);
    assert_eq!(difference.size, 4);
    for i in 0..4 {
        assert_eq!(sum.data[i].0, v.data[i].0 + u.data[i].0);
        assert_eq!(difference.data[i].0, v.data[i].0 - u.data[i].0);
    }
    assert_eq!(sum.data, reals(&[0.75, 2.75, 0.0, 2e300]));
    assert_eq!(difference.data, reals(&[0.25, -5.25, 16.0, 0.0]));
}

#[test]
fn empty_vectors_give_empty_results_and_a_zero_dot() {
    let v: Vector<Real> = Vector::new(0);
    let u: Vector<Real> = Vector::new(0);
    assert_eq!(Vector::vector_add(&v, &u).data, vec![]);
    assert_eq!(Vector::vector_cross(&v, &u).data, vec![]);
    assert_eq!(Vector::vector_dot(&v, &u), Real(0.0));
    assert_eq!(Vector::vector_norm(&v), Real(0.0));
}

#[test]
fn normalize_gives_a_unit_vector() {
    let v = vector(&[3.0, 4.0]);
    let unit = Vector::vector_normalize(&v);
    assert_eq!(unit.data, reals(&[0.6, 0.8]));
    let norm = Vector::vector_norm(&unit);
    assert!((norm.0 - 1.0).abs() < 1e-12);

    let w = vector(&[1.0, 2.0, 3.0]);
    assert_eq!(Vector::vector_norm(&w), Real(14.0_f64.sqrt()));
    let norm = Vector::vector_norm(&Vector::vector_normalize(&w));
    assert!((norm.0 - 1.0).abs() < 1e-12);
}

#[test]
fn normalize_of_the_zero_vector_is_not_a_number() {
    let v: Vector<Real> = Vector::new(2);
    let r = Vector::vector_normalize(&v);
    assert_eq!(r.size, 2);
    assert!(r.data[0].0.is_nan());
    assert!(r.data[1].0.is_nan());
}

#[test]
fn cross_rotates_the_indices_at_any_size() {
    // One entry: both factors are the entry itself.
    let a = vector(&[2.0]);
    let b = vector(&[5.0]);
    assert_eq!(Vector::vector_cross(&a, &b).data, reals(&[0.0]));

    // Two entries: i + 2 comes back to i.
    let a = vector(&[1.0, 2.0]);
    let b = vector(&[3.0, 4.0]);
    // entry 0: a[1] * b[0] - a[0] * b[1] = 6 - 4
    // entry 1: a[0] * b[1] - a[1] * b[0] = 4 - 6
    assert_eq!(Vector::vector_cross(&a, &b).data, reals(&[2.0, -2.0]));

    // Four entries.
    let a = vector(&[1.0, 2.0, 3.0, 4.0]);
    let b = vector(&[5.0, 6.0, 7.0, 8.0]);
    // entry 0: a[1] * b[2] - a[2] * b[1] = 14 - 18
    // entry 1: a[2] * b[3] - a[3] * b[2] = 24 - 28
    // entry 2: a[3] * b[0] - a[0] * b[3] = 20 - 8
    // entry 3: a[0] * b[1] - a[1] * b[0] = 6 - 10
    assert_eq!(
        Vector::vector_cross(&a, &b).data,
        reals(&[-4.0, -4.0, 12.0, -4.0])
    );
}

#[test]
fn set_fills_row_by_row() {
    let m = matrix(2, 3, &[1.0, 2.0, 3.0, 4.0, 5.0, 6.0]);
    assert_eq!(m.data, grid(&[&[1.0, 2.0, 3.0], &[4.0, 5.0, 6.0]]));
    let values = [1.0, 2.0, 3.0, 4.0, 5.0, 6.0];
    for n in 0..6 {
        assert_eq!(m.data[n / 3][n % 3], Real(values[n]));
    }

    let tall = matrix(3, 1, &[7.0, 8.0, 9.0]);
    assert_eq!(tall.data, grid(&[&[7.0], &[8.0], &[9.0]]));
}

#[test]
fn matrices_without_cells_keep_their_shape() {
    let mut no_cols: Matrix<Real> = Matrix::new(2, 0);
    no_cols.matrix_set(vec![]);
    assert_eq!(no_cols.rows, 2);
    assert_eq!(no_cols.cols, 0);
    assert_eq!(no_cols.data, vec![vec![], vec![]]);

    let t = Matrix::matrix_transpose(&no_cols);
    assert_eq!(t.rows, 0);
    assert_eq!(t.cols, 2);
    assert_eq!(t.data.len(), 0);

    // A product over an empty inner dimension is all zeros.
    let no_rows: Matrix<Real> = Matrix::new(0, 3);
    let product = Matrix::matrix_mul(&no_cols, &no_rows);
    assert_eq!(product.rows, 2);
    assert_eq!(product.cols, 3);
    assert_eq!(product.data, vec![vec![Real(0.0); 3]; 2]);
}

#[test]
fn product_of_matrices_that_are_not_square() {
    let a = matrix(2, 3, &[1.0, 2.0, 3.0, 4.0, 5.0, 6.0]);
    let b = matrix(3, 2, &[7.0, 8.0, 9.0, 10.0, 11.0, 12.0]);
    let c = Matrix::matrix_mul(&a, &b);
    assert_eq!(c.rows, 2);
    assert_eq!(c.cols, 2);
    assert_eq!(c.data, grid(&[&[58.0, 64.0], &[139.0, 154.0]]));

    let v = vector(&[1.0, 0.0, -1.0]);
    let w = Matrix::matrix_vector_mul(&a, &v);
    assert_eq!(w.rows, 2);
    assert_eq!(w.cols, 1);
    assert_eq!(w.data, grid(&[&[-2.0], &[-2.0]]));
}

#[test]
fn transposing_twice_gives_the_matrix_back() {
    let m = matrix(2, 3, &[1.0, 2.0, 3.0, 4.0, 5.0, 6.0]);
    let t = Matrix::matrix_transpose(&m);
    for i in 0..2 {
        for j in 0..3 {
            assert_eq!(t.data[j][i], m.data[i][j]);
        }
    }
    let back = Matrix::matrix_transpose(&t);
    assert_eq!(back.rows, m.rows);
    assert_eq!(back.cols, m.cols);
    assert_eq!(back.data, m.data);

    let square = matrix(2, 2, &[1.0, 2.0, 3.0, 4.0]);
    let twice = Matrix::matrix_transpose(&Matrix::matrix_transpose(&square));
    assert_eq!(twice.data, square.data);
}

#[test]
fn fill_keeps_the_shape() {
    let mut m = matrix(2, 3, &[1.0, 2.0, 3.0, 4.0, 5.0, 6.0]);
    m.matrix_fill(Real(-0.5));
    assert_eq!(m.rows, 2);
    assert_eq!(m.cols, 3);
    assert_eq!(m.data, vec![vec![Real(-0.5); 3]; 2]);
}

#[test]
fn tensor_sub_works_slot_by_slot() {
    let mut t1: Tensor<Real> = Tensor::tensor_new(2, 2, 2);
    let mut t2: Tensor<Real> = Tensor::tensor_new(2, 2, 2);
    t1.tensor_set(vec![
        matrix(2, 2, &[5.0, 6.0, 7.0, 8.0]),
        matrix(2, 2, &[1.0, 1.0, 1.0, 1.0]),
    ]);
    t2.tensor_insert(matrix(2, 2, &[1.0, 2.0, 3.0, 4.0]), 0);
    t2.tensor_insert(matrix(2, 2, &[0.5, 0.5, 0.5, 0.5]), 1);

    let t3 = Tensor::tensor_sub(&t1, &t2);
    assert_eq!(t3.rank, 2);
    assert_eq!(t3.rows, 2);
    assert_eq!(t3.cols, 2);
    assert_eq!(t3.data[0].data, grid(&[&[4.0, 4.0], &[4.0, 4.0]]));
    assert_eq!(t3.data[1].data, grid(&[&[0.5, 0.5], &[0.5, 0.5]]));
}

#[test]
fn tensor_set_takes_shapes_as_they_come() {
    // The slots need not have the shape the tensor declares: set does not look.
    let mut t1: Tensor<Real> = Tensor::tensor_new(1, 3, 3);
    let mut t2: Tensor<Real> = Tensor::tensor_new(1, 3, 3);
    t1.tensor_set(vec![matrix(1, 2, &[1.0, 2.0])]);
    t2.tensor_set(vec![matrix(1, 2, &[10.0, 20.0])]);
    assert_eq!(t1.rows, 3);
    assert_eq!(t1.data[0].rows, 1);

    let t3 = Tensor::tensor_add(&t1, &t2);
    assert_eq!(t3.rank, 1);
    assert_eq!(t3.rows, 3);
    assert_eq!(t3.cols, 3);
    assert_eq!(t3.data[0].rows, 1);
    assert_eq!(t3.data[0].cols, 2);
    assert_eq!(t3.data[0].data, grid(&[&[11.0, 22.0]]));
}

#[test]
fn tensor_insert_replaces_one_slot() {
    let mut t: Tensor<Real> = Tensor::tensor_new(3, 1, 2);
    t.tensor_insert(matrix(1, 2, &[1.0, 2.0]), 2);
    assert_eq!(t.data[0].data, grid(&[&[0.0, 0.0]]));
    assert_eq!(t.data[1].data, grid(&[&[0.0, 0.0]]));
    assert_eq!(t.data[2].data, grid(&[&[1.0, 2.0]]));
}
