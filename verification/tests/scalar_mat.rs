use faer::mat::{Conj, Mat};
use faer::scalar::Scalar;

fn imat(rows: &[&[i64]]) -> Mat<i64> {
    let ncols = rows[0].len();
    Mat::from_rows(ncols, rows.iter().map(|r| r.to_vec()).collect()).unwrap()
}

#[test]
fn test_i64_ring_operations_wrap() {
    assert_eq!(<i64 as Scalar>::zero(), 0);
    assert_eq!(<i64 as Scalar>::one(), 1);
    assert_eq!(i64::MAX.plus(&1), i64::MIN);
    assert_eq!(i64::MIN.minus(&1), i64::MAX);
    assert_eq!((1i64 << 62).times(&4), 0);
    assert_eq!(3i64.times(&-5), -15);
    assert_eq!((-7i64).conj(), -7);
    assert_eq!((-9i64).abs2(), 81);
    assert_eq!(<i64 as Scalar>::from_usize(12), 12);
}

#[test]
fn test_i64_division_truncates() {
    assert_eq!(7i64.div(&2), 3);
    assert_eq!((-7i64).div(&2), -3);
    assert_eq!(7i64.div(&0), 0);
    assert_eq!(i64::MIN.div(&-1), 0);
    assert_eq!(1i64.recip(), 1);
    assert_eq!((-1i64).recip(), -1);
    assert_eq!(2i64.recip(), 0);
    assert_eq!(0i64.recip(), 0);
}

#[test]
fn test_from_rows_rejects_ragged_rows() {
    assert!(Mat::from_rows(2, vec![vec![1i64, 2], vec![3]]).is_none());
    assert!(Mat::from_rows(2, vec![vec![1i64, 2], vec![3, 4]]).is_some());
    let empty = Mat::<i64>::from_rows(3, vec![]).unwrap();
    assert_eq!((empty.nrows(), empty.ncols()), (0, 3));
}

#[test]
fn test_read_write_and_rows() {
    let mut m = imat(&[&[1, 2, 3], &[4, 5, 6]]);
    assert_eq!(m.read(1, 2), 6);
    m.write(0, 1, 20);
    assert_eq!(m.to_rows(), vec![vec![1, 20, 3], vec![4, 5, 6]]);
    assert_eq!(m.to_owned(), m);
}

#[test]
fn test_matmul_known_values() {
    let a = imat(&[&[1, 2, 3], &[4, 5, 6]]);
    let b = imat(&[&[7, 8], &[9, 10], &[11, 12]]);
    assert_eq!(a.matmul(&b), imat(&[&[58, 64], &[139, 154]]));
    assert_eq!(Mat::<i64>::identity(2).matmul(&a), a);
    assert_eq!(a.matmul(&Mat::<i64>::identity(3)), a);
    let empty_inner = Mat::<i64>::zeros(2, 0).matmul(&Mat::<i64>::zeros(0, 3));
    assert_eq!(empty_inner, Mat::<i64>::zeros(2, 3));
}

#[test]
fn test_elementwise_updates() {
    let mut m = imat(&[&[1, 2], &[3, 4]]);
    m.add_assign(&imat(&[&[10, 20], &[30, 40]]));
    assert_eq!(m, imat(&[&[11, 22], &[33, 44]]));
    m.add_scaled(-2, &imat(&[&[1, 1], &[0, 2]]));
    assert_eq!(m, imat(&[&[9, 20], &[33, 40]]));
}

#[test]
fn test_swap_cols_adjoint_and_conjugate() {
    let mut m = imat(&[&[1, 2, 3], &[4, 5, 6]]);
    m.swap_cols(0, 2);
    assert_eq!(m, imat(&[&[3, 2, 1], &[6, 5, 4]]));
    m.swap_cols(1, 1);
    assert_eq!(m, imat(&[&[3, 2, 1], &[6, 5, 4]]));
    assert_eq!(m.adjoint(), imat(&[&[3, 6], &[2, 5], &[1, 4]]));
    assert_eq!(m.conjugated(), m);
    assert_eq!(m.as_ref().conj, Conj::No);
    assert_eq!(m.conjugate().conj, Conj::Yes);
}

#[test]
fn test_matmul_is_associative() {
    let a = imat(&[&[1, -2], &[3, 4], &[0, 5]]);
    let b = imat(&[&[2, 0, 1], &[-1, 3, 2]]);
    let c = imat(&[&[4], &[-3], &[7]]);
    assert_eq!(a.matmul(&b).matmul(&c), a.matmul(&b.matmul(&c)));
}
