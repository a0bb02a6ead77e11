use strompy::error::Error;
use strompy::matrix::MatrixBuf;
use strompy::op::{Code, Operation, PieceOfWork};

fn bits(values: &[f64]) -> Vec<u64> {
    values.iter().map(|v| v.to_bits()).collect()
}

fn floats(bits: &[u64]) -> Vec<f64> {
    bits.iter().map(|v| f64::from_bits(*v)).collect()
}

fn matrix(values: &[f64], n: usize) -> MatrixBuf {
    MatrixBuf::new(&bits(values), n).unwrap()
}

fn dot(a: &[u64], b: &[u64]) -> u64 {
    let x = nalgebra::DVector::from_iterator(a.len(), a.iter().map(|v| f64::from_bits(*v)));
    let y = nalgebra::DVector::from_iterator(b.len(), b.iter().map(|v| f64::from_bits(*v)));
    x.dot(&y).to_bits()
}

#[test]
fn new_keeps_elements_and_columns() {
    let m = matrix(&[1.0, 2.0, 3.0, 4.0, 5.0, 6.0], 3);
    assert_eq!(m.len(), 6);
    assert_eq!(m.columns(), 3);
    assert_eq!(m.row_count(), 2);
    assert_eq!(floats(m.data()), vec![1.0, 2.0, 3.0, 4.0, 5.0, 6.0]);
}

#[test]
fn new_refuses_what_is_no_matrix() {
    let many = vec![0u64; 37];
    assert!(matches!(MatrixBuf::new(&many, 1), Err(Error::CapacityExceeded)));
    // Too many elements are reported before a bad column count.
    assert!(matches!(MatrixBuf::new(&many, 0), Err(Error::CapacityExceeded)));
    assert!(matches!(MatrixBuf::new(&[1, 2], 0), Err(Error::ProtocolError)));
    assert!(matches!(MatrixBuf::new(&[1, 2, 3], 2), Err(Error::ShapeMismatch)));
    assert!(MatrixBuf::new(&vec![0u64; 36], 6).is_ok());
    assert!(MatrixBuf::new(&[], 4).is_ok());
}

#[test]
fn rows_are_row_major() {
    let m = matrix(&[1.0, 2.0, 3.0, 4.0, 5.0, 6.0], 2);
    assert_eq!(m.row(0).map(|r| floats(&r)), Some(vec![1.0, 2.0]));
    assert_eq!(m.row(2).map(|r| floats(&r)), Some(vec![5.0, 6.0]));
    assert_eq!(m.row(3), None);
    let rows: Vec<Vec<f64>> = m.into_rows().iter().map(|r| floats(r)).collect();
    assert_eq!(rows, vec![vec![1.0, 2.0], vec![3.0, 4.0], vec![5.0, 6.0]]);
}

#[test]
fn iterator_hands_out_every_row_once() {
    // Three rows of two columns: more rows than columns.
    let mut it = matrix(&[1.0, 2.0, 3.0, 4.0, 5.0, 6.0], 2).into_iter();
    assert_eq!(it.len(), 3);
    assert_eq!(it.next().map(|r| floats(&r)), Some(vec![1.0, 2.0]));
    assert_eq!(it.len(), 2);
    assert_eq!(it.next().map(|r| floats(&r)), Some(vec![3.0, 4.0]));
    assert_eq!(it.next().map(|r| floats(&r)), Some(vec![5.0, 6.0]));
    assert_eq!(it.next(), None);
    assert_eq!(it.next(), None);
    assert_eq!(it.len(), 0);

    // One row of three columns: fewer rows than columns.
    let mut it = matrix(&[1.0, 2.0, 3.0], 3).into_iter();
    assert_eq!(it.next().map(|r| floats(&r)), Some(vec![1.0, 2.0, 3.0]));
    assert_eq!(it.next(), None);
}

#[test]
fn scalar_is_one_by_one() {
    let m = MatrixBuf::scalar(2.5f64.to_bits());
    assert_eq!(m.len(), 1);
    assert_eq!(m.columns(), 1);
    assert_eq!(floats(m.data()), vec![2.5]);
}

#[test]
fn codes_are_spelled_in_lower_case() {
    assert_eq!(Code::parse("dot"), Ok(Code::Dot));
    assert_eq!(Code::parse("Dot"), Err(Error::UnknownOperation));
    assert_eq!(Code::parse("do"), Err(Error::UnknownOperation));
    assert_eq!(Code::parse("dots"), Err(Error::UnknownOperation));
    assert_eq!(Code::parse(""), Err(Error::UnknownOperation));
}

#[test]
fn eval_is_the_dot_product() {
    let op = Operation::with(Code::Dot, matrix(&[4.0, 5.0, 6.0], 3));
    let res = op.eval(matrix(&[1.0, 2.0, 3.0], 3), &dot).unwrap();
    assert_eq!(res.columns(), 1);
    assert_eq!(floats(res.data()), vec![32.0]);
}

#[test]
fn eval_takes_both_operands_as_flat_vectors() {
    let op = Operation::with(Code::Dot, matrix(&[1.0, 0.5, 0.25, 2.0], 4));
    let res = op.eval(matrix(&[8.0, 8.0, 8.0, 8.0], 2), &dot).unwrap();
    assert_eq!(floats(res.data()), vec![30.0]);
}

#[test]
fn eval_refuses_operands_of_different_sizes() {
    let op = Operation::with(Code::Dot, matrix(&[4.0, 5.0], 2));
    assert!(matches!(
        op.eval(matrix(&[1.0, 2.0, 3.0], 3), &dot),
        Err(Error::ShapeMismatch)
    ));
}

#[test]
fn exec_folds_from_the_left() {
    let mut piece = PieceOfWork::new(matrix(&[1.0, 2.0], 2));
    piece.push(Operation::with(Code::Dot, matrix(&[3.0, 4.0], 2))).unwrap();
    piece.push(Operation::with(Code::Dot, matrix(&[0.5], 1))).unwrap();
    assert_eq!(piece.len(), 2);
    let res = piece.exec(&dot).unwrap();
    assert_eq!(floats(res.data()), vec![5.5]);
}

#[test]
fn exec_without_operations_is_the_matrix_itself() {
    let piece = PieceOfWork::new(matrix(&[1.0, 2.0, 3.0, 4.0], 2));
    let res = piece.exec(&dot).unwrap();
    assert_eq!(res.columns(), 2);
    assert_eq!(floats(res.data()), vec![1.0, 2.0, 3.0, 4.0]);
}

#[test]
fn exec_stops_at_the_first_mismatch() {
    let mut piece = PieceOfWork::new(matrix(&[1.0, 2.0], 2));
    piece.push(Operation::with(Code::Dot, matrix(&[3.0, 4.0], 2))).unwrap();
    piece.push(Operation::with(Code::Dot, matrix(&[3.0, 4.0], 2))).unwrap();
    assert!(matches!(piece.exec(&dot), Err(Error::ShapeMismatch)));
}

#[test]
fn a_sixth_operation_is_refused() {
    let mut piece = PieceOfWork::new(matrix(&[1.0], 1));
    for i in 0..5 {
        assert_eq!(
            piece.push(Operation::with(Code::Dot, matrix(&[i as f64], 1))),
            Ok(())
        );
    }
    assert_eq!(
        piece.push(Operation::with(Code::Dot, matrix(&[9.0], 1))),
        Err(Error::CapacityExceeded)
    );
    assert_eq!(piece.len(), 5);
    // 1 * 0 * 1 * 2 * 3 * 4: the refused operation left no trace.
    assert_eq!(floats(piece.exec(&dot).unwrap().data()), vec![0.0]);
}
