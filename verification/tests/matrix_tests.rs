use matrix::Matrix;
use matrix::MatrixError;

const DATA: [i64; 9] = [1, 2, 3, 4, 5, 6, 7, 8, 9];

#[test]
fn iteration() {
    let mat: Matrix = Matrix::from_data(3, 3, &DATA).unwrap();
    let mut mat = mat.iter();
    let mut tmp = DATA.iter();
    assert_eq!(tmp.next(), mat.next().as_ref());
    assert_eq!(tmp.next(), mat.next().as_ref());
    assert_eq!(tmp.next(), mat.next().as_ref());
    assert_eq!(tmp.next(), mat.next().as_ref());
    assert_eq!(tmp.next(), mat.next().as_ref());
    assert_eq!(tmp.next(), mat.next().as_ref());
    assert_eq!(tmp.next(), mat.next().as_ref());
    assert_eq!(tmp.next(), mat.next().as_ref());
    assert_eq!(tmp.next(), mat.next().as_ref());
    assert_eq!(None, mat.next().as_ref());
}

#[test]
fn mut_iteration() {
    let mat: Matrix = Matrix::from_data(3, 3, &DATA).unwrap();
    let mut mat = mat;
    let mut it = mat.iter_mut();
    let mut tmp = DATA.iter();
    for _ in 0..9 {
        let (row, col) = it.next().unwrap();
        assert_eq!(tmp.next(), Some(&mat.get(row, col)));
    }
    assert_eq!(None, it.next().as_ref());
}

#[test]
fn new() {
    let mat: Matrix = Matrix::new(3, 3).unwrap();
    assert_eq!(mat.render(), "0 0 0 \n0 0 0 \n0 0 0 \n");
}

#[test]
fn transpose() {
    let mat = Matrix::from_data(3, 3, &DATA).unwrap();
    let expected = Matrix::from_data(3, 3, &[1, 4, 7, 2, 5, 8, 3, 6, 9]).unwrap();
    assert_eq!(mat.transpose().render(), expected.render());
}

#[test]
fn simple_indexing() {
    let mut mat: Matrix = Matrix::new(3, 4).unwrap();
    mat.set(0, 0, 1);
    mat.set(0, 1, 2);
    mat.set(0, 2, 3);
    mat.set(0, 3, 4);

    mat.set(1, 0, 5);
    mat.set(1, 1, 6);
    mat.set(1, 2, 7);
    mat.set(1, 3, 8);

    mat.set(2, 0, 9);
    mat.set(2, 1, 10);
    mat.set(2, 2, 11);
    mat.set(2, 3, 12);

    assert_eq!(mat.render(), "1 2 3 4 \n5 6 7 8 \n9 10 11 12 \n");
}

#[test]
fn row_indexing() {
    let mut mat: Matrix = Matrix::new(3, 4).unwrap();
    mat.set(0, 0, 1);
    mat.set(0, 1, 2);
    mat.set(0, 2, 3);
    mat.set(0, 3, 4);

    mat.set(1, 0, 5);
    mat.set(1, 1, 6);
    mat.set(1, 2, 7);
    mat.set(1, 3, 8);

    mat.set(2, 0, 9);
    mat.set(2, 1, 10);
    mat.set(2, 2, 11);
    mat.set(2, 3, 12);

    let row = mat.row(0).unwrap();
    assert_eq!(format!("{:?}", row), format!("{:?}", &[1, 2, 3, 4]));
    let row = mat.row_slice(0, 1, 4).unwrap();
    assert_eq!(format!("{:?}", row), format!("{:?}", &[2, 3, 4]));
    let mat = mat.transpose();
    let row = mat.row(0).unwrap();
    assert_eq!(format!("{:?}", row), format!("{:?}", &[1, 5, 9]));
}

#[test]
fn multiply_by_scalar() {
    let scalar: i64 = 3;
    let mut mat = Matrix::from_data(3, 3, &DATA).unwrap();
    let mut multipied_data = Vec::new();
    for i in DATA {
        multipied_data.push(i * scalar);
    }
    let expected_mat = Matrix::from_data(3, 3, multipied_data.as_slice()).unwrap();
    mat.multiply_by_scalar(scalar);
    assert_eq!(format!("{:?}", mat), format!("{:?}", expected_mat));
}

#[test]
fn test_multiply() {
    let mat1: Matrix = Matrix::from_data(2, 3, &[1, 2, 3, 4, 5, 6]).unwrap();
    let mat2: Matrix = Matrix::from_data(3, 2, &[7, 8, 9, 10, 11, 12]).unwrap();
    let expected_result: Matrix = Matrix::from_data(2, 2, &[58, 64, 139, 154]).unwrap();

    println!("M1\n{}", mat1.render());
    println!("M2\n{}", mat2.render());
    let result = mat1.mul(&mat2).unwrap();
    assert_eq!(result.dim(), expected_result.dim());
    println!("MR\n{}", result.render());
    for i in 0..result.rows {
        for j in 0..result.cols {
            assert_eq!(result.get(i, j), expected_result.get(i, j));
        }
    }
}

#[test]
#[should_panic]
fn test_multiply_wrong_dimensions() {
    let mat1: Matrix = Matrix::new(2, 3).unwrap();
    let mat2: Matrix = Matrix::new(4, 2).unwrap();

    let _result = mat1.mul(&mat2).unwrap();
}

#[test]
fn test_multiply_by_vector() {
    let mat = Matrix::from_data(3, 3, &DATA).unwrap();
    let row_vec = Matrix::from_data(1, 3, &[1, 2, 3]).unwrap();
    let res = row_vec.mul(&mat).unwrap();
    assert_eq!(res.render(), "30 36 42 \n");

    let row_vec = Matrix::from_data(1, 3, &[1, 2, 3]).unwrap();
    let mat = Matrix::from_data(3, 3, &DATA).unwrap();
    let res = mat.mul(&row_vec.transpose()).unwrap();
    assert_eq!(res.render(), "14 \n32 \n50 \n");
}

#[test]
fn new_is_zero_filled_and_dim_swaps() {
    let mat: Matrix = Matrix::new(2, 3).unwrap();
    for i in 0..2 {
        for j in 0..3 {
            assert_eq!(mat.get(i, j), 0);
        }
    }
    assert_eq!(mat.dim(), (3, 2));
    let empty: Matrix = Matrix::new(0, 7).unwrap();
    assert_eq!(empty.dim(), (7, 0));
    assert_eq!(empty.render(), "");
}

#[test]
fn transpose_round_trip() {
    let mat = Matrix::from_data(2, 3, &[1, -2, 3, -4, 5, -6]).unwrap();
    let back = mat.transpose().transpose();
    assert_eq!(back.rows, mat.rows);
    assert_eq!(back.cols, mat.cols);
    for i in 0..2 {
        for j in 0..3 {
            assert_eq!(back.get(i, j), mat.get(i, j));
        }
    }
}

#[test]
fn multiply_is_associative() {
    let a = Matrix::from_data(2, 3, &[1, 2, 3, 4, 5, 6]).unwrap();
    let b = Matrix::from_data(3, 2, &[7, 8, 9, 10, 11, 12]).unwrap();
    let c = Matrix::from_data(2, 2, &[2, -1, 0, 3]).unwrap();
    let left = a.mul(&b).unwrap().mul(&c).unwrap();
    let right = a.mul(&b.mul(&c).unwrap()).unwrap();
    assert_eq!(left.dim(), right.dim());
    for i in 0..left.rows {
        for j in 0..left.cols {
            assert_eq!(left.get(i, j), right.get(i, j));
        }
    }
}

#[test]
fn multiply_wrong_dimensions_is_dimension_mismatch() {
    let mat1: Matrix = Matrix::new(2, 3).unwrap();
    let mat2: Matrix = Matrix::new(4, 2).unwrap();
    assert!(matches!(
        mat1.mul(&mat2),
        Err(MatrixError::DimensionMismatch)
    ));
}

#[test]
fn from_data_wrong_length_is_dimension_mismatch() {
    assert!(matches!(
        Matrix::from_data(2, 2, &[1, 2, 3]),
        Err(MatrixError::DimensionMismatch)
    ));
}

#[test]
fn row_access_out_of_bounds() {
    let mat = Matrix::from_data(3, 4, &[1, 2, 3, 4, 5, 6, 7, 8, 9, 10, 11, 12]).unwrap();
    assert_eq!(mat.row(3), Err(MatrixError::OutOfBounds));
    assert_eq!(mat.row_slice(0, 2, 5), Err(MatrixError::OutOfBounds));
    assert_eq!(mat.row_slice(0, 3, 2), Err(MatrixError::OutOfBounds));
}

#[test]
fn scalar_triples_each_element() {
    let mut mat = Matrix::from_data(3, 3, &DATA).unwrap();
    mat.multiply_by_scalar(3);
    for i in 0..3 {
        for j in 0..3 {
            assert_eq!(mat.get(i, j), 3 * DATA[i * 3 + j]);
        }
    }
    assert_eq!(mat.render(), "3 6 9 \n12 15 18 \n21 24 27 \n");
}

#[test]
fn mut_iteration_writes_every_position_in_order() {
    let mut mat: Matrix = Matrix::new(3, 3).unwrap();
    let mut it = mat.iter_mut();
    let mut next_value: i64 = 1;
    let mut visited = Vec::new();
    while let Some((row, col)) = it.next() {
        mat.set(row, col, next_value);
        visited.push((row, col));
        next_value += 1;
    }
    assert_eq!(visited.len(), 9);
    assert_eq!(
        visited,
        vec![
            (0, 0),
            (0, 1),
            (0, 2),
            (1, 0),
            (1, 1),
            (1, 2),
            (2, 0),
            (2, 1),
            (2, 2)
        ]
    );
    assert_eq!(mat.render(), "1 2 3 \n4 5 6 \n7 8 9 \n");
}

#[test]
fn render_handles_negative_values() {
    let mat = Matrix::from_data(1, 3, &[-5, 10, i64::MIN]).unwrap();
    assert_eq!(mat.render(), "-5 10 -9223372036854775808 \n");
}
