use pattern_fit::linear_algebra::{solve, Matrix, Point, Vector};
use pattern_fit::rational::RationalNumber;

fn ratio(n: i64, d: i64) -> RationalNumber {
    RationalNumber::new(n, d).unwrap()
}

fn whole(entries: &[i64]) -> Vector {
    Vector::new(entries.iter().map(|n| RationalNumber::from_integer(*n)).collect())
}

#[test]
fn vector_length_and_entries() {
    let v = whole(&[4, 5, 6]);
    assert_eq!(v.len(), 3);
    assert_eq!(v.index(1), &RationalNumber::from_integer(5));
    assert_eq!(Vector::new(Vec::new()).len(), 0);
}

#[test]
fn vector_sum_and_difference() {
    let a = whole(&[1, 2, 3]);
    let b = whole(&[10, 20, 30]);
    assert_eq!(a.add(&b).unwrap().v, whole(&[11, 22, 33]).v);
    assert_eq!(b.sub(&a).unwrap().v, whole(&[9, 18, 27]).v);
}

#[test]
fn vectors_of_different_length_do_not_add() {
    let a = whole(&[1, 2, 3]);
    let b = whole(&[1, 2]);
    assert!(a.add(&b).is_none());
    assert!(a.sub(&b).is_none());
}

#[test]
fn vector_negation_and_scaling() {
    let a = whole(&[1, -2, 0]);
    assert_eq!(a.neg().v, whole(&[-1, 2, 0]).v);
    assert_eq!(a.mul(&ratio(1, 2)).v, vec![ratio(1, 2), ratio(-1, 1), ratio(0, 1)]);
    assert_eq!(a.duplicate().v, a.v);
}

#[test]
fn point_arithmetic() {
    let p = Point { x: ratio(1, 2), y: ratio(3, 1) };
    let q = Point { x: ratio(1, 3), y: ratio(-1, 1) };
    let sum = p.add(&q);
    assert_eq!((sum.x, sum.y), (ratio(5, 6), ratio(2, 1)));
    let difference = p.sub(&q);
    assert_eq!((difference.x, difference.y), (ratio(1, 6), ratio(4, 1)));
    let scaled = p.mul(&ratio(2, 1));
    assert_eq!((scaled.x, scaled.y), (ratio(1, 1), ratio(6, 1)));
}

#[test]
fn matrix_wants_rows_of_one_length() {
    assert!(Matrix::new(vec![whole(&[1, 2]), whole(&[3, 4])], 2).is_some());
    assert!(Matrix::new(vec![whole(&[1, 2]), whole(&[3])], 2).is_none());
    assert!(Matrix::new(vec![whole(&[1, 2])], 3).is_none());
    let m = Matrix::new(vec![whole(&[1, 2, 3]), whole(&[4, 5, 6])], 3).unwrap();
    assert_eq!((m.rows, m.columns), (2, 3));
    assert_eq!(m.index(1, 2), &RationalNumber::from_integer(6));
}

#[test]
fn solve_finds_the_one_solution() {
    // x + y = 3, x - y = 1
    let system = Matrix::new(vec![whole(&[1, 1, 3]), whole(&[1, -1, 1])], 3).unwrap();
    assert_eq!(solve(&system).unwrap().v, whole(&[2, 1]).v);
}

#[test]
fn solve_swaps_rows_for_a_pivot() {
    // y = 2, x + y = 5, z - x = 1
    let system =
        Matrix::new(vec![whole(&[0, 1, 0, 2]), whole(&[1, 1, 0, 5]), whole(&[-1, 0, 1, 1])], 4)
            .unwrap();
    assert_eq!(solve(&system).unwrap().v, whole(&[3, 2, 4]).v);
}

#[test]
fn solve_works_in_fractions() {
    // 2x + 3y = 1, 4x - 5y = 2
    let system = Matrix::new(vec![whole(&[2, 3, 1]), whole(&[4, -5, 2])], 3).unwrap();
    assert_eq!(solve(&system).unwrap().v, vec![ratio(1, 2), ratio(0, 1)]);
    let thirds = Matrix::new(vec![whole(&[3, 0, 1]), whole(&[0, 7, 2])], 3).unwrap();
    assert_eq!(solve(&thirds).unwrap().v, vec![ratio(1, 3), ratio(2, 7)]);
}

#[test]
fn solve_has_no_result_for_singular_coefficients() {
    let dependent = Matrix::new(vec![whole(&[1, 2, 3]), whole(&[2, 4, 6])], 3).unwrap();
    assert!(solve(&dependent).is_none());
    let inconsistent = Matrix::new(vec![whole(&[1, 2, 3]), whole(&[2, 4, 7])], 3).unwrap();
    assert!(solve(&inconsistent).is_none());
    let zero = Matrix::new(vec![whole(&[0, 0])], 2).unwrap();
    assert!(solve(&zero).is_none());
}

#[test]
fn solve_of_the_empty_system() {
    let empty = Matrix::new(Vec::new(), 1).unwrap();
    assert_eq!(solve(&empty).unwrap().len(), 0);
}

fn table(rows: &[&[i64]], columns: usize) -> Matrix {
    Matrix::new(rows.iter().map(|row| whole(row)).collect(), columns).unwrap()
}

fn entries(m: &Matrix) -> Vec<Vec<RationalNumber>> {
    m.m.iter().map(|row| row.duplicate().v).collect()
}

#[test]
fn matrix_sum_and_difference() {
    let a = table(&[&[1, 2], &[3, 4]], 2);
    let b = table(&[&[10, 20], &[30, 40]], 2);
    assert_eq!(entries(&a.add(&b).unwrap()), entries(&table(&[&[11, 22], &[33, 44]], 2)));
    assert_eq!(entries(&b.sub(&a).unwrap()), entries(&table(&[&[9, 18], &[27, 36]], 2)));
}

#[test]
fn matrices_of_different_shape_do_not_add() {
    let a = table(&[&[1, 2], &[3, 4]], 2);
    let wide = table(&[&[1, 2, 3], &[4, 5, 6]], 3);
    let tall = table(&[&[1, 2], &[3, 4], &[5, 6]], 2);
    assert!(a.add(&wide).is_none());
    assert!(a.sub(&tall).is_none());
}

#[test]
fn matrix_negation_and_scaling() {
    let a = table(&[&[1, -2], &[0, 4]], 2);
    assert_eq!(entries(&a.neg()), entries(&table(&[&[-1, 2], &[0, -4]], 2)));
    let halved = a.mul(&ratio(1, 2));
    assert_eq!((halved.rows, halved.columns), (2, 2));
    assert_eq!(
        entries(&halved),
        vec![vec![ratio(1, 2), ratio(-1, 1)], vec![ratio(0, 1), ratio(2, 1)]]
    );
}

#[test]
fn vector_text() {
    assert_eq!(whole(&[1, -2, 3]).to_text(), "<1, -2, 3>");
    assert_eq!(Vector::new(vec![ratio(1, 2)]).to_text(), "<1/2>");
    assert_eq!(Vector::new(Vec::new()).to_text(), "<>");
}
