use rnumpy::{
    arange, Array, ArrayError, ArrayIndexInput, ArrayIndexOutput, FloatBits, Literal, Number,
    NumericalArray,
};

fn fb(x: f64) -> FloatBits {
    FloatBits(x.to_bits())
}

fn int_row(v: &[i64]) -> Literal {
    Literal::List(v.iter().map(|x| Literal::Int(*x)).collect())
}

fn float_row(v: &[f64]) -> Literal {
    Literal::List(v.iter().map(|x| Literal::Float(fb(*x))).collect())
}

fn int_array(shape: Vec<usize>, v: Vec<i64>) -> Array {
    Array { shape, arr: NumericalArray::Int(v) }
}

fn float_array(shape: Vec<usize>, v: &[f64]) -> Array {
    Array { shape, arr: NumericalArray::Float(v.iter().map(|x| fb(*x)).collect()) }
}

fn ints_of(a: &Array) -> Vec<i64> {
    match &a.arr {
        NumericalArray::Int(v) => v.clone(),
        NumericalArray::Float(_) => panic!("expected an integer buffer"),
    }
}

fn floats_of(a: &Array) -> Vec<f64> {
    match &a.arr {
        NumericalArray::Float(v) => v.iter().map(|b| f64::from_bits(b.0)).collect(),
        NumericalArray::Int(_) => panic!("expected a float buffer"),
    }
}

fn fadd(a: FloatBits, b: FloatBits) -> FloatBits {
    fb(f64::from_bits(a.0) + f64::from_bits(b.0))
}

fn fsub(a: FloatBits, b: FloatBits) -> FloatBits {
    fb(f64::from_bits(a.0) - f64::from_bits(b.0))
}

fn fmul(a: FloatBits, b: FloatBits) -> FloatBits {
    fb(f64::from_bits(a.0) * f64::from_bits(b.0))
}

fn fdiv(a: FloatBits, b: FloatBits) -> FloatBits {
    fb(f64::from_bits(a.0) / f64::from_bits(b.0))
}

#[test]
fn extract_two_by_three() {
    let lit = Literal::List(vec![int_row(&[1, 2, 3]), int_row(&[4, 5, 6])]);
    let a = Array::extract(&lit).unwrap();
    assert_eq!(a.shape, vec![2, 3]);
    assert_eq!(ints_of(&a), vec![1, 2, 3, 4, 5, 6]);
    assert_eq!(a.shape.iter().product::<usize>(), a.arr.len());
}

#[test]
fn extract_three_levels_row_major() {
    let lit = Literal::List(vec![
        Literal::List(vec![int_row(&[1, 2]), int_row(&[3, 4])]),
        Literal::List(vec![int_row(&[5, 6]), int_row(&[7, 8])]),
        Literal::List(vec![int_row(&[9, 10]), int_row(&[11, 12])]),
    ]);
    let a = Array::py_new(&lit).unwrap();
    assert_eq!(a.shape, vec![3, 2, 2]);
    assert_eq!(ints_of(&a), (1..=12).collect::<Vec<i64>>());
}

#[test]
fn extract_floats() {
    let lit = Literal::List(vec![float_row(&[1.5, 2.5]), float_row(&[3.5, 4.5])]);
    let a = Array::extract(&lit).unwrap();
    assert_eq!(a.shape, vec![2, 2]);
    assert_eq!(floats_of(&a), vec![1.5, 2.5, 3.5, 4.5]);
}

#[test]
fn extract_empty_is_float() {
    let a = Array::extract(&Literal::List(vec![])).unwrap();
    assert_eq!(a.shape, vec![0]);
    assert!(matches!(a.arr, NumericalArray::Float(ref v) if v.is_empty()));
}

#[test]
fn extract_empty_rows() {
    let lit = Literal::List(vec![Literal::List(vec![]), Literal::List(vec![])]);
    let a = Array::extract(&lit).unwrap();
    assert_eq!(a.shape, vec![2, 0]);
    assert_eq!(a.arr.len(), 0);
}

#[test]
fn extract_mixed_kinds_fails() {
    let lit = Literal::List(vec![Literal::Int(1), Literal::Float(fb(2.0))]);
    assert!(matches!(Array::extract(&lit), Err(ArrayError::TypeMismatch)));
}

#[test]
fn extract_ragged_fails() {
    let lit = Literal::List(vec![int_row(&[1, 2]), int_row(&[3])]);
    assert!(matches!(Array::extract(&lit), Err(ArrayError::TypeMismatch)));
}

#[test]
fn extract_list_where_scalar_expected_fails() {
    let lit = Literal::List(vec![Literal::Int(1), int_row(&[2])]);
    assert!(matches!(Array::extract(&lit), Err(ArrayError::TypeMismatch)));
    let lit = Literal::List(vec![int_row(&[1]), Literal::Int(2)]);
    assert!(matches!(Array::extract(&lit), Err(ArrayError::TypeMismatch)));
}

#[test]
fn extract_scalar_root_fails() {
    assert!(matches!(Array::extract(&Literal::Int(3)), Err(ArrayError::TypeMismatch)));
}

#[test]
fn reshape_chain_accepts_smaller_product() {
    let a = int_array(vec![6], vec![1, 2, 3, 4, 5, 6]);
    let b = a.reshape(vec![3]).unwrap();
    assert_eq!(b.shape, vec![3]);
    assert_eq!(ints_of(&b), vec![1, 2, 3, 4, 5, 6]);
}

#[test]
fn reshape_to_matrix() {
    let a = int_array(vec![6], vec![1, 2, 3, 4, 5, 6]);
    let b = a.reshape(vec![2, 3]).unwrap();
    assert_eq!(b.shape, vec![2, 3]);
    assert_eq!(ints_of(&b), vec![1, 2, 3, 4, 5, 6]);
    assert_eq!(a.shape, vec![6]);
}

#[test]
fn reshape_rejects_non_divisor() {
    let a = int_array(vec![6], vec![1, 2, 3, 4, 5, 6]);
    match a.reshape(vec![4]) {
        Err(ArrayError::ReshapeError { shape, len }) => {
            assert_eq!(shape, vec![4]);
            assert_eq!(len, 6);
        }
        _ => panic!("expected a reshape error"),
    }
    assert!(a.reshape(vec![2, 2]).is_err());
    assert!(a.reshape(vec![0]).is_err());
}

#[test]
fn reshape_empty_takes_zero_axis() {
    let a = int_array(vec![0], vec![]);
    assert_eq!(a.reshape(vec![0, 5]).unwrap().shape, vec![0, 5]);
}

#[test]
fn full_index_reads_row_major_offset() {
    let a = int_array(vec![2, 3], vec![1, 2, 3, 4, 5, 6]);
    match a.get(ArrayIndexInput::Array(vec![1, 2])) {
        Ok(ArrayIndexOutput::Number(Number::Int(v))) => assert_eq!(v, 6),
        _ => panic!("expected a scalar"),
    }
    match a.get(ArrayIndexInput::Array(vec![0, 1])) {
        Ok(ArrayIndexOutput::Number(Number::Int(v))) => assert_eq!(v, 2),
        _ => panic!("expected a scalar"),
    }
}

#[test]
fn partial_index_gives_row() {
    let a = int_array(vec![2, 3], vec![1, 2, 3, 4, 5, 6]);
    match a.get(ArrayIndexInput::Number(1)) {
        Ok(ArrayIndexOutput::Array(sub)) => {
            assert_eq!(sub.shape, vec![3]);
            assert_eq!(ints_of(&sub), vec![4, 5, 6]);
        }
        _ => panic!("expected a sub-array"),
    }
}

#[test]
fn partial_index_three_axes() {
    let a = int_array(vec![2, 2, 2], (0..8).collect());
    match a.get(ArrayIndexInput::Array(vec![1])) {
        Ok(ArrayIndexOutput::Array(sub)) => {
            assert_eq!(sub.shape, vec![2, 2]);
            assert_eq!(ints_of(&sub), vec![4, 5, 6, 7]);
        }
        _ => panic!("expected a sub-array"),
    }
}

#[test]
fn negative_index_is_zero() {
    let a = int_array(vec![3], vec![7, 8, 9]);
    match a.get(ArrayIndexInput::Number(-2)) {
        Ok(ArrayIndexOutput::Number(Number::Int(v))) => assert_eq!(v, 7),
        _ => panic!("expected a scalar"),
    }
}

#[test]
fn float_index_keeps_variant() {
    let a = float_array(vec![2], &[0.5, 1.5]);
    match a.get(ArrayIndexInput::Number(1)) {
        Ok(ArrayIndexOutput::Number(Number::Float(b))) => assert_eq!(f64::from_bits(b.0), 1.5),
        _ => panic!("expected a float scalar"),
    }
}

#[test]
fn too_many_indices_fail() {
    let a = int_array(vec![3], vec![7, 8, 9]);
    assert!(matches!(a.get(ArrayIndexInput::Array(vec![0, 0])), Err(ArrayError::IndexError)));
}

#[test]
fn index_outside_buffer_fails() {
    let a = int_array(vec![3], vec![7, 8, 9]);
    assert!(matches!(a.get(ArrayIndexInput::Number(3)), Err(ArrayError::IndexError)));
    assert!(matches!(a.get(ArrayIndexInput::Number(isize::MAX)), Err(ArrayError::IndexError)));
}

#[test]
fn add_then_sub_restores_ints() {
    let a = int_array(vec![2, 2], vec![1, -2, i64::MAX, 4]);
    let b = int_array(vec![2, 2], vec![10, 20, 1, -40]);
    let s = a.add(&b, fadd).unwrap();
    assert_eq!(ints_of(&s), vec![11, 18, i64::MIN, -36]);
    let back = s.sub(&b, fsub).unwrap();
    assert!(back.equals(&a));
}

#[test]
fn add_then_sub_restores_floats() {
    let a = float_array(vec![3], &[1.0, 2.5, -4.0]);
    let b = float_array(vec![3], &[0.5, 0.25, 8.0]);
    let s = a.add(&b, fadd).unwrap();
    assert_eq!(floats_of(&s), vec![1.5, 2.75, 4.0]);
    let back = s.sub(&b, fsub).unwrap();
    assert_eq!(floats_of(&back), vec![1.0, 2.5, -4.0]);
}

#[test]
fn mul_and_div_ints() {
    let a = int_array(vec![4], vec![7, -7, 9, i64::MIN]);
    let b = int_array(vec![4], vec![2, 2, -3, -1]);
    assert_eq!(ints_of(&a.mul(&b, fmul).unwrap()), vec![14, -14, -27, i64::MIN]);
    assert_eq!(ints_of(&a.div(&b, fdiv).unwrap()), vec![3, -3, -3, i64::MIN]);
}

#[test]
fn div_floats() {
    let a = float_array(vec![2], &[1.0, 3.0]);
    let b = float_array(vec![2], &[4.0, 2.0]);
    assert_eq!(floats_of(&a.div(&b, fdiv).unwrap()), vec![0.25, 1.5]);
    assert_eq!(floats_of(&a.mul(&b, fmul).unwrap()), vec![4.0, 6.0]);
}

#[test]
fn div_by_zero_int_fails() {
    let a = int_array(vec![2], vec![1, 2]);
    let b = int_array(vec![2], vec![1, 0]);
    assert!(matches!(a.div(&b, fdiv), Err(ArrayError::DivisionByZero)));
}

#[test]
fn shape_mismatch_reports_both_shapes() {
    let a = int_array(vec![2, 3], vec![1, 2, 3, 4, 5, 6]);
    let b = int_array(vec![3, 2], vec![1, 2, 3, 4, 5, 6]);
    match a.add(&b, fadd) {
        Err(ArrayError::ShapeMismatch { lhs, rhs }) => {
            assert_eq!(lhs, vec![2, 3]);
            assert_eq!(rhs, vec![3, 2]);
        }
        _ => panic!("expected a shape mismatch"),
    }
}

#[test]
fn variant_mismatch_in_arithmetic_fails() {
    let a = int_array(vec![2], vec![1, 2]);
    let b = float_array(vec![2], &[1.0, 2.0]);
    assert!(matches!(a.sub(&b, fsub), Err(ArrayError::TypeMismatch)));
}

#[test]
fn equals_int_and_float_is_false() {
    let a = int_array(vec![2], vec![1, 2]);
    let b = float_array(vec![2], &[1.0, 2.0]);
    assert!(!a.equals(&b));
    assert!(!b.equals(&a));
}

#[test]
fn equals_checks_shape_and_values() {
    let a = int_array(vec![2, 2], vec![1, 2, 3, 4]);
    assert!(a.equals(&int_array(vec![2, 2], vec![1, 2, 3, 4])));
    assert!(!a.equals(&int_array(vec![4], vec![1, 2, 3, 4])));
    assert!(!a.equals(&int_array(vec![2, 2], vec![1, 2, 3, 5])));
}

#[test]
fn equals_floats_ieee() {
    let a = float_array(vec![2], &[0.0, 1.0]);
    assert!(a.equals(&float_array(vec![2], &[-0.0, 1.0])));
    let n = float_array(vec![1], &[f64::NAN]);
    assert!(!n.equals(&n));
}

#[test]
fn arange_step_two() {
    let a = arange(Number::Int(0), Some(Number::Int(10)), 2);
    assert_eq!(a.shape, vec![5]);
    assert_eq!(ints_of(&a), vec![0, 2, 4, 6, 8]);
}

#[test]
fn arange_single_bound() {
    let a = arange(Number::Int(4), None, 1);
    assert_eq!(a.shape, vec![4]);
    assert_eq!(ints_of(&a), vec![0, 1, 2, 3]);
}

#[test]
fn arange_truncates_float_bounds() {
    let a = arange(Number::Float(fb(-1.5)), Some(Number::Float(fb(2.7))), 1);
    assert_eq!(ints_of(&a), vec![-1, 0, 1]);
}

#[test]
fn arange_descending_is_empty() {
    let a = arange(Number::Int(5), Some(Number::Int(1)), 1);
    assert_eq!(a.shape, vec![0]);
    assert!(ints_of(&a).is_empty());
}

#[test]
fn number_to_integer_truncates() {
    assert_eq!(i64::from(Number::Int(-9)), -9);
    assert_eq!(i64::from(Number::Float(fb(-2.7))), -2);
    assert_eq!(i64::from(Number::Float(fb(3.99))), 3);
    assert_eq!(i64::from(Number::Float(fb(0.25))), 0);
    assert_eq!(i64::from(Number::Float(fb(1e300))), i64::MAX);
    assert_eq!(i64::from(Number::Float(fb(-1e300))), i64::MIN);
    assert_eq!(i64::from(Number::Float(fb(f64::NAN))), 0);
    assert_eq!(i64::from(Number::Float(fb(f64::NEG_INFINITY))), i64::MIN);
    assert_eq!(i64::from(Number::Float(fb(4503599627370497.0))), 4503599627370497);
}

#[test]
fn float_eq_on_bits() {
    assert!(fb(0.0).float_eq(fb(-0.0)));
    assert!(fb(2.5).float_eq(fb(2.5)));
    assert!(!fb(2.5).float_eq(fb(2.25)));
    assert!(!fb(f64::NAN).float_eq(fb(f64::NAN)));
}

#[test]
fn outer_len() {
    let a = int_array(vec![2, 3], vec![1, 2, 3, 4, 5, 6]);
    assert_eq!(a.len(), 2);
    assert_eq!(a.arr.len(), 6);
}

#[test]
fn buffer_range_and_get() {
    let b = NumericalArray::Int(vec![5, 6, 7, 8]);
    assert!(matches!(b.get(2), Number::Int(7)));
    match b.get_range(1..3) {
        NumericalArray::Int(v) => assert_eq!(v, vec![6, 7]),
        _ => panic!("expected integers"),
    }
}
