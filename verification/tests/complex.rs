use mandel::complex::Complex;

#[test]
fn addition() {
    let a: Complex<i32> = Complex::new(2, 5);
    let b: Complex<i32> = Complex::new(7, 2);
    assert_eq!(a.add(b), Complex::new(9, 7))
}

#[test]
fn subtraction() {
    let a: Complex<i32> = Complex::new(12, 3);
    let b: Complex<i32> = Complex::new(10, -5);
    assert_eq!(a.sub(b), Complex::new(2, 8))
}

#[test]
fn multiplication() {
    let a: Complex<i32> = Complex::new(2, 5);
    let b: Complex<i32> = Complex::new(7, 2);
    assert_eq!(a.mul(b), Complex::new(14, 10))
}

#[test]
fn powi() {
    let a: Complex<i32> = Complex::new(2, 5);

    assert_eq!(a.powi(0), a);
    assert_eq!(a.powi(1), Complex::new(4, 25));
    assert_eq!(a.powi(2), Complex::new(16, 625));
    assert_eq!(a.powi(3), Complex::new(256, 390625));
}

#[test]
fn powi_negative_exponent_is_identity() {
    let a: Complex<i32> = Complex::new(3, -4);
    assert_eq!(a.powi(-1), a);
}

#[test]
fn wide_elements() {
    let a: Complex<i64> = Complex::new(2, 5);
    let b: Complex<i64> = Complex::new(7, 2);
    assert_eq!(a.add(b), Complex::new(9, 7));
    assert_eq!(a.sub(b), Complex::new(-5, 3));
    assert_eq!(a.mul(b), Complex::new(14, 10));
    assert_eq!(a.powi(4), Complex::new(65536, 152587890625));
}
