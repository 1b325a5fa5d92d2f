use fast_polynomial::polynomials::{
    poly_1, poly_10, poly_11, poly_12, poly_13, poly_14, poly_15, poly_2, poly_3, poly_31, poly_4,
    poly_5, poly_6, poly_7, poly_8, poly_9,
};

// The powers handed in are unrelated numbers: a coefficient must meet
// exactly the powers that the bits of its index name.
const X: u64 = 3;
const X2: u64 = 5;
const X4: u64 = 7;
const X8: u64 = 11;
const X16: u64 = 13;

fn coefficient(i: usize) -> u64 {
    1000 + 17 * (i as u64) * (i as u64) + (i as u64)
}

fn expected(n: usize) -> u64 {
    let powers = [X, X2, X4, X8, X16];
    let mut sum: u64 = 0;
    for i in 0..n {
        let mut term = coefficient(i);
        for (bit, power) in powers.iter().enumerate() {
            if i & (1 << bit) != 0 {
                term = term.wrapping_mul(*power);
            }
        }
        sum = sum.wrapping_add(term);
    }
    sum
}

#[test]
fn degree_1_written_out() {
    // 3 * 20 + 10
    assert_eq!(poly_1(3u64, 10, 20), 70);
}

#[test]
fn degree_2_written_out() {
    // 5 * 30 + (3 * 20 + 10)
    assert_eq!(poly_2(3u64, 5, 10, 20, 30), 220);
}

#[test]
fn degree_3_written_out() {
    // 5 * (3 * 40 + 30) + (3 * 20 + 10)
    assert_eq!(poly_3(3u64, 5, 10, 20, 30, 40), 820);
}

#[test]
fn degree_4_written_out() {
    // 7 * 50 + (5 * (3 * 40 + 30) + (3 * 20 + 10))
    assert_eq!(poly_4(3u64, 5, 7, 10, 20, 30, 40, 50), 1170);
}

#[test]
fn degree_1_pairs_coefficients_with_powers() {
    let got = poly_1(
        X, coefficient(0), coefficient(1),
    );
    assert_eq!(got, expected(2));
}

#[test]
fn degree_2_pairs_coefficients_with_powers() {
    let got = poly_2(
        X, X2, coefficient(0), coefficient(1), coefficient(2),
    );
    assert_eq!(got, expected(3));
}

#[test]
fn degree_3_pairs_coefficients_with_powers() {
    let got = poly_3(
        X, X2, coefficient(0), coefficient(1), coefficient(2), coefficient(3),
    );
    assert_eq!(got, expected(4));
}

#[test]
fn degree_4_pairs_coefficients_with_powers() {
    let got = poly_4(
        X, X2, X4, coefficient(0), coefficient(1), coefficient(2), coefficient(3),
        coefficient(4),
    );
    assert_eq!(got, expected(5));
}

#[test]
fn degree_5_pairs_coefficients_with_powers() {
    let got = poly_5(
        X, X2, X4, coefficient(0), coefficient(1), coefficient(2), coefficient(3),
        coefficient(4), coefficient(5),
    );
    assert_eq!(got, expected(6));
}

#[test]
fn degree_6_pairs_coefficients_with_powers() {
    let got = poly_6(
        X, X2, X4, coefficient(0), coefficient(1), coefficient(2), coefficient(3),
        coefficient(4), coefficient(5), coefficient(6),
    );
    assert_eq!(got, expected(7));
}

#[test]
fn degree_7_pairs_coefficients_with_powers() {
    let got = poly_7(
        X, X2, X4, coefficient(0), coefficient(1), coefficient(2), coefficient(3),
        coefficient(4), coefficient(5), coefficient(6), coefficient(7),
    );
    assert_eq!(got, expected(8));
}

#[test]
fn degree_8_pairs_coefficients_with_powers() {
    let got = poly_8(
        X, X2, X4, X8, coefficient(0), coefficient(1), coefficient(2), coefficient(3),
        coefficient(4), coefficient(5), coefficient(6), coefficient(7), coefficient(8),
    );
    assert_eq!(got, expected(9));
}

#[test]
fn degree_9_pairs_coefficients_with_powers() {
    let got = poly_9(
        X, X2, X4, X8, coefficient(0), coefficient(1), coefficient(2), coefficient(3),
        coefficient(4), coefficient(5), coefficient(6), coefficient(7), coefficient(8),
        coefficient(9),
    );
    assert_eq!(got, expected(10));
}

#[test]
fn degree_10_pairs_coefficients_with_powers() {
    let got = poly_10(
        X, X2, X4, X8, coefficient(0), coefficient(1), coefficient(2), coefficient(3),
        coefficient(4), coefficient(5), coefficient(6), coefficient(7), coefficient(8),
        coefficient(9), coefficient(10),
    );
    assert_eq!(got, expected(11));
}

#[test]
fn degree_11_pairs_coefficients_with_powers() {
    let got = poly_11(
        X, X2, X4, X8, coefficient(0), coefficient(1), coefficient(2), coefficient(3),
        coefficient(4), coefficient(5), coefficient(6), coefficient(7), coefficient(8),
        coefficient(9), coefficient(10), coefficient(11),
    );
    assert_eq!(got, expected(12));
}

#[test]
fn degree_12_pairs_coefficients_with_powers() {
    let got = poly_12(
        X, X2, X4, X8, coefficient(0), coefficient(1), coefficient(2), coefficient(3),
        coefficient(4), coefficient(5), coefficient(6), coefficient(7), coefficient(8),
        coefficient(9), coefficient(10), coefficient(11), coefficient(12),
    );
    assert_eq!(got, expected(13));
}

#[test]
fn degree_13_pairs_coefficients_with_powers() {
    let got = poly_13(
        X, X2, X4, X8, coefficient(0), coefficient(1), coefficient(2), coefficient(3),
        coefficient(4), coefficient(5), coefficient(6), coefficient(7), coefficient(8),
        coefficient(9), coefficient(10), coefficient(11), coefficient(12), coefficient(13),
    );
    assert_eq!(got, expected(14));
}

#[test]
fn degree_14_pairs_coefficients_with_powers() {
    let got = poly_14(
        X, X2, X4, X8, coefficient(0), coefficient(1), coefficient(2), coefficient(3),
        coefficient(4), coefficient(5), coefficient(6), coefficient(7), coefficient(8),
        coefficient(9), coefficient(10), coefficient(11), coefficient(12), coefficient(13),
        coefficient(14),
    );
    assert_eq!(got, expected(15));
}

#[test]
fn degree_15_pairs_coefficients_with_powers() {
    let got = poly_15(
        X, X2, X4, X8, coefficient(0), coefficient(1), coefficient(2), coefficient(3),
        coefficient(4), coefficient(5), coefficient(6), coefficient(7), coefficient(8),
        coefficient(9), coefficient(10), coefficient(11), coefficient(12), coefficient(13),
        coefficient(14), coefficient(15),
    );
    assert_eq!(got, expected(16));
}

#[test]
fn degree_31_pairs_coefficients_with_powers() {
    let got = poly_31(
        X, X2, X4, X8, X16, coefficient(0), coefficient(1), coefficient(2), coefficient(3),
        coefficient(4), coefficient(5), coefficient(6), coefficient(7), coefficient(8),
        coefficient(9), coefficient(10), coefficient(11), coefficient(12), coefficient(13),
        coefficient(14), coefficient(15), coefficient(16), coefficient(17),
        coefficient(18), coefficient(19), coefficient(20), coefficient(21),
        coefficient(22), coefficient(23), coefficient(24), coefficient(25),
        coefficient(26), coefficient(27), coefficient(28), coefficient(29),
        coefficient(30), coefficient(31),
    );
    assert_eq!(got, expected(32));
}
