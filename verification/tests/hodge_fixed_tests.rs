use hodgecodec::hodge_fixed::{
    hodge_decomposition_1d, q16_div, q16_mul, solve_poisson_1d, thomas_algorithm, Q16_ONE,
};

#[test]
fn test_q16_mul_identity() {
    assert_eq!(q16_mul(Q16_ONE, Q16_ONE), Q16_ONE);
}

#[test]
fn test_q16_div_by_zero() {
    assert_eq!(q16_div(Q16_ONE, 0), 0);
}

#[test]
fn test_hodge_1d_reconstruction() {
    const N: usize = 8;
    let f: [i32; N] = [Q16_ONE, Q16_ONE * 2, Q16_ONE * 3, Q16_ONE * 2, Q16_ONE, 0, -Q16_ONE, -Q16_ONE * 2];
    let mut grad = [0i32; N];
    let mut harm = [0i32; N];
    let mut pot = [0i32; N];
    let mut div_buf = [0i32; N];
    let mut cp = [0i32; N];
    let mut dp = [0i32; N];

    hodge_decomposition_1d(&f, &mut grad, &mut harm, &mut pot, &mut div_buf, &mut cp, &mut dp);

    for i in 0..N {
        let recon = grad[i].wrapping_add(harm[i]);
        let err = (recon - f[i]).unsigned_abs();
        assert!(err <= 4, "recon error at {i}: {err} (Q16 rounding)");
    }
}

#[test]
fn q16_mul_rounds_toward_negative_infinity() {
    // 1.5 * 2.0 = 3.0
    assert_eq!(q16_mul(98304, 131072), 196608);
    // -1/65536 * 0.5 = -2^-17, floored to -1 ulp
    assert_eq!(q16_mul(-1, 32768), -1);
    // the exact product fits, the shifted one wraps into 32 bits
    assert_eq!(q16_mul(i32::MAX, i32::MAX), ((i32::MAX as i64 * i32::MAX as i64) >> 16) as i32);
}

#[test]
fn q16_div_rounds_toward_zero() {
    // 1.0 / 3.0 = 21845.33 ulp -> 21845
    assert_eq!(q16_div(Q16_ONE, 3 * Q16_ONE), 21845);
    assert_eq!(q16_div(-Q16_ONE, 3 * Q16_ONE), -21845);
    assert_eq!(q16_div(Q16_ONE, -3 * Q16_ONE), -21845);
    assert_eq!(q16_div(-Q16_ONE, -3 * Q16_ONE), 21845);
    // 3.0 / 2.0 = 1.5
    assert_eq!(q16_div(3 * Q16_ONE, 2 * Q16_ONE), 98304);
}

#[test]
fn thomas_solves_identity_system() {
    const N: usize = 4;
    let a = [0i32; N];
    let b = [Q16_ONE; N];
    let c = [0i32; N];
    let d = [Q16_ONE, 2 * Q16_ONE, -Q16_ONE, 5];
    let mut x = [7i32; N];
    let mut cp = [0i32; N];
    let mut dp = [0i32; N];
    thomas_algorithm(&a, &b, &c, &d, &mut x, &mut cp, &mut dp);
    assert_eq!(x, d);
}

#[test]
fn thomas_single_row_with_zero_pivot_leaves_x() {
    let a = [0i32; 1];
    let b = [0i32; 1];
    let c = [0i32; 1];
    let d = [Q16_ONE; 1];
    let mut x = [42i32; 1];
    let mut cp = [9i32; 1];
    let mut dp = [9i32; 1];
    thomas_algorithm(&a, &b, &c, &d, &mut x, &mut cp, &mut dp);
    assert_eq!(x, [42]);
    assert_eq!(cp, [9]);
    assert_eq!(dp, [9]);
}

#[test]
fn poisson_equals_thomas_on_laplacian() {
    const N: usize = 6;
    let f = [Q16_ONE, -2 * Q16_ONE, 3 * Q16_ONE, 0, 12345, -777];
    let a = [-Q16_ONE; N];
    let b = [2 * Q16_ONE; N];
    let c = [-Q16_ONE; N];
    let mut x1 = [0i32; N];
    let mut cp1 = [0i32; N];
    let mut dp1 = [0i32; N];
    let mut x2 = [0i32; N];
    let mut cp2 = [0i32; N];
    let mut dp2 = [0i32; N];
    solve_poisson_1d(&f, &mut x1, &mut cp1, &mut dp1);
    thomas_algorithm(&a, &b, &c, &f, &mut x2, &mut cp2, &mut dp2);
    assert_eq!(x1, x2);
    assert_eq!(dp1, dp2);
    assert_eq!(cp1[..N - 1], cp2[..N - 1]);
}

#[test]
fn poisson_single_point_halves_source() {
    let f = [4 * Q16_ONE];
    let mut x = [0i32; 1];
    let mut cp = [3i32; 1];
    let mut dp = [3i32; 1];
    solve_poisson_1d(&f, &mut x, &mut cp, &mut dp);
    assert_eq!(x, [2 * Q16_ONE]);
    assert_eq!(cp, [3]);
    assert_eq!(dp, [3]);
}

#[test]
fn hodge_parts_of_constant_field() {
    const N: usize = 4;
    let f = [Q16_ONE; N];
    let mut grad = [0i32; N];
    let mut harm = [0i32; N];
    let mut pot = [0i32; N];
    let mut div_buf = [0i32; N];
    let mut cp = [0i32; N];
    let mut dp = [0i32; N];
    hodge_decomposition_1d(&f, &mut grad, &mut harm, &mut pot, &mut div_buf, &mut cp, &mut dp);
    // divergence of a constant field: the first sample, then zeros
    assert_eq!(div_buf, [Q16_ONE, 0, 0, 0]);
    for i in 0..N {
        assert_eq!(grad[i].wrapping_add(harm[i]), f[i]);
        let expect_grad = if i + 1 < N { pot[i + 1].wrapping_sub(pot[i]) } else { pot[i].wrapping_neg() };
        assert_eq!(grad[i], expect_grad);
    }
}

#[test]
fn q16_one_is_neutral() {
    for &a in &[0, 1, -1, 12345, -98765, i32::MAX, i32::MIN, Q16_ONE * 3] {
        assert_eq!(q16_mul(a, Q16_ONE), a);
        assert_eq!(q16_mul(Q16_ONE, a), a);
        assert_eq!(q16_div(a, Q16_ONE), a);
    }
    assert_eq!(q16_mul(123456, -654321), q16_mul(-654321, 123456));
}

#[test]
fn thomas_ignores_first_sub_and_last_super_diagonal() {
    const N: usize = 5;
    let b = [2 * Q16_ONE; N];
    let d = [Q16_ONE, 0, -Q16_ONE, 2 * Q16_ONE, 7];
    let mut a = [-Q16_ONE; N];
    let mut c = [-Q16_ONE; N];
    let (mut x1, mut cp1, mut dp1) = ([0i32; N], [0i32; N], [0i32; N]);
    thomas_algorithm(&a, &b, &c, &d, &mut x1, &mut cp1, &mut dp1);
    a[0] = 999_999;
    c[N - 1] = -424_242;
    let (mut x2, mut cp2, mut dp2) = ([0i32; N], [0i32; N], [0i32; N]);
    thomas_algorithm(&a, &b, &c, &d, &mut x2, &mut cp2, &mut dp2);
    assert_eq!(x1, x2);
    assert_eq!(dp1, dp2);
}
