//! Q16.16 fixed-point Hodge decomposition: multiplication, division,
//! the Thomas tridiagonal solver and the 1D Poisson solver.
use vstd::prelude::*;

verus! {

/// Number of fractional bits of a Q16.16 value.
pub const Q16_FRAC_BITS: usize = 16;

/// The value 1.0 in Q16.16.
pub const Q16_ONE: i32 = 65536;

/// Division that rounds toward zero, as Rust's integer `/` does.
pub open spec fn trunc_div(x: int, y: int) -> int {
    let q = abs(x) / abs(y);
    if (x < 0) == (y < 0) {
        q
    } else {
        -q
    }
}

pub open spec fn abs(x: int) -> int {
    if x < 0 {
        -x
    } else {
        x
    }
}

/// Q16.16 product: the exact product shifted right by 16 (rounding toward
/// negative infinity), wrapped into 32 bits.
pub open spec fn q16_mul_spec(a: i32, b: i32) -> i32 {
    ((a * b) / 65536) as i32
}

/// Q16.16 quotient: zero for a zero divisor, else the numerator shifted left
/// by 16 divided toward zero, wrapped into 32 bits.
pub open spec fn q16_div_spec(a: i32, b: i32) -> i32 {
    if b == 0 {
        0
    } else {
        trunc_div(a * 65536, b as int) as i32
    }
}

proof fn lemma_shr16_is_floor_div(p: i64)
    ensures
        p >> 16u64 == p / 65536,
{
    assert(p >> 16u64 == p / 65536) by (bit_vector);
}

pub fn q16_mul(a: i32, b: i32) -> (r: i32)
    ensures
        r == q16_mul_spec(a, b),
{
    let a64 = a as i64;
    let b64 = b as i64;
    assert(-0x4000_0000_0000_0000 <= a64 * b64 <= 0x4000_0000_0000_0000) by (nonlinear_arith)
        requires
            -0x8000_0000 <= a64 <= 0x7fff_ffff,
            -0x8000_0000 <= b64 <= 0x7fff_ffff,
    ;
    let p = a64 * b64;
    let s = p >> 16u64;
    proof {
        lemma_shr16_is_floor_div(p);
    }
    s as i32
}

pub fn q16_div(a: i32, b: i32) -> (r: i32)
    ensures
        r == q16_div_spec(a, b),
{
    if b == 0 {
        return 0;
    }
    let n: i64 = (a as i64) * 65536;
    let b64: i64 = b as i64;
    let un: u64 = if n < 0 { (-n) as u64 } else { n as u64 };
    let ub: u64 = if b64 < 0 { (-b64) as u64 } else { b64 as u64 };
    let uq: u64 = un / ub;
    assert(uq <= un) by (nonlinear_arith)
        requires
            ub >= 1,
            uq == un / ub,
    ;
    let q: i64 = if (n < 0) == (b64 < 0) { uq as i64 } else { -(uq as i64) };
    q as i32
}

/// `1.0` (`Q16_ONE`) is neutral for Q16.16 multiplication and division, and
/// multiplication is commutative.
pub proof fn law_q16_one_is_neutral(a: i32, b: i32)
    ensures
        q16_mul_spec(a, Q16_ONE) == a,
        q16_mul_spec(Q16_ONE, a) == a,
        q16_div_spec(a, Q16_ONE) == a,
        q16_mul_spec(a, b) == q16_mul_spec(b, a),
{
    assert((a * 65536) / 65536 == a) by (nonlinear_arith);
    assert((65536 * a) / 65536 == a) by (nonlinear_arith);
    assert(a * b == b * a) by (nonlinear_arith);
    assert(abs(a * 65536) / abs(65536) == abs(a as int)) by (nonlinear_arith);
}

/// Pivot of row `i >= 1` in the forward sweep of the Thomas algorithm.
pub open spec fn thomas_den(a: Seq<i32>, b: Seq<i32>, c: Seq<i32>, i: nat) -> i32
    decreases i, 0nat,
{
    if i == 0 {
        b[0]
    } else {
        b[i as int].wrapping_sub(q16_mul_spec(a[i as int], thomas_cp(a, b, c, (i - 1) as nat)))
    }
}

/// Modified super-diagonal `c'[i]` of the forward sweep (zero on a zero pivot).
pub open spec fn thomas_cp(a: Seq<i32>, b: Seq<i32>, c: Seq<i32>, i: nat) -> i32
    decreases i, 1nat,
{
    if i == 0 {
        q16_div_spec(c[0], b[0])
    } else {
        let den = thomas_den(a, b, c, i);
        if den == 0 {
            0
        } else {
            q16_div_spec(c[i as int], den)
        }
    }
}

/// Modified right-hand side `d'[i]` of the forward sweep (zero on a zero pivot).
pub open spec fn thomas_dp(a: Seq<i32>, b: Seq<i32>, c: Seq<i32>, d: Seq<i32>, i: nat) -> i32
    decreases i,
{
    if i == 0 {
        q16_div_spec(d[0], b[0])
    } else {
        let den = thomas_den(a, b, c, i);
        if den == 0 {
            0
        } else {
            q16_div_spec(
                d[i as int].wrapping_sub(q16_mul_spec(a[i as int], thomas_dp(a, b, c, d, (i - 1) as nat))),
                den,
            )
        }
    }
}

/// Solution `x[i]` of the back substitution over `n` rows.
pub open spec fn thomas_x(a: Seq<i32>, b: Seq<i32>, c: Seq<i32>, d: Seq<i32>, n: nat, i: nat) -> i32
    decreases n - i,
{
    if i + 1 >= n {
        thomas_dp(a, b, c, d, (n - 1) as nat)
    } else {
        thomas_dp(a, b, c, d, i).wrapping_sub(
            q16_mul_spec(thomas_cp(a, b, c, i), thomas_x(a, b, c, d, n, i + 1)),
        )
    }
}

/// General tridiagonal solver (Thomas algorithm) in Q16.16.
/// `a[0]` and `c[N-1]` are ignored; `c_prime` and `d_prime` are scratch space.
pub fn thomas_algorithm<const N: usize>(
    a: &[i32; N],
    b: &[i32; N],
    c: &[i32; N],
    d: &[i32; N],
    x: &mut [i32; N],
    c_prime: &mut [i32; N],
    d_prime: &mut [i32; N],
)
    ensures
        N == 0 ==> final(x)@ == old(x)@ && final(c_prime)@ == old(c_prime)@ && final(d_prime)@
            == old(d_prime)@,
        N == 1 ==> {
            &&& final(x)@ == (if b[0] != 0 {
                seq![q16_div_spec(d[0], b[0])]
            } else {
                old(x)@
            })
            &&& final(c_prime)@ == old(c_prime)@
            &&& final(d_prime)@ == old(d_prime)@
        },
        N >= 2 ==> {
            &&& final(x)@.len() == N
            &&& final(c_prime)@.len() == N
            &&& final(d_prime)@.len() == N
            &&& forall|i: int|
                0 <= i < N ==> #[trigger] final(x)@[i] == thomas_x(a@, b@, c@, d@, N as nat, i as nat)
            &&& forall|i: int|
                0 <= i < N ==> #[trigger] final(d_prime)@[i] == thomas_dp(a@, b@, c@, d@, i as nat)
            &&& forall|i: int|
                0 <= i < N - 1 ==> #[trigger] final(c_prime)@[i] == thomas_cp(a@, b@, c@, i as nat)
            &&& final(c_prime)@[N - 1] == (if thomas_den(a@, b@, c@, (N - 1) as nat) == 0 {
                0
            } else {
                old(c_prime)@[N - 1]
            })
        },
        N >= 2 && (forall|k: int| 0 <= k < N ==> a@[k] == 0) ==> {
            &&& final(x)@[N - 1] == q16_div_spec(d@[N - 1], b@[N - 1])
            &&& forall|i: int|
                0 <= i < N - 1 ==> #[trigger] final(x)@[i] == q16_div_spec(d@[i], b@[i]).wrapping_sub(
                    q16_mul_spec(q16_div_spec(c@[i], b@[i]), final(x)@[i + 1]),
                )
        },
        N >= 2 && (forall|k: int| 0 <= k < N ==> c@[k] == 0) ==> {
            &&& final(x)@[0] == q16_div_spec(d@[0], b@[0])
            &&& forall|i: int|
                1 <= i < N ==> #[trigger] final(x)@[i] == q16_div_spec(
                    d@[i].wrapping_sub(q16_mul_spec(a@[i], final(x)@[i - 1])),
                    b@[i],
                )
        },
{
    if N == 0 {
        return ;
    }
    if N == 1 {
        if b[0] != 0 {
            x[0] = q16_div(d[0], b[0]);
        }
        assert(N == 1 && b[0] != 0 ==> x@ =~= seq![q16_div_spec(d[0], b[0])]);
        return ;
    }
    c_prime[0] = q16_div(c[0], b[0]);
    d_prime[0] = q16_div(d[0], b[0]);
    let ghost cp0 = old(c_prime)@;
    let mut i: usize = 1;
    while i < N
        invariant
            2 <= N,
            1 <= i <= N,
            c_prime@.len() == N,
            d_prime@.len() == N,
            cp0.len() == N,
            forall|j: int| 0 <= j < i ==> #[trigger] d_prime@[j] == thomas_dp(a@, b@, c@, d@, j as nat),
            forall|j: int|
                0 <= j < i && j < N - 1 ==> #[trigger] c_prime@[j] == thomas_cp(a@, b@, c@, j as nat),
            i < N ==> c_prime@[N - 1] == cp0[N - 1],
            i == N ==> c_prime@[N - 1] == (if thomas_den(a@, b@, c@, (N - 1) as nat) == 0 {
                0
            } else {
                cp0[N - 1]
            }),
        decreases N - i,
    {
        let den = b[i].wrapping_sub(q16_mul(a[i], c_prime[i - 1]));
        assert(den == thomas_den(a@, b@, c@, i as nat));
        if den == 0 {
            c_prime[i] = 0;
            d_prime[i] = 0;
        } else {
            if i < N - 1 {
                c_prime[i] = q16_div(c[i], den);
            }
            let num = d[i].wrapping_sub(q16_mul(a[i], d_prime[i - 1]));
            d_prime[i] = q16_div(num, den);
        }
        i = i + 1;
    }
    x[N - 1] = d_prime[N - 1];
    let mut k: usize = N - 1;
    while k > 0
        invariant
            2 <= N,
            k < N,
            x@.len() == N,
            c_prime@.len() == N,
            d_prime@.len() == N,
            forall|j: int| 0 <= j < N ==> #[trigger] d_prime@[j] == thomas_dp(a@, b@, c@, d@, j as nat),
            forall|j: int| 0 <= j < N - 1 ==> #[trigger] c_prime@[j] == thomas_cp(a@, b@, c@, j as nat),
            forall|j: int| k <= j < N ==> #[trigger] x@[j] == thomas_x(a@, b@, c@, d@, N as nat, j as nat),
        decreases k,
    {
        k = k - 1;
        x[k] = d_prime[k].wrapping_sub(q16_mul(c_prime[k], x[k + 1]));
    }
    proof {
        if forall|j: int| 0 <= j < N ==> a@[j] == 0 {
            law_thomas_upper_bidiagonal(a@, b@, c@, d@);
            assert forall|i: int| 0 <= i < N - 1 implies #[trigger] x@[i] == q16_div_spec(d@[i], b@[i]).wrapping_sub(
                q16_mul_spec(q16_div_spec(c@[i], b@[i]), x@[i + 1]),
            ) by {
                assert(thomas_x(a@, b@, c@, d@, N as nat, i as nat) == x@[i]);
                assert(thomas_x(a@, b@, c@, d@, N as nat, (i + 1) as nat) == x@[i + 1]);
            }
        }
        if forall|j: int| 0 <= j < N ==> c@[j] == 0 {
            law_thomas_lower_bidiagonal(a@, b@, c@, d@);
            assert forall|i: int| 1 <= i < N implies #[trigger] x@[i] == q16_div_spec(
                d@[i].wrapping_sub(q16_mul_spec(a@[i], x@[i - 1])),
                b@[i],
            ) by {
                assert(thomas_x(a@, b@, c@, d@, N as nat, i as nat) == x@[i]);
                assert(thomas_x(a@, b@, c@, d@, N as nat, (i - 1) as nat) == x@[i - 1]);
            }
        }
    }
}

proof fn lemma_thomas_sweep_ignores(
    a: Seq<i32>,
    c: Seq<i32>,
    a2: Seq<i32>,
    c2: Seq<i32>,
    b: Seq<i32>,
    d: Seq<i32>,
    n: nat,
    i: nat,
)
    requires
        a.len() == n && a2.len() == n && c.len() == n && c2.len() == n,
        forall|k: int| 1 <= k < n ==> a[k] == a2[k],
        forall|k: int| 0 <= k < n - 1 ==> c[k] == c2[k],
        i < n - 1,
    ensures
        thomas_cp(a, b, c, i) == thomas_cp(a2, b, c2, i),
        thomas_dp(a, b, c, d, i) == thomas_dp(a2, b, c2, d, i),
        thomas_den(a, b, c, i) == thomas_den(a2, b, c2, i),
    decreases i,
{
    if i > 0 {
        lemma_thomas_sweep_ignores(a, c, a2, c2, b, d, n, (i - 1) as nat);
    }
}

/// The Thomas solver ignores `a[0]` and `c[N-1]`: changing them changes no
/// entry of the solution and no entry of `d'`, nor any entry of `c'` the back
/// substitution reads.
pub proof fn law_thomas_ignores_unused_diagonals(
    a: Seq<i32>,
    b: Seq<i32>,
    c: Seq<i32>,
    d: Seq<i32>,
    a2: Seq<i32>,
    c2: Seq<i32>,
)
    requires
        a.len() == b.len() && c.len() == b.len() && d.len() == b.len(),
        a2.len() == b.len() && c2.len() == b.len(),
        b.len() >= 1,
        forall|k: int| 1 <= k < b.len() ==> a[k] == a2[k],
        forall|k: int| 0 <= k < b.len() - 1 ==> c[k] == c2[k],
    ensures
        forall|i: nat|
            i < b.len() ==> #[trigger] thomas_x(a, b, c, d, b.len(), i) == thomas_x(a2, b, c2, d, b.len(), i),
        forall|i: nat| i < b.len() ==> #[trigger] thomas_dp(a, b, c, d, i) == thomas_dp(a2, b, c2, d, i),
        forall|i: nat| i + 1 < b.len() ==> #[trigger] thomas_cp(a, b, c, i) == thomas_cp(a2, b, c2, i),
{
    let n = b.len();
    assert forall|i: nat| i + 1 < n implies #[trigger] thomas_cp(a, b, c, i) == thomas_cp(a2, b, c2, i) by {
        lemma_thomas_sweep_ignores(a, c, a2, c2, b, d, n, i);
    }
    assert forall|i: nat| i + 1 < n implies #[trigger] thomas_dp(a, b, c, d, i) == thomas_dp(a2, b, c2, d, i) by {
        lemma_thomas_sweep_ignores(a, c, a2, c2, b, d, n, i);
    }
    assert(thomas_dp(a, b, c, d, (n - 1) as nat) == thomas_dp(a2, b, c2, d, (n - 1) as nat)) by {
        if n >= 2 {
            lemma_thomas_sweep_ignores(a, c, a2, c2, b, d, n, (n - 2) as nat);
            assert(thomas_den(a, b, c, (n - 1) as nat) == thomas_den(a2, b, c2, (n - 1) as nat));
        }
    }
    assert forall|i: nat| i < n implies #[trigger] thomas_dp(a, b, c, d, i) == thomas_dp(a2, b, c2, d, i) by {
        if i + 1 < n {
            assert(thomas_dp(a, b, c, d, i) == thomas_dp(a2, b, c2, d, i));
        }
    }
    assert forall|i: nat| i < n implies #[trigger] thomas_x(a, b, c, d, n, i) == thomas_x(a2, b, c2, d, n, i) by {
        lemma_thomas_back_ignores(a, b, c, d, a2, c2, n, i);
    }
}

proof fn lemma_thomas_back_ignores(
    a: Seq<i32>,
    b: Seq<i32>,
    c: Seq<i32>,
    d: Seq<i32>,
    a2: Seq<i32>,
    c2: Seq<i32>,
    n: nat,
    i: nat,
)
    requires
        n == b.len(),
        a.len() == n && a2.len() == n && c.len() == n && c2.len() == n,
        forall|k: int| 1 <= k < n ==> a[k] == a2[k],
        forall|k: int| 0 <= k < n - 1 ==> c[k] == c2[k],
        forall|k: nat| k + 1 < n ==> #[trigger] thomas_cp(a, b, c, k) == thomas_cp(a2, b, c2, k),
        forall|k: nat| k + 1 < n ==> #[trigger] thomas_dp(a, b, c, d, k) == thomas_dp(a2, b, c2, d, k),
        thomas_dp(a, b, c, d, (n - 1) as nat) == thomas_dp(a2, b, c2, d, (n - 1) as nat),
        i < n,
    ensures
        thomas_x(a, b, c, d, n, i) == thomas_x(a2, b, c2, d, n, i),
    decreases n - i,
{
    if i + 1 < n {
        lemma_thomas_back_ignores(a, b, c, d, a2, c2, n, i + 1);
    }
}

/// Pivot of row `i >= 1` when eliminating the Laplacian `diag = 2, off = -1`.
pub open spec fn poisson_den(i: nat) -> i32
    decreases i, 0nat,
{
    if i == 0 {
        131072
    } else {
        131072i32.wrapping_sub(q16_mul_spec(-65536i32, poisson_cp((i - 1) as nat)))
    }
}

/// Modified super-diagonal of the Laplacian elimination (zero on a zero pivot).
pub open spec fn poisson_cp(i: nat) -> i32
    decreases i, 1nat,
{
    if i == 0 {
        q16_div_spec(-65536i32, 131072i32)
    } else if poisson_den(i) == 0 {
        0
    } else {
        q16_div_spec(-65536i32, poisson_den(i))
    }
}

/// Modified right-hand side of the Laplacian elimination for source `f`.
pub open spec fn poisson_dp(f: Seq<i32>, i: nat) -> i32
    decreases i,
{
    if i == 0 {
        q16_div_spec(f[0], 131072i32)
    } else if poisson_den(i) == 0 {
        0
    } else {
        q16_div_spec(f[i as int].wrapping_sub(q16_mul_spec(-65536i32, poisson_dp(f, (i - 1) as nat))), poisson_den(i))
    }
}

/// Potential `x[i]` solving `-Δx = f` over `n` points, by back substitution.
pub open spec fn poisson_x(f: Seq<i32>, n: nat, i: nat) -> i32
    decreases n - i,
{
    if i + 1 >= n {
        poisson_dp(f, (n - 1) as nat)
    } else {
        poisson_dp(f, i).wrapping_sub(q16_mul_spec(poisson_cp(i), poisson_x(f, n, i + 1)))
    }
}

/// Solves `-Δφ = f` (1D discrete Poisson, `diag = 2`, `off = -1`) in Q16.16
/// without materialising the diagonals.
pub fn solve_poisson_1d<const N: usize>(
    f: &[i32; N],
    x: &mut [i32; N],
    c_prime: &mut [i32; N],
    d_prime: &mut [i32; N],
)
    ensures
        N == 0 ==> final(x)@ == old(x)@ && final(c_prime)@ == old(c_prime)@ && final(d_prime)@
            == old(d_prime)@,
        N == 1 ==> {
            &&& final(x)@ == seq![q16_div_spec(f[0], 131072i32)]
            &&& final(c_prime)@ == old(c_prime)@
            &&& final(d_prime)@ == old(d_prime)@
        },
        N >= 1 ==> forall|i: int|
            0 <= i < N ==> #[trigger] final(x)@[i] == poisson_x(f@, N as nat, i as nat),
        N >= 2 ==> {
            &&& forall|i: int|
                0 <= i < N ==> #[trigger] final(d_prime)@[i] == poisson_dp(f@, i as nat)
            &&& forall|i: int| 0 <= i < N - 1 ==> #[trigger] final(c_prime)@[i] == poisson_cp(i as nat)
            &&& final(c_prime)@[N - 1] == (if poisson_den((N - 1) as nat) == 0 {
                0
            } else {
                old(c_prime)@[N - 1]
            })
        },
{
    if N == 0 {
        return ;
    }
    if N == 1 {
        x[0] = q16_div(f[0], 2 * Q16_ONE);
        assert(x@ =~= seq![q16_div_spec(f[0], 131072i32)]);
        return ;
    }
    let a_val: i32 = -Q16_ONE;
    let b_val: i32 = 2 * Q16_ONE;
    let c_val: i32 = -Q16_ONE;
    c_prime[0] = q16_div(c_val, b_val);
    d_prime[0] = q16_div(f[0], b_val);
    let ghost cp0 = old(c_prime)@;
    let mut i: usize = 1;
    while i < N
        invariant
            2 <= N,
            1 <= i <= N,
            a_val == -65536,
            b_val == 131072,
            c_val == -65536,
            c_prime@.len() == N,
            d_prime@.len() == N,
            cp0.len() == N,
            forall|j: int| 0 <= j < i ==> #[trigger] d_prime@[j] == poisson_dp(f@, j as nat),
            forall|j: int| 0 <= j < i && j < N - 1 ==> #[trigger] c_prime@[j] == poisson_cp(j as nat),
            i < N ==> c_prime@[N - 1] == cp0[N - 1],
            i == N ==> c_prime@[N - 1] == (if poisson_den((N - 1) as nat) == 0 {
                0
            } else {
                cp0[N - 1]
            }),
        decreases N - i,
    {
        let den = b_val.wrapping_sub(q16_mul(a_val, c_prime[i - 1]));
        assert(den == poisson_den(i as nat));
        if den == 0 {
            c_prime[i] = 0;
            d_prime[i] = 0;
        } else {
            if i < N - 1 {
                c_prime[i] = q16_div(c_val, den);
            }
            let num = f[i].wrapping_sub(q16_mul(a_val, d_prime[i - 1]));
            d_prime[i] = q16_div(num, den);
        }
        i = i + 1;
    }
    x[N - 1] = d_prime[N - 1];
    let mut k: usize = N - 1;
    while k > 0
        invariant
            2 <= N,
            k < N,
            x@.len() == N,
            c_prime@.len() == N,
            d_prime@.len() == N,
            forall|j: int| 0 <= j < N ==> #[trigger] d_prime@[j] == poisson_dp(f@, j as nat),
            forall|j: int| 0 <= j < N - 1 ==> #[trigger] c_prime@[j] == poisson_cp(j as nat),
            forall|j: int| k <= j < N ==> #[trigger] x@[j] == poisson_x(f@, N as nat, j as nat),
        decreases k,
    {
        k = k - 1;
        x[k] = d_prime[k].wrapping_sub(q16_mul(c_prime[k], x[k + 1]));
    }
}

/// The constant off-diagonal (`-1.0`) of the 1D Laplacian, `n` entries.
pub open spec fn laplacian_off(n: nat) -> Seq<i32> {
    Seq::new(n, |i: int| -65536i32)
}

/// The constant diagonal (`2.0`) of the 1D Laplacian, `n` entries.
pub open spec fn laplacian_diag(n: nat) -> Seq<i32> {
    Seq::new(n, |i: int| 131072i32)
}

proof fn lemma_poisson_sweep_is_thomas(n: nat, f: Seq<i32>, i: nat)
    requires
        i < n,
        f.len() == n,
    ensures
        thomas_den(laplacian_off(n), laplacian_diag(n), laplacian_off(n), i) == poisson_den(i),
        thomas_cp(laplacian_off(n), laplacian_diag(n), laplacian_off(n), i) == poisson_cp(i),
        thomas_dp(laplacian_off(n), laplacian_diag(n), laplacian_off(n), f, i) == poisson_dp(f, i),
    decreases i,
{
    if i > 0 {
        lemma_poisson_sweep_is_thomas(n, f, (i - 1) as nat);
    }
}

proof fn lemma_poisson_back_is_thomas(n: nat, f: Seq<i32>, i: nat)
    requires
        i < n,
        f.len() == n,
    ensures
        thomas_x(laplacian_off(n), laplacian_diag(n), laplacian_off(n), f, n, i) == poisson_x(f, n, i),
    decreases n - i,
{
    lemma_poisson_sweep_is_thomas(n, f, i);
    lemma_poisson_sweep_is_thomas(n, f, (n - 1) as nat);
    if i + 1 < n {
        lemma_poisson_back_is_thomas(n, f, i + 1);
    }
}

/// The Poisson solver is the general Thomas solver applied to the Laplacian's
/// constant diagonals (`a = c = -1.0`, `b = 2.0`): every pivot, every entry of
/// `c'`, `d'` and every entry of the solution coincide.
pub proof fn law_poisson_is_thomas_on_laplacian(f: Seq<i32>)
    ensures
        forall|i: nat|
            i < f.len() ==> {
                &&& #[trigger] thomas_den(laplacian_off(f.len()), laplacian_diag(f.len()), laplacian_off(f.len()), i)
                    == poisson_den(i)
                &&& thomas_cp(laplacian_off(f.len()), laplacian_diag(f.len()), laplacian_off(f.len()), i)
                    == poisson_cp(i)
                &&& thomas_dp(laplacian_off(f.len()), laplacian_diag(f.len()), laplacian_off(f.len()), f, i)
                    == poisson_dp(f, i)
                &&& thomas_x(laplacian_off(f.len()), laplacian_diag(f.len()), laplacian_off(f.len()), f, f.len(), i)
                    == poisson_x(f, f.len(), i)
            },
{
    assert forall|i: nat| i < f.len() implies {
        &&& #[trigger] thomas_den(laplacian_off(f.len()), laplacian_diag(f.len()), laplacian_off(f.len()), i)
            == poisson_den(i)
        &&& thomas_cp(laplacian_off(f.len()), laplacian_diag(f.len()), laplacian_off(f.len()), i)
            == poisson_cp(i)
        &&& thomas_dp(laplacian_off(f.len()), laplacian_diag(f.len()), laplacian_off(f.len()), f, i)
            == poisson_dp(f, i)
        &&& thomas_x(laplacian_off(f.len()), laplacian_diag(f.len()), laplacian_off(f.len()), f, f.len(), i)
            == poisson_x(f, f.len(), i)
    } by {
        lemma_poisson_sweep_is_thomas(f.len(), f, i);
        lemma_poisson_back_is_thomas(f.len(), f, i);
    }
}

/// Backward difference `f[i] - f[i-1]` (wrapping), with `f[-1] = 0`: the
/// discrete divergence `d*f`.
pub open spec fn backward_diff(f: Seq<i32>, i: int) -> i32 {
    if i == 0 {
        f[0]
    } else {
        f[i].wrapping_sub(f[i - 1])
    }
}

/// Forward difference `p[i+1] - p[i]` (wrapping), with `p[n] = 0`: the
/// discrete gradient `dφ`.
pub open spec fn forward_diff(p: Seq<i32>, i: int) -> i32 {
    if i + 1 < p.len() {
        p[i + 1].wrapping_sub(p[i])
    } else {
        0i32.wrapping_sub(p[i])
    }
}

/// The divergence field `d*f` of `f`.
pub open spec fn divergence(f: Seq<i32>) -> Seq<i32> {
    Seq::new(f.len(), |i: int| backward_diff(f, i))
}

/// Wrapping subtraction followed by wrapping addition of the same value is the identity.
pub proof fn lemma_wrapping_sub_add(f: i32, g: i32)
    ensures
        g.wrapping_add(f.wrapping_sub(g)) == f,
{
}

/// True 1D Hodge decomposition in Q16.16:
/// `div_buffer = d*f`, `potential` solves `-Δφ = d*f`, `gradient_part = dφ`,
/// `harmonic_part = f - dφ`.
pub fn hodge_decomposition_1d<const N: usize>(
    f_field: &[i32; N],
    gradient_part: &mut [i32; N],
    harmonic_part: &mut [i32; N],
    potential: &mut [i32; N],
    div_buffer: &mut [i32; N],
    c_prime: &mut [i32; N],
    d_prime: &mut [i32; N],
)
    ensures
        N == 0 ==> {
            &&& final(gradient_part)@ == old(gradient_part)@
            &&& final(harmonic_part)@ == old(harmonic_part)@
            &&& final(potential)@ == old(potential)@
            &&& final(div_buffer)@ == old(div_buffer)@
            &&& final(c_prime)@ == old(c_prime)@
            &&& final(d_prime)@ == old(d_prime)@
        },
        N >= 1 ==> {
            &&& final(div_buffer)@ == divergence(f_field@)
            &&& final(potential)@.len() == N
            &&& final(gradient_part)@.len() == N
            &&& final(harmonic_part)@.len() == N
            &&& forall|i: int|
                0 <= i < N ==> #[trigger] final(potential)@[i] == poisson_x(
                    divergence(f_field@),
                    N as nat,
                    i as nat,
                )
            &&& forall|i: int|
                0 <= i < N ==> #[trigger] final(gradient_part)@[i] == forward_diff(final(potential)@, i)
            &&& forall|i: int|
                0 <= i < N ==> #[trigger] final(harmonic_part)@[i] == f_field@[i].wrapping_sub(
                    final(gradient_part)@[i],
                )
            &&& forall|i: int|
                0 <= i < N ==> #[trigger] final(gradient_part)@[i].wrapping_add(final(harmonic_part)@[i])
                    == f_field@[i]
            &&& final(div_buffer)@[0] == f_field@[0]
            &&& forall|i: int|
                1 <= i < N ==> #[trigger] final(div_buffer)@[i] == f_field@[i].wrapping_sub(f_field@[i - 1])
            &&& forall|i: int|
                0 <= i < N - 1 ==> #[trigger] final(gradient_part)@[i] == final(potential)@[i + 1].wrapping_sub(
                    final(potential)@[i],
                )
            &&& final(gradient_part)@[N - 1] == 0i32.wrapping_sub(final(potential)@[N - 1])
        },
        N == 1 ==> final(c_prime)@ == old(c_prime)@ && final(d_prime)@ == old(d_prime)@,
        N >= 2 ==> {
            &&& forall|i: int|
                0 <= i < N ==> #[trigger] final(d_prime)@[i] == poisson_dp(divergence(f_field@), i as nat)
            &&& forall|i: int| 0 <= i < N - 1 ==> #[trigger] final(c_prime)@[i] == poisson_cp(i as nat)
            &&& final(c_prime)@[N - 1] == (if poisson_den((N - 1) as nat) == 0 {
                0
            } else {
                old(c_prime)@[N - 1]
            })
        },
{
    if N == 0 {
        return ;
    }
    div_buffer[0] = f_field[0];
    let mut i: usize = 1;
    while i < N
        invariant
            1 <= i <= N,
            div_buffer@.len() == N,
            forall|j: int| 0 <= j < i ==> #[trigger] div_buffer@[j] == backward_diff(f_field@, j),
        decreases N - i,
    {
        div_buffer[i] = f_field[i].wrapping_sub(f_field[i - 1]);
        i = i + 1;
    }
    assert(div_buffer@ =~= divergence(f_field@));
    solve_poisson_1d(&*div_buffer, potential, c_prime, d_prime);
    let mut k: usize = 0;
    while k < N - 1
        invariant
            1 <= N,
            k <= N - 1,
            gradient_part@.len() == N,
            potential@.len() == N,
            forall|j: int| 0 <= j < k ==> #[trigger] gradient_part@[j] == forward_diff(potential@, j),
        decreases N - 1 - k,
    {
        gradient_part[k] = potential[k + 1].wrapping_sub(potential[k]);
        k = k + 1;
    }
    gradient_part[N - 1] = 0i32.wrapping_sub(potential[N - 1]);
    let mut m: usize = 0;
    while m < N
        invariant
            m <= N,
            gradient_part@.len() == N,
            harmonic_part@.len() == N,
            forall|j: int|
                0 <= j < m ==> #[trigger] harmonic_part@[j] == f_field@[j].wrapping_sub(gradient_part@[j]),
        decreases N - m,
    {
        harmonic_part[m] = f_field[m].wrapping_sub(gradient_part[m]);
        m = m + 1;
    }
    assert forall|j: int| 0 <= j < N implies #[trigger] gradient_part@[j].wrapping_add(harmonic_part@[j])
        == f_field@[j] by {
        lemma_wrapping_sub_add(f_field@[j], gradient_part@[j]);
    }
    proof {
        law_divergence_is_backward_difference(f_field@);
        law_gradient_is_forward_difference(potential@);
    }
}

proof fn lemma_q16_zero_factors(y: i32)
    ensures
        q16_mul_spec(0i32, y) == 0,
        q16_mul_spec(y, 0i32) == 0,
        q16_div_spec(0i32, y) == 0,
        q16_div_spec(y, 0i32) == 0,
{
    assert(0 * y == 0) by (nonlinear_arith);
    assert(y * 0 == 0) by (nonlinear_arith);
    if y != 0 {
        assert(abs(0int) / abs(y as int) == 0) by (nonlinear_arith)
            requires
                abs(y as int) > 0,
        ;
    }
}

proof fn lemma_thomas_rows_upper(a: Seq<i32>, b: Seq<i32>, c: Seq<i32>, d: Seq<i32>, i: nat)
    requires
        i < b.len(),
        a.len() == b.len() && c.len() == b.len() && d.len() == b.len(),
        forall|k: int| 0 <= k < b.len() ==> a[k] == 0,
    ensures
        thomas_den(a, b, c, i) == b[i as int],
        thomas_cp(a, b, c, i) == q16_div_spec(c[i as int], b[i as int]),
        thomas_dp(a, b, c, d, i) == q16_div_spec(d[i as int], b[i as int]),
{
    lemma_q16_zero_factors(c[i as int]);
    lemma_q16_zero_factors(d[i as int]);
    if i > 0 {
        lemma_q16_zero_factors(thomas_cp(a, b, c, (i - 1) as nat));
        lemma_q16_zero_factors(thomas_dp(a, b, c, d, (i - 1) as nat));
        assert(b[i as int].wrapping_sub(0i32) == b[i as int]);
        assert(d[i as int].wrapping_sub(0i32) == d[i as int]);
    }
}

/// With a zero sub-diagonal the system is upper bidiagonal and the Thomas
/// solver is plain back substitution, each row using its own diagonal
/// `b[i]`, super-diagonal `c[i]` and right-hand side `d[i]`:
/// `x[N-1] = d[N-1] / b[N-1]` and `x[i] = d[i] / b[i] - (c[i] / b[i]) * x[i+1]`
/// (Q16.16 operations, a zero divisor giving 0).
pub proof fn law_thomas_upper_bidiagonal(a: Seq<i32>, b: Seq<i32>, c: Seq<i32>, d: Seq<i32>)
    requires
        b.len() >= 1,
        a.len() == b.len() && c.len() == b.len() && d.len() == b.len(),
        forall|k: int| 0 <= k < b.len() ==> a[k] == 0,
    ensures
        thomas_x(a, b, c, d, b.len(), (b.len() - 1) as nat) == q16_div_spec(
            d[b.len() - 1],
            b[b.len() - 1],
        ),
        forall|i: nat|
            i + 1 < b.len() ==> #[trigger] thomas_x(a, b, c, d, b.len(), i) == q16_div_spec(
                d[i as int],
                b[i as int],
            ).wrapping_sub(
                q16_mul_spec(q16_div_spec(c[i as int], b[i as int]), thomas_x(a, b, c, d, b.len(), i + 1)),
            ),
{
    let n = b.len();
    lemma_thomas_rows_upper(a, b, c, d, (n - 1) as nat);
    assert forall|i: nat| i + 1 < n implies #[trigger] thomas_x(a, b, c, d, n, i) == q16_div_spec(
        d[i as int],
        b[i as int],
    ).wrapping_sub(q16_mul_spec(q16_div_spec(c[i as int], b[i as int]), thomas_x(a, b, c, d, n, i + 1))) by {
        lemma_thomas_rows_upper(a, b, c, d, i);
    }
}

/// With a zero sub-diagonal and a unit diagonal (`b = 1.0`) the solution is
/// `x[N-1] = d[N-1]` and `x[i] = d[i] - c[i] * x[i+1]`: row `i`'s
/// super-diagonal `c[i]` couples `x[i]` to `x[i+1]` and to nothing else.
pub proof fn law_thomas_unit_upper_bidiagonal(a: Seq<i32>, b: Seq<i32>, c: Seq<i32>, d: Seq<i32>)
    requires
        b.len() >= 1,
        a.len() == b.len() && c.len() == b.len() && d.len() == b.len(),
        forall|k: int| 0 <= k < b.len() ==> a[k] == 0 && b[k] == Q16_ONE,
    ensures
        thomas_x(a, b, c, d, b.len(), (b.len() - 1) as nat) == d[b.len() - 1],
        forall|i: nat|
            i + 1 < b.len() ==> #[trigger] thomas_x(a, b, c, d, b.len(), i) == d[i as int].wrapping_sub(
                q16_mul_spec(c[i as int], thomas_x(a, b, c, d, b.len(), i + 1)),
            ),
{
    let n = b.len();
    law_thomas_upper_bidiagonal(a, b, c, d);
    law_q16_one_is_neutral(d[n - 1], 0);
    assert forall|i: nat| i + 1 < n implies #[trigger] thomas_x(a, b, c, d, n, i) == d[i as int].wrapping_sub(
        q16_mul_spec(c[i as int], thomas_x(a, b, c, d, n, i + 1)),
    ) by {
        law_q16_one_is_neutral(d[i as int], 0);
        law_q16_one_is_neutral(c[i as int], 0);
    }
}

proof fn lemma_thomas_rows_lower(a: Seq<i32>, b: Seq<i32>, c: Seq<i32>, d: Seq<i32>, i: nat)
    requires
        i < b.len(),
        a.len() == b.len() && c.len() == b.len() && d.len() == b.len(),
        forall|k: int| 0 <= k < b.len() ==> c[k] == 0,
    ensures
        thomas_cp(a, b, c, i) == 0,
        thomas_den(a, b, c, i) == b[i as int],
        i > 0 ==> thomas_dp(a, b, c, d, i) == q16_div_spec(
            d[i as int].wrapping_sub(q16_mul_spec(a[i as int], thomas_dp(a, b, c, d, (i - 1) as nat))),
            b[i as int],
        ),
    decreases i,
{
    lemma_q16_zero_factors(b[i as int]);
    if i > 0 {
        lemma_thomas_rows_lower(a, b, c, d, (i - 1) as nat);
        lemma_q16_zero_factors(a[i as int]);
        assert(b[i as int].wrapping_sub(0i32) == b[i as int]);
        lemma_q16_zero_factors(d[i as int].wrapping_sub(q16_mul_spec(a[i as int], thomas_dp(a, b, c, d, (i - 1) as nat))));
    }
}

/// With a zero super-diagonal the system is lower bidiagonal and the Thomas
/// solver is plain forward substitution, each row using its own `a[i]`,
/// `b[i]` and `d[i]`: `x[0] = d[0] / b[0]` and
/// `x[i] = (d[i] - a[i] * x[i-1]) / b[i]` (Q16.16, a zero divisor giving 0).
pub proof fn law_thomas_lower_bidiagonal(a: Seq<i32>, b: Seq<i32>, c: Seq<i32>, d: Seq<i32>)
    requires
        b.len() >= 1,
        a.len() == b.len() && c.len() == b.len() && d.len() == b.len(),
        forall|k: int| 0 <= k < b.len() ==> c[k] == 0,
    ensures
        thomas_x(a, b, c, d, b.len(), 0) == q16_div_spec(d[0], b[0]),
        forall|i: nat|
            0 < i < b.len() ==> #[trigger] thomas_x(a, b, c, d, b.len(), i) == q16_div_spec(
                d[i as int].wrapping_sub(q16_mul_spec(a[i as int], thomas_x(a, b, c, d, b.len(), (i - 1) as nat))),
                b[i as int],
            ),
{
    let n = b.len();
    assert forall|i: nat| i < n implies #[trigger] thomas_x(a, b, c, d, n, i) == thomas_dp(a, b, c, d, i) by {
        lemma_thomas_rows_lower(a, b, c, d, i);
        if i + 1 < n {
            lemma_q16_zero_factors(thomas_x(a, b, c, d, n, i + 1));
            assert(thomas_dp(a, b, c, d, i).wrapping_sub(0i32) == thomas_dp(a, b, c, d, i));
        }
    }
    assert(thomas_x(a, b, c, d, n, 0) == thomas_dp(a, b, c, d, 0));
    assert forall|i: nat| 0 < i < n implies #[trigger] thomas_x(a, b, c, d, n, i) == q16_div_spec(
        d[i as int].wrapping_sub(q16_mul_spec(a[i as int], thomas_x(a, b, c, d, n, (i - 1) as nat))),
        b[i as int],
    ) by {
        lemma_thomas_rows_lower(a, b, c, d, i);
        assert(thomas_x(a, b, c, d, n, (i - 1) as nat) == thomas_dp(a, b, c, d, (i - 1) as nat));
        assert(thomas_x(a, b, c, d, n, i) == thomas_dp(a, b, c, d, i));
    }
}

/// A two-row system `b0 x0 + c0 x1 = d0`, `a1 x0 + b1 x1 = d1` is solved by
/// eliminating `x0` from the second row: with `c' = c0 / b0`, `d' = d0 / b0`
/// and the pivot `p = b1 - a1 * c'`, `x1 = (d1 - a1 * d') / p` (0 when `p`
/// is 0) and `x0 = d' - c' * x1` (Q16.16 operations, wrapping).
pub proof fn law_thomas_two_rows(a: Seq<i32>, b: Seq<i32>, c: Seq<i32>, d: Seq<i32>)
    requires
        a.len() == 2 && b.len() == 2 && c.len() == 2 && d.len() == 2,
    ensures
        ({
            let cp = q16_div_spec(c[0], b[0]);
            let dp = q16_div_spec(d[0], b[0]);
            let p = b[1].wrapping_sub(q16_mul_spec(a[1], cp));
            let x1 = if p == 0 {
                0i32
            } else {
                q16_div_spec(d[1].wrapping_sub(q16_mul_spec(a[1], dp)), p)
            };
            &&& thomas_x(a, b, c, d, 2, 1) == x1
            &&& thomas_x(a, b, c, d, 2, 0) == dp.wrapping_sub(q16_mul_spec(cp, x1))
        }),
{
    assert(thomas_x(a, b, c, d, 2, 1) == thomas_dp(a, b, c, d, 1));
    assert(thomas_den(a, b, c, 1) == b[1].wrapping_sub(q16_mul_spec(a[1], thomas_cp(a, b, c, 0))));
    assert(thomas_cp(a, b, c, 0) == q16_div_spec(c[0], b[0]));
    assert(thomas_dp(a, b, c, d, 0) == q16_div_spec(d[0], b[0]));
    assert(thomas_x(a, b, c, d, 2, 0) == thomas_dp(a, b, c, d, 0).wrapping_sub(
        q16_mul_spec(thomas_cp(a, b, c, 0), thomas_x(a, b, c, d, 2, 1)),
    ));
}

/// The divergence gives the field back by running (wrapping) sums: its first
/// entry is `f[0]`, each later entry is what must be added to `f[i-1]` to reach
/// `f[i]`, i.e. `f[i] - f[i-1]`; a non-negative, non-decreasing field has a
/// non-negative divergence.
pub proof fn law_divergence_is_backward_difference(f: Seq<i32>)
    ensures
        divergence(f).len() == f.len(),
        f.len() > 0 ==> divergence(f)[0] == f[0],
        forall|i: int| 1 <= i < f.len() ==> #[trigger] divergence(f)[i] == f[i].wrapping_sub(f[i - 1]),
        forall|i: int| 1 <= i < f.len() ==> f[i - 1].wrapping_add(#[trigger] divergence(f)[i]) == f[i],
        forall|i: int| 1 <= i < f.len() && 0 <= f[i - 1] <= f[i] ==> #[trigger] divergence(f)[i] == f[i] - f[i - 1],
        (forall|i: int| 0 <= i < f.len() ==> 0 <= #[trigger] f[i]) && (forall|i: int|
            1 <= i < f.len() ==> f[i - 1] <= #[trigger] f[i]) ==> forall|i: int|
            0 <= i < f.len() ==> 0 <= #[trigger] divergence(f)[i],
{
}

/// The gradient gives the potential back: `p[i] + grad[i] == p[i+1]`, and the
/// last entry closes against a zero boundary, `p[N-1] + grad[N-1] == 0`.
pub proof fn law_gradient_is_forward_difference(p: Seq<i32>)
    ensures
        forall|i: int| 0 <= i < p.len() - 1 ==> #[trigger] forward_diff(p, i) == p[i + 1].wrapping_sub(p[i]),
        forall|i: int| 0 <= i < p.len() - 1 ==> p[i].wrapping_add(#[trigger] forward_diff(p, i)) == p[i + 1],
        p.len() > 0 ==> forward_diff(p, p.len() - 1) == 0i32.wrapping_sub(p[p.len() - 1]),
        p.len() > 0 ==> p[p.len() - 1].wrapping_add(forward_diff(p, p.len() - 1)) == 0,
{
}

} // verus!
