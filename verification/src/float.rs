//! What a parsed size is as a 64-bit float: its number rounded to the
//! nearest double (53 significant bits, ties to even, down to the smallest
//! subnormal `2^-1074`, infinity from `2^1024` on), then multiplied by its
//! unit, a power of two, which is exact until it overflows to infinity.
//! Sizes are ordered by those doubles.

use vstd::prelude::*;
use crate::bignum::{BigNat, pow10, mul_small, shift10, big_compare, big_add, big_from_u64};
use crate::docker::{two_to, round_half_even, lemma_two_to_add, lemma_two_to_mono, lemma_two_to_values};

verus! {

/// The largest `e` from `e` up to 1100 with `d * 2^e <= m`, the search
/// starting where that holds. Past `2^1100` every double is infinite.
pub open spec fn exp_up(m: nat, d: nat, e: nat) -> nat
    decreases 1100 - e,
{
    if e >= 1100 || m < d * two_to(e + 1) {
        e
    } else {
        exp_up(m, d, e + 1)
    }
}

/// The least `k` from `k` up to 1100 with `m * 2^k >= d`. Below `2^-1099`
/// every double is zero.
pub open spec fn exp_down(m: nat, d: nat, k: nat) -> nat
    decreases 1100 - k,
{
    if k >= 1100 || m * two_to(k) >= d {
        k
    } else {
        exp_down(m, d, k + 1)
    }
}

/// Exponent of the last significant bit of a double whose highest bit is
/// `2^e`: 52 below it, but no lower than the subnormals' `-1074`.
pub open spec fn quantum(e: int) -> int {
    if e - 52 >= -1074 {
        e - 52
    } else {
        -1074
    }
}

/// Numerator of `m / d` counted in units of `2^q`.
pub open spec fn scaled_num(m: nat, q: int) -> nat {
    if q < 0 {
        m * two_to((-q) as nat)
    } else {
        m
    }
}

/// Denominator of `m / d` counted in units of `2^q`.
pub open spec fn scaled_den(d: nat, q: int) -> nat {
    if q < 0 {
        d
    } else {
        d * two_to(q as nat)
    }
}

/// A magnitude `r * 2^s`: zero (0), that finite value (1), or infinity (2)
/// when it reaches `2^1024`.
pub open spec fn place(r: nat, s: int) -> (int, nat, int) {
    if r == 0 {
        (0, 0, 0)
    } else if s >= 0 && r * two_to(s as nat) >= two_to(1024) {
        (2, 0, 0)
    } else {
        (1, r, s)
    }
}

/// The double that `m / 10^f`, times `1024^k`, comes to: kind (0 zero,
/// 1 finite, 2 infinite), significand `r` and exponent `s` of a finite
/// `r * 2^s`.
pub open spec fn f64_mag(m: nat, f: nat, k: nat) -> (int, nat, int) {
    let d = pow10(f);
    if m == 0 {
        (0, 0, 0)
    } else {
        let e: int = if m >= d {
            exp_up(m, d, 0) as int
        } else {
            -(exp_down(m, d, 1) as int)
        };
        if e >= 1100 {
            (2, 0, 0)
        } else if e <= -1100 {
            (0, 0, 0)
        } else {
            let q = quantum(e);
            place(round_half_even(scaled_num(m, q), scaled_den(d, q)), q + 10 * k)
        }
    }
}

/// A magnitude as a rank (zero, finite, infinite) and, for a finite one,
/// its value in units of `2^-1074`.
pub open spec fn mag_key(v: (int, nat, int)) -> (int, nat) {
    if v.0 == 1 {
        (1, v.1 * two_to((v.2 + 1074) as nat))
    } else {
        (v.0, 0)
    }
}

/// -1, 0 or 1 as `a` is below, equal to or above `b`.
pub open spec fn order_of(a: int, b: int) -> int {
    if a < b {
        -1
    } else if a == b {
        0
    } else {
        1
    }
}

/// Order of two magnitudes.
pub open spec fn mag_order(a: (int, nat, int), b: (int, nat, int)) -> int {
    let (ka, kb) = (mag_key(a), mag_key(b));
    if ka.0 != kb.0 {
        order_of(ka.0, kb.0)
    } else {
        order_of(ka.1 as int, kb.1 as int)
    }
}

/// Order of two parsed sizes (sign, mantissa, fraction digits, unit) as the
/// doubles they come to; `-0` and `0` are equal.
#[verifier::opaque]
pub open spec fn f64_order(x: (bool, nat, nat, nat), y: (bool, nat, nat, nat)) -> int {
    let a = f64_mag(x.1, x.2, x.3);
    let b = f64_mag(y.1, y.2, y.3);
    let sa: int = if a.0 == 0 {
        0
    } else if x.0 {
        -1
    } else {
        1
    };
    let sb: int = if b.0 == 0 {
        0
    } else if y.0 {
        -1
    } else {
        1
    };
    if sa != sb {
        order_of(sa, sb)
    } else if sa == 0 {
        0
    } else if sa == 1 {
        mag_order(a, b)
    } else {
        mag_order(b, a)
    }
}

/// Comparing the other way round gives the opposite answer.
pub proof fn f64_order_antisymmetric(x: (bool, nat, nat, nat), y: (bool, nat, nat, nat))
    ensures
        f64_order(x, y) == -f64_order(y, x),
        -1 <= f64_order(x, y) <= 1,
{
    reveal(f64_order);
}

/// The double order is transitive.
pub proof fn f64_order_transitive(x: (bool, nat, nat, nat), y: (bool, nat, nat, nat), z: (bool, nat, nat, nat))
    requires
        f64_order(x, y) != 1,
        f64_order(y, z) != 1,
    ensures
        f64_order(x, z) != 1,
{
    reveal(f64_order);
}

/// `v * 2^n`.
fn times_two_to(v: &BigNat, n: u64) -> (r: BigNat)
    requires
        v.wf(),
    ensures
        r.wf(),
        r.value() == v.value() * two_to(n as nat),
{
    proof {
        lemma_two_to_values();
    }
    let mut r = mul_small(v, 1);
    let mut i: u64 = 0;
    while i < n
        invariant
            i <= n,
            r.wf(),
            r.value() == v.value() * two_to(i as nat),
            two_to(10) == 1024,
        decreases n - i,
    {
        if n - i >= 10 {
            let ghost before = r.value();
            r = mul_small(&r, 1024);
            proof {
                lemma_two_to_add(i as nat, 10);
                assert(v.value() * two_to(i as nat) * 1024 == v.value() * (two_to(i as nat) * 1024))
                    by (nonlinear_arith);
            }
            i += 10;
        } else {
            r = mul_small(&r, 2);
            proof {
                assert(two_to((i + 1) as nat) == 2 * two_to(i as nat));
                assert(v.value() * two_to(i as nat) * 2 == v.value() * (2 * two_to(i as nat)))
                    by (nonlinear_arith);
            }
            i += 1;
        }
    }
    r
}

/// Below `2^53` units: `m / d`, counted in units of `2^quantum(e)`, stays
/// under `2^53` when `2^e` is the highest power of two not above it.
proof fn lemma_below_2_53(mv: nat, dv: nat, e: int)
    requires
        dv >= 1,
        -1100 < e < 1100,
        e >= 0 ==> mv < dv * two_to((e + 1) as nat),
        e < 0 ==> mv * two_to((-e - 1) as nat) < dv,
    ensures
        scaled_num(mv, quantum(e)) < scaled_den(dv, quantum(e)) * two_to(53),
{
    let q = quantum(e);
    if q >= 0 {
        lemma_two_to_add(q as nat, 53);
        assert((q + 53) as nat == (e + 1) as nat);
        assert(dv * (two_to(q as nat) * two_to(53)) == dv * two_to(q as nat) * two_to(53)) by (nonlinear_arith);
    } else if e >= 0 {
        let a = (52 - e) as nat;
        lemma_two_to_add((e + 1) as nat, a);
        assert(((e + 1) as nat + a) as nat == 53);
        lemma_two_to_mono(0, a);
        let t1 = two_to((e + 1) as nat);
        let ta = two_to(a);
        assert(mv * ta < dv * t1 * ta) by (nonlinear_arith)
            requires
                mv < dv * t1,
                ta >= 1,
        ;
        assert(dv * t1 * ta == dv * (t1 * ta)) by (nonlinear_arith);
    } else {
        let a = (-q) as nat;
        let b = (-e - 1) as nat;
        lemma_two_to_add(b, 53);
        lemma_two_to_mono(a, b + 53);
        lemma_two_to_mono(0, 53);
        let ta = two_to(a);
        let tb = two_to(b);
        let t53 = two_to(53);
        assert(mv * ta <= mv * (tb * t53)) by (nonlinear_arith)
            requires
                ta <= tb * t53,
        ;
        assert(mv * (tb * t53) < dv * t53) by (nonlinear_arith)
            requires
                mv * tb < dv,
                t53 >= 1,
        ;
    }
}

/// `2^n` as a machine integer, for `n <= 54`.
fn pow2_small(n: u64) -> (x: u64)
    requires
        n <= 54,
    ensures
        x == two_to(n as nat),
{
    proof {
        lemma_two_to_values();
        lemma_two_to_mono(n as nat, 54);
        lemma_two_to_add(53, 1);
    }
    let mut x: u64 = 1;
    let mut i: u64 = 0;
    while i < n
        invariant
            i <= n <= 54,
            x == two_to(i as nat),
            two_to(n as nat) <= two_to(54),
            two_to(54) == 2 * two_to(53),
            two_to(53) == 0x20_0000_0000_0000,
        decreases n - i,
    {
        proof {
            lemma_two_to_mono((i + 1) as nat, n as nat);
        }
        x = x * 2;
        i += 1;
    }
    x
}

/// `n / d` rounded to the nearest integer, ties to even, for `n < d * 2^53`.
fn round_ratio(n: &BigNat, d: &BigNat) -> (r: u64)
    requires
        n.wf(),
        d.wf(),
        d.value() >= 1,
        n.value() < d.value() * two_to(53),
    ensures
        r == round_half_even(n.value(), d.value()),
        r <= two_to(53),
{
    let ghost nv = n.value();
    let ghost dv = d.value();
    proof {
        lemma_two_to_values();
        lemma_two_to_add(53, 1);
    }
    let mut pw: Vec<BigNat> = Vec::new();
    let mut cur = mul_small(d, 1);
    let mut j: usize = 0;
    while j < 54
        invariant
            j <= 54,
            pw@.len() == j,
            forall|i: int| 0 <= i < j ==> (#[trigger] pw@[i]).wf() && pw@[i].value() == dv * two_to(i as nat),
            cur.wf(),
            cur.value() == dv * two_to(j as nat),
        decreases 54 - j,
    {
        pw.push(cur);
        cur = mul_small(&pw[j], 2);
        proof {
            assert(two_to((j + 1) as nat) == 2 * two_to(j as nat));
            assert(dv * two_to(j as nat) * 2 == dv * (2 * two_to(j as nat))) by (nonlinear_arith);
        }
        j += 1;
    }
    let mut c: u64 = 0;
    let mut dc = BigNat { digits: Vec::new() };
    let mut bit: u64 = 0x20_0000_0000_0000;
    let mut j: usize = 54;
    assert(dc.value() == 0);
    assert(nv < dv * (0 + two_to(53) * 2)) by {
        assert(dv * two_to(53) <= dv * (two_to(53) * 2)) by (nonlinear_arith);
    }
    while j > 0
        invariant
            j <= 54,
            pw@.len() == 54,
            forall|i: int| 0 <= i < 54 ==> (#[trigger] pw@[i]).wf() && pw@[i].value() == dv * two_to(i as nat),
            j >= 1 ==> bit == two_to((j - 1) as nat),
            dc.wf(),
            dc.value() == dv * c,
            dv * c <= nv,
            nv < dv * (c + two_to(j as nat)),
            c + two_to(j as nat) <= two_to(54),
            two_to(54) == 2 * two_to(53),
            two_to(53) == 0x20_0000_0000_0000,
            n.wf(),
            n.value() == nv,
        decreases j,
    {
        j -= 1;
        let cand = big_add(&dc, &pw[j]);
        proof {
            assert(two_to((j + 1) as nat) == 2 * two_to(j as nat));
            assert(dv * c + dv * two_to(j as nat) == dv * (c + two_to(j as nat))) by (nonlinear_arith);
            assert(dv * (c + 2 * two_to(j as nat)) == dv * (c + two_to(j as nat)) + dv * two_to(j as nat))
                by (nonlinear_arith);
        }
        if big_compare(&cand, n) <= 0 {
            dc = cand;
            c = c + bit;
        }
        bit = bit / 2;
        proof {
            if j >= 1 {
                assert(two_to(j as nat) == 2 * two_to((j - 1) as nat));
            }
        }
    }
    assert(two_to(0) == 1);
    assert(c < two_to(53)) by {
        if c >= two_to(53) {
            assert(dv * c >= dv * two_to(53)) by (nonlinear_arith)
                requires
                    c >= two_to(53),
            ;
        }
    }
    proof {
        let rem = nv - dv * c;
        assert(nv == c * dv + rem) by (nonlinear_arith)
            requires
                rem == nv - dv * c,
        ;
        assert(rem < dv) by (nonlinear_arith)
            requires
                nv < dv * (c + 1),
                rem == nv - dv * c,
        ;
        vstd::arithmetic::div_mod::lemma_fundamental_div_mod_converse(nv as int, dv as int, c as int, rem as int);
    }
    let two_n = mul_small(n, 2);
    let dc2 = mul_small(&dc, 2);
    let top = big_add(&dc2, d);
    let side = big_compare(&two_n, &top);
    proof {
        assert(top.value() == 2 * (dv * c) + dv);
    }
    if side > 0 || (side == 0 && c % 2 == 1) {
        c + 1
    } else {
        c
    }
}

/// `r * 2^s` placed: zero, finite, or infinite from `2^1024` on.
fn place_of(r: u64, s: i64) -> (v: (u8, u64, i64))
    requires
        r <= two_to(53),
    ensures
        (v.0 as int, v.1 as nat, v.2 as int) == place(r as nat, s as int),
        v.0 <= 2,
        v.0 == 1 ==> v.2 == s,
{
    if r == 0 {
        return (0, 0, 0);
    }
    if s < 0 {
        return (1, r, s);
    }
    proof {
        lemma_two_to_values();
    }
    if s >= 1024 {
        proof {
            lemma_two_to_mono(1024, s as nat);
            assert(r * two_to(s as nat) >= two_to(s as nat)) by (nonlinear_arith)
                requires
                    r >= 1,
            ;
        }
        return (2, 0, 0);
    }
    let gap: u64 = (1024 - s) as u64;
    proof {
        lemma_two_to_add(gap as nat, s as nat);
        assert((gap + s) as nat == 1024);
    }
    if gap > 54 {
        proof {
            lemma_two_to_mono(54, gap as nat);
            lemma_two_to_add(53, 1);
            lemma_two_to_mono(0, s as nat);
            assert(r * two_to(s as nat) < two_to(gap as nat) * two_to(s as nat)) by (nonlinear_arith)
                requires
                    r < two_to(gap as nat),
                    two_to(s as nat) >= 1,
            ;
        }
        return (1, r, s);
    }
    let thr = pow2_small(gap);
    proof {
        lemma_two_to_mono(0, s as nat);
        let ts = two_to(s as nat);
        assert(r >= thr ==> r * ts >= thr * ts) by (nonlinear_arith)
            requires
                ts >= 1,
        ;
        assert(r < thr ==> r * ts < thr * ts) by (nonlinear_arith)
            requires
                ts >= 1,
        ;
    }
    if r >= thr {
        (2, 0, 0)
    } else {
        (1, r, s)
    }
}

/// The double that the number `m / 10^f` times `1024^k` comes to.
pub fn f64_mag_of(m: &BigNat, f: usize, k: u64) -> (v: (u8, u64, i64))
    requires
        m.wf(),
        k <= 4,
    ensures
        (v.0 as int, v.1 as nat, v.2 as int) == f64_mag(m.value(), f as nat, k as nat),
        v.0 <= 2,
        v.0 == 1 ==> -1074 <= v.2 <= 1100,
{
    let ghost mv = m.value();
    let zero = BigNat { digits: Vec::new() };
    if big_compare(m, &zero) == 0 {
        return (0, 0, 0);
    }
    let one = big_from_u64(1);
    let d = shift10(&one, f);
    let ghost dv = d.value();
    assert(dv == pow10(f as nat));
    assert(dv >= 1) by {
        crate::bignum::lemma_pow10_pos(f as nat);
    }
    proof {
        lemma_two_to_values();
    }
    let e: i64;
    if big_compare(m, &d) >= 0 {
        let mut t = mul_small(&d, 1);
        let mut t2 = mul_small(&d, 2);
        let mut up: u64 = 0;
        assert(two_to(0) == 1 && two_to(1) == 2);
        while up < 1100 && big_compare(m, &t2) >= 0
            invariant
                up <= 1100,
                m.wf(),
                m.value() == mv,
                t.wf(),
                t2.wf(),
                t.value() == dv * two_to(up as nat),
                t2.value() == dv * two_to((up + 1) as nat),
                dv * two_to(up as nat) <= mv,
                exp_up(mv, dv, 0) == exp_up(mv, dv, up as nat),
            decreases 1100 - up,
        {
            t = t2;
            t2 = mul_small(&t, 2);
            up += 1;
            proof {
                assert(two_to((up + 1) as nat) == 2 * two_to(up as nat));
                assert(dv * two_to(up as nat) * 2 == dv * (2 * two_to(up as nat))) by (nonlinear_arith);
            }
        }
        if up >= 1100 {
            return (2, 0, 0);
        }
        e = up as i64;
    } else {
        let mut t = mul_small(m, 2);
        let mut kk: u64 = 1;
        assert(two_to(0) == 1 && two_to(1) == 2);
        while kk < 1100 && big_compare(&t, &d) < 0
            invariant
                1 <= kk <= 1100,
                d.wf(),
                d.value() == dv,
                t.wf(),
                t.value() == mv * two_to(kk as nat),
                mv * two_to((kk - 1) as nat) < dv,
                exp_down(mv, dv, 1) == exp_down(mv, dv, kk as nat),
            decreases 1100 - kk,
        {
            assert(mv * two_to(kk as nat) < dv);
            t = mul_small(&t, 2);
            kk += 1;
            proof {
                assert(two_to(kk as nat) == 2 * two_to((kk - 1) as nat));
                assert(mv * two_to((kk - 1) as nat) * 2 == mv * (2 * two_to((kk - 1) as nat))) by (nonlinear_arith);
            }
        }
        if kk >= 1100 {
            return (0, 0, 0);
        }
        e = -(kk as i64);
    }
    let q: i64 = if e - 52 >= -1074 {
        e - 52
    } else {
        -1074
    };
    proof {
        lemma_below_2_53(mv, dv, e as int);
    }
    let nn;
    let dd;
    if q < 0 {
        nn = times_two_to(m, (-q) as u64);
        dd = mul_small(&d, 1);
    } else {
        nn = mul_small(m, 1);
        dd = times_two_to(&d, q as u64);
    }
    proof {
        if q >= 0 {
            lemma_two_to_mono(0, q as nat);
        }
        assert(dd.value() >= 1) by (nonlinear_arith)
            requires
                q >= 0 ==> dd.value() == dv * two_to(q as nat),
                q < 0 ==> dd.value() == dv,
                dv >= 1,
                q >= 0 ==> two_to(q as nat) >= 1,
        ;
    }
    let r = round_ratio(&nn, &dd);
    place_of(r, q + 10 * (k as i64))
}

/// Order of two magnitudes as `f64_mag_of` gives them.
pub(crate) fn mag_rank(a: (u8, u64, i64), b: (u8, u64, i64)) -> (r: i8)
    requires
        a.0 <= 2,
        b.0 <= 2,
        a.0 == 1 ==> -1074 <= a.2 <= 1100,
        b.0 == 1 ==> -1074 <= b.2 <= 1100,
    ensures
        r == mag_order((a.0 as int, a.1 as nat, a.2 as int), (b.0 as int, b.1 as nat, b.2 as int)),
{
    if a.0 != b.0 {
        return if a.0 < b.0 {
            -1
        } else {
            1
        };
    }
    if a.0 != 1 {
        return 0;
    }
    let t: i64 = if a.2 < b.2 {
        a.2
    } else {
        b.2
    };
    let x = times_two_to(&big_from_u64(a.1), (a.2 - t) as u64);
    let y = times_two_to(&big_from_u64(b.1), (b.2 - t) as u64);
    let side = big_compare(&x, &y);
    proof {
        let c = two_to((t + 1074) as nat);
        lemma_two_to_add((a.2 - t) as nat, (t + 1074) as nat);
        lemma_two_to_add((b.2 - t) as nat, (t + 1074) as nat);
        assert(((a.2 - t) + (t + 1074)) as nat == (a.2 + 1074) as nat);
        assert(((b.2 - t) + (t + 1074)) as nat == (b.2 + 1074) as nat);
        lemma_two_to_mono(0, (t + 1074) as nat);
        let xv = x.value();
        let yv = y.value();
        assert(a.1 * two_to((a.2 + 1074) as nat) == xv * c) by (nonlinear_arith)
            requires
                xv == a.1 * two_to((a.2 - t) as nat),
                two_to((a.2 + 1074) as nat) == two_to((a.2 - t) as nat) * c,
        ;
        assert(b.1 * two_to((b.2 + 1074) as nat) == yv * c) by (nonlinear_arith)
            requires
                yv == b.1 * two_to((b.2 - t) as nat),
                two_to((b.2 + 1074) as nat) == two_to((b.2 - t) as nat) * c,
        ;
        assert(xv < yv <==> xv * c < yv * c) by (nonlinear_arith)
            requires
                c >= 1,
        ;
        assert(xv == yv <==> xv * c == yv * c) by (nonlinear_arith)
            requires
                c >= 1,
        ;
    }
    side
}

} // verus!
