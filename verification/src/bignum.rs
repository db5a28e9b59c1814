//! Non-negative decimal integers of any size, as little-endian digit
//! vectors: what rounding parsed sizes to doubles needs.

use vstd::prelude::*;

verus! {

/// `10^n`.
pub open spec fn pow10(n: nat) -> nat
    decreases n,
{
    if n == 0 {
        1
    } else {
        10 * pow10((n - 1) as nat)
    }
}

/// Every element is a decimal digit.
pub open spec fn digits_ok(d: Seq<u8>) -> bool {
    forall|i: int| 0 <= i < d.len() ==> #[trigger] d[i] < 10
}

/// Value of little-endian decimal digits (`d[0]` is the units digit).
pub open spec fn big_val(d: Seq<u8>) -> nat
    decreases d.len(),
{
    if d.len() == 0 {
        0
    } else {
        big_val(d.drop_last()) + (d.last() as nat) * pow10((d.len() - 1) as nat)
    }
}

pub(crate) proof fn lemma_pow10_pos(n: nat)
    ensures
        pow10(n) >= 1,
    decreases n,
{
    if n > 0 {
        lemma_pow10_pos((n - 1) as nat);
    }
}

proof fn lemma_pow10_add(a: nat, b: nat)
    ensures
        pow10(a + b) == pow10(a) * pow10(b),
    decreases b,
{
    if b > 0 {
        lemma_pow10_add(a, (b - 1) as nat);
        let x = pow10(a);
        let y = pow10((b - 1) as nat);
        assert(pow10(a + b) == 10 * pow10((a + b - 1) as nat));
        assert(pow10((a + b - 1) as nat) == pow10(a + (b - 1) as nat));
        assert(pow10(b) == 10 * y);
        assert(x * (10 * y) == 10 * (x * y)) by (nonlinear_arith);
    } else {
        assert(pow10(0) == 1);
        assert(a + b == a);
        assert(pow10(a) * 1 == pow10(a));
    }
}

/// The value is below `10^len`.
proof fn lemma_val_bound(d: Seq<u8>)
    requires
        digits_ok(d),
    ensures
        big_val(d) < pow10(d.len()),
    decreases d.len(),
{
    if d.len() > 0 {
        let p = d.drop_last();
        assert(digits_ok(p)) by {
            assert forall|i: int| 0 <= i < p.len() implies #[trigger] p[i] < 10 by {
                assert(p[i] == d[i]);
            }
        }
        lemma_val_bound(p);
        let x = big_val(p);
        let q = pow10(p.len());
        let l = d.last() as nat;
        assert(l < 10) by {
            assert(d.last() == d[d.len() - 1]);
        }
        assert(x + l * q < 10 * q) by (nonlinear_arith)
            requires
                x < q,
                l <= 9,
        ;
    }
}

/// With a non-zero top digit, the value is at least `10^(len-1)`.
proof fn lemma_val_lower(d: Seq<u8>)
    requires
        d.len() > 0,
        d.last() != 0,
    ensures
        big_val(d) >= pow10((d.len() - 1) as nat),
{
    let l = d.last() as nat;
    let q = pow10((d.len() - 1) as nat);
    assert(l * q >= q) by (nonlinear_arith)
        requires
            l >= 1,
    ;
}

/// Splitting the digits at `k`.
pub(crate) proof fn lemma_val_split(d: Seq<u8>, k: int)
    requires
        0 <= k <= d.len(),
    ensures
        big_val(d) == big_val(d.take(k)) + pow10(k as nat) * big_val(d.skip(k)),
    decreases d.len(),
{
    if k == d.len() {
        assert(d.take(k) == d);
        assert(d.skip(k).len() == 0);
        assert(big_val(d.skip(k)) == 0);
        assert(pow10(k as nat) * 0 == 0);
    } else {
        let p = d.drop_last();
        lemma_val_split(p, k);
        assert(p.take(k) == d.take(k));
        let s = d.skip(k);
        assert(s.drop_last() == p.skip(k));
        assert(s.last() == d.last());
        let a = big_val(p.skip(k));
        let l = d.last() as nat;
        assert(s.len() > 0);
        assert(big_val(s) == a + l * pow10((s.len() - 1) as nat));
        assert(big_val(d) == big_val(p) + l * pow10((d.len() - 1) as nat));
        assert((k + (s.len() - 1)) as nat == (d.len() - 1) as nat);
        lemma_pow10_add(k as nat, (s.len() - 1) as nat);
        assert(pow10(k as nat) * (a + l * pow10((s.len() - 1) as nat)) == pow10(k as nat) * a + l
            * (pow10(k as nat) * pow10((s.len() - 1) as nat))) by (nonlinear_arith);
        assert(big_val(p) == big_val(d.take(k)) + pow10(k as nat) * a);
    }
}

/// A little-endian digit vector.
pub struct BigNat {
    pub digits: Vec<u8>,
}

impl BigNat {
    /// Every digit is decimal.
    pub open spec fn wf(&self) -> bool {
        digits_ok(self.digits@)
    }

    /// The number the digits stand for.
    pub open spec fn value(&self) -> nat {
        big_val(self.digits@)
    }
}

/// `v * m`, for a small factor `m`.
pub fn mul_small(v: &BigNat, m: u64) -> (r: BigNat)
    requires
        v.wf(),
        1 <= m <= 1024,
    ensures
        r.wf(),
        r.value() == v.value() * m,
{
    let d = &v.digits;
    let mut out: Vec<u8> = Vec::new();
    let mut carry: u64 = 0;
    let mut i: usize = 0;
    assert(d@.take(0) =~= Seq::<u8>::empty());
    assert(big_val(out@) == 0);
    while i < d.len()
        invariant
            i <= d@.len(),
            digits_ok(d@),
            digits_ok(out@),
            out@.len() == i,
            carry < m,
            1 <= m <= 1024,
            big_val(out@) + carry * pow10(i as nat) == big_val(d@.take(i as int)) * m,
        decreases d.len() - i,
    {
        assert(d@[i as int] < 10);
        let di = d[i] as u64;
        assert(di * m <= 9 * 1024) by (nonlinear_arith)
            requires
                di <= 9,
                m <= 1024,
        ;
        let t = di * m + carry;
        let digit = (t % 10) as u8;
        let ghost old_out = out@;
        let ghost old_carry = carry;
        out.push(digit);
        carry = t / 10;
        proof {
            assert(out@.drop_last() == old_out);
            assert(d@.take(i + 1).drop_last() == d@.take(i as int));
            assert(d@.take(i + 1).last() == d@[i as int]);
            let p = pow10(i as nat);
            assert(pow10((i + 1) as nat) == 10 * p);
            let bv = big_val(d@.take(i as int));
            assert(big_val(out@) == big_val(old_out) + (digit as nat) * p);
            assert(big_val(d@.take(i + 1)) == bv + (di as nat) * p);
            assert((t % 10) + 10 * (t / 10) == t);
            assert(big_val(old_out) + old_carry * p == bv * m);
            assert(big_val(out@) + carry * (10 * p) == (bv + di * p) * m) by (nonlinear_arith)
                requires
                    big_val(out@) == big_val(old_out) + (digit as nat) * p,
                    big_val(old_out) + old_carry * p == bv * m,
                    digit == t % 10,
                    carry == t / 10,
                    (t % 10) + 10 * (t / 10) == t,
                    t == di * m + old_carry,
            ;
            assert(t < 10 * m) by (nonlinear_arith)
                requires
                    di <= 9,
                    old_carry < m,
                    t == di * m + old_carry,
            ;
            assert(digits_ok(out@)) by {
                assert forall|j: int| 0 <= j < out@.len() implies #[trigger] out@[j] < 10 by {
                    if j < i {
                        assert(out@[j] == old_out[j]);
                    }
                }
            }
        }
        i += 1;
    }
    assert(d@.take(d@.len() as int) == d@);
    while carry > 0
        invariant
            digits_ok(out@),
            big_val(out@) + carry * pow10(out@.len()) == big_val(d@) * m,
        decreases carry,
    {
        let digit = (carry % 10) as u8;
        let ghost old_out = out@;
        let ghost old_carry = carry;
        out.push(digit);
        carry = carry / 10;
        proof {
            assert(out@.drop_last() == old_out);
            let p = pow10(old_out.len());
            assert(pow10(out@.len()) == 10 * p);
            assert(big_val(out@) == big_val(old_out) + (digit as nat) * p);
            assert(big_val(out@) + carry * (10 * p) == big_val(old_out) + old_carry * p) by (nonlinear_arith)
                requires
                    big_val(out@) == big_val(old_out) + (digit as nat) * p,
                    digit == old_carry % 10,
                    carry == old_carry / 10,
            ;
            assert(digits_ok(out@)) by {
                assert forall|j: int| 0 <= j < out@.len() implies #[trigger] out@[j] < 10 by {
                    if j < old_out.len() {
                        assert(out@[j] == old_out[j]);
                    }
                }
            }
        }
    }
    BigNat { digits: out }
}

/// The digit of `d` at position `i`, 0 past its end.
pub open spec fn digit_at(d: Seq<u8>, i: int) -> nat {
    if 0 <= i < d.len() {
        d[i] as nat
    } else {
        0
    }
}

/// Value of the first `i` digits of `d` (all of them when it is shorter).
pub open spec fn prefix_val(d: Seq<u8>, i: nat) -> nat {
    if i <= d.len() {
        big_val(d.take(i as int))
    } else {
        big_val(d)
    }
}

proof fn lemma_prefix_step(d: Seq<u8>, i: nat)
    ensures
        prefix_val(d, i + 1) == prefix_val(d, i) + digit_at(d, i as int) * pow10(i),
        prefix_val(d, d.len()) == big_val(d),
{
    assert(d.take(d.len() as int) == d);
    if i < d.len() {
        assert(d.take(i + 1 as int).drop_last() == d.take(i as int));
        assert(d.take(i + 1 as int).last() == d[i as int]);
    } else {
        assert(digit_at(d, i as int) * pow10(i) == 0);
    }
}

/// `a + b`.
pub fn big_add(a: &BigNat, b: &BigNat) -> (r: BigNat)
    requires
        a.wf(),
        b.wf(),
    ensures
        r.wf(),
        r.value() == a.value() + b.value(),
{
    let n = if a.digits.len() >= b.digits.len() {
        a.digits.len()
    } else {
        b.digits.len()
    };
    let mut out: Vec<u8> = Vec::new();
    let mut carry: u8 = 0;
    let mut i: usize = 0;
    assert(a.digits@.take(0) =~= Seq::<u8>::empty());
    assert(b.digits@.take(0) =~= Seq::<u8>::empty());
    while i < n
        invariant
            i <= n,
            n == a.digits@.len() || n == b.digits@.len(),
            n >= a.digits@.len(),
            n >= b.digits@.len(),
            digits_ok(a.digits@),
            digits_ok(b.digits@),
            digits_ok(out@),
            out@.len() == i,
            carry <= 1,
            big_val(out@) + carry * pow10(i as nat) == prefix_val(a.digits@, i as nat) + prefix_val(
                b.digits@,
                i as nat,
            ),
        decreases n - i,
    {
        let da: u8 = if i < a.digits.len() {
            a.digits[i]
        } else {
            0
        };
        let db: u8 = if i < b.digits.len() {
            b.digits[i]
        } else {
            0
        };
        proof {
            if i < a.digits@.len() {
                assert(a.digits@[i as int] < 10);
            }
            if i < b.digits@.len() {
                assert(b.digits@[i as int] < 10);
            }
        }
        let t = da + db + carry;
        let digit = t % 10;
        let ghost old_out = out@;
        let ghost old_carry = carry;
        out.push(digit);
        carry = t / 10;
        proof {
            lemma_prefix_step(a.digits@, i as nat);
            lemma_prefix_step(b.digits@, i as nat);
            assert(out@.drop_last() == old_out);
            let p = pow10(i as nat);
            assert(pow10((i + 1) as nat) == 10 * p);
            assert(big_val(out@) == big_val(old_out) + (digit as nat) * p);
            assert(digit_at(a.digits@, i as int) == da as nat);
            assert(digit_at(b.digits@, i as int) == db as nat);
            assert(prefix_val(a.digits@, (i + 1) as nat) == prefix_val(a.digits@, i as nat) + (da as nat) * p);
            assert(prefix_val(b.digits@, (i + 1) as nat) == prefix_val(b.digits@, i as nat) + (db as nat) * p);
            assert(big_val(out@) + carry * (10 * p) == big_val(old_out) + old_carry * p + (da as nat + db as nat) * p)
                by (nonlinear_arith)
                requires
                    big_val(out@) == big_val(old_out) + (digit as nat) * p,
                    digit == t % 10,
                    carry == t / 10,
                    t == da + db + old_carry,
            ;
            assert((da as nat + db as nat) * p == (da as nat) * p + (db as nat) * p) by (nonlinear_arith);
            assert(big_val(out@) + carry * pow10((i + 1) as nat) == prefix_val(a.digits@, (i + 1) as nat)
                + prefix_val(b.digits@, (i + 1) as nat));
            assert(digits_ok(out@)) by {
                assert forall|j: int| 0 <= j < out@.len() implies #[trigger] out@[j] < 10 by {
                    if j < i {
                        assert(out@[j] == old_out[j]);
                    }
                }
            }
        }
        i += 1;
    }
    proof {
        lemma_prefix_step(a.digits@, n as nat);
        lemma_prefix_step(b.digits@, n as nat);
        assert(prefix_val(a.digits@, n as nat) == big_val(a.digits@)) by {
            if n == a.digits@.len() {
                assert(a.digits@.take(n as int) == a.digits@);
            }
        }
        assert(prefix_val(b.digits@, n as nat) == big_val(b.digits@)) by {
            if n == b.digits@.len() {
                assert(b.digits@.take(n as int) == b.digits@);
            }
        }
    }
    if carry > 0 {
        let ghost old_out = out@;
        out.push(carry);
        proof {
            assert(out@.drop_last() == old_out);
            assert(digits_ok(out@)) by {
                assert forall|j: int| 0 <= j < out@.len() implies #[trigger] out@[j] < 10 by {
                    if j < old_out.len() {
                        assert(out@[j] == old_out[j]);
                    }
                }
            }
        }
    }
    BigNat { digits: out }
}

/// `n` as a big number.
pub fn big_from_u64(n: u64) -> (r: BigNat)
    ensures
        r.wf(),
        r.value() == n,
{
    let mut out: Vec<u8> = Vec::new();
    let mut rest: u64 = n;
    assert(big_val(out@) == 0);
    assert(pow10(0) == 1);
    while rest > 0
        invariant
            digits_ok(out@),
            big_val(out@) + rest * pow10(out@.len()) == n,
        decreases rest,
    {
        let digit = (rest % 10) as u8;
        let ghost old_out = out@;
        let ghost old_rest = rest;
        out.push(digit);
        rest = rest / 10;
        proof {
            assert(out@.drop_last() == old_out);
            let p = pow10(old_out.len());
            assert(pow10(out@.len()) == 10 * p);
            assert(big_val(out@) == big_val(old_out) + (digit as nat) * p);
            assert(big_val(out@) + rest * (10 * p) == big_val(old_out) + old_rest * p) by (nonlinear_arith)
                requires
                    big_val(out@) == big_val(old_out) + (digit as nat) * p,
                    digit == old_rest % 10,
                    rest == old_rest / 10,
            ;
            assert(digits_ok(out@)) by {
                assert forall|j: int| 0 <= j < out@.len() implies #[trigger] out@[j] < 10 by {
                    if j < old_out.len() {
                        assert(out@[j] == old_out[j]);
                    }
                }
            }
        }
    }
    BigNat { digits: out }
}

/// `v * 10^k`.
pub fn shift10(v: &BigNat, k: usize) -> (r: BigNat)
    requires
        v.wf(),
    ensures
        r.wf(),
        r.value() == v.value() * pow10(k as nat),
{
    let mut out: Vec<u8> = Vec::new();
    let mut i: usize = 0;
    while i < k
        invariant
            i <= k,
            out@ == Seq::new(i as nat, |j: int| 0u8),
        decreases k - i,
    {
        out.push(0);
        assert(out@ =~= Seq::new((i + 1) as nat, |j: int| 0u8));
        i += 1;
    }
    let ghost zeros = out@;
    proof {
        lemma_zero_val(zeros);
    }
    let mut j: usize = 0;
    while j < v.digits.len()
        invariant
            j <= v.digits@.len(),
            out@ == zeros + v.digits@.take(j as int),
            zeros.len() == k,
        decreases v.digits.len() - j,
    {
        out.push(v.digits[j]);
        assert(v.digits@.take(j + 1) == v.digits@.take(j as int).push(v.digits@[j as int]));
        j += 1;
    }
    assert(v.digits@.take(v.digits@.len() as int) == v.digits@);
    proof {
        lemma_val_split(out@, k as int);
        assert(out@.take(k as int) == zeros);
        assert(out@.skip(k as int) == v.digits@);
        assert(big_val(out@) == pow10(k as nat) * big_val(v.digits@));
        assert(pow10(k as nat) * big_val(v.digits@) == big_val(v.digits@) * pow10(k as nat)) by (nonlinear_arith);
        assert(digits_ok(out@)) by {
            assert forall|t: int| 0 <= t < out@.len() implies #[trigger] out@[t] < 10 by {
                if t >= k {
                    assert(out@[t] == v.digits@[t - k]);
                }
            }
        }
    }
    BigNat { digits: out }
}

proof fn lemma_zero_val(z: Seq<u8>)
    requires
        forall|i: int| 0 <= i < z.len() ==> z[i] == 0,
    ensures
        big_val(z) == 0,
    decreases z.len(),
{
    if z.len() > 0 {
        lemma_zero_val(z.drop_last());
        assert(z.last() == z[z.len() - 1]);
    }
}

/// Number of digits once leading (most significant) zeros are dropped.
fn significant_len(d: &Vec<u8>) -> (n: usize)
    requires
        digits_ok(d@),
    ensures
        n <= d@.len(),
        big_val(d@.take(n as int)) == big_val(d@),
        n == 0 || d@[n - 1] != 0,
{
    let mut n: usize = d.len();
    assert(d@.take(n as int) == d@);
    while n > 0 && d[n - 1] == 0
        invariant
            n <= d@.len(),
            big_val(d@.take(n as int)) == big_val(d@),
        decreases n,
    {
        proof {
            let t = d@.take(n as int);
            assert(t.drop_last() == d@.take(n - 1));
            assert(t.last() == 0);
        }
        n -= 1;
    }
    n
}

/// Three-way comparison of two values: -1, 0 or 1.
pub fn big_compare(a: &BigNat, b: &BigNat) -> (r: i8)
    requires
        a.wf(),
        b.wf(),
    ensures
        r == -1 <==> a.value() < b.value(),
        r == 0 <==> a.value() == b.value(),
        r == 1 <==> a.value() > b.value(),
{
    let na = significant_len(&a.digits);
    let nb = significant_len(&b.digits);
    let ghost sa = a.digits@.take(na as int);
    let ghost sb = b.digits@.take(nb as int);
    proof {
        assert(digits_ok(sa)) by {
            assert forall|i: int| 0 <= i < sa.len() implies #[trigger] sa[i] < 10 by {
                assert(sa[i] == a.digits@[i]);
            }
        }
        assert(digits_ok(sb)) by {
            assert forall|i: int| 0 <= i < sb.len() implies #[trigger] sb[i] < 10 by {
                assert(sb[i] == b.digits@[i]);
            }
        }
        lemma_val_bound(sa);
        lemma_val_bound(sb);
        if na > 0 {
            assert(sa.last() == a.digits@[na - 1]);
            lemma_val_lower(sa);
        }
        if nb > 0 {
            assert(sb.last() == b.digits@[nb - 1]);
            lemma_val_lower(sb);
        }
    }
    if na < nb {
        proof {
            lemma_pow10_mono(na as nat, (nb - 1) as nat);
        }
        return -1;
    }
    if nb < na {
        proof {
            lemma_pow10_mono(nb as nat, (na - 1) as nat);
        }
        return 1;
    }
    // same length: scan from the most significant digit down
    let mut j: usize = na;
    while j > 0 && a.digits[j - 1] == b.digits[j - 1]
        invariant
            j <= na,
            na == nb,
            na <= a.digits@.len(),
            nb <= b.digits@.len(),
            sa == a.digits@.take(na as int),
            sb == b.digits@.take(nb as int),
            sa.skip(j as int) == sb.skip(j as int),
        decreases j,
    {
        proof {
            assert(sa.skip(j - 1) == seq![sa[j - 1]] + sa.skip(j as int));
            assert(sb.skip(j - 1) == seq![sb[j - 1]] + sb.skip(j as int));
            assert(sa[j - 1] == a.digits@[j - 1]);
            assert(sb[j - 1] == b.digits@[j - 1]);
        }
        j -= 1;
    }
    if j == 0 {
        assert(sa == sa.skip(0));
        assert(sb == sb.skip(0));
        return 0;
    }
    let k = j - 1;
    proof {
        lemma_val_split(sa, j as int);
        lemma_val_split(sb, j as int);
        let ta = sa.take(j as int);
        let tb = sb.take(j as int);
        assert(ta.drop_last() == sa.take(k as int));
        assert(tb.drop_last() == sb.take(k as int));
        assert(ta.last() == a.digits@[k as int]);
        assert(tb.last() == b.digits@[k as int]);
        let pa = sa.take(k as int);
        let pb = sb.take(k as int);
        assert(digits_ok(pa)) by {
            assert forall|i: int| 0 <= i < pa.len() implies #[trigger] pa[i] < 10 by {
                assert(pa[i] == a.digits@[i]);
            }
        }
        assert(digits_ok(pb)) by {
            assert forall|i: int| 0 <= i < pb.len() implies #[trigger] pb[i] < 10 by {
                assert(pb[i] == b.digits@[i]);
            }
        }
        lemma_val_bound(pa);
        lemma_val_bound(pb);
        let p = pow10(k as nat);
        let da = a.digits@[k as int] as nat;
        let db = b.digits@[k as int] as nat;
        let x = big_val(pa);
        let y = big_val(pb);
        let hi = big_val(sa.skip(j as int));
        let q = pow10(j as nat);
        assert(da < db ==> x + da * p < y + db * p) by (nonlinear_arith)
            requires
                x < p,
                y >= 0,
        ;
        assert(db < da ==> y + db * p < x + da * p) by (nonlinear_arith)
            requires
                y < p,
                x >= 0,
        ;
    }
    if a.digits[k] < b.digits[k] {
        -1
    } else {
        1
    }
}

proof fn lemma_pow10_mono(a: nat, b: nat)
    requires
        a <= b,
    ensures
        pow10(a) <= pow10(b),
    decreases b,
{
    if a < b {
        lemma_pow10_mono(a, (b - 1) as nat);
        lemma_pow10_pos((b - 1) as nat);
    }
}

} // verus!
