//! Size-aware ordering of table cells: cells that read as a byte size
//! (`119.3MB`, `6379`) compare by the 64-bit float that size comes to,
//! others by their lower-cased text.

use std::cmp::Ordering;
use vstd::prelude::*;
use crate::text::{
    chars_of, trim_chars, trimmed, lower_chars, lowercase_of, lex_lt, lex_compare, slice_chars,
    lemma_lex_trichotomy, lemma_lex_transitive, lemma_lead_white, lemma_trail_white, decimal,
    decimal_int, digit_char, is_white,
};
use crate::bignum::{BigNat, big_val, pow10, lemma_val_split};
use crate::float::{f64_order, f64_mag_of, mag_rank, f64_order_antisymmetric, f64_order_transitive};
use crate::docker::{pow1024, human_size_spec, to_f64_value, unit_index, unit_name, round_half_even};

verus! {

/// Whether `c` is an ASCII letter.
pub open spec fn is_ascii_alpha(c: char) -> bool {
    ('a' <= c && c <= 'z') || ('A' <= c && c <= 'Z')
}

/// Whether every character of `s` is an ASCII digit.
pub open spec fn all_digit(s: Seq<char>) -> bool {
    forall|i: int| 0 <= i < s.len() ==> '0' <= #[trigger] s[i] <= '9'
}

/// Position of the first ASCII letter of `t` (its length when it has none).
pub open spec fn alpha_pos(t: Seq<char>) -> nat
    decreases t.len(),
{
    if t.len() == 0 {
        0
    } else if is_ascii_alpha(t[0]) {
        0
    } else {
        1 + alpha_pos(t.drop_first())
    }
}

/// ASCII upper case of `s` (other characters unchanged).
pub open spec fn ascii_upper(s: Seq<char>) -> Seq<char> {
    Seq::new(s.len(), |i: int| if 'a' <= s[i] && s[i] <= 'z' {
        ((s[i] as u8) - 32) as char
    } else {
        s[i]
    })
}

/// How many times 1024 a unit name stands for (after upper-casing).
pub open spec fn unit_power(u: Seq<char>) -> Option<nat> {
    if u == Seq::<char>::empty() || u == seq!['B'] {
        Some(0)
    } else if u == seq!['K', 'B'] || u == seq!['K'] || u == seq!['K', 'I', 'B'] {
        Some(1)
    } else if u == seq!['M', 'B'] || u == seq!['M'] || u == seq!['M', 'I', 'B'] {
        Some(2)
    } else if u == seq!['G', 'B'] || u == seq!['G'] || u == seq!['G', 'I', 'B'] {
        Some(3)
    } else if u == seq!['T', 'B'] || u == seq!['T'] || u == seq!['T', 'I', 'B'] {
        Some(4)
    } else {
        None
    }
}

/// `p` is the position of the one `.` of a number body whose other
/// characters are digits.
pub open spec fn dot_at(body: Seq<char>, p: int) -> bool {
    0 <= p < body.len() && body[p] == '.' && all_digit(body.take(p)) && all_digit(body.skip(p + 1))
        && body.len() >= 2
}

/// Integer and fraction digits of a number body (`12`, `1.5`, `.5`, `5.`).
pub open spec fn body_parts(body: Seq<char>) -> Option<(Seq<char>, Seq<char>)> {
    if body.len() > 0 && all_digit(body) {
        Some((body, Seq::empty()))
    } else if exists|p: int| dot_at(body, p) {
        let p = choose|p: int| dot_at(body, p);
        Some((body.take(p), body.skip(p + 1)))
    } else {
        None
    }
}

/// Sign and digits of a decimal number with an optional leading `+` or `-`.
pub open spec fn number_parts(num: Seq<char>) -> Option<(bool, Seq<char>, Seq<char>)> {
    let signed = num.len() > 0 && (num[0] == '+' || num[0] == '-');
    let body = if signed {
        num.drop_first()
    } else {
        num
    };
    match body_parts(body) {
        Some((i, f)) => Some((signed && num[0] == '-', i, f)),
        None => None,
    }
}

/// Little-endian digit values of the decimal digits `s`.
pub open spec fn rev_digits(s: Seq<char>) -> Seq<u8> {
    Seq::new(s.len(), |i: int| ((s[s.len() - 1 - i] as u32) - ('0' as u32)) as u8)
}

/// Value of the decimal digits `s`.
pub open spec fn dec_value(s: Seq<char>) -> nat {
    big_val(rev_digits(s))
}

/// A parsed size: negative or not, the mantissa `m`, the number of fraction
/// digits `f` and the unit power `k`; it denotes `±m / 10^f * 1024^k`.
pub open spec fn size_spec(s: Seq<char>) -> Option<(bool, nat, nat, nat)> {
    let t = trimmed(s);
    let end = alpha_pos(t) as int;
    let num = trimmed(t.take(end));
    let unit = ascii_upper(trimmed(t.skip(end)));
    match (number_parts(num), unit_power(unit)) {
        (Some((neg, i, f)), Some(k)) => Some((neg, dec_value(i + f), f.len(), k)),
        _ => None,
    }
}

/// A parsed size, as [`size_spec`] describes it.
pub struct Size {
    pub negative: bool,
    pub mantissa: BigNat,
    pub frac: usize,
    pub unit: u64,
}

impl Size {
    /// Sign, mantissa as a number, digits after the point, and unit.
    pub open spec fn spec(&self) -> (bool, nat, nat, nat) {
        (self.negative, self.mantissa.value(), self.frac as nat, self.unit as nat)
    }
}

fn is_alpha(c: char) -> (b: bool)
    ensures
        b == is_ascii_alpha(c),
{
    ('a' <= c && c <= 'z') || ('A' <= c && c <= 'Z')
}

fn digits_only(s: &[char]) -> (b: bool)
    ensures
        b == all_digit(s@),
{
    let mut i: usize = 0;
    while i < s.len()
        invariant
            i <= s.len(),
            forall|j: int| 0 <= j < i ==> '0' <= #[trigger] s@[j] <= '9',
        decreases s.len() - i,
    {
        if !('0' <= s[i] && s[i] <= '9') {
            return false;
        }
        i += 1;
    }
    true
}

fn upper_ascii(s: &[char]) -> (out: Vec<char>)
    ensures
        out@ == ascii_upper(s@),
{
    let mut out: Vec<char> = Vec::new();
    let mut i: usize = 0;
    while i < s.len()
        invariant
            i <= s.len(),
            out@ == ascii_upper(s@).take(i as int),
        decreases s.len() - i,
    {
        let c = s[i];
        let u = if 'a' <= c && c <= 'z' {
            ((c as u8) - 32) as char
        } else {
            c
        };
        out.push(u);
        assert(out@ =~= ascii_upper(s@).take(i + 1));
        i += 1;
    }
    assert(ascii_upper(s@).take(s.len() as int) =~= ascii_upper(s@));
    out
}

fn eq_chars(a: &[char], b: &[char]) -> (r: bool)
    ensures
        r == (a@ == b@),
{
    lex_compare(a, b) == 0
}

fn unit_family(u: &[char], letter: char) -> (b: bool)
    ensures
        b == (u@ == seq![letter, 'B'] || u@ == seq![letter] || u@ == seq![letter, 'I', 'B']),
{
    let two = vec![letter, 'B'];
    let one = vec![letter];
    let three = vec![letter, 'I', 'B'];
    assert(two@ == seq![letter, 'B']);
    assert(one@ == seq![letter]);
    assert(three@ == seq![letter, 'I', 'B']);
    eq_chars(u, &two) || eq_chars(u, &one) || eq_chars(u, &three)
}

fn unit_of(u: &[char]) -> (r: Option<u64>)
    ensures
        match (r, unit_power(u@)) {
            (Some(k), Some(ks)) => k == ks,
            (None, None) => true,
            _ => false,
        },
{
    let b = vec!['B'];
    assert(b@ == seq!['B']);
    if u.len() == 0 || eq_chars(u, &b) {
        assert(u.len() == 0 ==> u@ == Seq::<char>::empty());
        Some(0)
    } else if unit_family(u, 'K') {
        Some(1)
    } else if unit_family(u, 'M') {
        Some(2)
    } else if unit_family(u, 'G') {
        Some(3)
    } else if unit_family(u, 'T') {
        Some(4)
    } else {
        None
    }
}

/// The little-endian digits of the decimal digits `s`.
fn to_digits(s: &[char]) -> (r: BigNat)
    requires
        all_digit(s@),
    ensures
        r.wf(),
        r.digits@ == rev_digits(s@),
{
    let n = s.len();
    let mut out: Vec<u8> = Vec::new();
    let mut i: usize = 0;
    while i < n
        invariant
            i <= n,
            n == s@.len(),
            all_digit(s@),
            out@ == rev_digits(s@).take(i as int),
        decreases n - i,
    {
        let c = s[n - 1 - i];
        assert('0' <= s@[n - 1 - i] <= '9');
        let d = ((c as u32) - ('0' as u32)) as u8;
        out.push(d);
        assert(out@ =~= rev_digits(s@).take(i + 1));
        i += 1;
    }
    assert(rev_digits(s@).take(n as int) =~= rev_digits(s@));
    proof {
        assert forall|j: int| 0 <= j < out@.len() implies #[trigger] out@[j] < 10 by {
            assert('0' <= s@[n - 1 - j] <= '9');
        }
    }
    BigNat { digits: out }
}

proof fn lemma_alpha_pos(t: Seq<char>, i: int)
    requires
        0 <= i <= t.len(),
        forall|j: int| 0 <= j < i ==> !is_ascii_alpha(#[trigger] t[j]),
        i == t.len() || is_ascii_alpha(t[i]),
    ensures
        alpha_pos(t) == i,
    decreases i,
{
    if i > 0 {
        assert forall|j: int| 0 <= j < i - 1 implies !is_ascii_alpha(#[trigger] t.drop_first()[j]) by {
            assert(t.drop_first()[j] == t[j + 1]);
        }
        if i - 1 < t.drop_first().len() {
            assert(t.drop_first()[i - 1] == t[i]);
        }
        lemma_alpha_pos(t.drop_first(), i - 1);
    }
}

/// Parse a human size like "119.3MB" / "6379" / "1.5 GiB".
pub fn parse_size(s: &str) -> (r: Option<Size>)
    ensures
        match (r, size_spec(s@)) {
            (Some(v), Some(sp)) => v.spec() == sp && v.mantissa.wf() && v.unit <= 4,
            (None, None) => true,
            _ => false,
        },
{
    let raw = chars_of(s);
    let t = trim_chars(&raw);
    let mut end: usize = 0;
    while end < t.len() && !is_alpha(t[end])
        invariant
            end <= t@.len(),
            forall|j: int| 0 <= j < end ==> !is_ascii_alpha(#[trigger] t@[j]),
        decreases t.len() - end,
    {
        end += 1;
    }
    proof {
        lemma_alpha_pos(t@, end as int);
    }
    let head = slice_chars(&t, 0, end);
    let tail = slice_chars(&t, end, t.len());
    assert(head@ == t@.take(end as int));
    assert(tail@ == t@.skip(end as int));
    let num = trim_chars(&head);
    let unit_t = trim_chars(&tail);
    let unit = upper_ascii(&unit_t);
    let k = match unit_of(&unit) {
        Some(k) => k,
        None => return None,
    };
    let signed = num.len() > 0 && (num[0] == '+' || num[0] == '-');
    let negative = signed && num[0] == '-';
    let body = if signed {
        slice_chars(&num, 1, num.len())
    } else {
        slice_chars(&num, 0, num.len())
    };
    assert(signed ==> body@ == num@.drop_first());
    assert(!signed ==> body@ == num@);
    if body.len() > 0 && digits_only(&body) {
        let m = to_digits(&body);
        assert(body@ + Seq::<char>::empty() == body@);
        return Some(Size { negative, mantissa: m, frac: 0, unit: k });
    }
    // look for the one '.'
    let mut p: usize = 0;
    while p < body.len() && body[p] != '.'
        invariant
            p <= body@.len(),
            forall|j: int| 0 <= j < p ==> body@[j] != '.',
        decreases body.len() - p,
    {
        p += 1;
    }
    if p == body.len() {
        proof {
            assert forall|q: int| !dot_at(body@, q) by {
                if dot_at(body@, q) {
                    assert(body@[q] == '.');
                }
            }
        }
        return None;
    }
    let ip = slice_chars(&body, 0, p);
    let fp = slice_chars(&body, p + 1, body.len());
    assert(ip@ == body@.take(p as int));
    assert(fp@ == body@.skip(p + 1));
    if body.len() >= 2 && digits_only(&ip) && digits_only(&fp) {
        proof {
            assert(dot_at(body@, p as int));
            let q = choose|q: int| dot_at(body@, q);
            if q < p {
                assert(body@[q] != '.');
            }
            if q > p {
                assert(body@.take(q)[p as int] == '.');
            }
        }
        let mut all = ip.clone();
        let mut fc = fp.clone();
        all.append(&mut fc);
        assert(all@ == ip@ + fp@);
        let m = to_digits(&all);
        Some(Size { negative, mantissa: m, frac: fp.len(), unit: k })
    } else {
        proof {
            assert forall|q: int| !dot_at(body@, q) by {
                if dot_at(body@, q) {
                    if q < p {
                        assert(body@[q] != '.');
                    }
                    if q > p {
                        assert(body@.take(q)[p as int] == '.');
                        assert(!('0' <= body@.take(q)[p as int] <= '9'));
                    }
                }
            }
        }
        None
    }
}


/// Order of two cells: by the 64-bit floats their sizes come to when both
/// read as sizes, else by their lower-cased text in code-point order.
/// -1, 0 or 1.
pub open spec fn cell_order(a: Seq<char>, b: Seq<char>) -> int {
    match (size_spec(a), size_spec(b)) {
        (Some(x), Some(y)) => f64_order(x, y),
        _ => {
            let la = lowercase_of(a);
            let lb = lowercase_of(b);
            if lex_lt(la, lb) {
                -1
            } else if la == lb {
                0
            } else {
                1
            }
        },
    }
}

proof fn lemma_pow_pos(k: nat, f: nat)
    ensures
        pow1024(k) >= 1,
        pow10(f) >= 1,
    decreases k + f,
{
    if k > 0 {
        lemma_pow_pos((k - 1) as nat, f);
    } else if f > 0 {
        lemma_pow_pos(k, (f - 1) as nat);
    }
}

/// Sign of a size whose double has kind `kind` (0 for zero): -1, 0 or 1.
fn sign_of(kind: u8, negative: bool) -> (r: i8)
    ensures
        r == (if kind == 0 {
            0int
        } else if negative {
            -1int
        } else {
            1int
        }),
{
    if kind == 0 {
        0
    } else if negative {
        -1
    } else {
        1
    }
}

/// Order of two parsed sizes as the doubles they come to, -1, 0 or 1.
pub fn size_rank(x: &Size, y: &Size) -> (r: i8)
    requires
        x.mantissa.wf(),
        y.mantissa.wf(),
        x.unit <= 4,
        y.unit <= 4,
    ensures
        r == f64_order(x.spec(), y.spec()),
{
    reveal(f64_order);
    let a = f64_mag_of(&x.mantissa, x.frac, x.unit);
    let b = f64_mag_of(&y.mantissa, y.frac, y.unit);
    let sx = sign_of(a.0, x.negative);
    let sy = sign_of(b.0, y.negative);
    if sx != sy {
        return if sx < sy {
            -1
        } else {
            1
        };
    }
    if sx == 0 {
        return 0;
    }
    if sx == 1 {
        mag_rank(a, b)
    } else {
        mag_rank(b, a)
    }
}

/// Order of the lower-cased texts of two cells, -1, 0 or 1.
pub fn text_rank(a: &str, b: &str) -> (r: i8)
    ensures
        r == (if lex_lt(lowercase_of(a@), lowercase_of(b@)) {
            -1
        } else if lowercase_of(a@) == lowercase_of(b@) {
            0
        } else {
            1
        }),
{
    let la = lower_chars(a);
    let lb = lower_chars(b);
    let c = lex_compare(&la, &lb);
    if c < 0 {
        -1
    } else if c == 0 {
        0
    } else {
        proof {
            assert(!lex_lt(la@, lb@));
        }
        1
    }
}

/// Order of two cells, -1, 0 or 1: by size when both read as sizes, else by
/// lower-cased text.
pub fn cell_rank(a: &str, b: &str) -> (r: i8)
    ensures
        r == cell_order(a@, b@),
{
    match (parse_size(a), parse_size(b)) {
        (Some(x), Some(y)) => size_rank(&x, &y),
        (pa, pb) => {
            proof {
                assert(size_spec(a@) is None || size_spec(b@) is None);
            }
            text_rank(a, b)
        },
    }
}

/// Smart cell comparison: size-aware, then case-insensitive text.
pub fn cmp_cells(a: &str, b: &str) -> (r: Ordering)
    ensures
        (r == Ordering::Less) <==> cell_order(a@, b@) == -1,
        (r == Ordering::Equal) <==> cell_order(a@, b@) == 0,
        (r == Ordering::Greater) <==> cell_order(a@, b@) == 1,
{
    let c = cell_rank(a, b);
    proof {
        cell_order_antisymmetric(a@, b@);
    }
    if c < 0 {
        Ordering::Less
    } else if c == 0 {
        Ordering::Equal
    } else {
        Ordering::Greater
    }
}


/// Cell order is transitive among cells that all read as sizes, and among
/// cells none of which does.
pub proof fn cell_order_transitive(a: Seq<char>, b: Seq<char>, c: Seq<char>)
    requires
        (size_spec(a) is Some && size_spec(b) is Some && size_spec(c) is Some) || (size_spec(a) is None
            && size_spec(b) is None && size_spec(c) is None),
        cell_order(a, b) != 1,
        cell_order(b, c) != 1,
    ensures
        cell_order(a, c) != 1,
{
    if size_spec(a) is Some {
        f64_order_transitive(size_spec(a).unwrap(), size_spec(b).unwrap(), size_spec(c).unwrap());
    } else {
        let (la, lb, lc) = (lowercase_of(a), lowercase_of(b), lowercase_of(c));
        lemma_lex_trichotomy(la, lb);
        lemma_lex_trichotomy(lb, lc);
        lemma_lex_trichotomy(la, lc);
        if lex_lt(la, lb) && lex_lt(lb, lc) {
            lemma_lex_transitive(la, lb, lc);
        }
    }
}

/// Cell order is antisymmetric: comparing the other way round gives the
/// opposite answer (and `Equal` both ways).
pub proof fn cell_order_antisymmetric(a: Seq<char>, b: Seq<char>)
    ensures
        cell_order(a, b) == -cell_order(b, a),
        -1 <= cell_order(a, b) <= 1,
{
    match (size_spec(a), size_spec(b)) {
        (Some(x), Some(y)) => {
            f64_order_antisymmetric(x, y);
        },
        _ => {
            lemma_lex_trichotomy(lowercase_of(a), lowercase_of(b));
        },
    }
}

/// `s` trimmed is `s` when its first and last characters are not white
/// space.
proof fn lemma_trim_noop(s: Seq<char>)
    requires
        s.len() > 0,
        !is_white(s[0]),
        !is_white(s.last()),
    ensures
        trimmed(s) == s,
{
    lemma_lead_white(s, 0);
    assert(s.skip(0) == s);
    lemma_trail_white(s, 0);
    assert(s.take(s.len() as int) == s);
}

/// A digit character's value.
pub open spec fn digit_value(c: char) -> nat {
    ((c as u32) - ('0' as u32)) as nat
}

proof fn lemma_digit_char(k: int)
    requires
        0 <= k < 10,
    ensures
        '0' <= digit_char(k) <= '9',
        digit_value(digit_char(k)) == k,
        !is_white(digit_char(k)),
        !is_ascii_alpha(digit_char(k)),
{
}

/// Appending a digit: ten times the value plus the digit.
proof fn lemma_dec_push(s: Seq<char>, c: char)
    ensures
        dec_value(s.push(c)) == 10 * dec_value(s) + ((c as u32) - ('0' as u32)) as u8,
{
    let d = rev_digits(s.push(c));
    assert(d.skip(1) =~= rev_digits(s));
    lemma_val_split(d, 1);
    let h = d.take(1);
    assert(h.drop_last() =~= Seq::<u8>::empty());
    assert(h.last() == d[0]);
    assert(d[0] == ((c as u32) - ('0' as u32)) as u8);
    assert(big_val(h) == big_val(h.drop_last()) + (h.last() as nat) * pow10(0));
    assert(pow10(0) == 1);
    assert(pow10(1) == 10);
    assert(big_val(Seq::<u8>::empty()) == 0);
    assert(big_val(h) == d[0] as nat);
    assert(big_val(d) == big_val(h) + pow10(1) * big_val(rev_digits(s)));
    assert(dec_value(s.push(c)) == big_val(d));
    assert(dec_value(s) == big_val(rev_digits(s)));
}

/// The decimal digits of `n` are digits and read back as `n`.
proof fn lemma_decimal_reads_back(n: nat)
    ensures
        decimal(n).len() >= 1,
        all_digit(decimal(n)),
        dec_value(decimal(n)) == n,
    decreases n,
{
    if n < 10 {
        lemma_digit_char(n as int);
        lemma_dec_push(Seq::empty(), digit_char(n as int));
        assert(seq![digit_char(n as int)] =~= Seq::<char>::empty().push(digit_char(n as int)));
        assert(dec_value(Seq::<char>::empty()) == 0) by {
            assert(rev_digits(Seq::<char>::empty()) =~= Seq::<u8>::empty());
        }
    } else {
        lemma_decimal_reads_back(n / 10);
        lemma_digit_char((n % 10) as int);
        lemma_dec_push(decimal(n / 10), digit_char((n % 10) as int));
    }
}

/// ASCII upper case keeps a unit name.
proof fn lemma_unit_name(i: nat)
    requires
        i <= 4,
    ensures
        unit_name(i).len() >= 1,
        is_ascii_alpha(unit_name(i)[0]),
        unit_name(i).last() == 'B',
        ascii_upper(unit_name(i)) == unit_name(i),
        trimmed(unit_name(i)) == unit_name(i),
        unit_power(unit_name(i)) == Some(i),
{
    let u = unit_name(i);
    assert(ascii_upper(u) =~= u);
    lemma_trim_noop(u);
}

/// A size shown for a byte count reads back as a size. Below 1024 bytes it
/// is exactly the count. From 1024 up it is the shown number `t / 10` of
/// units of `1024^i`, where `t` is the count, taken as a 64-bit float and
/// counted in tenths of the unit, rounded: within half a tenth of a unit
/// of that float.
pub proof fn human_size_reads_back(bytes: int)
    requires
        bytes >= 0,
    ensures
        bytes < 1024 ==> size_spec(human_size_spec(bytes)) == Some((false, bytes as nat, 0nat, 0nat)),
        bytes >= 1024 ==> ({
            let f = to_f64_value(bytes as nat);
            let i = unit_index(f);
            let t = round_half_even(10 * f, pow1024(i));
            &&& size_spec(human_size_spec(bytes)) == Some((false, t, 1nat, i))
            &&& 2 * t * pow1024(i) <= 20 * f + pow1024(i)
            &&& 20 * f <= 2 * t * pow1024(i) + pow1024(i)
        }),
{
    if bytes < 1024 {
        let d = decimal(bytes as nat);
        let u = unit_name(0);
        let s = human_size_spec(bytes);
        lemma_decimal_reads_back(bytes as nat);
        lemma_unit_name(0);
        assert(s == d + u);
        assert(!is_white(d[0]) && !is_ascii_alpha(d[0]));
        lemma_trim_noop(s);
        assert forall|j: int| 0 <= j < d.len() implies !is_ascii_alpha(#[trigger] s[j]) by {
            assert(s[j] == d[j]);
        }
        lemma_alpha_pos(s, d.len() as int);
        assert(s.take(d.len() as int) =~= d);
        assert(s.skip(d.len() as int) =~= u);
        lemma_trim_noop(d);
        assert(number_parts(d) == Some((false, d, Seq::<char>::empty())));
        assert(d + Seq::<char>::empty() =~= d);
    } else {
        let f = to_f64_value(bytes as nat);
        let i = unit_index(f);
        let den = pow1024(i);
        let t = round_half_even(10 * f, den);
        lemma_pow_pos(i, 0);
        let q = t / 10;
        let r = t % 10;
        let d = decimal(q);
        let dc = digit_char(r as int);
        let n = d + seq!['.', dc];
        let u = unit_name(i);
        let s = human_size_spec(bytes);
        lemma_decimal_reads_back(q);
        lemma_digit_char(r as int);
        lemma_unit_name(i);
        assert(s == n + u);
        lemma_trim_noop(s);
        assert forall|j: int| 0 <= j < n.len() implies !is_ascii_alpha(#[trigger] s[j]) by {
            assert(s[j] == n[j]);
            if j < d.len() {
                assert(n[j] == d[j]);
            }
        }
        lemma_alpha_pos(s, n.len() as int);
        assert(s.take(n.len() as int) =~= n);
        assert(s.skip(n.len() as int) =~= u);
        lemma_trim_noop(n);
        let p = d.len() as int;
        assert(n.take(p) =~= d);
        assert(n.skip(p + 1) =~= seq![dc]);
        assert(dot_at(n, p));
        assert forall|p2: int| dot_at(n, p2) implies p2 == p by {
            if p2 < p {
                assert(n[p2] == d[p2]);
            }
            if p2 > p {
                assert(n[p2] == dc);
            }
        }
        assert(!all_digit(n)) by {
            assert(n[p] == '.');
        }
        assert(number_parts(n) == Some((false, d, seq![dc])));
        assert(d + seq![dc] =~= d.push(dc));
        lemma_dec_push(d, dc);
        assert(dec_value(d + seq![dc]) == t);
        let num = 10 * f;
        assert(num == (num / den) * den + num % den && 0 <= num % den < den) by (nonlinear_arith)
            requires
                den > 0,
        ;
        assert(2 * t * den <= 2 * num + den && 2 * num <= 2 * t * den + den) by (nonlinear_arith)
            requires
                den > 0,
                num == (num / den) * den + num % den,
                0 <= num % den < den,
                t == (num / den) + 1 ==> 2 * (num % den) >= den,
                t == (num / den) ==> 2 * (num % den) <= den,
                t == (num / den) || t == (num / den) + 1,
        ;
    }
}

} // verus!
