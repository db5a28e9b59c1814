//! Character-level string helpers with contracts over `Seq<char>`.

use vstd::prelude::*;
use vstd::string::*;

verus! {

/// The views of a sequence of strings.
pub open spec fn views_of(v: Seq<String>) -> Seq<Seq<char>> {
    v.map_values(|s: String| s@)
}

/// Pushing a string pushes its view.
pub proof fn lemma_views_push(v: Seq<String>, s: String)
    ensures
        views_of(v.push(s)) == views_of(v).push(s@),
        views_of(v.push(s)).to_set() == views_of(v).to_set().insert(s@),
{
    assert(views_of(v.push(s)) =~= views_of(v).push(s@));
    views_of(v).lemma_push_to_set_commute(s@);
}

/// A `String` holding the characters of `s`.
pub fn lit(s: &str) -> (r: String)
    ensures
        r@ == s@,
{
    String::from_str(s)
}

/// Appends a `String` holding `s`.
pub fn push_lit(v: &mut Vec<String>, s: &str)
    ensures
        views_of(final(v)@) == views_of(old(v)@).push(s@),
{
    let ghost before = v@;
    v.push(lit(s));
    proof {
        lemma_views_push(before, v@.last());
        assert(v@ == before.push(v@.last()));
    }
}

/// Appends `s`.
pub fn push_str(v: &mut Vec<String>, s: String)
    ensures
        views_of(final(v)@) == views_of(old(v)@).push(s@),
{
    let ghost before = v@;
    v.push(s);
    proof {
        lemma_views_push(before, v@.last());
        assert(v@ == before.push(v@.last()));
    }
}

/// `a` followed by `b`.
pub fn cat(a: &str, b: &str) -> (r: String)
    ensures
        r@ == a@ + b@,
{
    let mut r = lit(a);
    r.append(b);
    r
}

/// `a`, `b` and `c` in a row.
pub fn cat3(a: &str, b: &str, c: &str) -> (r: String)
    ensures
        r@ == a@ + b@ + c@,
{
    let mut r = lit(a);
    r.append(b);
    r.append(c);
    r
}

/// The view of an optional string.
pub open spec fn opt_view(o: Option<String>) -> Option<Seq<char>> {
    match o {
        Some(s) => Some(s@),
        None => None,
    }
}

/// Calls `String::push`, which appends one character.
#[verifier::external_body]
pub(crate) fn push_char(s: &mut String, c: char)
    ensures
        final(s)@ == old(s)@.push(c),
{
    s.push(c);
}

/// `s` without its last character (unchanged when empty).
pub open spec fn pop_spec(s: Seq<char>) -> Seq<char> {
    if s.len() > 0 {
        s.drop_last()
    } else {
        s
    }
}

/// Removes the last character of `s`, if there is one.
pub(crate) fn pop_char(s: &mut String)
    ensures
        final(s)@ == pop_spec(old(s)@),
{
    let cs = chars_of(s.as_str());
    if cs.len() > 0 {
        let kept = slice_chars(&cs, 0, cs.len() - 1);
        *s = string_of(&kept);
    }
}

/// The characters of `s`, in order.
pub fn chars_of(s: &str) -> (out: Vec<char>)
    ensures
        out@ == s@,
{
    let n = s.unicode_len();
    let mut out: Vec<char> = Vec::new();
    let mut i: usize = 0;
    while i < n
        invariant
            i <= n,
            n == s@.len(),
            out@ == s@.subrange(0, i as int),
        decreases n - i,
    {
        out.push(s.get_char(i));
        i += 1;
    }
    proof {
        assert(out@ == s@);
    }
    out
}

/// The string made of the characters `cs`, in order.
pub fn string_of(cs: &[char]) -> (out: String)
    ensures
        out@ == cs@,
{
    let mut out = String::new();
    let mut i: usize = 0;
    while i < cs.len()
        invariant
            i <= cs.len(),
            out@ == cs@.subrange(0, i as int),
        decreases cs.len() - i,
    {
        push_char(&mut out, cs[i]);
        proof {
            assert(cs@.subrange(0, i as int).push(cs@[i as int]) == cs@.subrange(0, i + 1));
        }
        i += 1;
    }
    proof {
        assert(out@ == cs@);
    }
    out
}


/// Whether `c` is Unicode white space (the `White_Space` property that
/// `char::is_whitespace` tests).
pub open spec fn is_white(c: char) -> bool {
    let u = c as u32;
    ||| 0x9 <= u <= 0xd
    ||| u == 0x20
    ||| u == 0x85
    ||| u == 0xa0
    ||| u == 0x1680
    ||| 0x2000 <= u <= 0x200a
    ||| u == 0x2028
    ||| u == 0x2029
    ||| u == 0x202f
    ||| u == 0x205f
    ||| u == 0x3000
}

/// Whether `c` is white space.
pub fn white(c: char) -> (b: bool)
    ensures
        b == is_white(c),
{
    let u = c as u32;
    (0x9 <= u && u <= 0xd) || u == 0x20 || u == 0x85 || u == 0xa0 || u == 0x1680 || (0x2000 <= u
        && u <= 0x200a) || u == 0x2028 || u == 0x2029 || u == 0x202f || u == 0x205f || u == 0x3000
}

/// Number of white-space characters at the start of `s`.
pub open spec fn lead_white(s: Seq<char>) -> nat
    decreases s.len(),
{
    if s.len() > 0 && is_white(s[0]) {
        1 + lead_white(s.drop_first())
    } else {
        0
    }
}

/// Number of white-space characters at the end of `s`.
pub open spec fn trail_white(s: Seq<char>) -> nat
    decreases s.len(),
{
    if s.len() > 0 && is_white(s.last()) {
        1 + trail_white(s.drop_last())
    } else {
        0
    }
}

/// `s` without leading and trailing white space (`str::trim`).
pub open spec fn trimmed(s: Seq<char>) -> Seq<char> {
    let t = s.skip(lead_white(s) as int);
    t.take(t.len() - trail_white(t))
}

pub(crate) proof fn lemma_lead_white(s: Seq<char>, i: int)
    requires
        0 <= i <= s.len(),
        forall|j: int| 0 <= j < i ==> is_white(#[trigger] s[j]),
        i == s.len() || !is_white(s[i]),
    ensures
        lead_white(s) == i,
    decreases i,
{
    if i > 0 {
        assert forall|j: int| 0 <= j < i - 1 implies is_white(#[trigger] s.drop_first()[j]) by {
            assert(s.drop_first()[j] == s[j + 1]);
        }
        if i - 1 < s.drop_first().len() {
            assert(s.drop_first()[i - 1] == s[i]);
        }
        lemma_lead_white(s.drop_first(), i - 1);
    }
}

pub(crate) proof fn lemma_trail_white(s: Seq<char>, i: int)
    requires
        0 <= i <= s.len(),
        forall|j: int| s.len() - i <= j < s.len() ==> is_white(#[trigger] s[j]),
        i == s.len() || !is_white(s[s.len() - i - 1]),
    ensures
        trail_white(s) == i,
    decreases i,
{
    if i > 0 {
        let d = s.drop_last();
        assert forall|j: int| d.len() - (i - 1) <= j < d.len() implies is_white(#[trigger] d[j]) by {
            assert(d[j] == s[j]);
        }
        if i - 1 < d.len() {
            assert(d[d.len() - (i - 1) - 1] == s[s.len() - i - 1]);
        }
        assert(s.last() == s[s.len() - 1]);
        lemma_trail_white(d, i - 1);
    }
}

/// `s` without leading and trailing white space.
pub fn trim_chars(s: &[char]) -> (out: Vec<char>)
    ensures
        out@ == trimmed(s@),
{
    let n = s.len();
    let mut a: usize = 0;
    while a < n && white(s[a])
        invariant
            a <= n,
            n == s@.len(),
            forall|j: int| 0 <= j < a ==> is_white(#[trigger] s@[j]),
        decreases n - a,
    {
        a += 1;
    }
    proof {
        lemma_lead_white(s@, a as int);
    }
    let mut b: usize = n;
    while b > a && white(s[b - 1])
        invariant
            a <= b <= n,
            n == s@.len(),
            forall|j: int| b <= j < n ==> is_white(#[trigger] s@[j]),
        decreases b,
    {
        b -= 1;
    }
    let ghost t = s@.skip(a as int);
    proof {
        assert forall|j: int| t.len() - (n - b) <= j < t.len() implies is_white(#[trigger] t[j]) by {
            assert(t[j] == s@[j + a]);
        }
        if n - b < t.len() {
            assert(t[t.len() - (n - b) - 1] == s@[b - 1]);
        }
        lemma_trail_white(t, (n - b) as int);
    }
    let mut out: Vec<char> = Vec::new();
    let mut k: usize = a;
    while k < b
        invariant
            a <= k <= b <= n,
            n == s@.len(),
            out@ == s@.subrange(a as int, k as int),
        decreases b - k,
    {
        out.push(s[k]);
        k += 1;
    }
    proof {
        assert(out@ == trimmed(s@));
    }
    out
}

/// Whether `needle` occurs in `hay` starting at position `i`.
pub open spec fn occurs_at(hay: Seq<char>, needle: Seq<char>, i: int) -> bool {
    0 <= i && i + needle.len() <= hay.len() && hay.subrange(i, i + needle.len()) == needle
}

/// Whether `needle` occurs anywhere in `hay` (`str::contains`).
pub open spec fn has_substring(hay: Seq<char>, needle: Seq<char>) -> bool {
    exists|i: int| occurs_at(hay, needle, i)
}

/// Whether `needle` occurs in `hay` at position `i`.
pub fn matches_at(hay: &[char], needle: &[char], i: usize) -> (b: bool)
    ensures
        b == occurs_at(hay@, needle@, i as int),
{
    if i > hay.len() || needle.len() > hay.len() - i {
        return false;
    }
    let mut k: usize = 0;
    while k < needle.len()
        invariant
            i + needle.len() <= hay.len(),
            k <= needle.len(),
            hay@.subrange(i as int, i + k) == needle@.subrange(0, k as int),
        decreases needle.len() - k,
    {
        if hay[i + k] != needle[k] {
            assert(hay@.subrange(i as int, i + needle.len())[k as int] == hay@[i + k]);
            return false;
        }
        assert(hay@.subrange(i as int, i + k + 1) == hay@.subrange(i as int, i + k).push(
            hay@[i + k],
        ));
        assert(needle@.subrange(0, k + 1) == needle@.subrange(0, k as int).push(needle@[k as int]));
        k += 1;
    }
    assert(needle@.subrange(0, needle.len() as int) == needle@);
    true
}

/// Position of the first occurrence of `needle` in `hay`.
pub fn find_chars(hay: &[char], needle: &[char]) -> (r: Option<usize>)
    ensures
        r matches Some(i) ==> occurs_at(hay@, needle@, i as int) && forall|j: int|
            0 <= j < i ==> !occurs_at(hay@, needle@, j),
        r is None ==> !has_substring(hay@, needle@),
{
    if needle.len() > hay.len() {
        return None;
    }
    let last = hay.len() - needle.len();
    let mut i: usize = 0;
    loop
        invariant
            last == hay.len() - needle.len(),
            i <= last,
            forall|j: int| 0 <= j < i ==> !occurs_at(hay@, needle@, j),
        decreases last - i,
    {
        if matches_at(hay, needle, i) {
            return Some(i);
        }
        if i == last {
            return None;
        }
        i += 1;
    }
}

/// Whether `needle` occurs in `hay`.
pub fn contains_chars(hay: &[char], needle: &[char]) -> (b: bool)
    ensures
        b == has_substring(hay@, needle@),
{
    match find_chars(hay, needle) {
        Some(_) => true,
        None => false,
    }
}

/// Unicode lower case of `s`, as `str::to_lowercase` computes it.
pub uninterp spec fn lowercase_of(s: Seq<char>) -> Seq<char>;

/// Calls `str::to_lowercase`; its result is named `lowercase_of` of the
/// characters of `s` (full Unicode case mapping is not restated here).
#[verifier::external_body]
pub(crate) fn to_lower(s: &str) -> (r: String)
    ensures
        r@ == lowercase_of(s@),
{
    s.to_lowercase()
}

/// The characters of the lower case of `s`.
pub fn lower_chars(s: &str) -> (r: Vec<char>)
    ensures
        r@ == lowercase_of(s@),
{
    let l = to_lower(s);
    chars_of(l.as_str())
}

/// `a` orders before `b` in lexicographic order of code points, which is the
/// order of `String`'s `Ord`.
pub open spec fn lex_lt(a: Seq<char>, b: Seq<char>) -> bool {
    exists|k: int|
        0 <= k <= a.len() && k <= b.len() && a.take(k) == b.take(k) && ((k == a.len() && k
            < b.len()) || (k < a.len() && k < b.len() && (a[k] as u32) < (b[k] as u32)))
}

proof fn lemma_lex_first_mismatch(a: Seq<char>, b: Seq<char>, k: int)
    requires
        0 <= k <= a.len(),
        k <= b.len(),
        a.take(k) == b.take(k),
    ensures
        k == a.len() && k == b.len() ==> a == b,
        k == a.len() && k < b.len() ==> lex_lt(a, b) && !lex_lt(b, a),
        k < a.len() && k == b.len() ==> lex_lt(b, a) && !lex_lt(a, b),
        k < a.len() && k < b.len() && (a[k] as u32) < (b[k] as u32) ==> lex_lt(a, b) && !lex_lt(
            b,
            a,
        ),
        k < a.len() && k < b.len() && (b[k] as u32) < (a[k] as u32) ==> lex_lt(b, a) && !lex_lt(
            a,
            b,
        ),
{
    if k == a.len() && k == b.len() {
        assert(a == a.take(k));
        assert(b == b.take(k));
    }
    assert forall|j: int|
        0 <= j <= b.len() && j <= a.len() && b.take(j) == a.take(j) && j != k implies j > k || (j
        < b.len() && j < a.len() && a[j] == b[j]) by {
        if j < k {
            assert(a[j] == a.take(k)[j]);
            assert(b[j] == b.take(k)[j]);
        }
    }
    assert forall|j: int|
        0 <= j <= b.len() && j <= a.len() && b.take(j) == a.take(j) && j > k implies k < a.len()
        && k < b.len() && a[k] == b[k] by {
        assert(a[k] == a.take(j)[k]);
        assert(b[k] == b.take(j)[k]);
    }
}

/// Length of the common prefix of `a` and `b`.
pub open spec fn common_prefix(a: Seq<char>, b: Seq<char>) -> nat
    decreases a.len(),
{
    if a.len() == 0 || b.len() == 0 || a[0] != b[0] {
        0
    } else {
        1 + common_prefix(a.drop_first(), b.drop_first())
    }
}

proof fn lemma_common_prefix(a: Seq<char>, b: Seq<char>)
    ensures
        common_prefix(a, b) <= a.len(),
        common_prefix(a, b) <= b.len(),
        a.take(common_prefix(a, b) as int) == b.take(common_prefix(a, b) as int),
        common_prefix(a, b) < a.len() && common_prefix(a, b) < b.len() ==> a[common_prefix(a, b) as int]
            != b[common_prefix(a, b) as int],
    decreases a.len(),
{
    if !(a.len() == 0 || b.len() == 0 || a[0] != b[0]) {
        let k = common_prefix(a.drop_first(), b.drop_first()) as int;
        lemma_common_prefix(a.drop_first(), b.drop_first());
        assert(a.take(k + 1) =~= seq![a[0]] + a.drop_first().take(k));
        assert(b.take(k + 1) =~= seq![b[0]] + b.drop_first().take(k));
        if k < a.drop_first().len() && k < b.drop_first().len() {
            assert(a[k + 1] == a.drop_first()[k]);
            assert(b[k + 1] == b.drop_first()[k]);
        }
    } else {
        assert(a.take(0) =~= b.take(0));
    }
}

/// Lexicographic order is a strict total order: exactly one of `a < b`,
/// `a == b`, `b < a` holds.
pub proof fn lemma_lex_trichotomy(a: Seq<char>, b: Seq<char>)
    ensures
        lex_lt(a, b) || a == b || lex_lt(b, a),
        !(lex_lt(a, b) && lex_lt(b, a)),
        lex_lt(a, b) ==> a != b,
{
    let k = common_prefix(a, b) as int;
    lemma_common_prefix(a, b);
    lemma_lex_first_mismatch(a, b, k);
    if k < a.len() && k < b.len() {
        vstd::utf8::char_u32_cast(a[k], a[k] as u32);
        vstd::utf8::char_u32_cast(b[k], b[k] as u32);
        assert((a[k] as u32) != (b[k] as u32));
    }
    if lex_lt(a, a) {
        let w = choose|w: int|
            0 <= w <= a.len() && w <= a.len() && a.take(w) == a.take(w) && ((w == a.len() && w
                < a.len()) || (w < a.len() && w < a.len() && (a[w] as u32) < (a[w] as u32)));
    }
}

/// Lexicographic order is transitive.
pub proof fn lemma_lex_transitive(a: Seq<char>, b: Seq<char>, c: Seq<char>)
    requires
        lex_lt(a, b),
        lex_lt(b, c),
    ensures
        lex_lt(a, c),
{
    let k1 = choose|k: int|
        0 <= k <= a.len() && k <= b.len() && a.take(k) == b.take(k) && ((k == a.len() && k < b.len())
            || (k < a.len() && k < b.len() && (a[k] as u32) < (b[k] as u32)));
    let k2 = choose|k: int|
        0 <= k <= b.len() && k <= c.len() && b.take(k) == c.take(k) && ((k == b.len() && k < c.len())
            || (k < b.len() && k < c.len() && (b[k] as u32) < (c[k] as u32)));
    if k1 <= k2 {
        assert(a.take(k1) =~= c.take(k1)) by {
            assert forall|i: int| 0 <= i < k1 implies a.take(k1)[i] == c.take(k1)[i] by {
                assert(a.take(k1)[i] == b.take(k1)[i]);
                assert(b.take(k2)[i] == c.take(k2)[i]);
            }
        }
        if k1 < k2 {
            assert(b.take(k2)[k1] == c.take(k2)[k1]);
        }
    } else {
        assert(a.take(k2) =~= c.take(k2)) by {
            assert forall|i: int| 0 <= i < k2 implies a.take(k2)[i] == c.take(k2)[i] by {
                assert(a.take(k1)[i] == b.take(k1)[i]);
                assert(b.take(k2)[i] == c.take(k2)[i]);
            }
        }
        assert(a.take(k1)[k2] == b.take(k1)[k2]);
    }
}

/// Three-way lexicographic comparison: negative, zero or positive as `a` is
/// before, equal to or after `b`.
pub fn lex_compare(a: &[char], b: &[char]) -> (r: i8)
    ensures
        r < 0 <==> lex_lt(a@, b@),
        r > 0 <==> lex_lt(b@, a@),
        r == 0 <==> a@ == b@,
        -1 <= r <= 1,
{
    let mut k: usize = 0;
    while k < a.len() && k < b.len() && a[k] == b[k]
        invariant
            k <= a.len(),
            k <= b.len(),
            a@.take(k as int) == b@.take(k as int),
        decreases a.len() - k,
    {
        assert(a@.take(k + 1) == a@.take(k as int).push(a@[k as int]));
        assert(b@.take(k + 1) == b@.take(k as int).push(b@[k as int]));
        k += 1;
    }
    proof {
        lemma_lex_first_mismatch(a@, b@, k as int);
        if k < a.len() && k < b.len() {
            assert(a@[k as int] != b@[k as int]);
            vstd::utf8::char_u32_cast(a@[k as int], a@[k as int] as u32);
            vstd::utf8::char_u32_cast(b@[k as int], b@[k as int] as u32);
            assert((a@[k as int] as u32) != (b@[k as int] as u32));
        }
    }
    if k == a.len() && k == b.len() {
        0
    } else if k == a.len() {
        -1
    } else if k == b.len() {
        1
    } else if (a[k] as u32) < (b[k] as u32) {
        -1
    } else {
        1
    }
}

/// The decimal digit character for `d` (0..=9).
pub open spec fn digit_char(d: int) -> char {
    if d == 0 {
        '0'
    } else if d == 1 {
        '1'
    } else if d == 2 {
        '2'
    } else if d == 3 {
        '3'
    } else if d == 4 {
        '4'
    } else if d == 5 {
        '5'
    } else if d == 6 {
        '6'
    } else if d == 7 {
        '7'
    } else if d == 8 {
        '8'
    } else {
        '9'
    }
}

/// Decimal representation of `n`, without leading zeros.
pub open spec fn decimal(n: nat) -> Seq<char>
    decreases n,
{
    if n < 10 {
        seq![digit_char(n as int)]
    } else {
        decimal(n / 10).push(digit_char((n % 10) as int))
    }
}

/// Decimal representation of `i`, with a leading `-` when negative.
pub open spec fn decimal_int(i: int) -> Seq<char> {
    if i < 0 {
        seq!['-'] + decimal((-i) as nat)
    } else {
        decimal(i as nat)
    }
}

/// The decimal digit character for `d`.
pub fn digit(d: u64) -> (c: char)
    requires
        d < 10,
    ensures
        c == digit_char(d as int),
{
    if d == 0 {
        '0'
    } else if d == 1 {
        '1'
    } else if d == 2 {
        '2'
    } else if d == 3 {
        '3'
    } else if d == 4 {
        '4'
    } else if d == 5 {
        '5'
    } else if d == 6 {
        '6'
    } else if d == 7 {
        '7'
    } else if d == 8 {
        '8'
    } else {
        '9'
    }
}

/// Decimal digits of `n`.
pub fn decimal_u64(n: u64) -> (out: Vec<char>)
    ensures
        out@ == decimal(n as nat),
    decreases n,
{
    if n < 10 {
        vec![digit(n)]
    } else {
        let mut v = decimal_u64(n / 10);
        v.push(digit(n % 10));
        v
    }
}

/// Decimal representation of a signed integer.
pub fn decimal_i64(n: i64) -> (out: Vec<char>)
    ensures
        out@ == decimal_int(n as int),
{
    if n < 0 {
        let m: u64 = if n == i64::MIN {
            9223372036854775808u64
        } else {
            (-n) as u64
        };
        let mut out = vec!['-'];
        let mut d = decimal_u64(m);
        out.append(&mut d);
        out
    } else {
        decimal_u64(n as u64)
    }
}

/// `a` followed by `b`.
pub fn concat_chars(a: &[char], b: &[char]) -> (out: Vec<char>)
    ensures
        out@ == a@ + b@,
{
    let mut out: Vec<char> = Vec::new();
    let mut i: usize = 0;
    while i < a.len()
        invariant
            i <= a.len(),
            out@ == a@.take(i as int),
        decreases a.len() - i,
    {
        out.push(a[i]);
        i += 1;
    }
    let mut j: usize = 0;
    while j < b.len()
        invariant
            j <= b.len(),
            out@ == a@ + b@.take(j as int),
        decreases b.len() - j,
    {
        out.push(b[j]);
        assert(b@.take(j + 1) == b@.take(j as int).push(b@[j as int]));
        j += 1;
    }
    assert(b@.take(b.len() as int) == b@);
    assert(a@.take(a.len() as int) == a@);
    out
}

/// Whether `a` and `b` hold the same characters.
pub fn chars_equal(a: &[char], b: &[char]) -> (r: bool)
    ensures
        r == (a@ == b@),
{
    lex_compare(a, b) == 0
}

/// `s` with its first occurrence of each element kept, in order.
pub open spec fn dedup_spec(s: Seq<Seq<char>>) -> Seq<Seq<char>>
    decreases s.len(),
{
    if s.len() == 0 {
        s
    } else {
        let r = dedup_spec(s.drop_last());
        if r.contains(s.last()) {
            r
        } else {
            r.push(s.last())
        }
    }
}

/// Whether `v` holds an element equal to `x`.
pub fn contains_chars_vec(v: &Vec<Vec<char>>, x: &[char]) -> (r: bool)
    ensures
        r == v@.map_values(|p: Vec<char>| p@).contains(x@),
{
    let ghost pv = v@.map_values(|p: Vec<char>| p@);
    let mut i: usize = 0;
    while i < v.len()
        invariant
            i <= v@.len(),
            pv == v@.map_values(|p: Vec<char>| p@),
            forall|j: int| 0 <= j < i ==> pv[j] != x@,
        decreases v.len() - i,
    {
        if chars_equal(&v[i], x) {
            assert(pv[i as int] == x@);
            return true;
        }
        i += 1;
    }
    false
}

/// `parts` with repeated elements dropped (first occurrence kept).
pub fn dedup_chars(parts: Vec<Vec<char>>) -> (out: Vec<Vec<char>>)
    ensures
        out@.map_values(|p: Vec<char>| p@) == dedup_spec(parts@.map_values(|p: Vec<char>| p@)),
{
    let ghost pv = parts@.map_values(|p: Vec<char>| p@);
    let mut out: Vec<Vec<char>> = Vec::new();
    let mut i: usize = 0;
    while i < parts.len()
        invariant
            i <= parts@.len(),
            pv == parts@.map_values(|p: Vec<char>| p@),
            out@.map_values(|p: Vec<char>| p@) == dedup_spec(pv.take(i as int)),
        decreases parts.len() - i,
    {
        proof {
            assert(pv.take(i + 1).drop_last() == pv.take(i as int));
            assert(pv.take(i + 1).last() == parts@[i as int]@);
        }
        if !contains_chars_vec(&out, &parts[i]) {
            let ghost before = out@;
            let copy = slice_chars(&parts[i], 0, parts[i].len());
            assert(copy@ == parts@[i as int]@);
            out.push(copy);
            assert(out@ == before.push(copy));
            assert(out@.map_values(|p: Vec<char>| p@) =~= before.map_values(|p: Vec<char>| p@).push(
                parts@[i as int]@,
            ));
        }
        i += 1;
    }
    assert(pv.take(parts.len() as int) == pv);
    out
}

/// `parts` joined with `sep` between consecutive parts.
pub open spec fn join_spec(parts: Seq<Seq<char>>, sep: Seq<char>) -> Seq<char>
    decreases parts.len(),
{
    if parts.len() == 0 {
        Seq::empty()
    } else if parts.len() == 1 {
        parts[0]
    } else {
        join_spec(parts.drop_last(), sep) + sep + parts.last()
    }
}

/// `parts` joined with `sep` between consecutive parts (`[..].join(sep)`).
pub fn join_chars(parts: &Vec<Vec<char>>, sep: &[char]) -> (out: Vec<char>)
    ensures
        out@ == join_spec(parts@.map_values(|p: Vec<char>| p@), sep@),
{
    let ghost pv = parts@.map_values(|p: Vec<char>| p@);
    let mut out: Vec<char> = Vec::new();
    let mut i: usize = 0;
    while i < parts.len()
        invariant
            i <= parts@.len(),
            pv == parts@.map_values(|p: Vec<char>| p@),
            out@ == join_spec(pv.take(i as int), sep@),
        decreases parts.len() - i,
    {
        proof {
            assert(pv.take(i + 1).drop_last() == pv.take(i as int));
            assert(pv.take(i + 1).last() == parts@[i as int]@);
        }
        if i == 0 {
            out = concat_chars(&out, &parts[i]);
            assert(pv.take(1)[0] == parts@[0]@);
            assert(out@ == join_spec(pv.take(1), sep@));
        } else {
            let with_sep = concat_chars(&out, sep);
            out = concat_chars(&with_sep, &parts[i]);
        }
        i += 1;
    }
    assert(pv.take(parts.len() as int) == pv);
    out
}

/// The characters `s[from..to]`.
pub fn slice_chars(s: &[char], from: usize, to: usize) -> (out: Vec<char>)
    requires
        from <= to <= s.len(),
    ensures
        out@ == s@.subrange(from as int, to as int),
{
    let mut out: Vec<char> = Vec::new();
    let mut k: usize = from;
    while k < to
        invariant
            from <= k <= to <= s.len(),
            out@ == s@.subrange(from as int, k as int),
        decreases to - k,
    {
        out.push(s[k]);
        k += 1;
    }
    out
}

} // verus!
