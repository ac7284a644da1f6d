//! Character-level helpers: blank detection, string comparison, and the
//! integer and floating-point number syntax accepted by the editor's input
//! fields, read exactly.
use vstd::arithmetic::div_mod::{
    lemma_basic_div, lemma_div_denominator, lemma_hoist_over_denominator,
};
use vstd::prelude::*;

verus! {

/// Unicode `White_Space` code points, the set that `str::trim` removes.
pub open spec fn is_white_space(c: char) -> bool {
    let u = c as u32;
    (0x09 <= u && u <= 0x0d) || u == 0x20 || u == 0x85 || u == 0xa0 || u == 0x1680 || (0x2000
        <= u && u <= 0x200a) || u == 0x2028 || u == 0x2029 || u == 0x202f || u == 0x205f || u
        == 0x3000
}

/// A text is blank when trimming it leaves nothing: every character is white space.
pub open spec fn is_blank(s: Seq<char>) -> bool {
    forall|i: int| 0 <= i < s.len() ==> is_white_space(#[trigger] s[i])
}

pub open spec fn is_digit(c: char) -> bool {
    '0' <= c && c <= '9'
}

pub open spec fn digit_value(c: char) -> nat {
    ((c as u32) - ('0' as u32)) as nat
}

pub open spec fn all_digits(s: Seq<char>) -> bool {
    forall|i: int| 0 <= i < s.len() ==> is_digit(#[trigger] s[i])
}

/// The number written by a sequence of decimal digits, most significant first.
pub open spec fn digits_value(s: Seq<char>) -> nat
    decreases s.len(),
{
    if s.len() == 0 {
        0
    } else {
        digits_value(s.drop_last()) * 10 + digit_value(s.last())
    }
}

pub open spec fn pow10(n: nat) -> nat
    decreases n,
{
    if n == 0 {
        1
    } else {
        10 * pow10((n - 1) as nat)
    }
}

/// The digits of an unsigned integer text: an optional leading `+` is dropped.
pub open spec fn unsigned_body(s: Seq<char>) -> Seq<char> {
    if s.len() > 0 && s[0] == '+' {
        s.drop_first()
    } else {
        s
    }
}

/// The value of a `u32` text, as Rust's integer syntax reads it: an optional
/// `+`, then one or more decimal digits, and a value that fits in 32 bits.
pub open spec fn u32_text_value(s: Seq<char>) -> Option<u32> {
    let d = unsigned_body(s);
    if d.len() > 0 && all_digits(d) && digits_value(d) <= u32::MAX {
        Some(digits_value(d) as u32)
    } else {
        None
    }
}

/// A decimal text split at its point: whole digits and fraction digits.
/// The point is optional; at least one digit must be present.
pub open spec fn decimal_parts(s: Seq<char>) -> Option<(Seq<char>, Seq<char>)> {
    if all_digits(s) {
        if s.len() > 0 {
            Some((s, Seq::<char>::empty()))
        } else {
            None
        }
    } else if exists|i: int|
        0 <= i < s.len() && s[i] == '.' && all_digits(s.take(i)) && all_digits(s.skip(i + 1))
            && s.len() > 1 {
        let i = choose|i: int|
            0 <= i < s.len() && s[i] == '.' && all_digits(s.take(i)) && all_digits(
                s.skip(i + 1),
            ) && s.len() > 1;
        Some((s.take(i), s.skip(i + 1)))
    } else {
        None
    }
}

/// The sign of a signed number text and the text after it.
pub open spec fn signed_body(s: Seq<char>) -> (bool, Seq<char>) {
    if s.len() > 0 && (s[0] == '+' || s[0] == '-') {
        (s[0] == '-', s.drop_first())
    } else {
        (false, s)
    }
}

pub open spec fn decimal_digits(n: nat) -> Seq<char>
    decreases n,
{
    if n < 10 {
        seq![digit_char(n)]
    } else {
        decimal_digits(n / 10).push(digit_char(n % 10))
    }
}

pub open spec fn digit_char(d: nat) -> char {
    (('0' as u32) + d) as char
}

/// Whether every character of `s` is white space (the text trims to nothing).
pub fn is_blank_text(s: &str) -> (r: bool)
    ensures
        r == is_blank(s@),
{
    let n = s.unicode_len();
    let mut i: usize = 0;
    while i < n
        invariant
            n == s@.len(),
            i <= n,
            forall|j: int| 0 <= j < i ==> is_white_space(#[trigger] s@[j]),
        decreases n - i,
    {
        let c = s.get_char(i);
        if !white_space_char(c) {
            return false;
        }
        i = i + 1;
    }
    true
}

fn white_space_char(c: char) -> (r: bool)
    ensures
        r == is_white_space(c),
{
    let u = c as u32;
    (0x09 <= u && u <= 0x0d) || u == 0x20 || u == 0x85 || u == 0xa0 || u == 0x1680 || (0x2000
        <= u && u <= 0x200a) || u == 0x2028 || u == 0x2029 || u == 0x202f || u == 0x205f || u
        == 0x3000
}

/// Whether two texts hold the same characters.
pub fn same_text(a: &str, b: &str) -> (r: bool)
    ensures
        r == (a@ == b@),
{
    let n = a.unicode_len();
    let m = b.unicode_len();
    if n != m {
        return false;
    }
    let mut i: usize = 0;
    while i < n
        invariant
            n == a@.len(),
            m == b@.len(),
            n == m,
            i <= n,
            forall|j: int| 0 <= j < i ==> a@[j] == b@[j],
        decreases n - i,
    {
        if a.get_char(i) != b.get_char(i) {
            return false;
        }
        i = i + 1;
    }
    assert(a@ =~= b@);
    true
}

proof fn lemma_pow10_positive(n: nat)
    ensures
        pow10(n) > 0,
    decreases n,
{
    if n > 0 {
        lemma_pow10_positive((n - 1) as nat);
    }
}

/// Reading one more digit in front multiplies it by the weight of its place.
proof fn lemma_digits_prepend(c: char, t: Seq<char>)
    ensures
        digits_value(seq![c] + t) == digit_value(c) * pow10(t.len()) + digits_value(t),
    decreases t.len(),
{
    let ct = seq![c] + t;
    if t.len() == 0 {
        assert(ct.drop_last() =~= Seq::<char>::empty());
        assert(ct.last() == c);
        assert(digits_value(ct) == digits_value(ct.drop_last()) * 10 + digit_value(c));
        assert(pow10(0) == 1);
    } else {
        assert(ct.drop_last() =~= seq![c] + t.drop_last());
        assert(ct.last() == t.last());
        assert(digits_value(ct) == digits_value(ct.drop_last()) * 10 + digit_value(t.last()));
        assert(pow10(t.len()) == 10 * pow10((t.len() - 1) as nat));
        lemma_digits_prepend(c, t.drop_last());
        let d = digit_value(c);
        let p = pow10((t.len() - 1) as nat);
        let x = digits_value(t.drop_last());
        assert((d * p + x) * 10 == d * (10 * p) + x * 10) by (nonlinear_arith);
    }
}

proof fn lemma_digits_bound(t: Seq<char>)
    requires
        all_digits(t),
    ensures
        digits_value(t) < pow10(t.len()),
    decreases t.len(),
{
    if t.len() > 0 {
        let u = t.drop_last();
        assert(all_digits(u)) by {
            assert forall|i: int| 0 <= i < u.len() implies is_digit(#[trigger] u[i]) by {
                assert(u[i] == t[i]);
            }
        }
        lemma_digits_bound(u);
        assert(is_digit(t[t.len() - 1]));
        let p = pow10((t.len() - 1) as nat);
        let x = digits_value(u);
        assert(x * 10 + 9 < 10 * p) by (nonlinear_arith)
            requires
                x < p,
        ;
    }
}

/// One step of the right-to-left evaluation of `floor(0.t * m)`.
proof fn lemma_fraction_step(c: char, t: Seq<char>, m: nat)
    ensures
        (m * digit_value(c) + (digits_value(t) * m) / pow10(t.len())) / 10 == (digits_value(
            seq![c] + t,
        ) * m) / pow10((seq![c] + t).len()),
{
    let q = pow10(t.len());
    lemma_pow10_positive(t.len());
    lemma_digits_prepend(c, t);
    let d = digit_value(c);
    let x = digits_value(t) * m;
    let j = m * d;
    assert(x >= 0) by (nonlinear_arith);
    lemma_hoist_over_denominator(x as int, j as int, q);
    assert((digits_value(seq![c] + t) * m) == x + j * q) by (nonlinear_arith)
        requires
            digits_value(seq![c] + t) == d * q + digits_value(t),
            x == digits_value(t) * m,
            j == m * d,
    ;
    assert((seq![c] + t).len() == t.len() + 1);
    assert(pow10((t.len() + 1) as nat) == 10 * q);
    lemma_div_denominator((x + j * q) as int, q as int, 10);
    assert(q * 10 == 10 * q) by (nonlinear_arith);
}

/// Reads a `u32` as Rust's integer syntax writes it: an optional `+` and
/// decimal digits whose value fits in 32 bits.
pub fn parse_u32_text(s: &str) -> (r: Option<u32>)
    ensures
        r == u32_text_value(s@),
{
    let n = s.unicode_len();
    let mut start: usize = 0;
    if n > 0 && s.get_char(0) == '+' {
        start = 1;
    }
    let ghost body = unsigned_body(s@);
    assert(body =~= s@.skip(start as int));
    if start == n {
        return None;
    }
    let cap: u64 = 0x1_0000_0000;
    let mut acc: u64 = 0;
    let mut i: usize = start;
    while i < n
        invariant
            n == s@.len(),
            start <= i <= n,
            body == s@.skip(start as int),
            body == unsigned_body(s@),
            cap == 0x1_0000_0000u64,
            all_digits(s@.subrange(start as int, i as int)),
            acc == (if digits_value(s@.subrange(start as int, i as int)) < cap {
                digits_value(s@.subrange(start as int, i as int))
            } else {
                cap as nat
            }),
        decreases n - i,
    {
        let c = s.get_char(i);
        if !('0' <= c && c <= '9') {
            assert(!is_digit(body[i - start]));
            assert(!all_digits(body));
            return None;
        }
        let ghost prev = s@.subrange(start as int, i as int);
        let ghost next = s@.subrange(start as int, i + 1);
        assert(next.drop_last() =~= prev);
        assert(all_digits(next)) by {
            assert forall|k: int| 0 <= k < next.len() implies is_digit(#[trigger] next[k]) by {
                if k < prev.len() {
                    assert(next[k] == prev[k]);
                }
            }
        }
        let d = (c as u32 - '0' as u32) as u64;
        if acc >= cap {
            assert(digits_value(next) >= cap) by (nonlinear_arith)
                requires
                    digits_value(next) == digits_value(prev) * 10 + d,
                    digits_value(prev) >= cap,
            ;
        } else {
            let v = acc * 10 + d;
            acc = if v > cap {
                cap
            } else {
                v
            };
        }
        i = i + 1;
    }
    assert(s@.subrange(start as int, n as int) =~= body);
    if acc > u32::MAX as u64 {
        None
    } else {
        Some(acc as u32)
    }
}

/// With the point at `k` and digits on both sides, the split is at `k`.
proof fn lemma_decimal_split(body: Seq<char>, k: int)
    requires
        0 <= k < body.len(),
        body[k] == '.',
        body.len() > 1,
        all_digits(body.take(k)),
        all_digits(body.skip(k + 1)),
    ensures
        decimal_parts(body) == Some((body.take(k), body.skip(k + 1))),
{
    assert(!is_digit(body[k]));
    assert(!all_digits(body));
    let i = choose|i: int|
        0 <= i < body.len() && body[i] == '.' && all_digits(body.take(i)) && all_digits(
            body.skip(i + 1),
        ) && body.len() > 1;
    if i < k {
        assert(body.take(k)[i] == body[i]);
    } else if i > k {
        assert(body.take(i)[k] == body[k]);
    }
}

/// Digits up to `k`, then a character that cannot continue a decimal number.
proof fn lemma_not_decimal(body: Seq<char>, k: int)
    requires
        0 <= k < body.len(),
        all_digits(body.take(k)),
        !is_digit(body[k]),
        body[k] == '.' ==> (!all_digits(body.skip(k + 1)) || body.len() == 1),
    ensures
        decimal_parts(body) is None,
{
    assert(!all_digits(body));
    assert forall|w: int|
        !(0 <= w < body.len() && body[w] == '.' && all_digits(#[trigger] body.take(w))
            && all_digits(body.skip(w + 1)) && body.len() > 1) by {
        if 0 <= w < k {
            assert(body.take(k)[w] == body[w]);
        } else if w > k && w < body.len() {
            assert(body.take(w)[k] == body[k]);
        }
    }
}

/// A count held to the `u64` range.
pub open spec fn cap_u64(v: nat) -> u64 {
    if v > u64::MAX {
        u64::MAX
    } else {
        v as u64
    }
}

/// `d * m * 10^t` rounded down, for a whole exponent `t` of either sign.
pub open spec fn shifted(d: nat, m: nat, t: int) -> nat {
    if t >= 0 {
        d * m * pow10(t as nat)
    } else {
        (d * m) / pow10((-t) as nat)
    }
}

proof fn lemma_pow10_add(a: nat, b: nat)
    ensures
        pow10(a + b) == pow10(a) * pow10(b),
    decreases a,
{
    if a > 0 {
        lemma_pow10_add((a - 1) as nat, b);
        assert(pow10(a + b) == 10 * pow10((a - 1 + b) as nat));
        let x = pow10((a - 1) as nat);
        let y = pow10(b);
        assert(10 * (x * y) == (10 * x) * y) by (nonlinear_arith);
    } else {
        assert(pow10(0) == 1);
        assert(a + b == b);
    }
}

proof fn lemma_pow10_mono(a: nat, b: nat)
    requires
        a <= b,
    ensures
        pow10(a) <= pow10(b),
{
    lemma_pow10_add(a, (b - a) as nat);
    lemma_pow10_positive((b - a) as nat);
    lemma_pow10_positive(a);
    let x = pow10(a);
    let y = pow10((b - a) as nat);
    assert(x <= x * y) by (nonlinear_arith)
        requires
            y >= 1,
            x >= 0,
    ;
}

proof fn lemma_pow10_20()
    ensures
        pow10(20) > u64::MAX,
{
    reveal_with_fuel(pow10, 21);
}

/// Digits read as one number: the front part is worth `10^|back|` per unit.
proof fn lemma_digits_concat(x: Seq<char>, y: Seq<char>)
    ensures
        digits_value(x + y) == digits_value(x) * pow10(y.len()) + digits_value(y),
    decreases y.len(),
{
    if y.len() == 0 {
        assert(x + y =~= x);
        assert(pow10(0) == 1);
        assert(digits_value(y) == 0);
    } else {
        let xy = x + y;
        assert(xy.drop_last() =~= x + y.drop_last());
        assert(xy.last() == y.last());
        assert(digits_value(xy) == digits_value(xy.drop_last()) * 10 + digit_value(y.last()));
        assert(digits_value(y) == digits_value(y.drop_last()) * 10 + digit_value(y.last()));
        lemma_digits_concat(x, y.drop_last());
        let a = digits_value(x);
        let p = pow10((y.len() - 1) as nat);
        let b = digits_value(y.drop_last());
        assert(pow10(y.len()) == 10 * p);
        assert((a * p + b) * 10 == a * (10 * p) + b * 10) by (nonlinear_arith);
    }
}

/// The value of the first `q` digits of `g`, held below `2^64`.
fn head_value(g: &Vec<char>, q: usize) -> (r: u128)
    requires
        q <= g@.len(),
        all_digits(g@),
    ensures
        r == (if digits_value(g@.take(q as int)) < 0x1_0000_0000_0000_0000 {
            digits_value(g@.take(q as int))
        } else {
            0x1_0000_0000_0000_0000nat
        }),
{
    let cap: u128 = 0x1_0000_0000_0000_0000;
    let mut acc: u128 = 0;
    let mut i: usize = 0;
    assert(g@.take(0) =~= Seq::<char>::empty());
    while i < q
        invariant
            q <= g@.len(),
            all_digits(g@),
            i <= q,
            cap == 0x1_0000_0000_0000_0000u128,
            acc == (if digits_value(g@.take(i as int)) < cap {
                digits_value(g@.take(i as int))
            } else {
                cap as nat
            }),
        decreases q - i,
    {
        let c = g[i];
        assert(is_digit(g@[i as int]));
        let ghost prev = g@.take(i as int);
        let ghost next = g@.take(i + 1);
        assert(next.drop_last() =~= prev);
        let d = (c as u32 - '0' as u32) as u128;
        if acc >= cap {
            assert(digits_value(next) >= cap) by (nonlinear_arith)
                requires
                    digits_value(next) == digits_value(prev) * 10 + d,
                    digits_value(prev) >= cap,
            ;
        } else {
            let v = acc * 10 + d;
            acc = if v > cap {
                cap
            } else {
                v
            };
        }
        i = i + 1;
    }
    acc
}

/// `floor(value(g[q..]) * m / 10^(|g| - q))`, which is below `m`.
fn tail_scaled(g: &Vec<char>, q: usize, m: u64) -> (r: u64)
    requires
        q <= g@.len(),
        all_digits(g@),
        1 <= m <= 0x4000_0000,
    ensures
        r < m,
        r as nat == (digits_value(g@.skip(q as int)) * (m as nat)) / pow10(
            (g@.len() - q) as nat,
        ),
{
    let n = g.len();
    let mut f: u64 = 0;
    let mut j: usize = n;
    assert(g@.subrange(n as int, n as int) =~= Seq::<char>::empty());
    assert(digits_value(Seq::<char>::empty()) == 0);
    assert(pow10(0) == 1);
    while j > q
        invariant
            n == g@.len(),
            q <= j <= n,
            all_digits(g@),
            1 <= m <= 0x4000_0000,
            f < m,
            f as nat == (digits_value(g@.subrange(j as int, n as int)) * (m as nat)) / pow10(
                (n - j) as nat,
            ),
        decreases j,
    {
        j = j - 1;
        let c = g[j];
        assert(is_digit(g@[j as int]));
        let d = (c as u32 - '0' as u32) as u64;
        let ghost tail = g@.subrange(j + 1, n as int);
        assert(g@.subrange(j as int, n as int) =~= seq![c] + tail);
        proof {
            lemma_fraction_step(c, tail, m as nat);
        }
        assert(m * d <= m * 9) by (nonlinear_arith)
            requires
                d <= 9,
        ;
        f = (m * d + f) / 10;
    }
    assert(g@.subrange(q as int, n as int) =~= g@.skip(q as int));
    f
}

/// `floor(f / 10^j)`.
fn shrink(f: u64, j: u128) -> (r: u64)
    ensures
        r as nat == f as nat / pow10(j as nat),
{
    let mut x: u64 = f;
    let mut k: u128 = 0;
    assert(pow10(0) == 1);
    while k < j && x > 0
        invariant
            k <= j,
            x as nat == f as nat / pow10(k as nat),
        decreases j - k,
    {
        proof {
            lemma_pow10_positive(k as nat);
            lemma_div_denominator(f as int, pow10(k as nat) as int, 10);
            assert(pow10((k + 1) as nat) == 10 * pow10(k as nat));
            assert(pow10(k as nat) * 10 == 10 * pow10(k as nat)) by (nonlinear_arith);
        }
        x = x / 10;
        k = k + 1;
    }
    if k < j {
        proof {
            lemma_pow10_positive(k as nat);
            lemma_pow10_positive((j - k) as nat);
            lemma_pow10_add(k as nat, (j - k) as nat);
            lemma_div_denominator(f as int, pow10(k as nat) as int, pow10((j - k) as nat) as int);
            assert(0nat / pow10((j - k) as nat) == 0);
        }
    }
    x
}

/// `min(x * 10^t, u64::MAX)`.
fn grow_capped(x: u128, t: u128) -> (r: u64)
    requires
        x <= 0x1_0000_0000_0000_0000u128 * 0x4000_0000u128,
    ensures
        r == cap_u64(x as nat * pow10(t as nat)),
{
    let mut y: u128 = x;
    let mut k: u128 = 0;
    assert(pow10(0) == 1);
    while k < t && y > 0 && y <= u64::MAX as u128
        invariant
            k <= t,
            y <= 0x1_0000_0000_0000_0000u128 * 0x4000_0000u128,
            y as nat == x as nat * pow10(k as nat),
        decreases t - k,
    {
        proof {
            assert(pow10((k + 1) as nat) == 10 * pow10(k as nat));
            let p = pow10(k as nat);
            assert(x as nat * (10 * p) == (x as nat * p) * 10) by (nonlinear_arith);
        }
        y = y * 10;
        k = k + 1;
    }
    proof {
        lemma_pow10_add(k as nat, (t - k) as nat);
        lemma_pow10_positive((t - k) as nat);
        let p = pow10(k as nat);
        let q = pow10((t - k) as nat);
        assert(x as nat * (p * q) == (x as nat * p) * q) by (nonlinear_arith);
        if k < t {
            if y == 0 {
                assert(0 * q == 0);
            } else {
                assert(y as nat * q >= y as nat) by (nonlinear_arith)
                    requires
                        q >= 1,
                ;
            }
        }
    }
    if y > u64::MAX as u128 {
        u64::MAX
    } else if k < t {
        0
    } else {
        y as u64
    }
}

/// `value(g) * m * 10^t`, rounded down and held to the `u64` range.
fn scale_digits(g: &Vec<char>, m: u64, t: i128) -> (r: u64)
    requires
        all_digits(g@),
        1 <= m <= 0x4000_0000,
        t > i128::MIN,
    ensures
        r == cap_u64(shifted(digits_value(g@), m as nat, t as int)),
{
    let n = g.len();
    let ghost d = digits_value(g@);
    assert(g@.take(n as int) =~= g@);
    if t >= 0 {
        let h = head_value(g, n);
        assert(h * (m as u128) <= 0x1_0000_0000_0000_0000u128 * 0x4000_0000u128) by (nonlinear_arith)
            requires
                h <= 0x1_0000_0000_0000_0000u128,
                m <= 0x4000_0000,
        ;
        let r = grow_capped(h * (m as u128), t as u128);
        proof {
            let p = pow10(t as nat);
            lemma_pow10_positive(t as nat);
            if d >= 0x1_0000_0000_0000_0000nat {
                assert(h as nat * m as nat * p >= h as nat) by (nonlinear_arith)
                    requires
                        m >= 1,
                        p >= 1,
                ;
                assert(d * m as nat * p >= d) by (nonlinear_arith)
                    requires
                        m >= 1,
                        p >= 1,
                ;
            }
        }
        return r;
    }
    let u: u128 = (-t) as u128;
    if u <= n as u128 {
        let q: usize = n - (u as usize);
        let h = head_value(g, q);
        let f = tail_scaled(g, q, m);
        assert(h * (m as u128) <= 0x1_0000_0000_0000_0000u128 * 0x4000_0000u128) by (nonlinear_arith)
            requires
                h <= 0x1_0000_0000_0000_0000u128,
                m <= 0x4000_0000,
        ;
        let total: u128 = h * (m as u128) + f as u128;
        proof {
            let head = g@.take(q as int);
            let tail = g@.skip(q as int);
            assert(head + tail =~= g@);
            assert(tail.len() == u);
            lemma_digits_concat(head, tail);
            let hv = digits_value(head);
            let tv = digits_value(tail);
            let p = pow10(u as nat);
            lemma_pow10_positive(u as nat);
            let mm = m as nat;
            lemma_hoist_over_denominator((tv * mm) as int, (hv * mm) as int, p);
            assert(d * mm == tv * mm + (hv * mm) * p) by (nonlinear_arith)
                requires
                    d == hv * p + tv,
            ;
            assert(hv * mm >= hv) by (nonlinear_arith)
                requires
                    mm >= 1,
            ;
            if h as nat == 0x1_0000_0000_0000_0000nat {
                assert(h as nat * mm >= h as nat) by (nonlinear_arith)
                    requires
                        mm >= 1,
                ;
            }
        }
        if total > u64::MAX as u128 {
            u64::MAX
        } else {
            total as u64
        }
    } else {
        let f = tail_scaled(g, 0, m);
        assert(g@.skip(0) =~= g@);
        let r = shrink(f, u - n as u128);
        proof {
            let a = pow10(n as nat);
            let b = pow10((u - n) as nat);
            lemma_pow10_positive(n as nat);
            lemma_pow10_positive((u - n) as nat);
            lemma_pow10_add(n as nat, (u - n) as nat);
            assert(n as nat + (u - n) as nat == u as nat);
            lemma_div_denominator((d * m as nat) as int, a as int, b as int);
            assert(r as nat <= u64::MAX);
        }
        r
    }
}

/// The code of a character with ASCII capitals folded to small letters.
pub open spec fn lower_code(c: char) -> u32 {
    let u = c as u32;
    if 0x41 <= u && u <= 0x5a {
        (u + 0x20) as u32
    } else {
        u
    }
}

/// Whether `s` spells `w` (written in small letters) ignoring ASCII case.
pub open spec fn is_word(s: Seq<char>, w: Seq<char>) -> bool {
    s.len() == w.len() && forall|i: int| 0 <= i < s.len() ==> lower_code(#[trigger] s[i]) == w[i] as u32
}

pub open spec fn is_exponent_mark(c: char) -> bool {
    c == 'e' || c == 'E'
}

/// The value of an exponent text: an optional sign and one or more digits.
pub open spec fn exponent_value(t: Seq<char>) -> Option<int> {
    let (negative, d) = signed_body(t);
    if d.len() > 0 && all_digits(d) {
        Some(
            if negative {
                -(digits_value(d) as int)
            } else {
                digits_value(d) as int
            },
        )
    } else {
        None
    }
}

/// Whole digits, fraction digits and exponent of a finite number text: a
/// decimal amount, then optionally `e` or `E` and an exponent.
pub open spec fn float_parts(body: Seq<char>) -> Option<(Seq<char>, Seq<char>, int)> {
    if exists|i: int|
        0 <= i < body.len() && is_exponent_mark(body[i]) && decimal_parts(body.take(i)) is Some
            && exponent_value(body.skip(i + 1)) is Some {
        let i = choose|i: int|
            0 <= i < body.len() && is_exponent_mark(body[i]) && decimal_parts(body.take(i)) is Some
                && exponent_value(body.skip(i + 1)) is Some;
        let p = decimal_parts(body.take(i))->0;
        Some((p.0, p.1, exponent_value(body.skip(i + 1))->0))
    } else {
        match decimal_parts(body) {
            Some(p) => Some((p.0, p.1, 0)),
            None => None,
        }
    }
}

/// The byte count of a number text times `multiplier`, read as Rust reads a
/// floating-point number: an optional sign, then a decimal amount with an
/// optional exponent, or `inf`, `infinity` or `nan` in any case. The exact
/// product is rounded down and held to the `u64` range; infinity gives
/// `u64::MAX` and `nan` gives 0. `None` when the text is not a number or is
/// a negative amount (a negative zero is 0).
pub open spec fn scaled_float(s: Seq<char>, multiplier: nat) -> Option<u64> {
    let (negative, body) = signed_body(s);
    if is_word(body, "nan"@) {
        Some(0u64)
    } else if is_word(body, "inf"@) || is_word(body, "infinity"@) {
        if negative {
            None
        } else {
            Some(u64::MAX)
        }
    } else {
        match float_parts(body) {
            Some(p) => {
                let d = digits_value(p.0 + p.1);
                if negative && d > 0 {
                    None
                } else {
                    Some(cap_u64(shifted(d, multiplier, p.2 - p.1.len())))
                }
            },
            None => None,
        }
    }
}

/// The bound exponents are held to while reading; any larger one gives the
/// same byte count.
pub const EXPONENT_BOUND: i128 = 0x10_0000_0000_0000_0000_0000_0000;

pub open spec fn held_exponent(x: int) -> int {
    if x > EXPONENT_BOUND {
        EXPONENT_BOUND as int
    } else if x < -EXPONENT_BOUND {
        -EXPONENT_BOUND
    } else {
        x
    }
}

proof fn lemma_decimal_has_no_mark(s: Seq<char>)
    requires
        decimal_parts(s) is Some,
    ensures
        forall|k: int| 0 <= k < s.len() ==> !is_exponent_mark(#[trigger] s[k]),
{
    if !all_digits(s) {
        let i = choose|i: int|
            0 <= i < s.len() && s[i] == '.' && all_digits(s.take(i)) && all_digits(s.skip(i + 1))
                && s.len() > 1;
        assert forall|k: int| 0 <= k < s.len() implies !is_exponent_mark(#[trigger] s[k]) by {
            if k < i {
                assert(s.take(i)[k] == s[k]);
            } else if k > i {
                assert(s.skip(i + 1)[k - i - 1] == s[k]);
            }
        }
    }
}

/// Whether `s[start..]` spells `w` ignoring ASCII case.
fn word_from(s: &str, start: usize, w: &str) -> (r: bool)
    requires
        start <= s@.len(),
    ensures
        r == is_word(s@.skip(start as int), w@),
{
    let n = s.unicode_len();
    let k = w.unicode_len();
    if n - start != k {
        return false;
    }
    let mut i: usize = 0;
    while i < k
        invariant
            n == s@.len(),
            k == w@.len(),
            start <= n,
            n - start == k,
            i <= k,
            forall|j: int| 0 <= j < i ==> lower_code(s@[start + j]) == w@[j] as u32,
        decreases k - i,
    {
        let u = s.get_char(start + i) as u32;
        let l = if 0x41 <= u && u <= 0x5a {
            u + 0x20
        } else {
            u
        };
        if l != w.get_char(i) as u32 {
            assert(lower_code(s@.skip(start as int)[i as int]) != w@[i as int] as u32);
            return false;
        }
        i = i + 1;
    }
    assert forall|j: int| 0 <= j < k implies lower_code(#[trigger] s@.skip(start as int)[j])
        == w@[j] as u32 by {
        assert(s@.skip(start as int)[j] == s@[start + j]);
    }
    true
}

/// Splits a decimal amount at its point: `Some((a, b))` when the whole digits
/// are `s[..a]` and the fraction digits `s[b..]`.
fn decimal_split(s: &str) -> (r: Option<(usize, usize)>)
    ensures
        r matches Some(ab) ==> ab.0 <= ab.1 <= s@.len() && decimal_parts(s@) == Some(
            (s@.take(ab.0 as int), s@.skip(ab.1 as int)),
        ),
        r is None ==> decimal_parts(s@) is None,
{
    let n = s.unicode_len();
    let mut i: usize = 0;
    loop
        invariant
            n == s@.len(),
            i <= n,
            all_digits(s@.take(i as int)),
        ensures
            n == s@.len(),
            i <= n,
            all_digits(s@.take(i as int)),
            i < n ==> !is_digit(s@[i as int]),
        decreases n - i,
    {
        if i == n {
            break;
        }
        let c = s.get_char(i);
        if !('0' <= c && c <= '9') {
            break;
        }
        assert(all_digits(s@.take(i + 1))) by {
            assert forall|k: int| 0 <= k < i + 1 implies is_digit(#[trigger] s@.take(i + 1)[k]) by {
                if k < i {
                    assert(s@.take(i + 1)[k] == s@.take(i as int)[k]);
                }
            }
        }
        i = i + 1;
    }
    if i == n {
        assert(s@.take(n as int) =~= s@);
        assert(s@.skip(n as int) =~= Seq::<char>::empty());
        if n == 0 {
            return None;
        }
        return Some((n, n));
    }
    if s.get_char(i) != '.' {
        proof {
            lemma_not_decimal(s@, i as int);
        }
        return None;
    }
    let mut j: usize = i + 1;
    while j < n
        invariant
            n == s@.len(),
            i < n,
            i + 1 <= j <= n,
            s@[i as int] == '.',
            all_digits(s@.take(i as int)),
            forall|t: int| i + 1 <= t < j ==> is_digit(#[trigger] s@[t]),
        decreases n - j,
    {
        let cj = s.get_char(j);
        if !('0' <= cj && cj <= '9') {
            proof {
                assert(s@.skip(i + 1)[j - i - 1] == s@[j as int]);
                lemma_not_decimal(s@, i as int);
            }
            return None;
        }
        j = j + 1;
    }
    if n == 1 {
        proof {
            lemma_not_decimal(s@, i as int);
        }
        return None;
    }
    proof {
        let rest = s@.skip(i + 1);
        assert(all_digits(rest)) by {
            assert forall|t: int| 0 <= t < rest.len() implies is_digit(#[trigger] rest[t]) by {
                assert(rest[t] == s@[i + 1 + t]);
            }
        }
        lemma_decimal_split(s@, i as int);
    }
    Some((i, i + 1))
}

/// Reads an exponent text, holding its value to `EXPONENT_BOUND`.
fn read_exponent(t: &str) -> (r: Option<i128>)
    ensures
        match exponent_value(t@) {
            Some(x) => r == Some(held_exponent(x) as i128),
            None => r is None,
        },
{
    let n = t.unicode_len();
    let mut start: usize = 0;
    let mut negative = false;
    if n > 0 {
        let c0 = t.get_char(0);
        if c0 == '+' || c0 == '-' {
            start = 1;
            negative = c0 == '-';
        }
    }
    let ghost body = signed_body(t@).1;
    assert(body =~= t@.skip(start as int));
    if start == n {
        return None;
    }
    let cap: i128 = EXPONENT_BOUND + 1;
    let mut acc: i128 = 0;
    let mut i: usize = start;
    while i < n
        invariant
            n == t@.len(),
            start <= i <= n,
            body == t@.skip(start as int),
            body == signed_body(t@).1,
            negative == signed_body(t@).0,
            cap == EXPONENT_BOUND + 1,
            all_digits(t@.subrange(start as int, i as int)),
            acc == (if digits_value(t@.subrange(start as int, i as int)) < cap {
                digits_value(t@.subrange(start as int, i as int)) as int
            } else {
                cap as int
            }),
        decreases n - i,
    {
        let c = t.get_char(i);
        if !('0' <= c && c <= '9') {
            assert(!is_digit(body[i - start]));
            assert(!all_digits(body));
            return None;
        }
        let ghost prev = t@.subrange(start as int, i as int);
        let ghost next = t@.subrange(start as int, i + 1);
        assert(next.drop_last() =~= prev);
        assert(all_digits(next)) by {
            assert forall|k: int| 0 <= k < next.len() implies is_digit(#[trigger] next[k]) by {
                if k < prev.len() {
                    assert(next[k] == prev[k]);
                }
            }
        }
        let d = (c as u32 - '0' as u32) as i128;
        if acc >= cap {
            assert(digits_value(next) >= cap) by (nonlinear_arith)
                requires
                    digits_value(next) == digits_value(prev) * 10 + d,
                    digits_value(prev) >= cap,
                    d >= 0,
                    cap >= 0,
            ;
        } else {
            let v = acc * 10 + d;
            acc = if v > cap {
                cap
            } else {
                v
            };
        }
        i = i + 1;
    }
    assert(t@.subrange(start as int, n as int) =~= body);
    let held = if acc > EXPONENT_BOUND {
        EXPONENT_BOUND
    } else {
        acc
    };
    if negative {
        Some(-held)
    } else {
        Some(held)
    }
}

/// Where the first exponent mark of a number text stands decides its parts.
proof fn lemma_float_parts_at(body: Seq<char>, p: int)
    requires
        0 <= p <= body.len(),
        forall|k: int| 0 <= k < p ==> !is_exponent_mark(#[trigger] body[k]),
        p < body.len() ==> is_exponent_mark(body[p]),
    ensures
        p == body.len() ==> float_parts(body) == match decimal_parts(body) {
            Some(q) => Some((q.0, q.1, 0int)),
            None => None,
        },
        p < body.len() ==> float_parts(body) == match decimal_parts(body.take(p)) {
            Some(q) => match exponent_value(body.skip(p + 1)) {
                Some(x) => Some((q.0, q.1, x)),
                None => None,
            },
            None => None,
        },
{
    assert forall|i: int|
        0 <= i < body.len() && is_exponent_mark(body[i]) && decimal_parts(body.take(i)) is Some
            implies i == p by {
        if i > p {
            lemma_decimal_has_no_mark(body.take(i));
            assert(body.take(i)[p] == body[p]);
        }
    }
    if p < body.len() {
        if decimal_parts(body) is Some {
            lemma_decimal_has_no_mark(body);
        }
    }
}

/// With at most `2^64` digits, an exponent beyond `EXPONENT_BOUND` either
/// way gives the same byte count as the bound itself.
proof fn lemma_held_exponent(d: nat, m: nat, e: int, fl: nat, len: nat)
    requires
        d < pow10(len),
        len <= u64::MAX,
        fl <= len,
        1 <= m <= 0x4000_0000,
    ensures
        cap_u64(shifted(d, m, e - fl)) == cap_u64(shifted(d, m, held_exponent(e) - fl)),
{
    let b = EXPONENT_BOUND as int;
    if e > b {
        let t1 = e - fl;
        let t2 = b - fl;
        if d == 0 {
            let p1 = pow10(t1 as nat);
            let p2 = pow10(t2 as nat);
            assert(d * m * p1 == 0 && d * m * p2 == 0) by (nonlinear_arith)
                requires
                    d == 0,
            ;
        } else {
            lemma_pow10_20();
            lemma_pow10_mono(20, t1 as nat);
            lemma_pow10_mono(20, t2 as nat);
            let p1 = pow10(t1 as nat);
            let p2 = pow10(t2 as nat);
            assert(d * m * p1 >= p1) by (nonlinear_arith)
                requires
                    d >= 1,
                    m >= 1,
            ;
            assert(d * m * p2 >= p2) by (nonlinear_arith)
                requires
                    d >= 1,
                    m >= 1,
            ;
        }
    } else if e < -b {
        let u1 = (fl - e) as nat;
        let u2 = (fl + b) as nat;
        reveal_with_fuel(pow10, 11);
        assert(pow10(10) == 10000000000);
        lemma_pow10_add(len, 10);
        lemma_pow10_mono(len + 10, u1);
        lemma_pow10_mono(len + 10, u2);
        let pl = pow10(len);
        assert(d * m < pl * pow10(10)) by (nonlinear_arith)
            requires
                d < pl,
                m <= 0x4000_0000,
                pow10(10) == 10000000000,
        ;
        lemma_basic_div((d * m) as int, pow10(u1) as int);
        lemma_basic_div((d * m) as int, pow10(u2) as int);
    }
}

/// Reads a number text as Rust reads a floating-point number and scales it
/// by `multiplier`: see `scaled_float`.
pub fn parse_scaled_float(s: &str, multiplier: u64) -> (r: Option<u64>)
    requires
        1 <= multiplier <= 0x4000_0000,
    ensures
        r == scaled_float(s@, multiplier as nat),
{
    let n = s.unicode_len();
    let mut start: usize = 0;
    let mut negative = false;
    if n > 0 {
        let c0 = s.get_char(0);
        if c0 == '+' || c0 == '-' {
            start = 1;
            negative = c0 == '-';
        }
    }
    let ghost body = signed_body(s@).1;
    assert(body =~= s@.skip(start as int));
    proof {
        reveal_strlit("nan");
        reveal_strlit("inf");
        reveal_strlit("infinity");
    }
    if word_from(s, start, "nan") {
        return Some(0);
    }
    if word_from(s, start, "inf") || word_from(s, start, "infinity") {
        return if negative {
            None
        } else {
            Some(u64::MAX)
        };
    }
    let b = s.substring_char(start, n);
    assert(b@ =~= body);
    let bl = b.unicode_len();
    let mut p: usize = 0;
    loop
        invariant
            bl == b@.len(),
            p <= bl,
            forall|k: int| 0 <= k < p ==> !is_exponent_mark(#[trigger] b@[k]),
        ensures
            p <= bl,
            forall|k: int| 0 <= k < p ==> !is_exponent_mark(#[trigger] b@[k]),
            p < bl ==> is_exponent_mark(b@[p as int]),
        decreases bl - p,
    {
        if p == bl {
            break;
        }
        let c = b.get_char(p);
        if c == 'e' || c == 'E' {
            break;
        }
        p = p + 1;
    }
    proof {
        lemma_float_parts_at(body, p as int);
    }
    let mant = b.substring_char(0, p);
    assert(p == bl ==> mant@ =~= body);
    let mut e: i128 = 0;
    let ghost exact_e: int = 0;
    if p < bl {
        let et = b.substring_char(p + 1, bl);
        assert(et@ =~= body.skip(p + 1));
        match read_exponent(et) {
            Some(x) => {
                e = x;
                proof {
                    exact_e = exponent_value(et@)->0;
                }
            },
            None => {
                return None;
            },
        }
    }
    scale_mantissa(mant, e, Ghost(exact_e), negative, multiplier)
}

/// The byte count of decimal amount `mant` times `10^exact_e` and `multiplier`,
/// `e` being `exact_e` held to the bound; `None` for a negative nonzero amount.
fn scale_mantissa(
    mant: &str,
    e: i128,
    exact_e: Ghost<int>,
    negative: bool,
    multiplier: u64,
) -> (r: Option<u64>)
    requires
        1 <= multiplier <= 0x4000_0000,
        e == held_exponent(exact_e@),
    ensures
        match decimal_parts(mant@) {
            Some(q) => {
                let d = digits_value(q.0 + q.1);
                if negative && d > 0 {
                    r is None
                } else {
                    r == Some(cap_u64(shifted(d, multiplier as nat, exact_e@ - q.1.len())))
                }
            },
            None => r is None,
        },
{
    let p = mant.unicode_len();
    match decimal_split(mant) {
        None => None,
        Some(ab) => {
            let (a, c) = ab;
            let mut g: Vec<char> = Vec::new();
            let mut i: usize = 0;
            while i < a
                invariant
                    i <= a <= c <= p,
                    mant@.len() == p,
                    g@ == mant@.take(i as int),
                decreases a - i,
            {
                g.push(mant.get_char(i));
                i = i + 1;
                assert(g@ =~= mant@.take(i as int));
            }
            let mut j: usize = c;
            while j < p
                invariant
                    a <= c <= j <= p,
                    mant@.len() == p,
                    g@ == mant@.take(a as int) + mant@.subrange(c as int, j as int),
                decreases p - j,
            {
                g.push(mant.get_char(j));
                j = j + 1;
                assert(g@ =~= mant@.take(a as int) + mant@.subrange(c as int, j as int));
            }
            let ghost whole = mant@.take(a as int);
            let ghost frac = mant@.skip(c as int);
            assert(mant@.subrange(c as int, p as int) =~= frac);
            assert(g@ == whole + frac);
            assert(decimal_parts(mant@) == Some((whole, frac)));
            proof {
                lemma_decimal_split_digits(mant@);
            }
            assert(all_digits(g@)) by {
                assert forall|k: int| 0 <= k < g@.len() implies is_digit(#[trigger] g@[k]) by {
                    if k < whole.len() {
                        assert(g@[k] == whole[k]);
                    } else {
                        assert(g@[k] == frac[k - whole.len()]);
                    }
                }
            }
            let gl = g.len();
            assert(g@.take(gl as int) =~= g@);
            let h = head_value(&g, gl);
            if negative && h > 0 {
                return None;
            }
            let fl = p - c;
            let t: i128 = e - fl as i128;
            let r = scale_digits(&g, multiplier, t);
            proof {
                lemma_digits_bound(g@);
                lemma_held_exponent(
                    digits_value(g@),
                    multiplier as nat,
                    exact_e@,
                    fl as nat,
                    gl as nat,
                );
            }
            Some(r)
        },
    }
}

proof fn lemma_decimal_split_digits(s: Seq<char>)
    requires
        decimal_parts(s) is Some,
    ensures
        all_digits((decimal_parts(s)->0).0),
        all_digits((decimal_parts(s)->0).1),
{
    if !all_digits(s) {
        let i = choose|i: int|
            0 <= i < s.len() && s[i] == '.' && all_digits(s.take(i)) && all_digits(s.skip(i + 1))
                && s.len() > 1;
    } else {
        assert(all_digits(Seq::<char>::empty()));
    }
}

fn digit_text(d: u64) -> (r: &'static str)
    requires
        d < 10,
    ensures
        r@ == seq![digit_char(d as nat)],
{
    proof {
        reveal_strlit("0");
        reveal_strlit("1");
        reveal_strlit("2");
        reveal_strlit("3");
        reveal_strlit("4");
        reveal_strlit("5");
        reveal_strlit("6");
        reveal_strlit("7");
        reveal_strlit("8");
        reveal_strlit("9");
    }
    let r = match d {
        0 => "0",
        1 => "1",
        2 => "2",
        3 => "3",
        4 => "4",
        5 => "5",
        6 => "6",
        7 => "7",
        8 => "8",
        _ => "9",
    };
    assert(r@ =~= seq![digit_char(d as nat)]);
    r
}

/// The decimal digits of `n`, most significant first, with no sign and no
/// leading zeros.
pub fn decimal_text(n: u64) -> (r: String)
    ensures
        r@ == decimal_digits(n as nat),
    decreases n,
{
    if n < 10 {
        String::from_str(digit_text(n))
    } else {
        decimal_text(n / 10).concat(digit_text(n % 10))
    }
}

/// The maximal runs of characters other than white space, in order.
pub open spec fn words(s: Seq<char>) -> Seq<Seq<char>>
    decreases s.len(),
{
    if s.len() == 0 {
        Seq::empty()
    } else {
        let w = words(s.drop_last());
        let c = s.last();
        if is_white_space(c) {
            w
        } else if s.len() > 1 && !is_white_space(s[s.len() - 2]) {
            w.update(w.len() - 1, w.last().push(c))
        } else {
            w.push(seq![c])
        }
    }
}

/// Relies on `str::split_whitespace`: the sub-slices of `s` separated by
/// any amount of Unicode `White_Space`, in order, none empty.
#[verifier::external_body]
pub(crate) fn split_words(s: &str) -> (r: Vec<String>)
    ensures
        r@.map_values(|w: String| w@) == words(s@),
{
    s.split_whitespace().map(|w| w.to_string()).collect()
}

} // verus!
