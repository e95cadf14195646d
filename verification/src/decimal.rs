//! Exact arithmetic on decimal numerals: `1 - x` of a numeral `x`, written
//! out in full, with as many decimals as `x` has.

use vstd::prelude::*;
use crate::ddl_parser::{digits_value, is_digit};
use crate::schema::decimal_digits;
use crate::bm25::push_char;

verus! {

/// Ten to the power `n`.
pub open spec fn pow10(n: nat) -> nat
    decreases n,
{
    if n == 0 { 1 } else { 10 * pow10((n - 1) as nat) }
}

/// Whether every character of `d` is a decimal digit.
pub open spec fn all_digits(d: Seq<char>) -> bool {
    forall|i: int| 0 <= i < d.len() ==> is_digit(#[trigger] d[i])
}

/// The digit character of `k` (below ten).
pub open spec fn digit_char(k: nat) -> char {
    (('0' as nat) + k) as char
}

/// The `f` last decimal digits of `n`, with leading zeros.
pub open spec fn padded(n: nat, f: nat) -> Seq<char>
    decreases f,
{
    if f == 0 { Seq::empty() } else { padded(n / 10, (f - 1) as nat).push(digit_char(n % 10)) }
}

/// The numeral of `r / 10^f`: a minus sign for a negative number, the
/// integer part without leading zeros, and where `f > 0` a point and `f`
/// decimals.
pub open spec fn decimal_text(r: int, f: nat) -> Seq<char> {
    let a: nat = if r < 0 { (-r) as nat } else { r as nat };
    let sign: Seq<char> = if r < 0 { "-"@ } else { Seq::empty() };
    if f == 0 {
        sign + decimal_digits(a / pow10(f))
    } else {
        sign + decimal_digits(a / pow10(f)) + "."@ + padded(a % pow10(f), f)
    }
}

/// The numeral of `1 - x`, where `x` is the numeral with sign `neg`,
/// integer digits `int_digits` and decimals `frac`.
pub open spec fn complement_text(neg: bool, int_digits: Seq<char>, frac: Seq<char>) -> Seq<char> {
    let n = digits_value(int_digits + frac) as int;
    decimal_text(pow10(frac.len()) - (if neg { -n } else { n }), frac.len())
}

pub proof fn lemma_pow10_positive(n: nat)
    ensures
        pow10(n) >= 1,
    decreases n,
{
    if n > 0 {
        lemma_pow10_positive((n - 1) as nat);
    }
}

pub proof fn lemma_pow10_add(a: nat, b: nat)
    ensures
        pow10(a + b) == pow10(a) * pow10(b),
    decreases b,
{
    if b > 0 {
        let b1 = (b - 1) as nat;
        lemma_pow10_add(a, b1);
        let pa = pow10(a);
        let pb1 = pow10(b1);
        assert((a + b - 1) as nat == a + b1);
        assert(pow10(a + b) == 10 * pow10(a + b1));
        assert(pow10(b) == 10 * pb1);
        assert(pa * (10 * pb1) == 10 * (pa * pb1)) by (nonlinear_arith);
        assert(pow10(a + b) == pa * pow10(b));
    } else {
        assert(a + b == a);
        assert(pow10(b) == 1);
        assert(pow10(a + b) == pow10(a) * pow10(b));
    }
}

/// The value of digits written after others.
pub proof fn lemma_value_append(a: Seq<char>, b: Seq<char>)
    ensures
        digits_value(a + b) == digits_value(a) * pow10(b.len()) + digits_value(b),
    decreases b.len(),
{
    if b.len() == 0 {
        assert(a + b =~= a);
        assert(pow10(0) == 1);
        assert(digits_value(b) == 0);
        assert(digits_value(a) * 1 == digits_value(a));
    } else {
        let b1 = b.drop_last();
        lemma_value_append(a, b1);
        assert((a + b).drop_last() =~= a + b1);
        assert((a + b).last() == b.last());
        let va = digits_value(a);
        let p1 = pow10(b1.len());
        let vb1 = digits_value(b1);
        let x = (b.last() as u32 - '0' as u32) as nat;
        assert(digits_value(a + b) == digits_value(a + b1) * 10 + x);
        assert(digits_value(b) == vb1 * 10 + x);
        assert((b.len() - 1) as nat == b1.len());
        assert(pow10(b.len()) == 10 * p1);
        assert(digits_value(a + b1) == va * p1 + vb1);
        assert((va * p1 + vb1) * 10 + x == va * (10 * p1) + (vb1 * 10 + x)) by (nonlinear_arith);
        assert(digits_value(a + b) == va * pow10(b.len()) + digits_value(b));
    }
}

/// Digits write a number below ten to the power of their count.
pub proof fn lemma_value_bound(d: Seq<char>)
    requires
        all_digits(d),
    ensures
        digits_value(d) < pow10(d.len()),
    decreases d.len(),
{
    if d.len() > 0 {
        let d1 = d.drop_last();
        assert(all_digits(d1)) by {
            assert forall|i: int| 0 <= i < d1.len() implies is_digit(#[trigger] d1[i]) by {
                assert(d1[i] == d[i]);
            }
        }
        lemma_value_bound(d1);
        assert(is_digit(d[d.len() - 1]));
        let v1 = digits_value(d1);
        let p1 = pow10(d1.len());
        let x = (d.last() as u32 - '0' as u32) as nat;
        assert(x <= 9);
        assert(v1 * 10 + x < 10 * p1) by (nonlinear_arith)
            requires
                v1 < p1,
                x <= 9,
        ;
    }
}

/// The digits of a number, padded to their own count, are the digits.
pub proof fn lemma_padded_value(d: Seq<char>)
    requires
        all_digits(d),
    ensures
        padded(digits_value(d), d.len()) == d,
    decreases d.len(),
{
    if d.len() > 0 {
        let d1 = d.drop_last();
        assert(all_digits(d1)) by {
            assert forall|i: int| 0 <= i < d1.len() implies is_digit(#[trigger] d1[i]) by {
                assert(d1[i] == d[i]);
            }
        }
        lemma_padded_value(d1);
        assert(is_digit(d[d.len() - 1]));
        let x = (d.last() as u32 - '0' as u32) as nat;
        let v = digits_value(d);
        vstd::arithmetic::div_mod::lemma_fundamental_div_mod_converse(v as int, 10, digits_value(d1) as int, x as int);
        assert(digit_char(x) == d.last());
        assert(d1.push(d.last()) =~= d);
    }
}

/// Digits with no leading zero (or a single digit) are the decimal
/// digits of their number.
pub proof fn lemma_canonical(d: Seq<char>)
    requires
        all_digits(d),
        d.len() >= 1,
        d.len() == 1 || d[0] != '0',
    ensures
        decimal_digits(digits_value(d)) == d,
    decreases d.len(),
{
    let d1 = d.drop_last();
    let x = (d.last() as u32 - '0' as u32) as nat;
    assert(is_digit(d[d.len() - 1]));
    assert(digits_value(d) == digits_value(d1) * 10 + x);
    if d.len() == 1 {
        assert(d1.len() == 0);
        assert(digits_value(d) == x);
        assert(decimal_digits(x) == seq![digit_char(x)]);
        assert(seq![digit_char(x)] =~= d);
    } else {
        assert(all_digits(d1)) by {
            assert forall|i: int| 0 <= i < d1.len() implies is_digit(#[trigger] d1[i]) by {
                assert(d1[i] == d[i]);
            }
        }
        assert(d1[0] == d[0]);
        lemma_canonical(d1);
        // the first digit is not zero, so d1 writes at least 1
        let first = d1.subrange(0, 1);
        let rest = d1.subrange(1, d1.len() as int);
        assert(first + rest =~= d1);
        lemma_value_append(first, rest);
        lemma_pow10_positive(rest.len());
        assert(first.drop_last() =~= Seq::<char>::empty());
        assert(is_digit(d[0]));
        assert(digits_value(first) >= 1);
        let vf = digits_value(first);
        let pr = pow10(rest.len());
        assert(vf * pr >= 1) by (nonlinear_arith)
            requires
                vf >= 1,
                pr >= 1,
        ;
        let v = digits_value(d);
        vstd::arithmetic::div_mod::lemma_fundamental_div_mod_converse(v as int, 10, digits_value(d1) as int, x as int);
        assert(v >= 10);
        assert(digit_char(x) == d.last());
        assert(d1.push(d.last()) =~= d);
    }
}

/// `d` without its leading zeros, keeping at least one digit.
pub open spec fn strip(d: Seq<char>) -> Seq<char>
    decreases d.len(),
{
    if d.len() > 1 && d[0] == '0' { strip(d.drop_first()) } else { d }
}

/// Stripping leading zeros keeps the number and gives its decimal digits.
pub proof fn lemma_strip(d: Seq<char>)
    requires
        all_digits(d),
        d.len() >= 1,
    ensures
        digits_value(strip(d)) == digits_value(d),
        decimal_digits(digits_value(d)) == strip(d),
        all_digits(strip(d)),
    decreases d.len(),
{
    if d.len() > 1 && d[0] == '0' {
        let r = d.drop_first();
        assert(all_digits(r)) by {
            assert forall|i: int| 0 <= i < r.len() implies is_digit(#[trigger] r[i]) by {
                assert(r[i] == d[i + 1]);
            }
        }
        lemma_strip(r);
        let z = d.subrange(0, 1);
        assert(z + r =~= d);
        lemma_value_append(z, r);
        assert(z.drop_last() =~= Seq::<char>::empty());
        assert(z.last() == '0');
        assert(digits_value(z.drop_last()) == 0);
        assert(digits_value(z) == 0);
        assert(digits_value(d) == digits_value(r));
        assert(strip(d) == strip(r));
    } else {
        lemma_canonical(d);
    }
}

/// `m` zeros.
pub open spec fn zeros(m: nat) -> Seq<char> {
    Seq::new(m, |i: int| '0')
}

/// `m` nines.
pub open spec fn nines(m: nat) -> Seq<char> {
    Seq::new(m, |i: int| '9')
}

/// Each digit `x` of `a` replaced by `9 - x`.
pub open spec fn nine_complement(a: Seq<char>) -> Seq<char> {
    Seq::new(a.len(), |i: int| (105 - (a[i] as u32)) as char)
}

pub proof fn lemma_value_zeros(m: nat)
    ensures
        digits_value(zeros(m)) == 0,
        all_digits(zeros(m)),
    decreases m,
{
    if m > 0 {
        lemma_value_zeros((m - 1) as nat);
        assert(zeros(m).drop_last() =~= zeros((m - 1) as nat));
    }
}

pub proof fn lemma_value_nines(m: nat)
    ensures
        digits_value(nines(m)) + 1 == pow10(m),
        all_digits(nines(m)),
    decreases m,
{
    if m > 0 {
        lemma_value_nines((m - 1) as nat);
        assert(nines(m).drop_last() =~= nines((m - 1) as nat));
        assert(nines(m).last() == '9');
        assert(pow10(m) == 10 * pow10((m - 1) as nat));
    } else {
        assert(pow10(0) == 1);
    }
}

pub proof fn lemma_value_nine_complement(a: Seq<char>)
    requires
        all_digits(a),
    ensures
        digits_value(nine_complement(a)) + digits_value(a) + 1 == pow10(a.len()),
        all_digits(nine_complement(a)),
        nine_complement(a).len() == a.len(),
    decreases a.len(),
{
    if a.len() > 0 {
        let a1 = a.drop_last();
        assert(all_digits(a1)) by {
            assert forall|i: int| 0 <= i < a1.len() implies is_digit(#[trigger] a1[i]) by {
                assert(a1[i] == a[i]);
            }
        }
        lemma_value_nine_complement(a1);
        assert(nine_complement(a).drop_last() =~= nine_complement(a1));
        assert(is_digit(a[a.len() - 1]));
        assert(pow10(a.len()) == 10 * pow10(a1.len()));
    } else {
        assert(pow10(0) == 1);
    }
    assert(all_digits(nine_complement(a))) by {
        assert forall|i: int| 0 <= i < a.len() implies is_digit(#[trigger] nine_complement(a)[i]) by {
            assert(is_digit(a[i]));
        }
    }
}

/// Digits are all zeros exactly when they write zero.
pub proof fn lemma_value_zero(d: Seq<char>)
    requires
        all_digits(d),
    ensures
        digits_value(d) == 0 <==> forall|j: int| 0 <= j < d.len() ==> #[trigger] d[j] == '0',
    decreases d.len(),
{
    if d.len() > 0 {
        let d1 = d.drop_last();
        assert(all_digits(d1)) by {
            assert forall|i: int| 0 <= i < d1.len() implies is_digit(#[trigger] d1[i]) by {
                assert(d1[i] == d[i]);
            }
        }
        lemma_value_zero(d1);
        assert(is_digit(d[d.len() - 1]));
        if digits_value(d) == 0 {
            assert forall|j: int| 0 <= j < d.len() implies #[trigger] d[j] == '0' by {
                if j < d.len() - 1 {
                    assert(d1[j] == d[j]);
                }
            }
        }
        if forall|j: int| 0 <= j < d.len() ==> #[trigger] d[j] == '0' {
            assert forall|j: int| 0 <= j < d1.len() implies #[trigger] d1[j] == '0' by {
                assert(d1[j] == d[j]);
            }
            assert(d[d.len() - 1] == '0');
        }
    }
}

/// Splits `d` at `k`: the value of the prefix and the rest.
pub proof fn lemma_split(d: Seq<char>, k: int)
    requires
        0 <= k <= d.len(),
    ensures
        digits_value(d) == digits_value(d.subrange(0, k)) * pow10((d.len() - k) as nat)
            + digits_value(d.subrange(k, d.len() as int)),
{
    assert(d.subrange(0, k) + d.subrange(k, d.len() as int) =~= d);
    lemma_value_append(d.subrange(0, k), d.subrange(k, d.len() as int));
}

/// The digits of a number write it.
pub proof fn lemma_decimal_digits_value(n: nat)
    ensures
        digits_value(decimal_digits(n)) == n,
        all_digits(decimal_digits(n)),
        decimal_digits(n).len() >= 1,
    decreases n,
{
    let d = decimal_digits(n);
    if n < 10 {
        assert(d.drop_last() =~= Seq::<char>::empty());
        assert(digits_value(d.drop_last()) == 0);
        assert(d.last() == digit_char(n));
        assert(d.last() as u32 == '0' as u32 + n);
        assert(digits_value(d) == digits_value(d.drop_last()) * 10 + (d.last() as u32 - '0' as u32) as nat);
    } else {
        lemma_decimal_digits_value(n / 10);
        let d1 = decimal_digits(n / 10);
        assert(d.drop_last() =~= d1);
        assert(d.last() == digit_char(n % 10));
        assert(n == (n / 10) * 10 + n % 10);
        assert forall|i: int| 0 <= i < d.len() implies is_digit(#[trigger] d[i]) by {
            if i < d.len() - 1 {
                assert(d[i] == d1[i]);
            }
        }
    }
}

/// Padded digits write the number they pad, below ten to the power of
/// their count.
pub proof fn lemma_padded_digits(n: nat, f: nat)
    requires
        n < pow10(f),
    ensures
        digits_value(padded(n, f)) == n,
        all_digits(padded(n, f)),
        padded(n, f).len() == f,
    decreases f,
{
    if f > 0 {
        let f1 = (f - 1) as nat;
        assert(pow10(f) == 10 * pow10(f1));
        assert(n / 10 < pow10(f1)) by (nonlinear_arith)
            requires
                n < 10 * pow10(f1),
        ;
        lemma_padded_digits(n / 10, f1);
        let d = padded(n, f);
        let d1 = padded(n / 10, f1);
        assert(d.drop_last() =~= d1);
        assert(n == (n / 10) * 10 + n % 10);
        assert forall|i: int| 0 <= i < d.len() implies is_digit(#[trigger] d[i]) by {
            if i < d.len() - 1 {
                assert(d[i] == d1[i]);
            }
        }
    } else {
        assert(pow10(0) == 1);
    }
}

/// Over a run of digits from `i` to `j` followed by the end or by another
/// character, the digits end at `j`.
pub proof fn lemma_digits_run(s: Seq<char>, i: int, j: int)
    requires
        0 <= i <= j <= s.len(),
        forall|k: int| i <= k < j ==> is_digit(#[trigger] s[k]),
        j == s.len() || !is_digit(s[j]),
    ensures
        crate::ddl_parser::digits_end(s, i) == j,
    decreases j - i,
{
    if i < j {
        lemma_digits_run(s, i + 1, j);
    }
}

// ------------------------------------------------------------ execution

fn copy_prefix(d: &Vec<char>, k: usize) -> (r: Vec<char>)
    requires
        k <= d.len(),
    ensures
        r@ == d@.subrange(0, k as int),
{
    let mut r: Vec<char> = Vec::new();
    let mut i: usize = 0;
    while i < k
        invariant
            i <= k <= d.len(),
            r@ == d@.subrange(0, i as int),
        decreases k - i,
    {
        r.push(d[i]);
        proof {
            assert(d@.subrange(0, i + 1) =~= d@.subrange(0, i as int).push(d@[i as int]));
        }
        i = i + 1;
    }
    r
}

fn push_repeat(v: &mut Vec<char>, c: char, m: usize)
    ensures
        final(v)@ == old(v)@ + Seq::new(m as nat, |i: int| c),
{
    let ghost start = v@;
    let mut i: usize = 0;
    while i < m
        invariant
            i <= m,
            v@ == start + Seq::new(i as nat, |j: int| c),
        decreases m - i,
    {
        v.push(c);
        proof {
            assert(start + Seq::new((i + 1) as nat, |j: int| c) =~= (start + Seq::new(i as nat, |j: int| c)).push(c));
        }
        i = i + 1;
    }
}

fn all_zero(d: &Vec<char>) -> (b: bool)
    ensures
        b <==> forall|j: int| 0 <= j < d@.len() ==> #[trigger] d@[j] == '0',
{
    let mut i: usize = 0;
    while i < d.len()
        invariant
            i <= d@.len(),
            forall|j: int| 0 <= j < i ==> #[trigger] d@[j] == '0',
        decreases d@.len() - i,
    {
        if d[i] != '0' {
            return false;
        }
        i = i + 1;
    }
    true
}

/// The digits of `d + 1`.
fn increment(d: &Vec<char>) -> (r: Vec<char>)
    requires
        all_digits(d@),
    ensures
        all_digits(r@),
        r@.len() >= 1,
        digits_value(r@) == digits_value(d@) + 1,
{
    let n = d.len();
    let mut k = n;
    while k > 0 && d[k - 1] == '9'
        invariant
            k <= n == d@.len(),
            forall|j: int| k <= j < n ==> #[trigger] d@[j] == '9',
        decreases k,
    {
        k = k - 1;
    }
    let m = n - k;
    proof {
        assert(d@.subrange(k as int, n as int) =~= nines(m as nat));
        lemma_value_nines(m as nat);
        lemma_value_zeros(m as nat);
        lemma_split(d@, k as int);
    }
    if k == 0 {
        let mut r: Vec<char> = Vec::new();
        r.push('1');
        push_repeat(&mut r, '0', n);
        proof {
            assert(r@ =~= seq!['1'] + zeros(n as nat));
            lemma_value_append(seq!['1'], zeros(n as nat));
            let one = seq!['1'];
            assert(one.len() == 1);
            assert(one.drop_last() =~= Seq::<char>::empty());
            assert(digits_value(one.drop_last()) == 0);
            assert(one.last() == '1');
            assert(('1' as u32 - '0' as u32) == 1);
            assert(digits_value(one) == 1);
            assert(d@.subrange(0, 0) =~= Seq::<char>::empty());
            assert(digits_value(d@.subrange(0, 0)) == 0);
            assert(digits_value(zeros(n as nat)) == 0);
            assert(zeros(n as nat).len() == n);
            assert(digits_value(seq!['1'] + zeros(n as nat)) == digits_value(one) * pow10(n as nat) + digits_value(zeros(n as nat)));
            assert(digits_value(r@) == pow10(n as nat));
            assert(d@.subrange(0, n as int) =~= nines(n as nat));
            assert(digits_value(nines(n as nat)) + 1 == pow10(n as nat));
            let z = digits_value(d@.subrange(0, 0));
            let pn = pow10(n as nat);
            assert(z * pn == 0) by (nonlinear_arith)
                requires
                    z == 0,
            ;
            assert(digits_value(d@) + 1 == pow10(n as nat));
            assert(all_digits(r@)) by {
                assert forall|i: int| 0 <= i < r@.len() implies is_digit(#[trigger] r@[i]) by {
                    if i > 0 {
                        assert(r@[i] == zeros(n as nat)[i - 1]);
                    }
                }
            }
        }
        r
    } else {
        let x = d[k - 1];
        proof {
            assert(is_digit(d@[k - 1]));
        }
        let y = ((x as u32) + 1) as u8 as char;
        let mut r = copy_prefix(d, k - 1);
        r.push(y);
        push_repeat(&mut r, '0', m);
        proof {
            let pre = d@.subrange(0, k - 1);
            assert(r@ =~= pre.push(y) + zeros(m as nat));
            assert(d@.subrange(0, k as int) =~= pre.push(x));
            lemma_value_append(pre.push(y), zeros(m as nat));
            assert(pre.push(y).drop_last() =~= pre);
            assert(pre.push(x).drop_last() =~= pre);
            let vp = digits_value(pre);
            let pm = pow10(m as nat);
            let xv = (x as u32 - '0' as u32) as nat;
            assert(digits_value(pre.push(y)) == vp * 10 + xv + 1);
            assert(digits_value(pre.push(x)) == vp * 10 + xv);
            assert((vp * 10 + xv + 1) * pm == (vp * 10 + xv) * pm + pm) by (nonlinear_arith);
            assert(all_digits(r@)) by {
                assert forall|i: int| 0 <= i < r@.len() implies is_digit(#[trigger] r@[i]) by {
                    if i < k - 1 {
                        assert(r@[i] == d@[i]);
                    } else if i >= k {
                        assert(r@[i] == zeros(m as nat)[i - k]);
                    }
                }
            }
        }
        r
    }
}

/// The digits of `d - 1`, for `d` of at least 1.
fn decrement(d: &Vec<char>) -> (r: Vec<char>)
    requires
        all_digits(d@),
        digits_value(d@) >= 1,
    ensures
        all_digits(r@),
        r@.len() == d@.len(),
        digits_value(r@) + 1 == digits_value(d@),
{
    let n = d.len();
    let mut k = n;
    while k > 0 && d[k - 1] == '0'
        invariant
            k <= n == d@.len(),
            forall|j: int| k <= j < n ==> #[trigger] d@[j] == '0',
        decreases k,
    {
        k = k - 1;
    }
    let m = n - k;
    proof {
        assert(d@.subrange(k as int, n as int) =~= zeros(m as nat));
        lemma_value_nines(m as nat);
        lemma_value_zeros(m as nat);
        lemma_split(d@, k as int);
        if k == 0 {
            lemma_value_zero(d@);
            assert(false);
        }
    }
    let x = d[k - 1];
    proof {
        assert(is_digit(d@[k - 1]));
    }
    let y = ((x as u32) - 1) as u8 as char;
    let mut r = copy_prefix(d, k - 1);
    r.push(y);
    push_repeat(&mut r, '9', m);
    proof {
        let pre = d@.subrange(0, k - 1);
        assert(r@ =~= pre.push(y) + nines(m as nat));
        assert(d@.subrange(0, k as int) =~= pre.push(x));
        lemma_value_append(pre.push(y), nines(m as nat));
        assert(pre.push(y).drop_last() =~= pre);
        assert(pre.push(x).drop_last() =~= pre);
        let vp = digits_value(pre);
        let pm = pow10(m as nat);
        let xv = (x as u32 - '0' as u32) as nat;
        assert(xv >= 1);
        assert(digits_value(pre.push(y)) == vp * 10 + xv - 1);
        assert(digits_value(pre.push(x)) == vp * 10 + xv);
        assert((vp * 10 + xv - 1) * pm + pm == (vp * 10 + xv) * pm) by (nonlinear_arith)
            requires
                xv >= 1,
        ;
        assert(all_digits(r@)) by {
            assert forall|i: int| 0 <= i < r@.len() implies is_digit(#[trigger] r@[i]) by {
                if i < k - 1 {
                    assert(r@[i] == d@[i]);
                } else if i >= k {
                    assert(r@[i] == nines(m as nat)[i - k]);
                }
            }
        }
    }
    r
}

/// The `f` digits of `10^f - v(d)`, for `d` of `f` digits that write more
/// than zero.
fn ten_complement(d: &Vec<char>) -> (r: Vec<char>)
    requires
        all_digits(d@),
        digits_value(d@) >= 1,
    ensures
        all_digits(r@),
        r@.len() == d@.len(),
        digits_value(r@) + digits_value(d@) == pow10(d@.len()),
{
    let n = d.len();
    let mut k = n;
    while k > 0 && d[k - 1] == '0'
        invariant
            k <= n == d@.len(),
            forall|j: int| k <= j < n ==> #[trigger] d@[j] == '0',
        decreases k,
    {
        k = k - 1;
    }
    let m = n - k;
    proof {
        assert(d@.subrange(k as int, n as int) =~= zeros(m as nat));
        lemma_value_zeros(m as nat);
        lemma_split(d@, k as int);
        if k == 0 {
            lemma_value_zero(d@);
            assert(false);
        }
    }
    let x = d[k - 1];
    proof {
        assert(is_digit(d@[k - 1]));
    }
    let mut r: Vec<char> = Vec::new();
    let mut i: usize = 0;
    while i < k - 1
        invariant
            i <= k - 1,
            k <= n == d@.len(),
            all_digits(d@),
            r@ == nine_complement(d@.subrange(0, i as int)),
        decreases k - 1 - i,
    {
        proof {
            assert(is_digit(d@[i as int]));
        }
        let c = (105 - (d[i] as u32)) as u8 as char;
        r.push(c);
        proof {
            assert(nine_complement(d@.subrange(0, i + 1)) =~= nine_complement(d@.subrange(0, i as int)).push(c));
        }
        i = i + 1;
    }
    let y = (106 - (x as u32)) as u8 as char;
    r.push(y);
    push_repeat(&mut r, '0', m);
    proof {
        let pre = d@.subrange(0, k - 1);
        assert(all_digits(pre)) by {
            assert forall|j: int| 0 <= j < pre.len() implies is_digit(#[trigger] pre[j]) by {
                assert(pre[j] == d@[j]);
            }
        }
        lemma_value_nine_complement(pre);
        let cp = nine_complement(pre);
        assert(r@ =~= cp.push(y) + zeros(m as nat));
        assert(d@.subrange(0, k as int) =~= pre.push(x));
        lemma_value_append(cp.push(y), zeros(m as nat));
        assert(cp.push(y).drop_last() =~= cp);
        assert(pre.push(x).drop_last() =~= pre);
        lemma_pow10_add((k - 1) as nat, (m + 1) as nat);
        assert(((k - 1) + (m + 1)) as nat == n as nat);
        let vp = digits_value(pre);
        let vc = digits_value(cp);
        let pm = pow10(m as nat);
        let pk = pow10((k - 1) as nat);
        assert(pow10((m + 1) as nat) == 10 * pm);
        let xv = (x as u32 - '0' as u32) as nat;
        assert(xv >= 1);
        assert(digits_value(cp.push(y)) == vc * 10 + (10 - xv));
        assert(digits_value(pre.push(x)) == vp * 10 + xv);
        assert((vc * 10 + (10 - xv)) * pm + (vp * 10 + xv) * pm == pk * (10 * pm)) by (nonlinear_arith)
            requires
                vc + vp + 1 == pk,
                xv <= 10,
        ;
        assert(all_digits(r@)) by {
            assert forall|j: int| 0 <= j < r@.len() implies is_digit(#[trigger] r@[j]) by {
                if j < k - 1 {
                    assert(r@[j] == cp[j]);
                } else if j >= k {
                    assert(r@[j] == zeros(m as nat)[j - k]);
                }
            }
        }
    }
    r
}

/// `d` without its leading zeros, keeping at least one digit.
fn strip_zeros(d: &Vec<char>) -> (r: Vec<char>)
    requires
        d@.len() >= 1,
    ensures
        r@ == strip(d@),
{
    let n = d.len();
    let mut i: usize = 0;
    proof {
        assert(d@.subrange(0, n as int) =~= d@);
    }
    while i + 1 < n && d[i] == '0'
        invariant
            i < n == d@.len(),
            strip(d@) == strip(d@.subrange(i as int, n as int)),
        decreases n - i,
    {
        proof {
            assert(d@.subrange(i + 1, n as int) =~= d@.subrange(i as int, n as int).drop_first());
        }
        i = i + 1;
    }
    let mut r: Vec<char> = Vec::new();
    let mut j = i;
    while j < n
        invariant
            i <= j <= n == d@.len(),
            r@ == d@.subrange(i as int, j as int),
        decreases n - j,
    {
        r.push(d[j]);
        proof {
            assert(d@.subrange(i as int, j + 1) =~= d@.subrange(i as int, j as int).push(d@[j as int]));
        }
        j = j + 1;
    }
    r
}

fn append_chars(out: &mut String, v: &Vec<char>)
    ensures
        final(out)@ == old(out)@ + v@,
{
    let ghost start = out@;
    let mut i: usize = 0;
    while i < v.len()
        invariant
            i <= v@.len(),
            out@ == start + v@.subrange(0, i as int),
        decreases v@.len() - i,
    {
        push_char(out, v[i]);
        proof {
            assert(v@.subrange(0, i + 1) =~= v@.subrange(0, i as int).push(v@[i as int]));
        }
        i = i + 1;
    }
    proof {
        assert(v@.subrange(0, v@.len() as int) =~= v@);
    }
}

/// The numeral of `1 - x`, where `x` has the sign `neg`, the integer
/// digits `int_digits` and the decimals `frac`: exact, with as many
/// decimals as `x`.
pub fn complement(neg: bool, int_digits: &Vec<char>, frac: &Vec<char>) -> (r: String)
    requires
        all_digits(int_digits@),
        all_digits(frac@),
        int_digits@.len() >= 1,
    ensures
        r@ == complement_text(neg, int_digits@, frac@),
{
    let ghost vi = digits_value(int_digits@);
    let ghost vf = digits_value(frac@);
    let ghost f = frac@.len();
    let ghost p = pow10(f);
    proof {
        lemma_value_append(int_digits@, frac@);
        lemma_value_bound(frac@);
        lemma_pow10_positive(f);
        lemma_padded_value(frac@);
        lemma_value_zero(int_digits@);
        lemma_value_zero(frac@);
        reveal_strlit("-");
        reveal_strlit(".");
    }
    let ghost n: int = (vi * p + vf) as int;
    let ghost res: int = p - (if neg { -n } else { n });
    // the sign, the integer part, the quotient and the remainder of |res|
    let ghost sign: Seq<char>;
    let ghost q: nat;
    let ghost rem: nat;
    let mut out = String::new();
    let tail: Vec<char>;
    if neg {
        let inc = increment(int_digits);
        let t = strip_zeros(&inc);
        proof {
            lemma_strip(inc@);
            assert(p + n == (vi + 1) * p + vf) by (nonlinear_arith)
                requires
                    n == vi * p + vf,
            ;
            vstd::arithmetic::div_mod::lemma_fundamental_div_mod_converse((p + n) as int, p as int, (vi + 1) as int, vf as int);
            sign = Seq::empty();
            q = (vi + 1) as nat;
            rem = vf;
            assert(res == p + n);
        }
        append_chars(&mut out, &t);
        tail = copy_prefix(frac, frac.len());
        proof {
            assert(frac@.subrange(0, frac@.len() as int) =~= frac@);
            assert(out@ =~= sign + decimal_digits(q));
            assert(tail@ == padded(rem, f));
        }
    } else if all_zero(int_digits) {
        proof {
            assert(vi == 0);
            assert(n == vf) by (nonlinear_arith)
                requires
                    vi == 0,
                    n == vi * p + vf,
            ;
            sign = Seq::empty();
        }
        if all_zero(frac) {
            push_char(&mut out, '1');
            tail = copy_prefix(frac, frac.len());
            proof {
                assert(vf == 0);
                assert(p == 1 * p + 0) by (nonlinear_arith);
                vstd::arithmetic::div_mod::lemma_fundamental_div_mod_converse(p as int, p as int, 1int, 0int);
                q = 1;
                rem = 0;
                assert(frac@.subrange(0, frac@.len() as int) =~= frac@);
                assert(decimal_digits(1) == seq!['1']);
                assert(out@ =~= sign + decimal_digits(q));
                assert(tail@ == padded(rem, f));
            }
        } else {
            push_char(&mut out, '0');
            let c = ten_complement(frac);
            proof {
                assert(vf >= 1);
                lemma_value_bound(c@);
                lemma_padded_value(c@);
                assert(p - vf == 0 * p + (p - vf)) by (nonlinear_arith);
                vstd::arithmetic::div_mod::lemma_fundamental_div_mod_converse(p - vf, p as int, 0int, p - vf);
                q = 0;
                rem = (p - vf) as nat;
                assert(decimal_digits(0) == seq!['0']);
                assert(out@ =~= sign + decimal_digits(q));
                assert(c@ == padded(rem, f));
            }
            tail = c;
        }
    } else {
        proof {
            assert(vi >= 1);
        }
        let dec = decrement(int_digits);
        let t = strip_zeros(&dec);
        let zero_result = all_zero(&dec) && all_zero(frac);
        proof {
            lemma_strip(dec@);
            lemma_value_zero(dec@);
            assert(n - p == (vi - 1) * p + vf) by (nonlinear_arith)
                requires
                    n == vi * p + vf,
            ;
            vstd::arithmetic::div_mod::lemma_fundamental_div_mod_converse(n - p, p as int, vi - 1, vf as int);
            assert((vi - 1) * p >= 0) by (nonlinear_arith)
                requires
                    vi >= 1,
                    p >= 1,
            ;
            if vi - 1 > 0 {
                assert((vi - 1) * p >= p) by (nonlinear_arith)
                    requires
                        vi - 1 >= 1,
                        p >= 1,
                ;
            } else {
                assert((vi - 1) * p == 0) by (nonlinear_arith)
                    requires
                        vi - 1 == 0,
                ;
            }
            assert(zero_result <==> n - p == 0);
            sign = if zero_result { Seq::empty() } else { "-"@ };
            q = (vi - 1) as nat;
            rem = vf;
        }
        if !zero_result {
            push_char(&mut out, '-');
        }
        append_chars(&mut out, &t);
        tail = copy_prefix(frac, frac.len());
        proof {
            assert(frac@.subrange(0, frac@.len() as int) =~= frac@);
            assert(out@ =~= sign + decimal_digits(q));
            assert(tail@ == padded(rem, f));
        }
    }
    proof {
        let a: nat = if res < 0 { (-res) as nat } else { res as nat };
        assert(a / p == q && a % p == rem);
        assert(sign == (if res < 0 { "-"@ } else { Seq::<char>::empty() }));
        assert(digits_value(int_digits@ + frac@) as int == n);
    }
    if frac.len() > 0 {
        push_char(&mut out, '.');
        append_chars(&mut out, &tail);
        proof {
            assert(out@ =~= sign + decimal_digits(q) + "."@ + padded(rem, f));
        }
    }
    out
}

} // verus!
