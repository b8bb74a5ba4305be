//! Natural order of file names: runs of decimal digits compare by their
//! value, so `slide-2.jpg` comes before `slide-10.jpg`; other characters
//! compare by code point, and a prefix comes first.

use vstd::prelude::*;
use crate::pipeline::{digits_value, lemma_leading_zeros_value};

verus! {

pub open spec fn is_ascii_digit(c: char) -> bool {
    48 <= (c as int) && (c as int) <= 57
}

/// The number of decimal digits at the start of `s`.
pub open spec fn digit_run(s: Seq<char>) -> nat
    decreases s.len(),
{
    if s.len() > 0 && is_ascii_digit(s[0]) {
        1 + digit_run(s.drop_first())
    } else {
        0
    }
}

pub proof fn lemma_digit_run(s: Seq<char>)
    ensures
        digit_run(s) <= s.len(),
        s.len() > 0 && is_ascii_digit(s[0]) ==> digit_run(s) >= 1,
        forall|k: int| 0 <= k < digit_run(s) ==> is_ascii_digit(#[trigger] s[k]),
        digit_run(s) < s.len() ==> !is_ascii_digit(s[digit_run(s) as int]),
    decreases s.len(),
{
    if s.len() > 0 && is_ascii_digit(s[0]) {
        lemma_digit_run(s.drop_first());
        assert forall|k: int| 0 <= k < digit_run(s) implies is_ascii_digit(#[trigger] s[k]) by {
            if k > 0 {
                assert(s[k] == s.drop_first()[k - 1]);
            }
        }
    }
}

/// The value of the digit run at the start of `s`.
pub open spec fn run_value(s: Seq<char>) -> int {
    digits_value(s.take(digit_run(s) as int))
}

/// Natural order: digit runs by value (then the shorter run first), other
/// characters by code point, a prefix first.
pub open spec fn natural_le(a: Seq<char>, b: Seq<char>) -> bool
    decreases a.len(),
{
    if a.len() == 0 {
        true
    } else if b.len() == 0 {
        false
    } else if is_ascii_digit(a[0]) && is_ascii_digit(b[0]) {
        if run_value(a) < run_value(b) {
            true
        } else if run_value(a) > run_value(b) {
            false
        } else if digit_run(a) < digit_run(b) {
            true
        } else if digit_run(a) > digit_run(b) {
            false
        } else {
            proof {
                lemma_digit_run(a);
            }
            natural_le(a.skip(digit_run(a) as int), b.skip(digit_run(b) as int))
        }
    } else if (a[0] as int) < (b[0] as int) {
        true
    } else if a[0] == b[0] {
        natural_le(a.drop_first(), b.drop_first())
    } else {
        false
    }
}

pub proof fn lemma_natural_total(a: Seq<char>, b: Seq<char>)
    ensures
        natural_le(a, b) || natural_le(b, a),
    decreases a.len(),
{
    if a.len() > 0 && b.len() > 0 {
        if is_ascii_digit(a[0]) && is_ascii_digit(b[0]) {
            lemma_digit_run(a);
            lemma_digit_run(b);
            if run_value(a) == run_value(b) && digit_run(a) == digit_run(b) {
                lemma_natural_total(a.skip(digit_run(a) as int), b.skip(digit_run(b) as int));
            }
        } else if a[0] == b[0] {
            lemma_natural_total(a.drop_first(), b.drop_first());
        } else {
            assert((a[0] as int) != (b[0] as int));
        }
    }
}

pub proof fn lemma_natural_trans(a: Seq<char>, b: Seq<char>, c: Seq<char>)
    requires
        natural_le(a, b),
        natural_le(b, c),
    ensures
        natural_le(a, c),
    decreases a.len(),
{
    if a.len() > 0 && b.len() > 0 && c.len() > 0 {
        lemma_digit_run(a);
        lemma_digit_run(b);
        lemma_digit_run(c);
        if is_ascii_digit(a[0]) && is_ascii_digit(b[0]) && is_ascii_digit(c[0]) {
            if run_value(a) == run_value(b) && run_value(b) == run_value(c) && digit_run(a)
                == digit_run(b) && digit_run(b) == digit_run(c) {
                lemma_natural_trans(
                    a.skip(digit_run(a) as int),
                    b.skip(digit_run(b) as int),
                    c.skip(digit_run(c) as int),
                );
            }
        } else if !is_ascii_digit(a[0]) && !is_ascii_digit(b[0]) && !is_ascii_digit(c[0]) {
            if a[0] == b[0] && b[0] == c[0] {
                lemma_natural_trans(a.drop_first(), b.drop_first(), c.drop_first());
            }
        } else if !is_ascii_digit(b[0]) && a[0] == b[0] {
        } else if !is_ascii_digit(b[0]) && b[0] == c[0] {
        }
    }
}

// ─── Values of digit strings ─────────────────────────────────────────

pub open spec fn pow10(n: nat) -> int
    decreases n,
{
    if n == 0 {
        1
    } else {
        10 * pow10((n - 1) as nat)
    }
}

pub open spec fn all_ascii_digits(s: Seq<char>) -> bool {
    forall|k: int| 0 <= k < s.len() ==> is_ascii_digit(#[trigger] s[k])
}

proof fn lemma_pow10_mono(m: nat, n: nat)
    requires
        m <= n,
    ensures
        1 <= pow10(m) <= pow10(n),
    decreases n,
{
    if n > m {
        lemma_pow10_mono(m, (n - 1) as nat);
    } else if n > 0 {
        lemma_pow10_mono(0, (n - 1) as nat);
    }
}

proof fn lemma_value_append(p: Seq<char>, q: Seq<char>)
    ensures
        digits_value(p + q) == digits_value(p) * pow10(q.len()) + digits_value(q),
    decreases q.len(),
{
    if q.len() == 0 {
        assert(p + q =~= p);
        assert(digits_value(q) == 0);
        assert(pow10(0) == 1);
    } else {
        let q1 = q.drop_last();
        assert((p + q).drop_last() =~= p + q1);
        assert((p + q).last() == q.last());
        lemma_value_append(p, q1);
        assert(digits_value(p + q) == digits_value(p + q1) * 10 + (q.last() as int - 48));
        assert(digits_value(q) == digits_value(q1) * 10 + (q.last() as int - 48));
        let vp = digits_value(p);
        let v1 = digits_value(q1);
        let d = q.last() as int - 48;
        let e = pow10(q1.len());
        assert(pow10(q.len()) == 10 * e);
        assert((vp * e + v1) * 10 + d == vp * (10 * e) + (v1 * 10 + d)) by (nonlinear_arith);
    }
}

proof fn lemma_value_bounds(s: Seq<char>)
    requires
        all_ascii_digits(s),
    ensures
        0 <= digits_value(s) < pow10(s.len()),
    decreases s.len(),
{
    if s.len() > 0 {
        let s1 = s.drop_last();
        assert(all_ascii_digits(s1)) by {
            assert forall|k: int| 0 <= k < s1.len() implies is_ascii_digit(#[trigger] s1[k]) by {
                assert(s1[k] == s[k]);
            }
        }
        lemma_value_bounds(s1);
        assert(is_ascii_digit(s[s.len() - 1]));
        let v1 = digits_value(s1);
        let e = pow10(s1.len());
        let d = s.last() as int - 48;
        assert(v1 * 10 + d < 10 * e) by (nonlinear_arith)
            requires
                0 <= v1 < e,
                0 <= d <= 9,
        ;
    }
}

proof fn lemma_value_lower(s: Seq<char>)
    requires
        all_ascii_digits(s),
        s.len() > 0,
        s[0] as int != 48,
    ensures
        digits_value(s) >= pow10((s.len() - 1) as nat),
    decreases s.len(),
{
    assert(is_ascii_digit(s[s.len() - 1]));
    let d = s.last() as int - 48;
    if s.len() == 1 {
        assert(s.drop_last().len() == 0);
        assert(digits_value(s.drop_last()) == 0);
    } else {
        let s1 = s.drop_last();
        assert(all_ascii_digits(s1)) by {
            assert forall|k: int| 0 <= k < s1.len() implies is_ascii_digit(#[trigger] s1[k]) by {
                assert(s1[k] == s[k]);
            }
        }
        assert(s1[0] == s[0]);
        lemma_value_lower(s1);
        let v1 = digits_value(s1);
        let e = pow10((s1.len() - 1) as nat);
        assert(pow10((s.len() - 1) as nat) == 10 * e);
        assert(v1 * 10 + d >= 10 * e) by (nonlinear_arith)
            requires
                v1 >= e,
                0 <= d,
        ;
    }
}

/// Two digit strings of one length compare by value as they compare at
/// their first difference.
proof fn lemma_value_lex(x: Seq<char>, y: Seq<char>, k: int)
    requires
        all_ascii_digits(x),
        all_ascii_digits(y),
        x.len() == y.len(),
        0 <= k < x.len(),
        x.take(k) == y.take(k),
        (x[k] as int) < (y[k] as int),
    ensures
        digits_value(x) < digits_value(y),
{
    let n = x.len();
    let xr = x.skip(k + 1);
    let yr = y.skip(k + 1);
    assert(x =~= x.take(k + 1) + xr);
    assert(y =~= y.take(k + 1) + yr);
    lemma_value_append(x.take(k + 1), xr);
    lemma_value_append(y.take(k + 1), yr);
    assert(all_ascii_digits(xr)) by {
        assert forall|m: int| 0 <= m < xr.len() implies is_ascii_digit(#[trigger] xr[m]) by {
            assert(xr[m] == x[m + k + 1]);
        }
    }
    lemma_value_bounds(xr);
    assert(all_ascii_digits(yr)) by {
        assert forall|m: int| 0 <= m < yr.len() implies is_ascii_digit(#[trigger] yr[m]) by {
            assert(yr[m] == y[m + k + 1]);
        }
    }
    lemma_value_bounds(yr);
    assert(x.take(k + 1).drop_last() =~= x.take(k));
    assert(y.take(k + 1).drop_last() =~= y.take(k));
    assert(x.take(k + 1).last() == x[k]);
    assert(y.take(k + 1).last() == y[k]);
    let vp = digits_value(x.take(k));
    let ax = vp * 10 + (x[k] as int - 48);
    let ay = vp * 10 + (y[k] as int - 48);
    assert(digits_value(x.take(k + 1)) == ax);
    assert(digits_value(y.take(k + 1)) == ay);
    let e = pow10(xr.len());
    assert(ax + 1 <= ay);
    assert(ax * e + digits_value(xr) < ay * e + digits_value(yr)) by (nonlinear_arith)
        requires
            ax + 1 <= ay,
            0 <= digits_value(xr) < e,
            0 <= digits_value(yr),
    ;
}

// ─── Comparing ───────────────────────────────────────────────────────

fn ascii_digit(c: char) -> (r: bool)
    ensures
        r == is_ascii_digit(c),
{
    '0' <= c && c <= '9'
}

/// The end of the digit run of `a` that starts at `i`.
fn run_end(a: &Vec<char>, i: usize) -> (e: usize)
    requires
        i <= a@.len(),
    ensures
        i <= e <= a@.len(),
        e - i == digit_run(a@.skip(i as int)),
        forall|k: int| i <= k < e ==> is_ascii_digit(#[trigger] a@[k]),
{
    let n = a.len();
    let mut e: usize = i;
    while e < n && ascii_digit(a[e])
        invariant
            n == a@.len(),
            i <= e <= n,
            digit_run(a@.skip(i as int)) == (e - i) + digit_run(a@.skip(e as int)),
            forall|k: int| i <= k < e ==> is_ascii_digit(#[trigger] a@[k]),
        decreases n - e,
    {
        assert(a@.skip(e as int).drop_first() =~= a@.skip(e + 1));
        assert(a@.skip(e as int)[0] == a@[e as int]);
        e = e + 1;
    }
    if e < n {
        assert(a@.skip(e as int)[0] == a@[e as int]);
    }
    e
}

fn first_nonzero(a: &Vec<char>, from: usize, to: usize) -> (z: usize)
    requires
        from <= to <= a@.len(),
    ensures
        from <= z <= to,
        forall|k: int| from <= k < z ==> a@[k] == '0',
        z < to ==> a@[z as int] != '0',
{
    let mut z: usize = from;
    while z < to && a[z] == '0'
        invariant
            from <= z <= to <= a@.len(),
            forall|k: int| from <= k < z ==> a@[k] == '0',
        decreases to - z,
    {
        z = z + 1;
    }
    z
}

proof fn lemma_strip_zeros(a: Seq<char>, i: int, z: int, e: int)
    requires
        0 <= i <= z <= e <= a.len(),
        forall|k: int| i <= k < z ==> a[k] == '0',
    ensures
        digits_value(a.subrange(i, e)) == digits_value(a.subrange(z, e)),
{
    let zs = a.subrange(i, z);
    assert(a.subrange(i, e) =~= zs + a.subrange(z, e));
    assert forall|k: int| 0 <= k < zs.len() implies zs[k] == '0' by {
        assert(zs[k] == a[i + k]);
    }
    lemma_leading_zeros_value(zs, a.subrange(z, e));
}

proof fn lemma_digits_of(a: Seq<char>, from: int, to: int)
    requires
        0 <= from <= to <= a.len(),
        forall|k: int| from <= k < to ==> is_ascii_digit(#[trigger] a[k]),
    ensures
        all_ascii_digits(a.subrange(from, to)),
{
    assert forall|k: int| 0 <= k < a.subrange(from, to).len() implies is_ascii_digit(
        #[trigger] a.subrange(from, to)[k],
    ) by {
        assert(a.subrange(from, to)[k] == a[from + k]);
    }
}

/// Compares the values of the digit runs `a[i..ea]` and `b[j..eb]`:
/// negative, zero or positive as the first is smaller, equal or larger.
fn compare_runs(a: &Vec<char>, i: usize, ea: usize, b: &Vec<char>, j: usize, eb: usize) -> (r: i8)
    requires
        i <= ea <= a@.len(),
        j <= eb <= b@.len(),
        forall|k: int| i <= k < ea ==> is_ascii_digit(#[trigger] a@[k]),
        forall|k: int| j <= k < eb ==> is_ascii_digit(#[trigger] b@[k]),
    ensures
        (r < 0) == (digits_value(a@.subrange(i as int, ea as int)) < digits_value(
            b@.subrange(j as int, eb as int),
        )),
        (r == 0) == (digits_value(a@.subrange(i as int, ea as int)) == digits_value(
            b@.subrange(j as int, eb as int),
        )),
{
    let za = first_nonzero(a, i, ea);
    let zb = first_nonzero(b, j, eb);
    let ghost xs = a@.subrange(za as int, ea as int);
    let ghost ys = b@.subrange(zb as int, eb as int);
    proof {
        lemma_strip_zeros(a@, i as int, za as int, ea as int);
        lemma_strip_zeros(b@, j as int, zb as int, eb as int);
        lemma_digits_of(a@, za as int, ea as int);
        lemma_digits_of(b@, zb as int, eb as int);
        lemma_value_bounds(xs);
        lemma_value_bounds(ys);
        if xs.len() > 0 {
            assert(xs[0] == a@[za as int]);
            lemma_value_lower(xs);
        }
        if ys.len() > 0 {
            assert(ys[0] == b@[zb as int]);
            lemma_value_lower(ys);
        }
    }
    let la = ea - za;
    let lb = eb - zb;
    if la < lb {
        proof {
            lemma_pow10_mono(la as nat, (lb - 1) as nat);
        }
        return -1;
    }
    if la > lb {
        proof {
            lemma_pow10_mono(lb as nat, (la - 1) as nat);
        }
        return 1;
    }
    let mut k: usize = 0;
    while k < la
        invariant
            la == lb,
            la == ea - za,
            lb == eb - zb,
            za <= ea <= a@.len(),
            zb <= eb <= b@.len(),
            xs == a@.subrange(za as int, ea as int),
            ys == b@.subrange(zb as int, eb as int),
            all_ascii_digits(xs),
            all_ascii_digits(ys),
            digits_value(a@.subrange(i as int, ea as int)) == digits_value(xs),
            digits_value(b@.subrange(j as int, eb as int)) == digits_value(ys),
            k <= la,
            xs.take(k as int) == ys.take(k as int),
        decreases la - k,
    {
        let x = a[za + k];
        let y = b[zb + k];
        assert(xs[k as int] == x && ys[k as int] == y);
        if x < y {
            proof {
                lemma_value_lex(xs, ys, k as int);
            }
            return -1;
        }
        if x > y {
            proof {
                lemma_value_lex(ys, xs, k as int);
            }
            return 1;
        }
        assert(xs.take(k + 1) =~= ys.take(k + 1));
        k = k + 1;
    }
    assert(xs =~= xs.take(la as int));
    assert(ys =~= ys.take(la as int));
    0
}

/// Whether `a` comes before `b`, or equals it, in natural order.
pub fn natural_le_exec(a: &Vec<char>, b: &Vec<char>) -> (r: bool)
    ensures
        r == natural_le(a@, b@),
{
    let n = a.len();
    let m = b.len();
    let mut i: usize = 0;
    let mut j: usize = 0;
    assert(a@.skip(0) =~= a@ && b@.skip(0) =~= b@);
    loop
        invariant
            n == a@.len(),
            m == b@.len(),
            i <= n,
            j <= m,
            natural_le(a@, b@) == natural_le(a@.skip(i as int), b@.skip(j as int)),
        decreases n - i,
    {
        if i == n {
            return true;
        }
        if j == m {
            return false;
        }
        let ghost sa = a@.skip(i as int);
        let ghost sb = b@.skip(j as int);
        let x = a[i];
        let y = b[j];
        assert(sa[0] == x && sb[0] == y);
        if ascii_digit(x) && ascii_digit(y) {
            let ea = run_end(a, i);
            let eb = run_end(b, j);
            proof {
                lemma_digit_run(sa);
                lemma_digit_run(sb);
                assert(sa.take(digit_run(sa) as int) =~= a@.subrange(i as int, ea as int));
                assert(sb.take(digit_run(sb) as int) =~= b@.subrange(j as int, eb as int));
                assert(sa.skip(digit_run(sa) as int) =~= a@.skip(ea as int));
                assert(sb.skip(digit_run(sb) as int) =~= b@.skip(eb as int));
            }
            let c = compare_runs(a, i, ea, b, j, eb);
            if c < 0 {
                return true;
            }
            if c > 0 {
                return false;
            }
            if ea - i < eb - j {
                return true;
            }
            if ea - i > eb - j {
                return false;
            }
            i = ea;
            j = eb;
        } else if x < y {
            return true;
        } else if x == y {
            assert(sa.drop_first() =~= a@.skip(i + 1));
            assert(sb.drop_first() =~= b@.skip(j + 1));
            i = i + 1;
            j = j + 1;
        } else {
            return false;
        }
    }
}

} // verus!
