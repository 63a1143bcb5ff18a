//! Counts as people read them: whole, in thousands, or in millions.
use vstd::arithmetic::power2::{lemma_pow2_unfold, pow2};
use vstd::prelude::*;
use crate::text::{a_number_is_spelled_out, dec, decimal, digit, numeral};

verus! {

/// The whole number nearest to `n / d`; of two equally near, the even one.
pub open spec fn nearest(n: nat, d: nat) -> nat {
    if 2 * (n % d) < d || (2 * (n % d) == d && (n / d) % 2 == 0) {
        n / d
    } else {
        n / d + 1
    }
}

/// How many low bits of `n` a double leaves out.
pub open spec fn lost_bits(n: nat) -> nat
    decreases n,
{
    if n < 0x20_0000_0000_0000 {
        0
    } else {
        1 + lost_bits(n / 2)
    }
}

/// The double nearest to a whole number.
pub open spec fn as_double(n: nat) -> nat {
    nearest(n, pow2(lost_bits(n))) * pow2(lost_bits(n))
}

/// A million times the least significand of a double.
pub open spec fn full() -> nat {
    4_503_599_627_370_496_000_000
}

/// How often `w` has to be doubled to reach [`full`].
pub open spec fn gain(w: nat) -> nat
    decreases 2 * full() - w,
{
    if w == 0 || w >= full() {
        0
    } else {
        1 + gain(2 * w)
    }
}

/// The hundredths of a million in `n` when the division is done in doubles:
/// `n` as a double, divided by a million with the quotient rounded to a
/// 53-bit significand, rounded to two decimals.
pub open spec fn million_hundredths(n: nat) -> nat {
    let v = as_double(n);
    let e = gain(v);
    nearest(nearest(v * pow2(e), 1_000_000) * 100, pow2(e))
}

/// A count in short: in millions with two decimals, in whole thousands, or as
/// it is.
pub open spec fn count_text(n: nat) -> Seq<char> {
    if n >= 1_000_000 {
        let h = million_hundredths(n);
        decimal(h / 100) + "."@ + seq![digit(h % 100 / 10), digit(h % 10)] + "M"@
    } else if n >= 10_000 {
        decimal(nearest(n, 1000)) + "k"@
    } else {
        decimal(n)
    }
}

fn nearest_of(n: u128, d: u128) -> (r: u128)
    requires
        0 < d < 0x1000_0000_0000_0000_0000_0000_0000_0000,
    ensures
        r == nearest(n as nat, d as nat),
        r <= n / d + 1,
{
    let q: u128 = n / d;
    let m: u128 = n % d;
    if 2 * m < d || (2 * m == d && q % 2 == 0) {
        q
    } else {
        assert(d > 1);
        assert(n / d <= n / 2) by (nonlinear_arith)
            requires
                d >= 2,
        ;
        q + 1
    }
}

fn double_of(n: u64) -> (r: u128)
    ensures
        r == as_double(n as nat),
        n > 0 ==> r > 0,
        r <= 0x2_0000_0000_0000_0000,
        n >= 1_000_000 ==> r >= 1_000_000,
{
    let ghost mut k: nat = 0;
    let mut rest: u64 = n;
    let mut p: u128 = 1;
    proof {
        lemma_pow2_unfold(1);
        assert(pow2(0) == 1) by {
            vstd::arithmetic::power2::lemma2_to64();
        }
    }
    while rest >= 0x20_0000_0000_0000
        invariant
            rest as nat == n as nat / pow2(k),
            p == pow2(k),
            p > 0,
            lost_bits(n as nat) == k + lost_bits(rest as nat),
            p * rest <= n,
            k > 0 ==> n >= 0x20_0000_0000_0000,
            k > 0 ==> rest >= 0x10_0000_0000_0000,
        decreases rest,
    {
        proof {
            lemma_pow2_unfold(k + 1);
            vstd::arithmetic::div_mod::lemma_div_denominator(n as int, p as int, 2);
            assert(p * 2 == 2 * p);
            assert(2 * p * (rest as int / 2) <= p * rest) by (nonlinear_arith)
                requires
                    p > 0,
                    rest >= 0,
            ;
            assert(p <= n) by (nonlinear_arith)
                requires
                    p * rest <= n,
                    rest >= 1,
                    p > 0,
            ;
            assert(p * rest >= p * 0x20_0000_0000_0000) by (nonlinear_arith)
                requires
                    rest >= 0x20_0000_0000_0000,
                    p > 0,
            ;
        }
        rest = rest / 2;
        proof {
            k = k + 1;
        }
        p = p * 2;
    }
    assert(p <= 0x1_0000_0000_0000_0000) by {
        if k > 0 {
            assert(p <= n) by (nonlinear_arith)
                requires
                    p * rest <= n,
                    rest >= 1,
                    p > 0,
            ;
        }
    }
    let m = nearest_of(n as u128, p);
    proof {
        let q = n as nat / p as nat;
        assert(q == rest);
        vstd::arithmetic::div_mod::lemma_fundamental_div_mod(n as int, p as int);
        if k > 0 {
            // the significand has 53 bits at most
            assert(m <= 0x20_0000_0000_0000);
            assert(p * 0x10_0000_0000_0000 <= p * rest) by (nonlinear_arith)
                requires
                    rest >= 0x10_0000_0000_0000,
                    p > 0,
            ;
            assert(p <= 0x1000);
            assert(m * p <= 0x20_0000_0000_0000 * 0x1000) by (nonlinear_arith)
                requires
                    0 <= m <= 0x20_0000_0000_0000,
                    0 <= p <= 0x1000,
            ;
            assert(m * p >= rest * p) by (nonlinear_arith)
                requires
                    m >= rest,
                    p > 0,
            ;
            assert(rest * p >= 0x10_0000_0000_0000) by (nonlinear_arith)
                requires
                    rest >= 0x10_0000_0000_0000,
                    p >= 1,
            ;
        } else {
            assert(n as nat % 1 == 0);
        }
    }
    m * p
}

/// See [`million_hundredths`].
fn hundredths_of(n: u64) -> (r: u128)
    requires
        n >= 1_000_000,
    ensures
        r == million_hundredths(n as nat),
        r < 0x1_0000_0000_0000_0000,
{
    let v = double_of(n);
    let mut w: u128 = v;
    let mut p: u128 = 1;
    let ghost mut e: nat = 0;
    proof {
        vstd::arithmetic::power2::lemma2_to64();
    }
    while w < 4_503_599_627_370_496_000_000
        invariant
            1_000_000 <= v <= 0x2_0000_0000_0000_0000,
            p == pow2(e),
            p > 0,
            w == v * pow2(e),
            w >= v,
            p <= w,
            w < 2 * full(),
            gain(v as nat) == e + gain(w as nat),
        decreases 2 * full() - w,
    {
        proof {
            lemma_pow2_unfold(e + 1);
            assert(v * (2 * pow2(e)) == 2 * (v * pow2(e))) by (nonlinear_arith);
            e = e + 1;
        }
        w = w * 2;
        p = p * 2;
    }
    let m = nearest_of(w, 1_000_000);
    assert(p * 1_000_000 <= w) by (nonlinear_arith)
        requires
            w == v * p,
            v >= 1_000_000,
            p > 0,
    ;
    let r = nearest_of(m * 100, p);
    assert(r < 0x1_0000_0000_0000_0000) by {
        assert(w <= 0x2_0000_0000_0000_0000 * p) by (nonlinear_arith)
            requires
                w == v * p,
                v <= 0x2_0000_0000_0000_0000,
                p > 0,
        ;
        assert(m <= w / 1_000_000 + 1);
        assert(m * 100 <= w / 10_000 + 200);
        assert((m * 100) as nat / p as nat <= (w / 10_000 + 200) as nat / p as nat) by {
            vstd::arithmetic::div_mod::lemma_div_is_ordered(
                (m * 100) as int,
                (w / 10_000 + 200) as int,
                p as int,
            );
        }
        let k: int = 3_689_348_814_742_112;
        assert((w / 10_000 + 200) as int <= k * p) by (nonlinear_arith)
            requires
                w <= 0x2_0000_0000_0000_0000 * p,
                p >= 1,
                k == 3_689_348_814_742_112,
        ;
        vstd::arithmetic::div_mod::lemma_div_is_ordered(
            (w / 10_000 + 200) as int,
            k * p,
            p as int,
        );
        vstd::arithmetic::div_mod::lemma_div_multiples_vanish(k, p as int);
        assert(k * p == p * k) by (nonlinear_arith);
    }
    r
}

/// See [`count_text`].
pub fn fmt_count(n: usize) -> (r: String)
    ensures
        r@ == count_text(n as nat),
{
    let n: u64 = n as u64;
    if n >= 1_000_000 {
        let h: u64 = hundredths_of(n) as u64;
        let mut s = dec(h / 100);
        s.append(".");
        let mut two = dec(h % 100 / 10);
        two.append(dec(h % 10).as_str());
        assert(two@ =~= seq![digit((h % 100 / 10) as nat), digit((h % 10) as nat)]);
        s.append(two.as_str());
        s.append("M");
        s
    } else if n >= 10_000 {
        let mut s = dec(nearest_of(n as u128, 1000) as u64);
        s.append("k");
        s
    } else {
        dec(n)
    }
}

/// Rounding goes to the nearest whole number: never further off than a half.
pub proof fn rounding_is_to_the_nearest(n: nat, d: nat)
    requires
        d > 0,
    ensures
        2 * (nearest(n, d) * d - n) <= d,
        2 * (n - nearest(n, d) * d) <= d,
        d == 1 ==> nearest(n, d) == n,
{
    let q = n / d;
    assert(n == q * d + n % d) by (nonlinear_arith)
        requires
            d > 0,
            q == n / d,
    ;
    assert((q + 1) * d == q * d + d) by (nonlinear_arith);
    if d == 1 {
        assert(n % 1 == 0);
    }
}

/// A count below ten thousand is shown as it is, one below a million in
/// thousands, to the nearest; the number shown, read again, is that near.
pub proof fn a_short_count_is_near(n: nat)
    requires
        n < 1_000_000,
    ensures
        n < 10_000 ==> count_text(n) == decimal(n) && numeral(count_text(n)) == n,
        n >= 10_000 ==> count_text(n).last() == 'k' && 1000 * numeral(count_text(n).drop_last()) <= n
            + 500 && n <= 1000 * numeral(count_text(n).drop_last()) + 500,
{
    reveal_strlit("k");
    if n < 10_000 {
        a_number_is_spelled_out(n);
    } else {
        let k = nearest(n, 1000);
        rounding_is_to_the_nearest(n, 1000);
        a_number_is_spelled_out(k);
        assert(count_text(n).drop_last() =~= decimal(k));
    }
}

/// A count from a million on is shown in millions with two decimals: the
/// hundredths it is made of, digit by digit.
pub proof fn millions_have_two_decimals(n: nat)
    requires
        n >= 1_000_000,
    ensures
        ({
            let t = count_text(n);
            &&& t.last() == 'M'
            &&& t[t.len() - 4] == '.'
            &&& numeral(t.subrange(0, t.len() - 4)) * 100 + numeral(t.subrange(t.len() - 3, t.len() - 1))
                == million_hundredths(n)
        }),
{
    reveal_strlit("M");
    reveal_strlit(".");
    let h = million_hundredths(n);
    let t = count_text(n);
    a_number_is_spelled_out(h / 100);
    assert(t.subrange(0, t.len() - 4) =~= decimal(h / 100));
    let two = seq![digit(h % 100 / 10), digit(h % 10)];
    assert(t.subrange(t.len() - 3, t.len() - 1) =~= two);
    assert(two.drop_last() =~= seq![digit(h % 100 / 10)]);
    assert(seq![digit(h % 100 / 10)].drop_last() =~= Seq::<char>::empty());
    assert(numeral(Seq::<char>::empty()) == 0);
    assert(numeral(seq![digit(h % 100 / 10)]) == h % 100 / 10);
    assert(numeral(two) == 10 * (h % 100 / 10) + h % 10);
}

proof fn doubled_enough(w: nat)
    requires
        w > 0,
    ensures
        w * pow2(gain(w)) >= full(),
        pow2(gain(w)) > 0,
    decreases 2 * full() - w,
{
    vstd::arithmetic::power2::lemma_pow2_pos(gain(w));
    if w < full() {
        doubled_enough(2 * w);
        let p = pow2(gain(2 * w));
        vstd::arithmetic::power2::lemma_pow2_unfold(gain(w));
        assert(pow2(gain(w)) == 2 * p);
        assert(w * (2 * p) == (2 * w) * p) by (nonlinear_arith);
    } else {
        vstd::arithmetic::power2::lemma2_to64();
        assert(w * 1 == w) by (nonlinear_arith);
    }
}

/// The hundredths of a million shown of a count are the nearest there are, but
/// for the last digit of the doubles they are computed in.
pub proof fn hundredths_of_a_million_are_near(n: nat)
    requires
        0 < n < 0x20_0000_0000_0000,
    ensures
        10_000 * million_hundredths(n) <= n + 5_001,
        n <= 10_000 * million_hundredths(n) + 5_001,
{
    vstd::arithmetic::power2::lemma2_to64();
    assert(lost_bits(n) == 0);
    rounding_is_to_the_nearest(n, 1);
    assert(pow2(0) == 1);
    let v = as_double(n);
    assert(v == n) by {
        assert(nearest(n, 1) * 1 == nearest(n, 1)) by (nonlinear_arith);
    }
    let e = gain(v);
    let p = pow2(e);
    doubled_enough(v);
    let q = nearest(v * p, 1_000_000);
    let h = nearest(q * 100, p);
    rounding_is_to_the_nearest(v * p, 1_000_000);
    rounding_is_to_the_nearest(q * 100, p);
    assert(p >= 500_000) by (nonlinear_arith)
        requires
            v * p >= 4_503_599_627_370_496_000_000,
            v < 0x20_0000_0000_0000,
            v > 0,
    ;
    assert(10_000 * h <= v + 5_001) by (nonlinear_arith)
        requires
            2 * (h * p - q * 100) <= p,
            2 * (q * 1_000_000 - v * p) <= 1_000_000,
            p >= 500_000,
    ;
    assert(v <= 10_000 * h + 5_001) by (nonlinear_arith)
        requires
            2 * (q * 100 - h * p) <= p,
            2 * (v * p - q * 1_000_000) <= 1_000_000,
            p >= 500_000,
    ;
}

} // verus!
