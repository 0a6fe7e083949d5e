use crate::frac::{frac_lt, Frac};
use vstd::prelude::*;

verus! {

/// The smallest element of a non-empty series.
pub open spec fn seq_min(s: Seq<i64>) -> i64
    recommends
        s.len() > 0,
    decreases s.len(),
{
    if s.len() <= 1 {
        s[0]
    } else if s.last() < seq_min(s.drop_last()) {
        s.last()
    } else {
        seq_min(s.drop_last())
    }
}

/// The largest element of a non-empty series.
pub open spec fn seq_max(s: Seq<i64>) -> i64
    recommends
        s.len() > 0,
    decreases s.len(),
{
    if s.len() <= 1 {
        s[0]
    } else if s.last() > seq_max(s.drop_last()) {
        s.last()
    } else {
        seq_max(s.drop_last())
    }
}

/// The minimum of a non-empty series is one of its elements and is no
/// larger than any of them.
pub proof fn lemma_seq_min_props(s: Seq<i64>)
    requires
        s.len() > 0,
    ensures
        forall|i: int| 0 <= i < s.len() ==> seq_min(s) <= #[trigger] s[i],
        exists|i: int| 0 <= i < s.len() && seq_min(s) == s[i],
    decreases s.len(),
{
    if s.len() == 1 {
        assert(seq_min(s) == s[0]);
    } else {
        lemma_seq_min_props(s.drop_last());
        assert forall|i: int| 0 <= i < s.len() implies seq_min(s) <= #[trigger] s[i] by {
            if i < s.len() - 1 {
                assert(s.drop_last()[i] == s[i]);
            }
        }
        if s.last() < seq_min(s.drop_last()) {
            assert(seq_min(s) == s[s.len() - 1]);
        } else {
            let j = choose|j: int|
                0 <= j < s.drop_last().len() && seq_min(s.drop_last()) == s.drop_last()[j];
            assert(seq_min(s) == s[j]);
        }
    }
}

/// The maximum of a non-empty series is one of its elements and is no
/// smaller than any of them.
pub proof fn lemma_seq_max_props(s: Seq<i64>)
    requires
        s.len() > 0,
    ensures
        forall|i: int| 0 <= i < s.len() ==> #[trigger] s[i] <= seq_max(s),
        exists|i: int| 0 <= i < s.len() && seq_max(s) == s[i],
    decreases s.len(),
{
    if s.len() == 1 {
        assert(seq_max(s) == s[0]);
    } else {
        lemma_seq_max_props(s.drop_last());
        assert forall|i: int| 0 <= i < s.len() implies #[trigger] s[i] <= seq_max(s) by {
            if i < s.len() - 1 {
                assert(s.drop_last()[i] == s[i]);
            }
        }
        if s.last() > seq_max(s.drop_last()) {
            assert(seq_max(s) == s[s.len() - 1]);
        } else {
            let j = choose|j: int|
                0 <= j < s.drop_last().len() && seq_max(s.drop_last()) == s.drop_last()[j];
            assert(seq_max(s) == s[j]);
        }
    }
}

/// Every element of a non-empty series lies between its minimum and its
/// maximum.
pub proof fn lemma_min_max_bound(s: Seq<i64>)
    requires
        s.len() > 0,
    ensures
        forall|i: int| 0 <= i < s.len() ==> seq_min(s) <= #[trigger] s[i] && s[i] <= seq_max(s),
{
    lemma_seq_min_props(s);
    lemma_seq_max_props(s);
}

/// The smallest closing price of the series, absent when the series is
/// empty.
pub fn min(series: &Vec<i64>) -> (r: Option<i64>)
    ensures
        r is Some <==> series@.len() > 0,
        r matches Some(m) ==> m == seq_min(series@),
        r matches Some(m) ==> forall|i: int| 0 <= i < series@.len() ==> m <= #[trigger] series@[i],
        r matches Some(m) ==> exists|i: int| 0 <= i < series@.len() && m == series@[i],
{
    if series.len() == 0 {
        return None;
    }
    let mut m: i64 = series[0];
    let mut i: usize = 1;
    assert(series@.take(1)[0] == series@[0]);
    while i < series.len()
        invariant
            1 <= i <= series@.len(),
            m == seq_min(series@.take(i as int)),
        decreases series@.len() - i,
    {
        proof {
            let t = series@.take(i + 1);
            assert(t.drop_last() =~= series@.take(i as int));
            assert(t.last() == series@[i as int]);
        }
        if series[i] < m {
            m = series[i];
        }
        i += 1;
    }
    proof {
        assert(series@.take(series@.len() as int) =~= series@);
        lemma_seq_min_props(series@);
    }
    Some(m)
}

/// The largest closing price of the series, absent when the series is
/// empty.
pub fn max(series: &Vec<i64>) -> (r: Option<i64>)
    ensures
        r is Some <==> series@.len() > 0,
        r matches Some(m) ==> m == seq_max(series@),
        r matches Some(m) ==> forall|i: int| 0 <= i < series@.len() ==> #[trigger] series@[i] <= m,
        r matches Some(m) ==> exists|i: int| 0 <= i < series@.len() && m == series@[i],
{
    if series.len() == 0 {
        return None;
    }
    let mut m: i64 = series[0];
    let mut i: usize = 1;
    assert(series@.take(1)[0] == series@[0]);
    while i < series.len()
        invariant
            1 <= i <= series@.len(),
            m == seq_max(series@.take(i as int)),
        decreases series@.len() - i,
    {
        proof {
            let t = series@.take(i + 1);
            assert(t.drop_last() =~= series@.take(i as int));
            assert(t.last() == series@[i as int]);
        }
        if series[i] > m {
            m = series[i];
        }
        i += 1;
    }
    proof {
        assert(series@.take(series@.len() as int) =~= series@);
        lemma_seq_max_props(series@);
    }
    Some(m)
}

/// The sum of a series, over the elements in input order.
pub open spec fn seq_sum(s: Seq<i64>) -> int
    decreases s.len(),
{
    if s.len() == 0 {
        0
    } else {
        seq_sum(s.drop_last()) + s.last()
    }
}

/// A sum of `i64` values is bounded by the length of the series times the
/// magnitude of the widest `i64`, so it always fits in an `i128`.
pub proof fn lemma_seq_sum_bound(s: Seq<i64>)
    ensures
        -(s.len() as int) * 0x8000_0000_0000_0000 <= seq_sum(s) <= (s.len() as int)
            * 0x8000_0000_0000_0000,
    decreases s.len(),
{
    if s.len() > 0 {
        lemma_seq_sum_bound(s.drop_last());
    }
}

/// Dropping the first element of a non-empty series takes its value out of
/// the sum.
proof fn lemma_seq_sum_drop_first(s: Seq<i64>)
    requires
        s.len() > 0,
    ensures
        seq_sum(s) == s[0] + seq_sum(s.subrange(1, s.len() as int)),
    decreases s.len(),
{
    if s.len() == 1 {
        assert(s.subrange(1, 1) =~= Seq::<i64>::empty());
        assert(s.drop_last() =~= Seq::<i64>::empty());
        assert(seq_sum(s) == seq_sum(s.drop_last()) + s.last());
    } else {
        let tail = s.subrange(1, s.len() as int);
        assert(seq_sum(s) == seq_sum(s.drop_last()) + s.last());
        lemma_seq_sum_drop_first(s.drop_last());
        assert(s.drop_last()[0] == s[0]);
        assert(s.drop_last().subrange(1, s.len() - 1) =~= tail.drop_last());
        assert(tail.last() == s.last());
        assert(seq_sum(tail) == seq_sum(tail.drop_last()) + tail.last());
        assert(seq_sum(s.drop_last()) == s[0] + seq_sum(tail.drop_last()));
    }
}

/// Sliding a window one step forward trades its oldest element for the
/// next element of the series.
proof fn lemma_window_shift(s: Seq<i64>, n: int, k: int)
    requires
        1 <= n,
        0 <= k,
        k + 1 + n <= s.len(),
    ensures
        seq_sum(s.subrange(k + 1, k + 1 + n)) == seq_sum(s.subrange(k, k + n)) - s[k] + s[k + n],
{
    let big = s.subrange(k, k + n + 1);
    assert(big.drop_last() =~= s.subrange(k, k + n));
    assert(big.last() == s[k + n]);
    lemma_seq_sum_drop_first(big);
    assert(big.subrange(1, big.len() as int) =~= s.subrange(k + 1, k + 1 + n));
}

/// The averages of every window of `n` consecutive elements, one per
/// window position, oldest first: element `k` is the arithmetic mean of
/// `s[k ..= k + n - 1]` as an exact fraction with denominator `n`.
pub open spec fn sma_seq(s: Seq<i64>, n: int) -> Seq<Frac>
    recommends
        1 <= n <= s.len(),
{
    Seq::new((s.len() - n + 1) as nat, |k: int| (Frac {
        num: seq_sum(s.subrange(k, k + n)) as i128,
        den: n as i128,
    }))
}

/// The trailing simple moving average with window size `n`: one mean per
/// window position, so `len - n + 1` values, each the exact mean of its
/// window. Absent exactly when fewer than `n` prices are available.
pub fn n_window_sma(n: usize, series: &Vec<i64>) -> (r: Option<Vec<Frac>>)
    requires
        n >= 1,
    ensures
        r is Some <==> n <= series@.len(),
        r matches Some(v) ==> v@ == sma_seq(series@, n as int),
        r matches Some(v) ==> v@.len() == series@.len() - (n - 1),
        r matches Some(v) ==> forall|k: int|
            0 <= k < v@.len() ==> (#[trigger] v@[k]) == (Frac {
                num: seq_sum(series@.subrange(k, k + n)) as i128,
                den: n as i128,
            }),
{
    if n > series.len() {
        return None;
    }
    let last_start: usize = series.len() - n;
    let mut out: Vec<Frac> = Vec::new();
    let mut k: usize = 0;
    while k <= last_start
        invariant
            1 <= n <= series@.len(),
            series@.len() <= usize::MAX,
            last_start == series@.len() - n,
            0 <= k <= last_start + 1,
            out@.len() == k,
            forall|j: int|
                0 <= j < k ==> (#[trigger] out@[j]) == (Frac {
                    num: seq_sum(series@.subrange(j, j + n)) as i128,
                    den: n as i128,
                }),
        decreases last_start + 1 - k,
    {
        let mut sum: i128 = 0;
        let mut j: usize = k;
        proof {
            assert(series@.subrange(k as int, k as int) =~= Seq::<i64>::empty());
        }
        while j < k + n
            invariant
                k <= j <= k + n,
                k + n <= series@.len(),
                series@.len() <= usize::MAX,
                sum == seq_sum(series@.subrange(k as int, j as int)),
            decreases k + n - j,
        {
            proof {
                let w = series@.subrange(k as int, j + 1);
                assert(w.drop_last() =~= series@.subrange(k as int, j as int));
                assert(w.last() == series@[j as int]);
                lemma_seq_sum_bound(series@.subrange(k as int, j as int));
            }
            sum = sum + series[j] as i128;
            j += 1;
        }
        out.push(Frac { num: sum, den: n as i128 });
        k += 1;
    }
    proof {
        assert(out@ =~= sma_seq(series@, n as int));
    }
    Some(out)
}

/// The change from the first to the last element: the absolute change
/// `last - first`, and the relative change `(last - first) / first * 100`
/// as an exact fraction. Absent exactly when the series is empty. When the
/// first price is zero the relative change is the non-finite fraction with
/// denominator zero.
pub open spec fn spec_price_diff(s: Seq<i64>) -> Option<(Frac, i128)> {
    if s.len() == 0 {
        None
    } else {
        Some(
            (
                Frac { num: ((s.last() - s[0]) * 100) as i128, den: s[0] as i128 },
                (s.last() - s[0]) as i128,
            ),
        )
    }
}

/// The absolute and relative price change over the whole series, absent
/// when the series is empty.
pub fn price_diff(series: &Vec<i64>) -> (r: Option<(Frac, i128)>)
    ensures
        r == spec_price_diff(series@),
        r is Some <==> series@.len() > 0,
        r matches Some(p) ==> p.1 as int == series@.last() - series@[0],
        r matches Some(p) ==> p.0.num as int == (series@.last() - series@[0]) * 100
            && p.0.den as int == series@[0],
        r matches Some(p) ==> (p.0.spec_is_finite() <==> series@[0] != 0),
{
    if series.len() == 0 {
        return None;
    }
    let first: i64 = series[0];
    let last: i64 = series[series.len() - 1];
    let abs: i128 = last as i128 - first as i128;
    let rel: Frac = Frac { num: abs * 100, den: first as i128 };
    Some((rel, abs))
}

/// For a strictly increasing series, the moving averages are themselves
/// strictly increasing, whatever the window size.
pub proof fn lemma_sma_monotonic(s: Seq<i64>, n: int)
    requires
        1 <= n <= s.len(),
        s.len() <= usize::MAX,
        forall|i: int, j: int| 0 <= i < j < s.len() ==> s[i] < s[j],
    ensures
        forall|k: int|
            0 <= k < sma_seq(s, n).len() - 1 ==> frac_lt(
                #[trigger] sma_seq(s, n)[k],
                sma_seq(s, n)[k + 1],
            ),
{
    let a = sma_seq(s, n);
    assert forall|k: int| 0 <= k < a.len() - 1 implies frac_lt(#[trigger] a[k], a[k + 1]) by {
        lemma_window_shift(s, n, k);
        let num1 = seq_sum(s.subrange(k, k + n));
        let num2 = seq_sum(s.subrange(k + 1, k + 1 + n));
        lemma_seq_sum_bound(s.subrange(k, k + n));
        lemma_seq_sum_bound(s.subrange(k + 1, k + 1 + n));
        assert(s[k] < s[k + n]);
        assert(num1 < num2);
        assert(a[k].num as int == num1);
        assert(a[k + 1].num as int == num2);
        assert(a[k].den as int == n && a[k + 1].den as int == n);
        assert(num1 * n < num2 * n) by (nonlinear_arith)
            requires
                num1 < num2,
                n >= 1,
        ;
    }
}

/// The engine is pure: every operation's result is a function of the input
/// series (and window size) alone, so repeated invocation on the same
/// input yields the same results.
pub proof fn lemma_deterministic(s1: Seq<i64>, s2: Seq<i64>, n: int)
    requires
        s1 == s2,
    ensures
        s1.len() > 0 ==> seq_min(s1) == seq_min(s2),
        s1.len() > 0 ==> seq_max(s1) == seq_max(s2),
        sma_seq(s1, n) == sma_seq(s2, n),
        spec_price_diff(s1) == spec_price_diff(s2),
{
}

} // verus!
