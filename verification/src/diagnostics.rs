//! Diagnostics of a trained model: how far the data leave the trained range,
//! in which order rows are looked at, and how steeply the model reacts.

use crate::data::{Matrix, Normalizer, NumericDataset};
use crate::encoders::FeatureSpec;
use crate::lifecycle::{LrSchedule, TrainConfig};
use crate::single::{one, zero, Single, ONE};
use crate::text::{decimal, decimal_text, owned};
use vstd::arithmetic::div_mod::{
    lemma_div_is_ordered, lemma_div_multiples_vanish, lemma_fundamental_div_mod,
    lemma_fundamental_div_mod_converse,
};
use vstd::prelude::*;
use vstd::string::StringExecFns;

verus! {

/// How many values leave the trained range.
#[derive(Debug)]
pub struct RangeReport {
    pub rows_out: usize,
    pub total: usize,
    pub per_feature: Vec<usize>,
}

/// Among the first `n` rows, those whose value in column `c` is out of range.
pub open spec fn column_count(norm: &Normalizer, rows: Seq<Seq<Single>>, c: int, n: nat) -> nat
    decreases n,
{
    if n == 0 {
        0
    } else {
        column_count(norm, rows, c, (n - 1) as nat) + if norm.outside(c, rows[n - 1][c]) {
            1nat
        } else {
            0
        }
    }
}

/// Does a row have a value out of range?
pub open spec fn row_out(norm: &Normalizer, row: Seq<Single>) -> bool {
    exists|c: int| 0 <= c < row.len() && norm.outside(c, #[trigger] row[c])
}

/// Among the first `n` rows, those with a value out of range.
pub open spec fn row_count(norm: &Normalizer, rows: Seq<Seq<Single>>, n: nat) -> nat
    decreases n,
{
    if n == 0 {
        0
    } else {
        row_count(norm, rows, (n - 1) as nat) + if row_out(norm, rows[n - 1]) {
            1nat
        } else {
            0
        }
    }
}

proof fn lemma_counts(norm: &Normalizer, rows: Seq<Seq<Single>>, c: int, n: nat)
    ensures
        column_count(norm, rows, c, n) <= n,
        row_count(norm, rows, n) <= n,
    decreases n,
{
    if n > 0 {
        lemma_counts(norm, rows, c, (n - 1) as nat);
    }
}

/// Counts the values and the rows outside the trained range.
pub fn range_report(in_norm: &Normalizer, inputs: &Matrix) -> (report: RangeReport)
    requires
        in_norm.wf(),
        inputs.wf(),
        inputs.cols <= in_norm.specs@.len(),
    ensures
        report.total == inputs@.len(),
        report.rows_out == row_count(in_norm, inputs@, inputs@.len()),
        report.per_feature@.len() == inputs.cols,
        forall|c: int|
            0 <= c < inputs.cols ==> #[trigger] report.per_feature@[c] == column_count(
                in_norm,
                inputs@,
                c,
                inputs@.len(),
            ),
{
    let mut per_feature: Vec<usize> = Vec::new();
    while per_feature.len() < inputs.cols
        invariant
            per_feature.len() <= inputs.cols,
            forall|c: int| 0 <= c < per_feature.len() ==> per_feature@[c] == 0,
        decreases inputs.cols - per_feature.len(),
    {
        per_feature.push(0);
    }
    let mut rows_out: usize = 0;
    let n: usize = inputs.nrows();
    let ghost rows = inputs@;
    let mut r: usize = 0;
    while r < n
        invariant
            in_norm.wf(),
            inputs.wf(),
            inputs.cols <= in_norm.specs@.len(),
            rows == inputs@,
            r <= n == rows.len(),
            rows_out == row_count(in_norm, rows, r as nat),
            per_feature.len() == inputs.cols,
            forall|c: int|
                0 <= c < inputs.cols ==> #[trigger] per_feature@[c] == column_count(
                    in_norm,
                    rows,
                    c,
                    r as nat,
                ),
        decreases n - r,
    {
        let mut any: bool = false;
        let mut c: usize = 0;
        assert(rows[r as int].len() == inputs.cols);
        while c < inputs.cols
            invariant
                in_norm.wf(),
                inputs.wf(),
                inputs.cols <= in_norm.specs@.len(),
                rows == inputs@,
                r < n == rows.len(),
                rows[r as int].len() == inputs.cols,
                c <= inputs.cols,
                per_feature.len() == inputs.cols,
                any == exists|k: int|
                    0 <= k < c && in_norm.outside(k, #[trigger] rows[r as int][k]),
                forall|k: int|
                    0 <= k < inputs.cols ==> #[trigger] per_feature@[k] == column_count(
                        in_norm,
                        rows,
                        k,
                        if k < c {
                            (r + 1) as nat
                        } else {
                            r as nat
                        },
                    ),
            decreases inputs.cols - c,
        {
            proof {
                lemma_counts(in_norm, rows, c as int, r as nat);
            }
            let v: Single = inputs.at(r, c);
            if in_norm.is_outside(c, v) {
                any = true;
                assert(in_norm.outside(c as int, rows[r as int][c as int]));
                let count: usize = per_feature[c];
                per_feature.set(c, count + 1);
            }
            c += 1;
        }
        proof {
            lemma_counts(in_norm, rows, 0, r as nat);
            assert(any == row_out(in_norm, rows[r as int]));
        }
        if any {
            rows_out += 1;
        }
        r += 1;
    }
    RangeReport { rows_out, total: n, per_feature }
}

/// Where bucket `b` of `buckets` begins among `n` rows.
pub open spec fn bucket_start(n: int, buckets: int, b: int) -> int {
    b * n / buckets
}

/// The order of rows from a place on: the rows number `offset` of all buckets
/// from `bucket` on, then those number `offset + 1`, and so on.
pub open spec fn spread_from(
    n: int,
    buckets: int,
    longest: int,
    offset: int,
    bucket: int,
    found: Seq<usize>,
) -> Seq<usize>
    decreases longest - offset, buckets - bucket,
{
    if offset >= longest {
        found
    } else if bucket >= buckets {
        spread_from(n, buckets, longest, offset + 1, 0, found)
    } else {
        let index = bucket_start(n, buckets, bucket) + offset;
        spread_from(
            n,
            buckets,
            longest,
            offset,
            bucket + 1,
            if index < bucket_start(n, buckets, bucket + 1) {
                found.push(index as usize)
            } else {
                found
            },
        )
    }
}

pub open spec fn bucket_count(n: int, max_pairs: int) -> int {
    if n < max_pairs {
        n
    } else {
        max_pairs
    }
}

/// The length of the longest bucket: `n / buckets`, rounded up.
pub open spec fn longest_bucket(n: int, buckets: int) -> int {
    (n + buckets - 1) / buckets
}

/// The order in which base rows are tried.
pub open spec fn spread(n: int, max_pairs: int) -> Seq<usize> {
    let buckets = bucket_count(n, max_pairs);
    spread_from(n, buckets, longest_bucket(n, buckets), 0, 0, Seq::empty())
}

proof fn lemma_starts(n: int, buckets: int, b: int)
    requires
        0 <= b < buckets <= n,
    ensures
        0 <= bucket_start(n, buckets, b) < bucket_start(n, buckets, b + 1) <= n,
        bucket_start(n, buckets, b + 1) - bucket_start(n, buckets, b) <= longest_bucket(
            n,
            buckets,
        ),
        bucket_start(n, buckets, 0) == 0,
        bucket_start(n, buckets, buckets) == n,
        0 <= b * n <= n * buckets,
        0 <= (b + 1) * n <= n * buckets,
{
    let s = b * n / buckets;
    let t = (b + 1) * n / buckets;
    assert((b + 1) * n == b * n + n) by (nonlinear_arith);
    assert(0 <= b * n) by (nonlinear_arith)
        requires
            0 <= b,
            0 <= n,
    ;
    assert((b + 1) * n <= n * buckets) by (nonlinear_arith)
        requires
            b + 1 <= buckets,
            0 <= n,
    ;
    lemma_fundamental_div_mod(b * n, buckets);
    lemma_fundamental_div_mod((b + 1) * n, buckets);
    lemma_fundamental_div_mod(n + buckets - 1, buckets);
    lemma_div_multiples_vanish(n, buckets);
    assert(n * buckets == buckets * n) by (nonlinear_arith);
    lemma_div_is_ordered((b + 1) * n, n * buckets, buckets);
    assert(0 * n == 0) by (nonlinear_arith);
    let l = longest_bucket(n, buckets);
    let rs = (b * n) % buckets;
    let rt = ((b + 1) * n) % buckets;
    let rl = (n + buckets - 1) % buckets;
    assert(s < t) by (nonlinear_arith)
        requires
            b * n == buckets * s + rs,
            b * n + n == buckets * t + rt,
            0 <= rs < buckets,
            0 <= rt < buckets,
            n >= buckets,
            buckets > 0,
    ;
    assert(t - s <= l) by (nonlinear_arith)
        requires
            b * n == buckets * s + rs,
            b * n + n == buckets * t + rt,
            n + buckets - 1 == buckets * l + rl,
            0 <= rs < buckets,
            0 <= rt < buckets,
            0 <= rl < buckets,
            buckets > 0,
    ;
    assert(s >= 0) by (nonlinear_arith)
        requires
            b * n == buckets * s + rs,
            0 <= rs < buckets,
            0 <= b * n,
            buckets > 0,
    ;
}

/// The order in which base rows are tried: first one row of each of
/// `max_pairs` even buckets over the whole table, then their second rows, and
/// so on.
pub fn distributed_indices(n: usize, max_pairs: usize) -> (indices: Vec<usize>)
    requires
        n > 0,
        max_pairs > 0,
        n * bucket_count(n as int, max_pairs as int) <= usize::MAX,
    ensures
        indices@ == spread(n as int, max_pairs as int),
{
    let buckets: usize = if n < max_pairs {
        n
    } else {
        max_pairs
    };
    proof {
        let q = n as int / buckets as int;
        let m = n as int % buckets as int;
        lemma_fundamental_div_mod(n as int, buckets as int);
        assert(m > 0 ==> q < n) by (nonlinear_arith)
            requires
                n == buckets * q + m,
                buckets > 0,
        ;
    }
    let longest: usize = if n % buckets == 0 {
        n / buckets
    } else {
        n / buckets + 1
    };
    proof {
        let q = n as int / buckets as int;
        let m = n as int % buckets as int;
        lemma_fundamental_div_mod(n as int, buckets as int);
        if m == 0 {
            assert(n + buckets - 1 == q * buckets + (buckets - 1)) by (nonlinear_arith)
                requires
                    n == buckets * q + m,
                    m == 0,
            ;
            lemma_fundamental_div_mod_converse(
                n + buckets - 1,
                buckets as int,
                q,
                buckets - 1,
            );
        } else {
            assert(n + buckets - 1 == (q + 1) * buckets + (m - 1)) by (nonlinear_arith)
                requires
                    n == buckets * q + m,
            ;
            lemma_fundamental_div_mod_converse(n + buckets - 1, buckets as int, q + 1, m - 1);
        }
        assert(longest == longest_bucket(n as int, buckets as int));
    }
    let mut indices: Vec<usize> = Vec::new();
    let mut offset: usize = 0;
    while offset < longest
        invariant
            0 < buckets <= n,
            n * buckets <= usize::MAX,
            offset <= longest,
            spread_from(
                n as int,
                buckets as int,
                longest as int,
                offset as int,
                0,
                indices@,
            ) == spread(n as int, max_pairs as int),
        decreases longest - offset,
    {
        let mut bucket: usize = 0;
        while bucket < buckets
            invariant
                0 < buckets <= n,
                n * buckets <= usize::MAX,
                offset < longest,
                bucket <= buckets,
                spread_from(
                    n as int,
                    buckets as int,
                    longest as int,
                    offset as int,
                    bucket as int,
                    indices@,
                ) == spread(n as int, max_pairs as int),
            decreases buckets - bucket,
        {
            proof {
                lemma_starts(n as int, buckets as int, bucket as int);
            }
            let start: usize = bucket * n / buckets;
            let end: usize = (bucket + 1) * n / buckets;
            if offset < end - start {
                indices.push(start + offset);
            }
            bucket += 1;
        }
        offset += 1;
    }
    indices
}

/// What the order holds when everything before `(offset, bucket)` was looked
/// at: the rows of each bucket up to that place, each once.
pub open spec fn spread_upto(
    n: int,
    buckets: int,
    offset: int,
    bucket: int,
    found: Seq<usize>,
) -> bool {
    &&& found.no_duplicates()
    &&& forall|i: usize| #[trigger]
        found.contains(i) <==> exists|b: int|
            #![trigger bucket_start(n, buckets, b)]
            {
                &&& 0 <= b < buckets
                &&& bucket_start(n, buckets, b) <= i < bucket_start(n, buckets, b + 1)
                &&& i - bucket_start(n, buckets, b) < offset || (i - bucket_start(n, buckets, b)
                    == offset && b < bucket)
            }
}

proof fn lemma_start_order(n: int, buckets: int, a: int, b: int)
    requires
        0 <= a <= b <= buckets <= n,
        buckets > 0,
    ensures
        bucket_start(n, buckets, a) <= bucket_start(n, buckets, b),
    decreases b - a,
{
    if a < b {
        lemma_start_order(n, buckets, a, b - 1);
        lemma_starts(n, buckets, b - 1);
    }
}

/// No row lies in two buckets.
proof fn lemma_one_bucket(n: int, buckets: int, a: int, b: int, i: int)
    requires
        0 <= a < buckets <= n,
        0 <= b < buckets,
        bucket_start(n, buckets, a) <= i < bucket_start(n, buckets, a + 1),
        bucket_start(n, buckets, b) <= i < bucket_start(n, buckets, b + 1),
    ensures
        a == b,
{
    if a < b {
        lemma_start_order(n, buckets, a + 1, b);
    }
    if b < a {
        lemma_start_order(n, buckets, b + 1, a);
    }
}

proof fn lemma_spread_step(
    n: int,
    buckets: int,
    offset: int,
    bucket: int,
    found: Seq<usize>,
    next: Seq<usize>,
)
    requires
        0 < buckets <= n <= usize::MAX,
        0 <= offset,
        0 <= bucket < buckets,
        spread_upto(n, buckets, offset, bucket, found),
        next == if bucket_start(n, buckets, bucket) + offset < bucket_start(
            n,
            buckets,
            bucket + 1,
        ) {
            found.push((bucket_start(n, buckets, bucket) + offset) as usize)
        } else {
            found
        },
    ensures
        spread_upto(n, buckets, offset, bucket + 1, next),
{
    let s = bucket_start(n, buckets, bucket);
    let e = bucket_start(n, buckets, bucket + 1);
    lemma_starts(n, buckets, bucket);
    let x = (s + offset) as usize;
    if s + offset < e {
        assert(!found.contains(x)) by {
            if found.contains(x) {
                let b = choose|b: int|
                    #![trigger bucket_start(n, buckets, b)]
                    {
                        &&& 0 <= b < buckets
                        &&& bucket_start(n, buckets, b) <= x < bucket_start(n, buckets, b + 1)
                        &&& x - bucket_start(n, buckets, b) < offset || (x - bucket_start(
                            n,
                            buckets,
                            b,
                        ) == offset && b < bucket)
                    };
                lemma_one_bucket(n, buckets, b, bucket, x as int);
            }
        }
        assert(next.no_duplicates()) by {
            assert forall|i: int, j: int|
                0 <= i < next.len() && 0 <= j < next.len() && i != j implies next[i]
                != next[j] by {
                if i == found.len() {
                    assert(found.contains(found[j]));
                } else if j == found.len() {
                    assert(found.contains(found[i]));
                }
            }
        }
    }
    assert forall|i: usize| #[trigger] next.contains(i) <==> exists|b: int|
        #![trigger bucket_start(n, buckets, b)]
        {
            &&& 0 <= b < buckets
            &&& bucket_start(n, buckets, b) <= i < bucket_start(n, buckets, b + 1)
            &&& i - bucket_start(n, buckets, b) < offset || (i - bucket_start(n, buckets, b)
                == offset && b < bucket + 1)
        } by {
        if next.contains(i) {
            let k = choose|k: int| 0 <= k < next.len() && next[k] == i;
            if k < found.len() {
                assert(found[k] == i);
                assert(found.contains(i));
            } else {
                assert(i == x);
                assert(bucket_start(n, buckets, bucket) <= i);
            }
        }
        if found.contains(i) {
            let k = choose|k: int| 0 <= k < found.len() && found[k] == i;
            assert(next[k] == i);
        }
        if s + offset < e && i == x {
            assert(next[found.len() as int] == i);
        }
        if exists|b: int|
            #![trigger bucket_start(n, buckets, b)]
            {
                &&& 0 <= b < buckets
                &&& bucket_start(n, buckets, b) <= i < bucket_start(n, buckets, b + 1)
                &&& i - bucket_start(n, buckets, b) < offset || (i - bucket_start(n, buckets, b)
                    == offset && b < bucket + 1)
            } {
            let b = choose|b: int|
                #![trigger bucket_start(n, buckets, b)]
                {
                    &&& 0 <= b < buckets
                    &&& bucket_start(n, buckets, b) <= i < bucket_start(n, buckets, b + 1)
                    &&& i - bucket_start(n, buckets, b) < offset || (i - bucket_start(
                        n,
                        buckets,
                        b,
                    ) == offset && b < bucket + 1)
                };
            if i - bucket_start(n, buckets, b) == offset && b == bucket {
                assert(i == x);
                assert(next.contains(i));
            } else {
                assert(found.contains(i));
            }
        }
    }
}

proof fn lemma_spread_next_offset(
    n: int,
    buckets: int,
    offset: int,
    found: Seq<usize>,
)
    requires
        0 < buckets <= n <= usize::MAX,
        0 <= offset,
        spread_upto(n, buckets, offset, buckets, found),
    ensures
        spread_upto(n, buckets, offset + 1, 0, found),
{
    assert forall|i: usize| #[trigger] found.contains(i) <==> exists|b: int|
        #![trigger bucket_start(n, buckets, b)]
        {
            &&& 0 <= b < buckets
            &&& bucket_start(n, buckets, b) <= i < bucket_start(n, buckets, b + 1)
            &&& i - bucket_start(n, buckets, b) < offset + 1 || (i - bucket_start(n, buckets, b)
                == offset + 1 && b < 0)
        } by {
        if found.contains(i) {
            let b = choose|b: int|
                #![trigger bucket_start(n, buckets, b)]
                {
                    &&& 0 <= b < buckets
                    &&& bucket_start(n, buckets, b) <= i < bucket_start(n, buckets, b + 1)
                    &&& i - bucket_start(n, buckets, b) < offset || (i - bucket_start(
                        n,
                        buckets,
                        b,
                    ) == offset && b < buckets)
                };
            assert(bucket_start(n, buckets, b) <= i);
        }
    }
}

proof fn lemma_spread_from(
    n: int,
    buckets: int,
    longest: int,
    offset: int,
    bucket: int,
    found: Seq<usize>,
)
    requires
        0 < buckets <= n <= usize::MAX,
        0 <= offset <= longest,
        0 <= bucket <= buckets,
        offset == longest ==> bucket == 0,
        spread_upto(n, buckets, offset, bucket, found),
    ensures
        spread_upto(
            n,
            buckets,
            longest,
            0,
            spread_from(n, buckets, longest, offset, bucket, found),
        ),
    decreases longest - offset, buckets - bucket,
{
    if offset < longest {
        if bucket >= buckets {
            lemma_spread_next_offset(n, buckets, offset, found);
            lemma_spread_from(n, buckets, longest, offset + 1, 0, found);
        } else {
            let index = bucket_start(n, buckets, bucket) + offset;
            let next = if index < bucket_start(n, buckets, bucket + 1) {
                found.push(index as usize)
            } else {
                found
            };
            lemma_spread_step(n, buckets, offset, bucket, found, next);
            lemma_spread_from(n, buckets, longest, offset, bucket + 1, next);
        }
    }
}

/// Every row lies in some bucket.
proof fn lemma_some_bucket(n: int, buckets: int, k: int, i: int) -> (b: int)
    requires
        0 < buckets <= n,
        0 <= k <= buckets,
        0 <= i < bucket_start(n, buckets, k),
    ensures
        0 <= b < k,
        bucket_start(n, buckets, b) <= i < bucket_start(n, buckets, b + 1),
    decreases k,
{
    lemma_starts(n, buckets, 0);
    if k == 0 {
        0
    } else if i < bucket_start(n, buckets, k - 1) {
        lemma_some_bucket(n, buckets, k - 1, i)
    } else {
        k - 1
    }
}

/// The order covers the whole table: every row occurs exactly once, whatever
/// the number of pairs asked for.
pub proof fn law_spread_covers_the_table(n: int, max_pairs: int)
    requires
        0 < n <= usize::MAX,
        0 < max_pairs,
    ensures
        spread(n, max_pairs).no_duplicates(),
        forall|i: usize| #[trigger] spread(n, max_pairs).contains(i) <==> i < n,
{
    let buckets = bucket_count(n, max_pairs);
    let longest = longest_bucket(n, buckets);
    let none = Seq::<usize>::empty();
    assert(longest >= 0) by {
        lemma_starts(n, buckets, 0);
    }
    assert(spread_upto(n, buckets, 0, 0, none));
    lemma_spread_from(n, buckets, longest, 0, 0, none);
    let all = spread(n, max_pairs);
    assert forall|i: usize| #[trigger] all.contains(i) <==> i < n by {
        lemma_starts(n, buckets, 0);
        if i < n {
            let b = lemma_some_bucket(n, buckets, buckets, i as int);
            lemma_starts(n, buckets, b);
            assert(bucket_start(n, buckets, b) <= i);
        }
        if all.contains(i) {
            let b = choose|b: int|
                #![trigger bucket_start(n, buckets, b)]
                {
                    &&& 0 <= b < buckets
                    &&& bucket_start(n, buckets, b) <= i < bucket_start(n, buckets, b + 1)
                    &&& i - bucket_start(n, buckets, b) < longest || (i - bucket_start(
                        n,
                        buckets,
                        b,
                    ) == longest && b < 0)
                };
            lemma_starts(n, buckets, b);
        }
    }
}

/// Why the sensitivity of a model cannot be measured.
#[derive(Clone, Copy, Debug, PartialEq, Eq, Structural)]
pub enum SensitivityError {
    /// The step is not in (0, 1].
    BadStep,
    /// No pairs were asked for.
    NoPairsAsked,
    SpecCount { specs: usize, inputs: usize },
    InputNorm,
    OutputNorm,
    InputNotFinite,
    ReferenceDims,
    /// All inputs are categorical.
    NoContinuous,
    /// A scale of a normalizer is not a positive number.
    BadScale,
    TooFewRows,
    /// No two rows have equal categories and different numbers.
    NoPairs,
    /// The outputs do not have the shape of the pairs.
    Shape,
    StepNotFinite,
    PredictionNotFinite,
    RatioNotFinite,
    /// Every step is zero.
    Degenerate,
}

impl SensitivityError {
    /// What is said of the error; `source` names what gave the outputs.
    pub open spec fn text(self, source: Seq<char>) -> Seq<char> {
        match self {
            SensitivityError::BadStep => "доля шага должна быть в (0, 1]"@,
            SensitivityError::NoPairsAsked => "число пар должно быть больше нуля"@,
            SensitivityError::InputNorm => "нормализатор входов не соответствует данным и их типам"@,
            SensitivityError::OutputNorm => "нормализатор выходов не соответствует данным"@,
            SensitivityError::InputNotFinite => "входные данные содержат NaN или бесконечность"@,
            SensitivityError::ReferenceDims => "размерность исходного процесса не соответствует данным"@,
            SensitivityError::NoContinuous => "все входы категориальные: возмущать нечего"@,
            SensitivityError::BadScale => "нормализатор содержит некорректный масштаб"@,
            SensitivityError::TooFewRows => "нужно хотя бы две строки данных"@,
            SensitivityError::NoPairs => "не нашлось пар строк с одинаковыми категориями и разными числовыми входами"@,
            SensitivityError::StepNotFinite => "расстояние между входами не является конечным"@,
            SensitivityError::Degenerate => "пары оказались вырожденными: нулевой шаг по входам"@,
            SensitivityError::Shape => source + ": форма выходов не соответствует парам и нормализатору"@,
            SensitivityError::PredictionNotFinite => source + ": предсказание содержит NaN или бесконечность"@,
            SensitivityError::RatioNotFinite => source + ": чувствительность не является конечной"@,
            SensitivityError::SpecCount { specs, inputs } => "спецификации описывают "@ + decimal(
                specs as nat,
            ) + " входов, а в данных "@ + decimal(inputs as nat),
        }
    }

    pub fn message(&self, source: &str) -> (text: String)
        ensures
            text@ == self.text(source@),
    {
        match *self {
            SensitivityError::BadStep => owned("доля шага должна быть в (0, 1]"),
            SensitivityError::NoPairsAsked => owned("число пар должно быть больше нуля"),
            SensitivityError::InputNorm => owned("нормализатор входов не соответствует данным и их типам"),
            SensitivityError::OutputNorm => owned("нормализатор выходов не соответствует данным"),
            SensitivityError::InputNotFinite => owned("входные данные содержат NaN или бесконечность"),
            SensitivityError::ReferenceDims => owned("размерность исходного процесса не соответствует данным"),
            SensitivityError::NoContinuous => owned("все входы категориальные: возмущать нечего"),
            SensitivityError::BadScale => owned("нормализатор содержит некорректный масштаб"),
            SensitivityError::TooFewRows => owned("нужно хотя бы две строки данных"),
            SensitivityError::NoPairs => owned("не нашлось пар строк с одинаковыми категориями и разными числовыми входами"),
            SensitivityError::StepNotFinite => owned("расстояние между входами не является конечным"),
            SensitivityError::Degenerate => owned("пары оказались вырожденными: нулевой шаг по входам"),
            SensitivityError::Shape => {
                let mut text: String = owned(source);
                text.append(": форма выходов не соответствует парам и нормализатору");
                text
            },
            SensitivityError::PredictionNotFinite => {
                let mut text: String = owned(source);
                text.append(": предсказание содержит NaN или бесконечность");
                text
            },
            SensitivityError::RatioNotFinite => {
                let mut text: String = owned(source);
                text.append(": чувствительность не является конечной");
                text
            },
            SensitivityError::SpecCount { specs, inputs } => {
                let mut text: String = owned("спецификации описывают ");
                text.append(decimal_text(specs as u64).as_str());
                text.append(" входов, а в данных ");
                text.append(decimal_text(inputs as u64).as_str());
                text
            },
        }
    }
}

/// The single-precision value of 0.000000001: two rows closer than this count
/// as one.
pub const SAME_ROW: u32 = 0x3089_705f;

pub open spec fn any_not_finite(rows: Seq<Seq<Single>>) -> bool {
    exists|r: int, c: int|
        0 <= r < rows.len() && 0 <= c < rows[r].len() && !(#[trigger] rows[r][c]).finite()
}

pub open spec fn usable_scale(s: Single) -> bool {
    s.finite() && zero().less(s)
}

pub open spec fn continuous_count(specs: Seq<FeatureSpec>) -> nat
    decreases specs.len(),
{
    if specs.len() == 0 {
        0
    } else {
        continuous_count(specs.drop_last()) + if specs.last() is Continuous {
            1nat
        } else {
            0
        }
    }
}

/// A continuous input or an output without a usable scale.
pub open spec fn bad_scale(specs: Seq<FeatureSpec>, in_std: Seq<Single>, out_std: Seq<Single>) -> bool {
    ||| exists|j: int|
        0 <= j < specs.len() && specs[j] is Continuous && !usable_scale(#[trigger] in_std[j])
    ||| exists|j: int| 0 <= j < out_std.len() && !usable_scale(#[trigger] out_std[j])
}

/// The first reason, in the order of the checks, why nothing can be measured.
pub open spec fn sensitivity_fault(
    data: &NumericDataset,
    specs: Seq<FeatureSpec>,
    in_norm: &Normalizer,
    out_norm: &Normalizer,
    reference: Option<(usize, usize)>,
    alpha: Single,
    max_pairs: usize,
) -> Option<SensitivityError> {
    if !(zero().less(alpha) && alpha.at_most(one())) {
        Some(SensitivityError::BadStep)
    } else if max_pairs == 0 {
        Some(SensitivityError::NoPairsAsked)
    } else if specs.len() != data.inputs.cols {
        Some(
            SensitivityError::SpecCount { specs: specs.len() as usize, inputs: data.inputs.cols },
        )
    } else if in_norm.mean@.len() != data.inputs.cols || in_norm.specs@ != specs {
        Some(SensitivityError::InputNorm)
    } else if out_norm.mean@.len() != data.outputs.cols {
        Some(SensitivityError::OutputNorm)
    } else if any_not_finite(data.inputs@) {
        Some(SensitivityError::InputNotFinite)
    } else if reference is Some && reference != Some((data.inputs.cols, data.outputs.cols)) {
        Some(SensitivityError::ReferenceDims)
    } else if continuous_count(specs) == 0 {
        Some(SensitivityError::NoContinuous)
    } else if bad_scale(specs, in_norm.std@, out_norm.std@) {
        Some(SensitivityError::BadScale)
    } else if data.inputs@.len() < 2 {
        Some(SensitivityError::TooFewRows)
    } else {
        None
    }
}

fn same_specs(a: &Vec<FeatureSpec>, b: &Vec<FeatureSpec>) -> (yes: bool)
    ensures
        yes == (a@ == b@),
{
    if a.len() != b.len() {
        return false;
    }
    let mut i: usize = 0;
    while i < a.len()
        invariant
            i <= a.len() == b.len(),
            forall|k: int| 0 <= k < i ==> a@[k] == b@[k],
        decreases a.len() - i,
    {
        if a[i] != b[i] {
            return false;
        }
        i += 1;
    }
    assert(a@ =~= b@);
    true
}

fn has_not_finite(m: &Matrix) -> (yes: bool)
    requires
        m.wf(),
    ensures
        yes == any_not_finite(m@),
{
    let mut r: usize = 0;
    while r < m.nrows()
        invariant
            m.wf(),
            r <= m@.len(),
            forall|a: int, c: int|
                0 <= a < r && 0 <= c < m@[a].len() ==> (#[trigger] m@[a][c]).finite(),
        decreases m@.len() - r,
    {
        let mut c: usize = 0;
        assert(m@[r as int].len() == m.cols);
        while c < m.cols
            invariant
                m.wf(),
                r < m@.len(),
                c <= m.cols,
                m@[r as int].len() == m.cols,
                forall|a: int, q: int|
                    0 <= a < r && 0 <= q < m@[a].len() ==> (#[trigger] m@[a][q]).finite(),
                forall|q: int| 0 <= q < c ==> (#[trigger] m@[r as int][q]).finite(),
            decreases m.cols - c,
        {
            if !m.at(r, c).is_finite() {
                assert(!m@[r as int][c as int].finite());
                return true;
            }
            c += 1;
        }
        r += 1;
    }
    false
}

fn is_usable(s: Single) -> (yes: bool)
    ensures
        yes == usable_scale(s),
{
    s.is_finite() && (Single { bits: 0 }).is_less(s)
}

fn has_bad_scale(
    specs: &Vec<FeatureSpec>,
    in_std: &Vec<Single>,
    out_std: &Vec<Single>,
) -> (yes: bool)
    requires
        specs@.len() == in_std@.len(),
    ensures
        yes == bad_scale(specs@, in_std@, out_std@),
{
    let mut j: usize = 0;
    while j < specs.len()
        invariant
            j <= specs@.len() == in_std@.len(),
            forall|k: int|
                0 <= k < j && specs@[k] is Continuous ==> usable_scale(#[trigger] in_std@[k]),
        decreases specs@.len() - j,
    {
        let continuous: bool = match specs[j] {
            FeatureSpec::Continuous => true,
            FeatureSpec::Categorical { .. } => false,
        };
        if continuous && !is_usable(in_std[j]) {
            assert(!usable_scale(in_std@[j as int]));
            return true;
        }
        j += 1;
    }
    let mut k: usize = 0;
    while k < out_std.len()
        invariant
            k <= out_std@.len(),
            forall|q: int| 0 <= q < k ==> usable_scale(#[trigger] out_std@[q]),
        decreases out_std@.len() - k,
    {
        if !is_usable(out_std[k]) {
            assert(!usable_scale(out_std@[k as int]));
            return true;
        }
        k += 1;
    }
    false
}

fn count_continuous(specs: &Vec<FeatureSpec>) -> (n: usize)
    ensures
        n == continuous_count(specs@),
        n <= specs@.len(),
{
    let mut n: usize = 0;
    let mut i: usize = 0;
    while i < specs.len()
        invariant
            i <= specs@.len(),
            n <= i,
            n == continuous_count(specs@.take(i as int)),
        decreases specs@.len() - i,
    {
        assert(specs@.take(i + 1).drop_last() =~= specs@.take(i as int));
        match specs[i] {
            FeatureSpec::Continuous => {
                n += 1;
            },
            FeatureSpec::Categorical { .. } => {},
        }
        i += 1;
    }
    assert(specs@.take(i as int) =~= specs@);
    n
}

/// Checks whether sensitivity can be measured at all. On success, the number
/// of categorical inputs, which are never moved.
pub fn sensitivity_checks(
    data: &NumericDataset,
    specs: &Vec<FeatureSpec>,
    in_norm: &Normalizer,
    out_norm: &Normalizer,
    reference: Option<(usize, usize)>,
    alpha: Single,
    max_pairs: usize,
) -> (out: Result<usize, SensitivityError>)
    requires
        data.wf(),
        in_norm.wf(),
        out_norm.wf(),
    ensures
        match out {
            Ok(categorical) => {
                &&& sensitivity_fault(
                    data,
                    specs@,
                    in_norm,
                    out_norm,
                    reference,
                    alpha,
                    max_pairs,
                ) is None
                &&& categorical == specs@.len() - continuous_count(specs@)
            },
            Err(e) => sensitivity_fault(
                data,
                specs@,
                in_norm,
                out_norm,
                reference,
                alpha,
                max_pairs,
            ) == Some(e),
        },
{
    if !((Single { bits: 0 }).is_less(alpha) && alpha.is_at_most(Single { bits: ONE })) {
        return Err(SensitivityError::BadStep);
    }
    if max_pairs == 0 {
        return Err(SensitivityError::NoPairsAsked);
    }
    let n_features: usize = data.inputs.ncols();
    let n_outputs: usize = data.outputs.ncols();
    if specs.len() != n_features {
        return Err(SensitivityError::SpecCount { specs: specs.len(), inputs: n_features });
    }
    if in_norm.n_features() != n_features || !same_specs(&in_norm.specs, specs) {
        return Err(SensitivityError::InputNorm);
    }
    if out_norm.n_features() != n_outputs {
        return Err(SensitivityError::OutputNorm);
    }
    if has_not_finite(&data.inputs) {
        return Err(SensitivityError::InputNotFinite);
    }
    match reference {
        Some((inputs, outputs)) => {
            if inputs != n_features || outputs != n_outputs {
                return Err(SensitivityError::ReferenceDims);
            }
        },
        None => {},
    }
    let continuous: usize = count_continuous(specs);
    if continuous == 0 {
        return Err(SensitivityError::NoContinuous);
    }
    if has_bad_scale(specs, &in_norm.std, &out_norm.std) {
        return Err(SensitivityError::BadScale);
    }
    if data.len() < 2 {
        return Err(SensitivityError::TooFewRows);
    }
    Ok(specs.len() - continuous)
}

/// May row `k` be the partner of `base`? `distances` holds the distance to
/// each row with the same categories.
pub open spec fn partner(distances: Seq<Option<Single>>, base: int, k: int) -> bool {
    &&& 0 <= k < distances.len()
    &&& k != base
    &&& distances[k] is Some
    &&& (Single { bits: SAME_ROW }).less(distances[k]->0)
}

/// The nearest partner of a row, the first of several equally near; none
/// where the row has no partner.
pub open spec fn is_nearest(distances: Seq<Option<Single>>, base: int, best: Option<usize>) -> bool {
    match best {
        Some(b) => {
            &&& partner(distances, base, b as int)
            &&& forall|k: int| #[trigger]
                partner(distances, base, k) ==> !distances[k]->0.less(distances[b as int]->0)
            &&& forall|k: int| #[trigger]
                partner(distances, base, k) && k < b ==> distances[b as int]->0.less(
                    distances[k]->0,
                )
        },
        None => forall|k: int| !#[trigger] partner(distances, base, k),
    }
}

pub fn nearest_row(distances: &Vec<Option<Single>>, base: usize) -> (best: Option<usize>)
    ensures
        is_nearest(distances@, base as int, best),
{
    let mut best: Option<(usize, Single)> = None;
    let mut k: usize = 0;
    while k < distances.len()
        invariant
            k <= distances@.len(),
            match best {
                Some(b) => {
                    &&& b.0 < k
                    &&& partner(distances@, base as int, b.0 as int)
                    &&& b.1 == distances@[b.0 as int]->0
                    &&& forall|q: int| #[trigger]
                        partner(distances@, base as int, q) && q < k ==> !distances@[q]->0.less(
                            b.1,
                        )
                    &&& forall|q: int| #[trigger]
                        partner(distances@, base as int, q) && q < b.0 ==> b.1.less(
                            distances@[q]->0,
                        )
                },
                None => forall|q: int| q < k ==> !#[trigger] partner(distances@, base as int, q),
            },
        decreases distances@.len() - k,
    {
        match distances[k] {
            Some(d) => {
                if k != base && (Single { bits: SAME_ROW }).is_less(d) {
                    assert(partner(distances@, base as int, k as int));
                    let nearer: bool = match best {
                        Some((_, best_d)) => d.is_less(best_d),
                        None => true,
                    };
                    if nearer {
                        best = Some((k, d));
                    }
                }
            },
            None => {},
        }
        k += 1;
    }
    match best {
        Some((b, _)) => Some(b),
        None => None,
    }
}

/// The pairs from place `k` of the order on: the rows that have a partner, in
/// that order, until there are `max_pairs` of them.
pub open spec fn pairs_from(
    order: Seq<usize>,
    partners: Seq<Option<usize>>,
    max_pairs: nat,
    k: int,
    found: Seq<(usize, usize)>,
) -> Seq<(usize, usize)>
    decreases order.len() - k,
{
    if k < 0 || k >= order.len() || found.len() >= max_pairs {
        found
    } else {
        pairs_from(
            order,
            partners,
            max_pairs,
            k + 1,
            match partners[order[k] as int] {
                Some(other) => found.push((order[k], other)),
                None => found,
            },
        )
    }
}

/// Picks the pairs of rows to compare. `partners` holds the nearest partner
/// of each row.
pub fn choose_pairs(partners: &Vec<Option<usize>>, max_pairs: usize) -> (out: Result<
    Vec<(usize, usize)>,
    SensitivityError,
>)
    requires
        partners@.len() > 0,
        max_pairs > 0,
        partners@.len() * bucket_count(partners@.len() as int, max_pairs as int) <= usize::MAX,
    ensures
        ({
            let pairs = pairs_from(
                spread(partners@.len() as int, max_pairs as int),
                partners@,
                max_pairs as nat,
                0,
                Seq::empty(),
            );
            match out {
                Ok(found) => found@ == pairs && pairs.len() > 0,
                Err(e) => e == SensitivityError::NoPairs && pairs.len() == 0,
            }
        }),
{
    let order: Vec<usize> = distributed_indices(partners.len(), max_pairs);
    let mut found: Vec<(usize, usize)> = Vec::new();
    let mut k: usize = 0;
    proof {
        law_spread_covers_the_table(partners@.len() as int, max_pairs as int);
    }
    while k < order.len() && found.len() < max_pairs
        invariant
            k <= order@.len(),
            order@ == spread(partners@.len() as int, max_pairs as int),
            forall|i: usize| #[trigger]
                spread(partners@.len() as int, max_pairs as int).contains(i) <==> i
                    < partners@.len(),
            pairs_from(order@, partners@, max_pairs as nat, k as int, found@) == pairs_from(
                order@,
                partners@,
                max_pairs as nat,
                0,
                Seq::empty(),
            ),
        decreases order@.len() - k,
    {
        let base: usize = order[k];
        assert(order@.contains(base));
        match partners[base] {
            Some(other) => {
                found.push((base, other));
            },
            None => {},
        }
        k += 1;
    }
    if found.len() == 0 {
        return Err(SensitivityError::NoPairs);
    }
    Ok(found)
}

/// The chosen pairs are never more than asked for, begin with different rows,
/// and join each row with its own partner.
pub proof fn law_pairs_are_distinct(
    order: Seq<usize>,
    partners: Seq<Option<usize>>,
    max_pairs: nat,
)
    requires
        order.no_duplicates(),
    ensures
        ({
            let pairs = pairs_from(order, partners, max_pairs, 0, Seq::empty());
            &&& pairs.len() <= max_pairs
            &&& forall|i: int|
                0 <= i < pairs.len() ==> partners[(#[trigger] pairs[i]).0 as int] == Some(
                    pairs[i].1,
                )
            &&& forall|i: int, j: int|
                0 <= i < j < pairs.len() ==> (#[trigger] pairs[i]).0 != (#[trigger] pairs[j]).0
        }),
{
    lemma_pairs(order, partners, max_pairs, 0, Seq::empty());
}

pub open spec fn sound_pairs(
    order: Seq<usize>,
    partners: Seq<Option<usize>>,
    max_pairs: nat,
    k: int,
    pairs: Seq<(usize, usize)>,
) -> bool {
    &&& pairs.len() <= max_pairs
    &&& forall|i: int|
        0 <= i < pairs.len() ==> partners[(#[trigger] pairs[i]).0 as int] == Some(pairs[i].1)
    &&& forall|i: int|
        0 <= i < pairs.len() ==> order.take(k).contains((#[trigger] pairs[i]).0)
    &&& forall|i: int, j: int|
        0 <= i < j < pairs.len() ==> (#[trigger] pairs[i]).0 != (#[trigger] pairs[j]).0
}

proof fn lemma_pairs(
    order: Seq<usize>,
    partners: Seq<Option<usize>>,
    max_pairs: nat,
    k: int,
    found: Seq<(usize, usize)>,
)
    requires
        order.no_duplicates(),
        0 <= k <= order.len(),
        sound_pairs(order, partners, max_pairs, k, found),
    ensures
        sound_pairs(
            order,
            partners,
            max_pairs,
            order.len() as int,
            pairs_from(order, partners, max_pairs, k, found),
        ),
    decreases order.len() - k,
{
    assert(order.take(order.len() as int) =~= order);
    if k >= order.len() || found.len() >= max_pairs {
        assert forall|i: int| 0 <= i < found.len() implies order.contains(
            (#[trigger] found[i]).0,
        ) by {
            let x = found[i].0;
            assert(order.take(k).contains(x));
            let q = choose|q: int| 0 <= q < k && order.take(k)[q] == x;
            assert(order[q] == x);
        }
    } else {
        let next = match partners[order[k] as int] {
            Some(other) => found.push((order[k], other)),
            None => found,
        };
        assert forall|i: int| 0 <= i < next.len() implies order.take(k + 1).contains(
            (#[trigger] next[i]).0,
        ) by {
            if i < found.len() {
                let x = found[i].0;
                assert(order.take(k).contains(x));
                let q = choose|q: int| 0 <= q < k && order.take(k)[q] == x;
                assert(order.take(k + 1)[q] == x);
            } else {
                assert(order.take(k + 1)[k] == order[k]);
            }
        }
        assert forall|i: int, j: int| 0 <= i < j < next.len() implies (#[trigger] next[i]).0 != (
        #[trigger] next[j]).0 by {
            if j == found.len() {
                let x = found[i].0;
                assert(order.take(k).contains(x));
                let q = choose|q: int| 0 <= q < k && order.take(k)[q] == x;
                assert(order[q] == x);
                assert(order[q] != order[k]);
            }
        }
        lemma_pairs(order, partners, max_pairs, k + 1, next);
    }
}

pub open spec fn both_finite(
    y1: Seq<Seq<Single>>,
    y2: Seq<Seq<Single>>,
    r: int,
    c: int,
) -> bool {
    y1[r][c].finite() && y2[r][c].finite()
}

/// The first thing wrong with the outputs at the pairs from `r` on, or the
/// ratios of the pairs that count.
pub open spec fn ratios_from(
    y1: Seq<Seq<Single>>,
    y2: Seq<Seq<Single>>,
    steps: Seq<Single>,
    raw: Seq<Single>,
    r: int,
    found: Seq<Single>,
) -> Result<Seq<Single>, SensitivityError>
    decreases steps.len() - r,
{
    if r < 0 || r >= steps.len() {
        Ok(found)
    } else if !steps[r].finite() {
        Err(SensitivityError::StepNotFinite)
    } else if steps[r].at_most(Single { bits: SAME_ROW }) {
        ratios_from(y1, y2, steps, raw, r + 1, found)
    } else if exists|c: int| 0 <= c < y1[r].len() && !(#[trigger] both_finite(y1, y2, r, c)) {
        Err(SensitivityError::PredictionNotFinite)
    } else if !raw[r].finite() {
        Err(SensitivityError::RatioNotFinite)
    } else {
        ratios_from(y1, y2, steps, raw, r + 1, found.push(raw[r]))
    }
}

/// The ratios of the pairs that count, or the first thing wrong.
pub open spec fn ratios_of(
    y1: &Matrix,
    y2: &Matrix,
    steps: Seq<Single>,
    raw: Seq<Single>,
    n_outputs: usize,
) -> Result<Seq<Single>, SensitivityError> {
    if y1@.len() != y2@.len() || y1.cols != y2.cols || y1@.len() != steps.len() || y1.cols
        != n_outputs {
        Err(SensitivityError::Shape)
    } else {
        match ratios_from(y1@, y2@, steps, raw, 0, Seq::empty()) {
            Ok(values) => if values.len() == 0 {
                Err(SensitivityError::Degenerate)
            } else {
                Ok(values)
            },
            Err(e) => Err(e),
        }
    }
}

/// Checks the outputs at the two points of each pair and collects the ratios.
/// `raw` holds the ratio that each pair works out to. An outside prediction
/// may have any shape and any values: neither may turn into a number.
pub fn ratios(
    y1: &Matrix,
    y2: &Matrix,
    steps: &Vec<Single>,
    raw: &Vec<Single>,
    n_outputs: usize,
) -> (out: Result<Vec<Single>, SensitivityError>)
    requires
        y1.wf(),
        y2.wf(),
        raw@.len() == steps@.len(),
    ensures
        match out {
            Ok(values) => ratios_of(y1, y2, steps@, raw@, n_outputs) == Ok::<
                Seq<Single>,
                SensitivityError,
            >(values@) && forall|i: int|
                0 <= i < values@.len() ==> (#[trigger] values@[i]).finite(),
            Err(e) => ratios_of(y1, y2, steps@, raw@, n_outputs) == Err::<
                Seq<Single>,
                SensitivityError,
            >(e),
        },
{
    if y1.nrows() != y2.nrows() || y1.cols != y2.cols || y1.nrows() != steps.len() || y1.cols
        != n_outputs {
        return Err(SensitivityError::Shape);
    }
    let mut values: Vec<Single> = Vec::new();
    let mut r: usize = 0;
    while r < steps.len()
        invariant
            y1.wf(),
            y2.wf(),
            y1@.len() == y2@.len() == steps@.len(),
            y1.cols == y2.cols,
            y1.cols == n_outputs,
            raw@.len() == steps@.len(),
            r <= steps@.len(),
            forall|i: int| 0 <= i < values@.len() ==> (#[trigger] values@[i]).finite(),
            ratios_from(y1@, y2@, steps@, raw@, r as int, values@) == ratios_from(
                y1@,
                y2@,
                steps@,
                raw@,
                0,
                Seq::empty(),
            ),
        decreases steps@.len() - r,
    {
        let step: Single = steps[r];
        if !step.is_finite() {
            return Err(SensitivityError::StepNotFinite);
        }
        if !step.is_at_most(Single { bits: SAME_ROW }) {
            let mut c: usize = 0;
            assert(y1@[r as int].len() == y1.cols && y2@[r as int].len() == y1.cols);
            while c < y1.cols
                invariant
                    y1.wf(),
                    y2.wf(),
                    y1@.len() == y2@.len() == steps@.len(),
                    y1.cols == y2.cols,
                    y1.cols == n_outputs,
                    r < steps@.len(),
                    c <= y1.cols,
                    forall|i: int| 0 <= i < values@.len() ==> (#[trigger] values@[i]).finite(),
                    y1@[r as int].len() == y1.cols,
                    steps@[r as int].finite(),
                    !steps@[r as int].at_most(Single { bits: SAME_ROW }),
                    ratios_from(y1@, y2@, steps@, raw@, r as int, values@) == ratios_from(
                        y1@,
                        y2@,
                        steps@,
                        raw@,
                        0,
                        Seq::empty(),
                    ),
                    forall|k: int| 0 <= k < c ==> #[trigger] both_finite(y1@, y2@, r as int, k),
                decreases y1.cols - c,
            {
                let a: Single = y1.at(r, c);
                let b: Single = y2.at(r, c);
                if !a.is_finite() || !b.is_finite() {
                    assert(!both_finite(y1@, y2@, r as int, c as int));
                    return Err(SensitivityError::PredictionNotFinite);
                }
                assert(both_finite(y1@, y2@, r as int, c as int));
                c += 1;
            }
            let ratio: Single = raw[r];
            if !ratio.is_finite() {
                return Err(SensitivityError::RatioNotFinite);
            }
            values.push(ratio);
        }
        r += 1;
    }
    if values.len() == 0 {
        assert(values@ =~= Seq::empty());
        return Err(SensitivityError::Degenerate);
    }
    Ok(values)
}

/// The largest of the first `n` values, 0 if none is larger.
pub open spec fn largest_of(values: Seq<Single>, n: int) -> Single
    decreases n,
{
    if n <= 0 {
        zero()
    } else if largest_of(values, n - 1).less(values[n - 1]) {
        values[n - 1]
    } else {
        largest_of(values, n - 1)
    }
}

/// Nothing is larger than this value, which is 0 or one of the values.
pub open spec fn is_largest(values: Seq<Single>, max: Single) -> bool {
    &&& max == zero() || values.contains(max)
    &&& zero().at_most(max)
    &&& forall|i: int| 0 <= i < values.len() ==> (#[trigger] values[i]).at_most(max)
}

pub fn largest(values: &Vec<Single>) -> (max: Single)
    requires
        forall|i: int| 0 <= i < values@.len() ==> (#[trigger] values@[i]).finite(),
    ensures
        max == largest_of(values@, values@.len() as int),
        is_largest(values@, max),
{
    let mut max: Single = Single { bits: 0 };
    let mut i: usize = 0;
    while i < values.len()
        invariant
            i <= values@.len(),
            forall|k: int| 0 <= k < values@.len() ==> (#[trigger] values@[k]).finite(),
            max.finite(),
            max == largest_of(values@, i as int),
            max == zero() || values@.contains(max),
            zero().at_most(max),
            forall|k: int| 0 <= k < i ==> (#[trigger] values@[k]).at_most(max),
        decreases values@.len() - i,
    {
        let v: Single = values[i];
        assert(values@[i as int].finite());
        if max.is_less(v) {
            max = v;
            assert(values@.contains(v));
        }
        i += 1;
    }
    max
}

/// How strongly answers move with their inputs: the mean and the largest
/// ratio.
#[derive(Clone, Copy, Debug, PartialEq, Eq, Structural)]
pub struct SensitivityStats {
    pub mean: Single,
    pub max: Single,
}

impl SensitivityStats {
    /// The mean lies between 0 and the largest ratio.
    pub open spec fn bounded(self) -> bool {
        self.mean.finite() && zero().at_most(self.mean) && self.mean.at_most(self.max)
    }
}

/// The sensitivity of a model, and of the process behind the data where that
/// can be called.
#[derive(Clone, Copy, Debug, PartialEq, Eq, Structural)]
pub struct SensitivityReport {
    /// How many pairs of rows were compared.
    pub pairs: usize,
    /// Categorical inputs are never moved.
    pub categorical_inputs: usize,
    pub model: SensitivityStats,
    pub reference: Option<SensitivityStats>,
    /// How far the means are apart.
    pub divergence: Option<Single>,
}

/// The pairs of rows that a sensitivity is measured at.
#[derive(Debug)]
pub struct SensitivityPairs {
    pub pairs: Vec<(usize, usize)>,
    pub categorical_inputs: usize,
}

pub open spec fn distance_rows(distances: Seq<Vec<Option<Single>>>) -> Seq<Seq<Option<Single>>> {
    distances.map_values(|d: Vec<Option<Single>>| d@)
}

/// Each row with its nearest partner.
pub open spec fn partners_of(distances: Seq<Seq<Option<Single>>>, partners: Seq<Option<usize>>) -> bool {
    &&& partners.len() == distances.len()
    &&& forall|i: int|
        0 <= i < partners.len() ==> is_nearest(distances[i], i, #[trigger] partners[i])
}

/// What a request for the pairs comes to: the first thing wrong with the
/// request, else the pairs of nearest rows, spread over the table.
pub open spec fn sensitivity_plan(
    fault: Option<SensitivityError>,
    specs: Seq<FeatureSpec>,
    partners: Seq<Option<usize>>,
    max_pairs: usize,
    out: Result<SensitivityPairs, SensitivityError>,
) -> bool {
    let pairs = pairs_from(
        spread(partners.len() as int, max_pairs as int),
        partners,
        max_pairs as nat,
        0,
        Seq::empty(),
    );
    match fault {
        Some(e) => out == Err::<SensitivityPairs, SensitivityError>(e),
        None => if pairs.len() == 0 {
            out == Err::<SensitivityPairs, SensitivityError>(SensitivityError::NoPairs)
        } else {
            out matches Ok(found) && found.pairs@ == pairs && found.categorical_inputs
                == specs.len() - continuous_count(specs)
        },
    }
}

/// The first half of a measurement: checks the request and picks the pairs.
/// `distances` holds, for each row, its distance to each row with the same
/// categories.
pub fn sensitivity_pairs(
    data: &NumericDataset,
    specs: &Vec<FeatureSpec>,
    in_norm: &Normalizer,
    out_norm: &Normalizer,
    reference: Option<(usize, usize)>,
    alpha: Single,
    max_pairs: usize,
    distances: &Vec<Vec<Option<Single>>>,
) -> (out: Result<SensitivityPairs, SensitivityError>)
    requires
        data.wf(),
        in_norm.wf(),
        out_norm.wf(),
        distances@.len() == data.inputs@.len(),
        distances@.len() * bucket_count(distances@.len() as int, max_pairs as int) <= usize::MAX,
    ensures
        exists|partners: Seq<Option<usize>>|
            {
                &&& #[trigger] partners_of(distance_rows(distances@), partners)
                &&& sensitivity_plan(
                    sensitivity_fault(
                        data,
                        specs@,
                        in_norm,
                        out_norm,
                        reference,
                        alpha,
                        max_pairs,
                    ),
                    specs@,
                    partners,
                    max_pairs,
                    out,
                )
            },
{
    let mut partners: Vec<Option<usize>> = Vec::new();
    let mut i: usize = 0;
    while i < distances.len()
        invariant
            i <= distances@.len(),
            partners@.len() == i,
            forall|k: int|
                0 <= k < i ==> is_nearest(
                    distance_rows(distances@)[k],
                    k,
                    #[trigger] partners@[k],
                ),
        decreases distances@.len() - i,
    {
        assert(distance_rows(distances@)[i as int] == distances@[i as int]@);
        partners.push(nearest_row(&distances[i], i));
        i += 1;
    }
    assert(partners_of(distance_rows(distances@), partners@));
    match sensitivity_checks(data, specs, in_norm, out_norm, reference, alpha, max_pairs) {
        Err(e) => Err(e),
        Ok(categorical_inputs) => match choose_pairs(&partners, max_pairs) {
            Err(e) => Err(e),
            Ok(pairs) => Ok(SensitivityPairs { pairs, categorical_inputs }),
        },
    }
}

/// What was computed at the two points of each pair: the outputs, the ratio
/// of each pair, and the mean of the ratios that count.
#[derive(Debug)]
pub struct Evaluated {
    pub y1: Matrix,
    pub y2: Matrix,
    pub raw: Vec<Single>,
    pub mean: Single,
}

impl Evaluated {
    pub open spec fn wf(&self) -> bool {
        self.y1.wf() && self.y2.wf()
    }

    pub open spec fn ratios(&self, steps: Seq<Single>, n_outputs: usize) -> Result<
        Seq<Single>,
        SensitivityError,
    > {
        ratios_of(&self.y1, &self.y2, steps, self.raw@, n_outputs)
    }

    /// The mean is one that the ratios can have.
    pub open spec fn mean_fits(&self, steps: Seq<Single>, n_outputs: usize) -> bool {
        self.ratios(steps, n_outputs) matches Ok(values) ==> (SensitivityStats {
            mean: self.mean,
            max: largest_of(values, values.len() as int),
        }).bounded()
    }

    /// These are the mean and the largest of the ratios.
    pub open spec fn has(&self, steps: Seq<Single>, n_outputs: usize, stats: SensitivityStats) -> bool {
        self.ratios(steps, n_outputs) matches Ok(values) && stats.mean == self.mean && stats.max
            == largest_of(values, values.len() as int) && is_largest(values, stats.max)
            && stats.bounded()
    }

    /// Whether the mean is one that the ratios can have.
    pub fn has_sound_mean(&self, steps: &Vec<Single>, n_outputs: usize) -> (yes: bool)
        requires
            self.wf(),
            self.raw@.len() == steps@.len(),
        ensures
            yes == self.mean_fits(steps@, n_outputs),
    {
        match ratios(&self.y1, &self.y2, steps, &self.raw, n_outputs) {
            Ok(values) => {
                let nought: Single = Single { bits: 0 };
                self.mean.is_finite() && nought.is_at_most(self.mean) && self.mean.is_at_most(
                    largest(&values),
                )
            },
            Err(_) => true,
        }
    }

    /// The same answers, with what was computed from them.
    pub open spec fn same_as(&self, other: &Evaluated) -> bool {
        &&& self.y1@ == other.y1@ && self.y1.cols == other.y1.cols
        &&& self.y2@ == other.y2@ && self.y2.cols == other.y2.cols
        &&& self.raw@ == other.raw@
        &&& self.mean == other.mean
    }

    fn stats(&self, steps: &Vec<Single>, n_outputs: usize) -> (out: Result<
        SensitivityStats,
        SensitivityError,
    >)
        requires
            self.wf(),
            self.raw@.len() == steps@.len(),
            self.mean_fits(steps@, n_outputs),
        ensures
            match out {
                Ok(stats) => self.has(steps@, n_outputs, stats),
                Err(e) => self.ratios(steps@, n_outputs) == Err::<Seq<Single>, SensitivityError>(e),
            },
    {
        match ratios(&self.y1, &self.y2, steps, &self.raw, n_outputs) {
            Ok(values) => Ok(SensitivityStats { mean: self.mean, max: largest(&values) }),
            Err(e) => Err(e),
        }
    }
}

/// The answer of a process with a wrong number of outputs.
pub open spec fn answer_text(expected: usize, found: usize) -> Seq<char> {
    "исходный процесс: ожидалось "@ + decimal(expected as nat) + " выходов, получено "@ + decimal(
        found as nat,
    )
}

/// What is wrong with what was computed: the model comes first, then the
/// process.
pub open spec fn evaluation_fault(
    model: Evaluated,
    reference: Option<Result<Evaluated, usize>>,
    steps: Seq<Single>,
    n_outputs: usize,
) -> Option<Seq<char>> {
    match model.ratios(steps, n_outputs) {
        Err(e) => Some(e.text("модель"@)),
        Ok(_) => match reference {
            None => None,
            Some(Err(found)) => Some(answer_text(n_outputs, found)),
            Some(Ok(process)) => match process.ratios(steps, n_outputs) {
                Err(e) => Some(e.text("исходный процесс"@)),
                Ok(_) => None,
            },
        },
    }
}

/// How far two means are apart: not at all where they are equal, and as far as
/// was computed elsewhere.
pub open spec fn means_apart(a: Single, b: Single, computed: Single) -> Single {
    if a.finite() && a.equals(b) {
        zero()
    } else {
        computed
    }
}

/// What a measurement comes to.
pub open spec fn sensitivity_outcome(
    at: SensitivityPairs,
    steps: Seq<Single>,
    n_outputs: usize,
    model: Evaluated,
    reference: Option<Result<Evaluated, usize>>,
    divergence: Single,
    out: Result<SensitivityReport, String>,
) -> bool {
    match (out, evaluation_fault(model, reference, steps, n_outputs)) {
        (Ok(report), None) => {
            &&& report.pairs == at.pairs@.len()
            &&& report.categorical_inputs == at.categorical_inputs
            &&& model.has(steps, n_outputs, report.model)
            &&& match (reference, report.reference) {
                (Some(Ok(process)), Some(stats)) => process.has(steps, n_outputs, stats)
                    && report.divergence == Some(
                    means_apart(report.model.mean, stats.mean, divergence),
                ),
                (None, None) => report.divergence is None,
                _ => false,
            }
        },
        (Err(e), Some(text)) => e@ == text,
        _ => false,
    }
}

/// The second half of a measurement: the report on what was computed at the
/// pairs, a step of each. The process may have answered with a wrong number of outputs, which
/// is then given in place of what was computed. `divergence` is the computed
/// distance of the two means.
pub fn sensitivity(
    at: &SensitivityPairs,
    steps: &Vec<Single>,
    n_outputs: usize,
    model: &Evaluated,
    reference: &Option<Result<Evaluated, usize>>,
    divergence: Single,
) -> (out: Result<SensitivityReport, String>)
    requires
        steps@.len() == at.pairs@.len(),
        model.wf(),
        model.raw@.len() == steps@.len(),
        model.mean_fits(steps@, n_outputs),
        reference matches Some(Ok(process)) ==> process.wf() && process.raw@.len() == steps@.len()
            && process.mean_fits(steps@, n_outputs),
    ensures
        sensitivity_outcome(*at, steps@, n_outputs, *model, *reference, divergence, out),
{
    let own: SensitivityStats = match model.stats(steps, n_outputs) {
        Ok(stats) => stats,
        Err(e) => {
            return Err(e.message("модель"));
        },
    };
    let of_process: Option<SensitivityStats> = match reference {
        None => None,
        Some(Err(found)) => {
            let mut text: String = owned("исходный процесс: ожидалось ");
            text.append(decimal_text(n_outputs as u64).as_str());
            text.append(" выходов, получено ");
            text.append(decimal_text(*found as u64).as_str());
            return Err(text);
        },
        Some(Ok(process)) => match process.stats(steps, n_outputs) {
            Ok(stats) => Some(stats),
            Err(e) => {
                return Err(e.message("исходный процесс"));
            },
        },
    };
    let apart: Option<Single> = match of_process {
        Some(stats) => if own.mean.is_finite() && own.mean.is_equal(stats.mean) {
            Some(Single { bits: 0 })
        } else {
            Some(divergence)
        },
        None => None,
    };
    Ok(
        SensitivityReport {
            pairs: at.pairs.len(),
            categorical_inputs: at.categorical_inputs,
            model: own,
            reference: of_process,
            divergence: apart,
        },
    )
}

/// A report is of at least one pair, and of no more than were asked for or
/// there are rows. It counts the inputs that were not moved. Its means lie
/// between 0 and its largest ratios, and it speaks of the process where there
/// is one.
pub proof fn law_a_report_is_of_the_chosen_pairs(
    data: &NumericDataset,
    specs: Seq<FeatureSpec>,
    in_norm: &Normalizer,
    out_norm: &Normalizer,
    dims: Option<(usize, usize)>,
    alpha: Single,
    max_pairs: usize,
    partners: Seq<Option<usize>>,
    at: SensitivityPairs,
    steps: Seq<Single>,
    n_outputs: usize,
    model: Evaluated,
    reference: Option<Result<Evaluated, usize>>,
    divergence: Single,
    report: SensitivityReport,
)
    requires
        data.wf(),
        partners.len() == data.inputs@.len(),
        sensitivity_plan(
            sensitivity_fault(data, specs, in_norm, out_norm, dims, alpha, max_pairs),
            specs,
            partners,
            max_pairs,
            Ok(at),
        ),
        sensitivity_outcome(at, steps, n_outputs, model, reference, divergence, Ok(report)),
    ensures
        1 <= report.pairs <= max_pairs,
        report.pairs <= data.inputs@.len(),
        report.categorical_inputs == specs.len() - continuous_count(specs),
        report.model.bounded(),
        report.reference is Some == reference is Some,
        report.divergence is Some == reference is Some,
        report.reference matches Some(stats) ==> stats.bounded(),
{
    let n = partners.len() as int;
    let order = spread(n, max_pairs as int);
    assert(data.inputs.rows.len() == n);
    law_spread_covers_the_table(n, max_pairs as int);
    let pairs = pairs_from(order, partners, max_pairs as nat, 0, Seq::empty());
    lemma_pairs(order, partners, max_pairs as nat, 0, Seq::empty());
    assert(order.take(order.len() as int) =~= order);
    let firsts = pairs.map_values(|p: (usize, usize)| p.0 as int);
    assert(firsts.no_duplicates()) by {
        assert forall|i: int, j: int| 0 <= i < firsts.len() && 0 <= j < firsts.len() && i
            != j implies firsts[i] != firsts[j] by {
            if i < j {
                assert(pairs[i].0 != pairs[j].0);
            } else {
                assert(pairs[j].0 != pairs[i].0);
            }
        }
    }
    firsts.unique_seq_to_set();
    vstd::set_lib::lemma_int_range(0, n);
    assert(firsts.to_set().subset_of(vstd::set_lib::set_int_range(0, n))) by {
        assert forall|x: int| firsts.to_set().contains(x) implies 0 <= x < n by {
            let i = choose|i: int| 0 <= i < firsts.len() && firsts[i] == x;
            assert(order.contains(pairs[i].0));
        }
    }
    vstd::set_lib::lemma_len_subset(
        firsts.to_set(),
        vstd::set_lib::set_int_range(0, n),
    );
}

/// A process that answers as the model does is as sensitive as the model, and
/// the two do not diverge.
pub proof fn law_equal_answers_do_not_diverge(
    at: SensitivityPairs,
    steps: Seq<Single>,
    n_outputs: usize,
    model: Evaluated,
    process: Evaluated,
    divergence: Single,
    report: SensitivityReport,
)
    requires
        sensitivity_outcome(
            at,
            steps,
            n_outputs,
            model,
            Some(Ok(process)),
            divergence,
            Ok(report),
        ),
        model.same_as(&process),
    ensures
        report.reference == Some(report.model),
        report.divergence == Some(zero()),
{
}

/// The single-precision value of 0.003.
pub const PROBE_LR: u32 = 0x3b44_9ba6;

/// How a fresh model learns a few rows by heart: in batches of the rows there
/// are, 16 at most, and at a constant rate.
pub fn overfit_probe(rows: usize, epochs: usize) -> (train: TrainConfig)
    ensures
        train == (TrainConfig {
            epochs,
            batch_size: if rows < 1 {
                1
            } else if rows > 16 {
                16
            } else {
                rows
            },
            lr: Single { bits: PROBE_LR },
            seed: 0,
            schedule: LrSchedule::Constant,
        }),
{
    let batch_size: usize = if rows < 1 {
        1
    } else if rows > 16 {
        16
    } else {
        rows
    };
    TrainConfig {
        epochs,
        batch_size,
        lr: Single { bits: PROBE_LR },
        seed: 0,
        schedule: LrSchedule::Constant,
    }
}

/// The order of two rows by their values, then by their numbers.
pub open spec fn row_before(values: Seq<Single>, a: usize, b: usize) -> bool {
    values[a as int].position() < values[b as int].position() || (values[a as int].position()
        == values[b as int].position() && a < b)
}

/// The rows `0..n`, each once, in the order of their values.
pub open spec fn sorted_upto(values: Seq<Single>, order: Seq<usize>, n: int) -> bool {
    &&& order.len() == n
    &&& forall|i: usize| #[trigger] order.contains(i) <==> i < n
    &&& forall|a: int, b: int|
        0 <= a < b < order.len() ==> row_before(values, #[trigger] order[a], #[trigger] order[b])
}

/// Where a new value goes: behind all values that are not larger.
fn place_of(values: &Vec<Single>, order: &Vec<usize>, v: Single) -> (at: usize)
    requires
        forall|k: int| 0 <= k < values@.len() ==> !(#[trigger] values@[k]).nan(),
        forall|k: int| 0 <= k < order@.len() ==> #[trigger] order@[k] < values@.len(),
        !v.nan(),
    ensures
        at <= order@.len(),
        forall|k: int|
            at <= k < order@.len() ==> v.position() < values@[#[trigger] order@[k] as int].position(),
        at > 0 ==> values@[order@[at - 1] as int].position() <= v.position(),
{
    let mut at: usize = order.len();
    while at > 0
        invariant
            at <= order@.len(),
            !v.nan(),
            forall|k: int| 0 <= k < values@.len() ==> !(#[trigger] values@[k]).nan(),
            forall|k: int| 0 <= k < order@.len() ==> #[trigger] order@[k] < values@.len(),
            forall|k: int|
                at <= k < order@.len() ==> v.position()
                    < values@[#[trigger] order@[k] as int].position(),
        decreases at,
    {
        let row: usize = order[at - 1];
        assert(!values@[row as int].nan());
        if !v.is_less(values[row]) {
            return at;
        }
        at -= 1;
    }
    at
}

proof fn lemma_insert_row(values: Seq<Single>, order: Seq<usize>, n: usize, at: int)
    requires
        sorted_upto(values, order, n as int),
        n < values.len(),
        0 <= at <= order.len(),
        forall|k: int|
            at <= k < order.len() ==> values[n as int].position()
                < values[#[trigger] order[k] as int].position(),
        at > 0 ==> values[order[at - 1] as int].position() <= values[n as int].position(),
    ensures
        sorted_upto(values, order.insert(at, n), n + 1),
{
    let next = order.insert(at, n);
    assert forall|i: usize| #[trigger] next.contains(i) <==> i < n + 1 by {
        if order.contains(i) {
            let k = choose|k: int| 0 <= k < order.len() && order[k] == i;
            assert(next[if k < at { k } else { k + 1 }] == i);
        }
        if i == n {
            assert(next[at] == i);
        }
        if next.contains(i) {
            let k = choose|k: int| 0 <= k < next.len() && next[k] == i;
            if k < at {
                assert(order[k] == i);
                assert(order.contains(i));
            } else if k > at {
                assert(order[k - 1] == i);
                assert(order.contains(i));
            }
        }
    }
    assert forall|a: int, b: int| 0 <= a < b < next.len() implies row_before(
        values,
        #[trigger] next[a],
        #[trigger] next[b],
    ) by {
        let a0 = if a > at { a - 1 } else { a };
        let b0 = if b > at { b - 1 } else { b };
        if a == at {
            assert(next[b] == order[b0]);
        } else if b == at {
            assert(next[a] == order[a]);
            assert(order.contains(order[a]));
            if a < at - 1 {
                assert(row_before(values, order[a], order[at - 1]));
            }
            assert(values[order[a] as int].position() <= values[order[at - 1] as int].position());
        } else {
            assert(next[a] == order[a0] && next[b] == order[b0]);
            assert(row_before(values, order[a0], order[b0]));
        }
    }
}

/// The rows in the order of their values; equal values keep their order.
pub fn sorted_rows(values: &Vec<Single>) -> (order: Vec<usize>)
    requires
        forall|i: int| 0 <= i < values@.len() ==> !(#[trigger] values@[i]).nan(),
    ensures
        sorted_upto(values@, order@, values@.len() as int),
{
    let mut order: Vec<usize> = Vec::new();
    let mut i: usize = 0;
    while i < values.len()
        invariant
            i <= values@.len(),
            forall|k: int| 0 <= k < values@.len() ==> !(#[trigger] values@[k]).nan(),
            sorted_upto(values@, order@, i as int),
        decreases values@.len() - i,
    {
        let v: Single = values[i];
        assert(!values@[i as int].nan());
        assert forall|k: int| 0 <= k < order@.len() implies #[trigger] order@[k]
            < values@.len() by {
            assert(order@.contains(order@[k]));
        }
        let at: usize = place_of(values, &order, v);
        proof {
            lemma_insert_row(values@, order@, i, at as int);
        }
        order.insert(at, i);
        i += 1;
    }
    order
}

fn part_of(order: &Vec<usize>, from: usize, to: usize) -> (out: Vec<usize>)
    requires
        from <= to <= order@.len(),
    ensures
        out@ == order@.subrange(from as int, to as int),
{
    let mut out: Vec<usize> = Vec::new();
    let mut i: usize = from;
    while i < to
        invariant
            from <= i <= to <= order@.len(),
            out@ == order@.subrange(from as int, i as int),
        decreases to - i,
    {
        out.push(order[i]);
        i += 1;
    }
    out
}

/// The rows at the two ends of an order (a tenth each) and those in its
/// middle (without a fifth at either end). Fewer than ten rows have neither.
pub fn tails(order: &Vec<usize>) -> (out: Option<(Vec<usize>, Vec<usize>)>)
    ensures
        match out {
            Some((outer, inner)) => {
                let n = order@.len() as int;
                &&& n >= 10
                &&& outer@ == order@.take(n / 10) + order@.skip(n - n / 10)
                &&& inner@ == order@.subrange(n / 5, n - n / 5)
            },
            None => order@.len() < 10,
        },
{
    let n: usize = order.len();
    if n < 10 {
        return None;
    }
    let k: usize = n / 10;
    let mut outer: Vec<usize> = part_of(order, 0, k);
    let mut rest: Vec<usize> = part_of(order, n - k, n);
    outer.append(&mut rest);
    assert(outer@ =~= order@.take(k as int) + order@.skip(n - k));
    Some((outer, part_of(order, n / 5, n - n / 5)))
}

pub open spec fn column(data: Seq<Seq<Single>>, j: int) -> Seq<Single> {
    Seq::new(data.len(), |i: int| data[i][j])
}

/// How often a signed residual changes its sign over the first `n` places of
/// an order.
pub open spec fn changes(order: Seq<usize>, signed: Seq<Single>, n: int) -> nat
    decreases n,
{
    if n <= 1 {
        0
    } else {
        changes(order, signed, n - 1) + if signed[order[n - 2] as int].opposes(
            signed[order[n - 1] as int],
        ) {
            1nat
        } else {
            0
        }
    }
}

/// The shape of a residual along one input.
#[derive(Debug)]
pub struct FeatureResidual {
    /// How often the residual changes its sign from a row to the next.
    pub sign_changes: usize,
    /// From how many rows there is a next one.
    pub steps: usize,
    /// The rows at the ends and those in the middle, where there are enough.
    pub tails: Option<(Vec<usize>, Vec<usize>)>,
}

impl FeatureResidual {
    /// This is the shape of the residual along an order of the rows.
    pub open spec fn along(&self, order: Seq<usize>, signed: Seq<Single>) -> bool {
        &&& self.sign_changes == changes(order, signed, order.len() as int)
        &&& self.steps == if order.len() > 0 {
            order.len() - 1
        } else {
            0
        }
        &&& match self.tails {
            Some((outer, inner)) => {
                let n = order.len() as int;
                &&& n >= 10
                &&& outer@ == order.take(n / 10) + order.skip(n - n / 10)
                &&& inner@ == order.subrange(n / 5, n - n / 5)
            },
            None => order.len() < 10,
        }
    }
}

fn count_changes(order: &Vec<usize>, signed: &Vec<Single>) -> (n: usize)
    requires
        forall|k: int| 0 <= k < order@.len() ==> #[trigger] order@[k] < signed@.len(),
    ensures
        n == changes(order@, signed@, order@.len() as int),
{
    let mut n: usize = 0;
    let mut k: usize = 1;
    while k < order.len()
        invariant
            1 <= k,
            order@.len() > 0 ==> k <= order@.len(),
            order@.len() == 0 ==> k == 1,
            n < k,
            forall|i: int| 0 <= i < order@.len() ==> #[trigger] order@[i] < signed@.len(),
            n == changes(order@, signed@, k as int),
        decreases order@.len() - k,
    {
        assert(order@[k - 1] < signed@.len() && order@[k as int] < signed@.len());
        if signed[order[k - 1]].is_opposed(signed[order[k]]) {
            n += 1;
        }
        k += 1;
    }
    assert(order@.len() == 0 ==> changes(order@, signed@, 0) == 0);
    n
}

/// This is the shape of the residual along input `j`.
pub open spec fn shaped(
    data: Seq<Seq<Single>>,
    signed: Seq<Single>,
    j: int,
    residual: FeatureResidual,
) -> bool {
    exists|order: Seq<usize>| #[trigger]
        sorted_upto(column(data, j), order, data.len() as int) && residual.along(order, signed)
}

/// The shape of the residual along each input: whether it swings, and which
/// rows are at the ends. `signed` holds the residual of each row.
pub fn residual_diagnostics(inputs: &Matrix, signed: &Vec<Single>) -> (out: Vec<FeatureResidual>)
    requires
        inputs.wf(),
        signed@.len() == inputs@.len(),
        forall|i: int, j: int|
            0 <= i < inputs@.len() && 0 <= j < inputs.cols ==> !(#[trigger] inputs@[i][j]).nan(),
    ensures
        out@.len() == inputs.cols,
        forall|j: int| 0 <= j < inputs.cols ==> shaped(inputs@, signed@, j, #[trigger] out@[j]),
{
    let mut out: Vec<FeatureResidual> = Vec::new();
    let mut j: usize = 0;
    while j < inputs.ncols()
        invariant
            j <= inputs.cols,
            inputs.wf(),
            signed@.len() == inputs@.len(),
            forall|i: int, c: int|
                0 <= i < inputs@.len() && 0 <= c < inputs.cols ==> !(
                #[trigger] inputs@[i][c]).nan(),
            out@.len() == j,
            forall|c: int| 0 <= c < j ==> shaped(inputs@, signed@, c, #[trigger] out@[c]),
        decreases inputs.cols - j,
    {
        let mut values: Vec<Single> = Vec::new();
        let mut i: usize = 0;
        while i < inputs.nrows()
            invariant
                i <= inputs@.len(),
                j < inputs.cols,
                inputs.wf(),
                values@ == column(inputs@, j as int).take(i as int),
            decreases inputs@.len() - i,
        {
            values.push(inputs.at(i, j));
            i += 1;
            assert(values@ =~= column(inputs@, j as int).take(i as int));
        }
        assert(values@ =~= column(inputs@, j as int));
        let order: Vec<usize> = sorted_rows(&values);
        assert forall|k: int| 0 <= k < order@.len() implies #[trigger] order@[k]
            < signed@.len() by {
            assert(order@.contains(order@[k]));
        }
        let sign_changes: usize = count_changes(&order, signed);
        let steps: usize = if order.len() > 0 {
            order.len() - 1
        } else {
            0
        };
        let residual: FeatureResidual = FeatureResidual {
            sign_changes,
            steps,
            tails: tails(&order),
        };
        assert(residual.along(order@, signed@));
        assert(shaped(inputs@, signed@, j as int, residual));
        out.push(residual);
        j += 1;
    }
    out
}

/// The partner of a row is the nearest of all the other rows, those before it
/// and those behind it, that are farther away than 1e-9; of several equally
/// near ones it is the first. A row has a partner exactly if there is such a
/// row.
pub proof fn law_the_nearest_other_row_is_the_partner(
    distances: Seq<Option<Single>>,
    base: int,
    best: Option<usize>,
)
    requires
        is_nearest(distances, base, best),
    ensures
        match best {
            Some(b) => {
                &&& b < distances.len()
                &&& b != base
                &&& distances[b as int] is Some
                &&& (Single { bits: 0x3089_705f }).less(distances[b as int]->0)
                &&& forall|k: int|
                    0 <= k < distances.len() && k != base && (#[trigger] distances[k]) is Some && (
                    Single { bits: 0x3089_705f }).less(distances[k]->0) ==> !distances[k]->0.less(
                        distances[b as int]->0,
                    )
                &&& forall|k: int|
                    0 <= k < b && k != base && (#[trigger] distances[k]) is Some && (Single {
                        bits: 0x3089_705f,
                    }).less(distances[k]->0) ==> distances[b as int]->0.less(distances[k]->0)
            },
            None => forall|k: int|
                0 <= k < distances.len() && k != base && (#[trigger] distances[k]) is Some ==> !(
                Single { bits: 0x3089_705f }).less(distances[k]->0),
        },
{
    assert forall|k: int|
        0 <= k < distances.len() && k != base && (#[trigger] distances[k]) is Some && (Single {
            bits: 0x3089_705f,
        }).less(distances[k]->0) implies partner(distances, base, k) by {}
}

/// If distances are symmetric and two rows are nearest to each other and to no
/// one else, they are partners of each other: which one comes first does not
/// matter.
pub proof fn law_the_only_other_row_is_the_partner(
    distances: Seq<Option<Single>>,
    base: int,
    other: int,
    best: Option<usize>,
)
    requires
        is_nearest(distances, base, best),
        0 <= other < distances.len(),
        other != base,
        distances[other] is Some,
        (Single { bits: 0x3089_705f }).less(distances[other]->0),
        forall|k: int|
            0 <= k < distances.len() && k != base && k != other && (#[trigger] distances[k]) is Some
                ==> distances[other]->0.less(distances[k]->0),
    ensures
        best == Some(other as usize),
{
    law_the_nearest_other_row_is_the_partner(distances, base, best);
    if best is Some && best->0 != other {
        assert(distances[best->0 as int] is Some);
    }
}

proof fn lemma_pairs_complete(
    order: Seq<usize>,
    partners: Seq<Option<usize>>,
    max_pairs: nat,
    k: int,
    found: Seq<(usize, usize)>,
)
    requires
        0 <= k <= order.len(),
        found.len() <= max_pairs,
        forall|q: int|
            0 <= q < k && partners[(#[trigger] order[q]) as int] is Some ==> found.contains(
                (order[q], partners[order[q] as int]->0),
            ),
        forall|i: int|
            0 <= i < found.len() ==> order.contains((#[trigger] found[i]).0) && partners[found[i].0 as int]
                == Some(found[i].1),
    ensures
        ({
            let pairs = pairs_from(order, partners, max_pairs, k, found);
            &&& pairs.len() <= max_pairs
            &&& pairs.len() < max_pairs ==> forall|q: int|
                0 <= q < order.len() && partners[(#[trigger] order[q]) as int] is Some
                    ==> pairs.contains((order[q], partners[order[q] as int]->0))
            &&& forall|i: int|
                0 <= i < pairs.len() ==> order.contains((#[trigger] pairs[i]).0)
                    && partners[pairs[i].0 as int] == Some(pairs[i].1)
        }),
    decreases order.len() - k,
{
    if k < order.len() && found.len() < max_pairs {
        let next = match partners[order[k] as int] {
            Some(other) => found.push((order[k], other)),
            None => found,
        };
        assert(order.contains(order[k]));
        assert forall|q: int|
            0 <= q < k + 1 && partners[(#[trigger] order[q]) as int] is Some implies next.contains(
            (order[q], partners[order[q] as int]->0),
        ) by {
            let pair = (order[q], partners[order[q] as int]->0);
            if q < k {
                let i = choose|i: int| 0 <= i < found.len() && found[i] == pair;
                assert(next[i] == pair);
            } else {
                assert(next[next.len() - 1] == pair);
            }
        }
        lemma_pairs_complete(order, partners, max_pairs, k + 1, next);
    }
}

/// The pairs that are compared: each joins a row with its own partner, no row
/// stands first twice, there are at most `max_pairs`, and where there are fewer,
/// every row of the table that has a partner is there.
pub proof fn law_every_row_with_a_partner_is_tried(
    partners: Seq<Option<usize>>,
    max_pairs: usize,
    pairs: Seq<(usize, usize)>,
)
    requires
        0 < partners.len() <= usize::MAX,
        0 < max_pairs,
        pairs == pairs_from(
            spread(partners.len() as int, max_pairs as int),
            partners,
            max_pairs as nat,
            0,
            Seq::empty(),
        ),
    ensures
        pairs.len() <= max_pairs,
        forall|i: int|
            0 <= i < pairs.len() ==> (#[trigger] pairs[i]).0 < partners.len()
                && partners[pairs[i].0 as int] == Some(pairs[i].1),
        forall|i: int, j: int|
            0 <= i < j < pairs.len() ==> (#[trigger] pairs[i]).0 != (#[trigger] pairs[j]).0,
        pairs.len() < max_pairs ==> forall|r: int|
            0 <= r < partners.len() && (#[trigger] partners[r]) is Some ==> exists|i: int|
                0 <= i < pairs.len() && #[trigger] pairs[i] == (r as usize, partners[r]->0),
{
    let n = partners.len() as int;
    let order = spread(n, max_pairs as int);
    law_spread_covers_the_table(n, max_pairs as int);
    law_pairs_are_distinct(order, partners, max_pairs as nat);
    lemma_pairs_complete(order, partners, max_pairs as nat, 0, Seq::empty());
    assert forall|i: int| 0 <= i < pairs.len() implies (#[trigger] pairs[i]).0 < partners.len()
        && partners[pairs[i].0 as int] == Some(pairs[i].1) by {
        assert(order.contains(pairs[i].0));
    }
    if pairs.len() < max_pairs {
        assert forall|r: int|
            0 <= r < partners.len() && (#[trigger] partners[r]) is Some implies exists|i: int|
            0 <= i < pairs.len() && #[trigger] pairs[i] == (r as usize, partners[r]->0) by {
            assert(order.contains(r as usize));
            let q = choose|q: int| 0 <= q < order.len() && order[q] == r as usize;
            assert(partners[order[q] as int] is Some);
            assert(pairs.contains((order[q], partners[order[q] as int]->0)));
            let i = choose|i: int|
                0 <= i < pairs.len() && pairs[i] == (order[q], partners[order[q] as int]->0);
            assert(pairs[i] == (r as usize, partners[r]->0));
        }
    }
}

proof fn lemma_spread_keeps(
    n: int,
    buckets: int,
    longest: int,
    offset: int,
    bucket: int,
    found: Seq<usize>,
)
    ensures
        ({
            let all = spread_from(n, buckets, longest, offset, bucket, found);
            all.len() >= found.len() && all.take(found.len() as int) == found
        }),
    decreases longest - offset, buckets - bucket,
{
    let all = spread_from(n, buckets, longest, offset, bucket, found);
    if offset >= longest {
        assert(all.take(found.len() as int) =~= found);
    } else if bucket >= buckets {
        lemma_spread_keeps(n, buckets, longest, offset + 1, 0, found);
    } else {
        let index = bucket_start(n, buckets, bucket) + offset;
        let next = if index < bucket_start(n, buckets, bucket + 1) {
            found.push(index as usize)
        } else {
            found
        };
        lemma_spread_keeps(n, buckets, longest, offset, bucket + 1, next);
        assert(all.take(found.len() as int) =~= all.take(next.len() as int).take(
            found.len() as int,
        ));
        assert(next.take(found.len() as int) =~= found);
    }
}

proof fn lemma_spread_firsts(n: int, buckets: int, longest: int, bucket: int, found: Seq<usize>)
    requires
        0 <= bucket <= buckets <= n <= usize::MAX,
        0 < buckets,
        0 < longest,
        found.len() == bucket,
        forall|b: int| 0 <= b < bucket ==> #[trigger] found[b] == b * n / buckets,
    ensures
        ({
            let all = spread_from(n, buckets, longest, 0, bucket, found);
            all.len() >= buckets && forall|b: int|
                0 <= b < buckets ==> #[trigger] all[b] == b * n / buckets
        }),
    decreases buckets - bucket,
{
    let all = spread_from(n, buckets, longest, 0, bucket, found);
    if bucket >= buckets {
        lemma_spread_keeps(n, buckets, longest, 0, bucket, found);
        assert forall|b: int| 0 <= b < buckets implies #[trigger] all[b] == b * n / buckets by {
            assert(all.take(found.len() as int)[b] == found[b]);
        }
    } else {
        lemma_starts(n, buckets, bucket);
        let index = bucket_start(n, buckets, bucket);
        lemma_spread_firsts(n, buckets, longest, bucket + 1, found.push(index as usize));
    }
}

/// The rows that are tried first stand evenly over the whole table: with `m`
/// pairs asked for out of `n` rows, the row tried at place `b` is the one at
/// `b / m` of the table.
pub proof fn law_the_first_rows_stand_evenly(n: int, max_pairs: int, b: int)
    requires
        0 < n <= usize::MAX,
        0 < max_pairs,
        0 <= b < n,
        b < max_pairs,
    ensures
        spread(n, max_pairs).len() == n,
        n <= max_pairs ==> spread(n, max_pairs)[b] == b,
        max_pairs <= n ==> spread(n, max_pairs)[b] == b * n / max_pairs,
{
    let buckets = bucket_count(n, max_pairs);
    lemma_starts(n, buckets, 0);
    lemma_spread_firsts(n, buckets, longest_bucket(n, buckets), 0, Seq::empty());
    if n <= max_pairs {
        lemma_div_multiples_vanish(b, n);
        assert(b * n / n == b) by {
            assert(b * n == n * b) by (nonlinear_arith);
        }
    }
    law_spread_covers_the_table(n, max_pairs);
    let all = spread(n, max_pairs);
    let places = all.map_values(|i: usize| i as int);
    assert(places.no_duplicates()) by {
        assert forall|i: int, j: int|
            0 <= i < places.len() && 0 <= j < places.len() && i != j implies places[i]
            != places[j] by {
            assert(all[i] != all[j]);
        }
    }
    places.unique_seq_to_set();
    vstd::set_lib::lemma_int_range(0, n);
    assert(places.to_set() =~= vstd::set_lib::set_int_range(0, n)) by {
        assert forall|x: int| places.to_set().contains(x) <==> 0 <= x < n by {
            if places.to_set().contains(x) {
                let i = choose|i: int| 0 <= i < places.len() && places[i] == x;
                assert(all.contains(all[i]));
            }
            if 0 <= x < n {
                assert(all.contains(x as usize));
                let i = choose|i: int| 0 <= i < all.len() && all[i] == x as usize;
                assert(places[i] == x);
            }
        }
    }
}

/// The counts of a range report: for each input the number of rows whose value
/// there lies outside the trained range, and the number of rows with any such
/// value, a row counted once however many of its values are outside.
pub proof fn law_a_range_report_counts_rows(norm: &Normalizer, rows: Seq<Seq<Single>>, c: int, n: nat)
    requires
        norm.wf(),
        n <= rows.len(),
    ensures
        ({
            let at = Set::new(
                |r: int|
                    0 <= r < n && norm.specs@[c] is Continuous && (rows[r][c].less(norm.min@[c])
                        || norm.max@[c].less(rows[r][c])),
            );
            &&& at.finite()
            &&& column_count(norm, rows, c, n) == at.len()
        }),
        ({
            let any = Set::new(
                |r: int|
                    0 <= r < n && exists|j: int|
                        0 <= j < rows[r].len() && norm.specs@[j] is Continuous && (
                        (#[trigger] rows[r][j]).less(norm.min@[j]) || norm.max@[j].less(
                            rows[r][j],
                        )),
            );
            &&& any.finite()
            &&& row_count(norm, rows, n) == any.len()
        }),
    decreases n,
{
    let at = Set::new(
        |r: int|
            0 <= r < n && norm.specs@[c] is Continuous && (rows[r][c].less(norm.min@[c])
                || norm.max@[c].less(rows[r][c])),
    );
    let any = Set::new(
        |r: int|
            0 <= r < n && exists|j: int|
                0 <= j < rows[r].len() && norm.specs@[j] is Continuous && (
                (#[trigger] rows[r][j]).less(norm.min@[j]) || norm.max@[j].less(rows[r][j])),
    );
    if n == 0 {
        assert(at =~= Set::<int>::empty());
        assert(any =~= Set::<int>::empty());
    } else {
        let m = (n - 1) as nat;
        law_a_range_report_counts_rows(norm, rows, c, m);
        let at0 = Set::new(
            |r: int|
                0 <= r < m && norm.specs@[c] is Continuous && (rows[r][c].less(norm.min@[c])
                    || norm.max@[c].less(rows[r][c])),
        );
        let any0 = Set::new(
            |r: int|
                0 <= r < m && exists|j: int|
                    0 <= j < rows[r].len() && norm.specs@[j] is Continuous && (
                    (#[trigger] rows[r][j]).less(norm.min@[j]) || norm.max@[j].less(rows[r][j])),
        );
        if norm.outside(c, rows[n - 1][c]) {
            assert(at =~= at0.insert(n - 1));
        } else {
            assert(at =~= at0);
        }
        if row_out(norm, rows[n - 1]) {
            let j = choose|j: int|
                0 <= j < rows[n - 1].len() && norm.outside(j, #[trigger] rows[n - 1][j]);
            assert(norm.outside(j, rows[n - 1][j]));
            assert(any =~= any0.insert(n - 1));
        } else {
            assert forall|j: int| 0 <= j < rows[n - 1].len() implies !(norm.specs@[j] is Continuous
                && ((#[trigger] rows[n - 1][j]).less(norm.min@[j]) || norm.max@[j].less(
                rows[n - 1][j],
            ))) by {
                assert(!norm.outside(j, rows[n - 1][j]));
            }
            assert(any =~= any0);
        }
    }
}

/// How often a residual swings along an order of rows is the number of
/// neighbours in that order whose residuals oppose each other.
pub proof fn law_changes_count_opposed_neighbours(order: Seq<usize>, signed: Seq<Single>, n: int)
    requires
        0 <= n <= order.len(),
    ensures
        ({
            let at = Set::new(
                |k: int|
                    0 <= k && k + 1 < n && signed[order[k] as int].opposes(
                        signed[order[k + 1] as int],
                    ),
            );
            &&& at.finite()
            &&& changes(order, signed, n) == at.len()
        }),
    decreases n,
{
    let at = Set::new(
        |k: int|
            0 <= k && k + 1 < n && signed[order[k] as int].opposes(signed[order[k + 1] as int]),
    );
    if n <= 1 {
        assert(at =~= Set::<int>::empty());
    } else {
        law_changes_count_opposed_neighbours(order, signed, n - 1);
        let before = Set::new(
            |k: int|
                0 <= k && k + 1 < n - 1 && signed[order[k] as int].opposes(
                    signed[order[k + 1] as int],
                ),
        );
        if signed[order[n - 2] as int].opposes(signed[order[n - 1] as int]) {
            assert(at =~= before.insert(n - 2));
        } else {
            assert(at =~= before);
        }
    }
}

/// The number of continuous inputs.
pub proof fn law_continuous_inputs_are_counted(specs: Seq<FeatureSpec>)
    ensures
        ({
            let at = Set::new(|j: int| 0 <= j < specs.len() && specs[j] == FeatureSpec::Continuous);
            &&& at.finite()
            &&& continuous_count(specs) == at.len()
        }),
    decreases specs.len(),
{
    let at = Set::new(|j: int| 0 <= j < specs.len() && specs[j] == FeatureSpec::Continuous);
    if specs.len() == 0 {
        assert(at =~= Set::<int>::empty());
    } else {
        let rest = specs.drop_last();
        law_continuous_inputs_are_counted(rest);
        let before = Set::new(|j: int| 0 <= j < rest.len() && rest[j] == FeatureSpec::Continuous);
        if specs.last() is Continuous {
            assert(at =~= before.insert(specs.len() - 1));
        } else {
            assert(at =~= before);
        }
    }
}

/// A sensitivity is measured exactly if the step lies in (0, 1], a pair is
/// asked for, the kinds of the inputs and both normalizers are those of the
/// data, every input is finite, the process has the columns of the data, an
/// input is continuous, every scale that is divided by is finite and positive,
/// and there are two rows.
pub proof fn law_sound_requests_are_measured(
    data: &NumericDataset,
    specs: Seq<FeatureSpec>,
    in_norm: &Normalizer,
    out_norm: &Normalizer,
    reference: Option<(usize, usize)>,
    alpha: Single,
    max_pairs: usize,
)
    ensures
        sensitivity_fault(data, specs, in_norm, out_norm, reference, alpha, max_pairs) is None <==> {
            &&& (Single { bits: 0 }).less(alpha) && alpha.at_most(Single { bits: 0x3f80_0000 })
            &&& max_pairs > 0
            &&& specs.len() == data.inputs.cols
            &&& in_norm.mean@.len() == data.inputs.cols && in_norm.specs@ == specs
            &&& out_norm.mean@.len() == data.outputs.cols
            &&& forall|r: int, c: int|
                0 <= r < data.inputs@.len() && 0 <= c < data.inputs@[r].len() ==> (
                #[trigger] data.inputs@[r][c]).finite()
            &&& reference matches Some(dims) ==> dims.0 == data.inputs.cols && dims.1
                == data.outputs.cols
            &&& exists|j: int| 0 <= j < specs.len() && #[trigger] specs[j] is Continuous
            &&& forall|j: int|
                0 <= j < specs.len() && #[trigger] specs[j] is Continuous ==> in_norm.std@[j].finite()
                    && (Single { bits: 0 }).less(in_norm.std@[j])
            &&& forall|j: int|
                0 <= j < out_norm.std@.len() ==> (#[trigger] out_norm.std@[j]).finite() && (
                Single { bits: 0 }).less(out_norm.std@[j])
            &&& data.inputs@.len() >= 2
        },
{
    lemma_some_continuous(specs);
    let bad_in = exists|j: int|
        0 <= j < specs.len() && specs[j] is Continuous && !usable_scale(#[trigger] in_norm.std@[j]);
    let good_in = forall|j: int|
        0 <= j < specs.len() && #[trigger] specs[j] is Continuous ==> in_norm.std@[j].finite() && (
        Single { bits: 0 }).less(in_norm.std@[j]);
    assert(bad_in <==> !good_in) by {
        if !good_in {
            let j = choose|j: int|
                0 <= j < specs.len() && #[trigger] specs[j] is Continuous && !(
                in_norm.std@[j].finite() && (Single { bits: 0 }).less(in_norm.std@[j]));
            assert(!usable_scale(in_norm.std@[j]));
        }
        if bad_in {
            let j = choose|j: int|
                0 <= j < specs.len() && specs[j] is Continuous && !usable_scale(
                    #[trigger] in_norm.std@[j],
                );
            assert(specs[j] is Continuous);
        }
    }
}

proof fn lemma_some_continuous(specs: Seq<FeatureSpec>)
    ensures
        continuous_count(specs) > 0 <==> exists|j: int|
            0 <= j < specs.len() && #[trigger] specs[j] is Continuous,
    decreases specs.len(),
{
    if specs.len() > 0 {
        let rest = specs.drop_last();
        lemma_some_continuous(rest);
        if specs.last() is Continuous {
            assert(specs[specs.len() - 1] is Continuous);
        }
        if exists|j: int| 0 <= j < rest.len() && #[trigger] rest[j] is Continuous {
            let j = choose|j: int| 0 <= j < rest.len() && #[trigger] rest[j] is Continuous;
            assert(specs[j] is Continuous);
        }
        if exists|j: int| 0 <= j < specs.len() && #[trigger] specs[j] is Continuous {
            let j = choose|j: int| 0 <= j < specs.len() && #[trigger] specs[j] is Continuous;
            if j < specs.len() - 1 {
                assert(rest[j] is Continuous);
            }
        }
    }
}

/// Does the pair count: is its step finite and above 0.000000001?
pub open spec fn counted(steps: Seq<Single>, r: int) -> bool {
    steps[r].finite() && !steps[r].at_most(Single { bits: 0x3089_705f })
}

/// Is there nothing wrong with a pair: a finite step and, where it counts,
/// finite outputs and a finite ratio?
pub open spec fn sound_pair(
    y1: Seq<Seq<Single>>,
    y2: Seq<Seq<Single>>,
    steps: Seq<Single>,
    raw: Seq<Single>,
    r: int,
) -> bool {
    &&& steps[r].finite()
    &&& counted(steps, r) ==> raw[r].finite() && forall|c: int|
        0 <= c < y1[r].len() ==> (#[trigger] y1[r][c]).finite() && y2[r][c].finite()
}

proof fn lemma_ratios(
    y1: Seq<Seq<Single>>,
    y2: Seq<Seq<Single>>,
    steps: Seq<Single>,
    raw: Seq<Single>,
    r: int,
    found: Seq<Single>,
    at: Seq<int>,
) -> (all: Seq<int>)
    requires
        0 <= r <= steps.len(),
        at.len() == found.len(),
        forall|k: int|
            #![trigger at[k]]
            0 <= k < at.len() ==> 0 <= at[k] < r && counted(steps, at[k]) && found[k]
                == raw[at[k]],
        forall|j: int, k: int| 0 <= j < k < at.len() ==> #[trigger] at[j] < #[trigger] at[k],
        forall|i: int| 0 <= i < r && #[trigger] counted(steps, i) ==> at.contains(i),
        forall|i: int| 0 <= i < r ==> #[trigger] sound_pair(y1, y2, steps, raw, i),
    ensures
        match ratios_from(y1, y2, steps, raw, r, found) {
            Ok(values) => {
                &&& all.len() == values.len()
                &&& forall|k: int|
                    #![trigger all[k]]
                    0 <= k < all.len() ==> 0 <= all[k] < steps.len() && counted(steps, all[k])
                        && values[k] == raw[all[k]]
                &&& forall|j: int, k: int|
                    0 <= j < k < all.len() ==> #[trigger] all[j] < #[trigger] all[k]
                &&& forall|i: int|
                    0 <= i < steps.len() && #[trigger] counted(steps, i) ==> all.contains(i)
                &&& forall|i: int|
                    0 <= i < steps.len() ==> #[trigger] sound_pair(y1, y2, steps, raw, i)
            },
            Err(_) => exists|i: int|
                0 <= i < steps.len() && !#[trigger] sound_pair(y1, y2, steps, raw, i),
        },
    decreases steps.len() - r,
{
    if r >= steps.len() {
        at
    } else if !steps[r].finite() {
        assert(!sound_pair(y1, y2, steps, raw, r));
        at
    } else if steps[r].at_most(Single { bits: SAME_ROW }) {
        assert(!counted(steps, r));
        assert(sound_pair(y1, y2, steps, raw, r));
        lemma_ratios(y1, y2, steps, raw, r + 1, found, at)
    } else {
        assert(counted(steps, r));
        if exists|c: int| 0 <= c < y1[r].len() && !(#[trigger] both_finite(y1, y2, r, c)) {
            let c = choose|c: int|
                0 <= c < y1[r].len() && !(#[trigger] both_finite(y1, y2, r, c));
            assert(!(y1[r][c].finite() && y2[r][c].finite()));
            assert(!sound_pair(y1, y2, steps, raw, r));
            at
        } else if !raw[r].finite() {
            assert(!sound_pair(y1, y2, steps, raw, r));
            at
        } else {
            assert forall|c: int| 0 <= c < y1[r].len() implies (#[trigger] y1[r][c]).finite()
                && y2[r][c].finite() by {
                assert(both_finite(y1, y2, r, c));
            }
            assert(sound_pair(y1, y2, steps, raw, r));
            let more = at.push(r);
            assert forall|i: int| 0 <= i < r + 1 && #[trigger] counted(steps, i) implies
                more.contains(i) by {
                if i < r {
                    let k = at.index_of(i);
                    assert(more[k] == i);
                } else {
                    assert(more[at.len() as int] == i);
                }
            }
            lemma_ratios(y1, y2, steps, raw, r + 1, found.push(raw[r]), more)
        }
    }
}

/// The ratios that count are those of the pairs with a step above
/// 0.000000001, all of them and in their order, and there is at least one.
/// They come out only if every step is finite and, at every pair that counts,
/// so are both predictions and the ratio. `at` says which pairs count.
pub proof fn law_every_pair_that_counts_gives_its_ratio(
    y1: &Matrix,
    y2: &Matrix,
    steps: Seq<Single>,
    raw: Seq<Single>,
    n_outputs: usize,
) -> (at: Seq<int>)
    ensures
        match ratios_of(y1, y2, steps, raw, n_outputs) {
            Ok(values) => {
                &&& y1@.len() == steps.len() && y2@.len() == steps.len()
                &&& y1.cols == n_outputs && y2.cols == n_outputs
                &&& values.len() > 0
                &&& at.len() == values.len()
                &&& forall|k: int|
                    #![trigger at[k]]
                    0 <= k < at.len() ==> 0 <= at[k] < steps.len() && counted(steps, at[k])
                        && values[k] == raw[at[k]]
                &&& forall|j: int, k: int|
                    0 <= j < k < at.len() ==> #[trigger] at[j] < #[trigger] at[k]
                &&& forall|i: int|
                    0 <= i < steps.len() && #[trigger] counted(steps, i) ==> at.contains(i)
                &&& forall|i: int|
                    0 <= i < steps.len() ==> #[trigger] sound_pair(y1@, y2@, steps, raw, i)
            },
            Err(_) => {
                ||| y1@.len() != steps.len() || y2@.len() != steps.len()
                ||| y1.cols != n_outputs || y2.cols != n_outputs
                ||| forall|i: int| 0 <= i < steps.len() ==> !#[trigger] counted(steps, i)
                ||| exists|i: int|
                    0 <= i < steps.len() && !#[trigger] sound_pair(y1@, y2@, steps, raw, i)
            },
        },
{
    let at = lemma_ratios(y1@, y2@, steps, raw, 0, Seq::empty(), Seq::empty());
    if let Ok(values) = ratios_from(y1@, y2@, steps, raw, 0, Seq::empty()) {
        if values.len() == 0 {
            assert forall|i: int| 0 <= i < steps.len() implies !#[trigger] counted(steps, i) by {
                if counted(steps, i) {
                    assert(at.contains(i));
                }
            }
        }
    }
    at
}

/// A measurement fails exactly if the model gives no ratios, the process
/// answered with a wrong number of outputs, or the process gives no ratios.
pub proof fn law_a_measurement_fails_only_with_a_reason(
    model: Evaluated,
    reference: Option<Result<Evaluated, usize>>,
    steps: Seq<Single>,
    n_outputs: usize,
)
    ensures
        evaluation_fault(model, reference, steps, n_outputs) is Some <==> {
            ||| ratios_of(&model.y1, &model.y2, steps, model.raw@, n_outputs) is Err
            ||| reference matches Some(Err(_))
            ||| (reference matches Some(Ok(process)) && ratios_of(
                &process.y1,
                &process.y2,
                steps,
                process.raw@,
                n_outputs,
            ) is Err)
        },
{
}

/// Two means are apart by what was computed, except that equal finite means
/// are not apart at all.
pub proof fn law_equal_means_are_not_apart(a: Single, b: Single, computed: Single)
    ensures
        a.finite() && a.equals(b) ==> means_apart(a, b, computed).bits == 0,
        !(a.finite() && a.equals(b)) ==> means_apart(a, b, computed) == computed,
{
}

/// The rows are sorted by their values: every row stands in the order once, no
/// row stands behind a larger one, and rows of equal value keep their order.
pub proof fn law_rows_stand_in_the_order_of_their_values(
    values: Seq<Single>,
    order: Seq<usize>,
    n: int,
    a: int,
    b: int,
)
    requires
        sorted_upto(values, order, n),
        n == values.len(),
        forall|k: int| 0 <= k < values.len() ==> !(#[trigger] values[k]).nan(),
        0 <= a < b < order.len(),
    ensures
        order.len() == values.len(),
        0 <= order[a] < n && 0 <= order[b] < n,
        order[a] != order[b],
        !values[order[b] as int].less(values[order[a] as int]),
        values[order[a] as int].bits == values[order[b] as int].bits ==> order[a] < order[b],
{
    assert(order.contains(order[a]) && order.contains(order[b]));
    assert(row_before(values, order[a], order[b]));
    assert(!values[order[a] as int].nan() && !values[order[b] as int].nan());
}

/// The partner of a row is another row of the table, and of all rows that
/// differ from it none is nearer. Only a row that no other differs from has no
/// partner.
pub proof fn law_every_row_has_its_own_partner(
    distances: Seq<Seq<Option<Single>>>,
    partners: Seq<Option<usize>>,
    i: int,
    k: int,
)
    requires
        partners_of(distances, partners),
        0 <= i < distances.len(),
        0 <= k < distances[i].len(),
        k != i,
        distances[i][k] matches Some(d) && (Single { bits: 0x3089_705f }).less(d),
    ensures
        partners.len() == distances.len(),
        partners[i] matches Some(b) && b != i && b < distances[i].len() && (
        distances[i][b as int] matches Some(d) && !distances[i][k]->0.less(d)),
{
    assert(is_nearest(distances[i], i, partners[i]));
    assert(partner(distances[i], i, k));
}

proof fn lemma_largest_of(values: Seq<Single>, n: int)
    requires
        0 <= n <= values.len(),
    ensures
        largest_of(values, n) == (Single { bits: 0 }) || exists|i: int|
            0 <= i < n && #[trigger] values[i] == largest_of(values, n),
    decreases n,
{
    if n > 0 {
        lemma_largest_of(values, n - 1);
        if !largest_of(values, n - 1).less(values[n - 1]) && largest_of(values, n - 1) != (Single {
            bits: 0,
        }) {
            let i = choose|i: int|
                0 <= i < n - 1 && #[trigger] values[i] == largest_of(values, n - 1);
            assert(values[i] == largest_of(values, n));
        }
    }
}

/// A mean that fits the ratios is a number from 0 on, and some ratio is at least
/// as large, unless the mean is 0.
pub proof fn law_a_mean_lies_among_the_ratios(
    e: Evaluated,
    steps: Seq<Single>,
    n_outputs: usize,
    values: Seq<Single>,
)
    requires
        e.ratios(steps, n_outputs) == Ok::<Seq<Single>, SensitivityError>(values),
        e.mean_fits(steps, n_outputs),
    ensures
        e.mean.finite(),
        (Single { bits: 0 }).at_most(e.mean),
        e.mean.at_most(Single { bits: 0 }) || exists|i: int|
            0 <= i < values.len() && e.mean.at_most(#[trigger] values[i]),
{
    lemma_largest_of(values, values.len() as int);
}

/// The shape of a residual along an input: from ten rows on there are ends and
/// a middle. The ends are a tenth of the rows on each side, and no row of the
/// middle lies further out than a row of the ends.
pub proof fn law_the_ends_of_an_input_enclose_its_middle(
    data: Seq<Seq<Single>>,
    signed: Seq<Single>,
    j: int,
    residual: FeatureResidual,
    a: int,
    b: int,
)
    requires
        shaped(data, signed, j, residual),
        forall|k: int| 0 <= k < data.len() ==> !(#[trigger] data[k])[j].nan(),
    ensures
        data.len() > 0 ==> residual.steps + 1 == data.len(),
        data.len() == 0 ==> residual.steps == 0,
        residual.tails is Some <==> data.len() >= 10,
        residual.tails matches Some((outer, inner)) ==> {
            let n = data.len() as int;
            &&& outer@.len() == 2 * (n / 10)
            &&& inner@.len() == n - 2 * (n / 5)
            &&& 0 <= a < outer@.len() && 0 <= b < inner@.len() ==> {
                &&& outer@[a] < n && inner@[b] < n && outer@[a] != inner@[b]
                &&& a < n / 10 ==> !data[inner@[b] as int][j].less(data[outer@[a] as int][j])
                &&& a >= n / 10 ==> !data[outer@[a] as int][j].less(data[inner@[b] as int][j])
            }
        },
{
    let values = column(data, j);
    let n = data.len() as int;
    let order = choose|order: Seq<usize>| #[trigger]
        sorted_upto(values, order, n) && residual.along(order, signed);
    assert forall|k: int| 0 <= k < values.len() implies !(#[trigger] values[k]).nan() by {
        assert(!data[k][j].nan());
    }
    if let Some((outer, inner)) = residual.tails {
        if 0 <= a < outer@.len() && 0 <= b < inner@.len() {
            assert(inner@[b] == order[n / 5 + b]);
            if a < n / 10 {
                assert(outer@[a] == order[a]);
                law_rows_stand_in_the_order_of_their_values(values, order, n, a, n / 5 + b);
            } else {
                assert(outer@[a] == order[n - n / 10 + (a - n / 10)]);
                law_rows_stand_in_the_order_of_their_values(
                    values,
                    order,
                    n,
                    n / 5 + b,
                    n - n / 10 + (a - n / 10),
                );
            }
        }
    }
}

} // verus!
