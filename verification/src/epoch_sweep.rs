//! Learning curves over the number of epochs.

use crate::single::Single;
use crate::text::{decimal, decimal_text, joined, lemma_decimal, owned};
use vstd::prelude::*;
use vstd::string::StringExecFns;

verus! {

/// Where a measurement comes from.
#[derive(Clone, Copy, Debug, PartialEq, Eq, Structural)]
pub enum EvalSource {
    Validation,
    Cv { k: usize },
    Test,
}

pub open spec fn label_of(source: EvalSource) -> Seq<char> {
    match source {
        EvalSource::Validation => "validation"@,
        EvalSource::Cv { k } => "cv-"@ + decimal(k as nat),
        EvalSource::Test => "test"@,
    }
}

/// The label of a source in reports.
pub fn source_label(source: EvalSource) -> (label: String)
    ensures
        label@ == label_of(source),
{
    match source {
        EvalSource::Validation => owned("validation"),
        EvalSource::Cv { k } => {
            let mut label: String = owned("cv-");
            label.append(decimal_text(k as u64).as_str());
            label
        },
        EvalSource::Test => owned("test"),
    }
}

/// A point of a learning curve.
#[derive(Clone, Copy, Debug, PartialEq, Eq, Structural)]
pub struct EpochRow {
    pub epochs: usize,
    pub train_loss: Single,
    pub rmse: Single,
    pub mae: Single,
    pub rel_error: Single,
    pub r2: Single,
    pub source: EvalSource,
}

pub open spec fn strictly_increasing(s: Seq<usize>) -> bool {
    forall|a: int, b: int| 0 <= a < b < s.len() ==> #[trigger] s[a] < #[trigger] s[b]
}

/// Puts a number in its place unless it is there already.
fn insert_point(points: &mut Vec<usize>, e: usize)
    requires
        strictly_increasing(old(points)@),
    ensures
        strictly_increasing(final(points)@),
        forall|x: usize|
            #[trigger] final(points)@.contains(x) == (old(points)@.contains(x) || x == e),
{
    let n: usize = points.len();
    let mut at: usize = 0;
    while at < n && points[at] < e
        invariant
            at <= n == points.len(),
            points@ == old(points)@,
            forall|k: int| 0 <= k < at ==> #[trigger] points@[k] < e,
        decreases n - at,
    {
        at += 1;
    }
    let ghost before = points@;
    if at < n && points[at] == e {
        assert(before.contains(e));
        return;
    }
    points.insert(at, e);
    proof {
        let after = points@;
        assert(after =~= before.insert(at as int, e));
        assert forall|a: int, b: int| 0 <= a < b < after.len() implies #[trigger] after[a]
            < #[trigger] after[b] by {
            let a0 = if a > at { a - 1 } else { a };
            let b0 = if b > at { b - 1 } else { b };
            if a == at {
                assert(after[b] == before[b0]);
                if b0 > at {
                    assert(before[at as int] < before[b0]);
                }
            } else if b == at {
                assert(after[a] == before[a0]);
            } else {
                assert(after[a] == before[a0] && after[b] == before[b0]);
            }
        }
        assert forall|x: usize| #[trigger] after.contains(x) == (before.contains(x) || x == e) by {
            if before.contains(x) {
                let k = choose|k: int| 0 <= k < before.len() && before[k] == x;
                assert(after[if k < at { k } else { k + 1 }] == x);
            }
            if x == e {
                assert(after[at as int] == x);
            }
            if after.contains(x) {
                let k = choose|k: int| 0 <= k < after.len() && after[k] == x;
                if k < at {
                    assert(before[k] == x);
                } else if k > at {
                    assert(before[k - 1] == x);
                }
            }
        }
    }
}

/// The points of a curve: the positive milestones, each once, in order.
pub open spec fn points_of(milestones: Seq<usize>, points: Seq<usize>) -> bool {
    &&& strictly_increasing(points)
    &&& forall|x: usize| #[trigger] points.contains(x) == (x > 0 && milestones.contains(x))
}

/// The points of a curve, `None` if no milestone is positive.
pub fn sweep_points(milestones: &Vec<usize>) -> (out: Option<Vec<usize>>)
    ensures
        match out {
            Some(points) => points_of(milestones@, points@) && points@.len() > 0,
            None => forall|x: usize| milestones@.contains(x) ==> x == 0,
        },
{
    let mut points: Vec<usize> = Vec::new();
    let mut i: usize = 0;
    while i < milestones.len()
        invariant
            i <= milestones@.len(),
            points_of(milestones@.take(i as int), points@),
        decreases milestones@.len() - i,
    {
        let e: usize = milestones[i];
        let ghost seen = milestones@.take(i as int);
        let ghost next = milestones@.take(i + 1);
        let ghost old_points = points@;
        proof {
            assert(next =~= seen.push(e));
            assert forall|x: usize| #[trigger] next.contains(x) == (seen.contains(x) || x == e) by {
                if seen.contains(x) {
                    let k = choose|k: int| 0 <= k < seen.len() && seen[k] == x;
                    assert(next[k] == x);
                }
                if x == e {
                    assert(next[i as int] == x);
                }
                if next.contains(x) {
                    let k = choose|k: int| 0 <= k < next.len() && next[k] == x;
                    if k < i {
                        assert(seen[k] == x);
                    }
                }
            }
        }
        if e > 0 {
            insert_point(&mut points, e);
        }
        assert forall|x: usize| #[trigger] points@.contains(x) == (x > 0 && next.contains(x)) by {
            assert(old_points.contains(x) == (x > 0 && seen.contains(x)));
            assert(next.contains(x) == (seen.contains(x) || x == e));
            if e > 0 {
                assert(points@.contains(x) == (old_points.contains(x) || x == e));
            }
        }
        i += 1;
    }
    assert(milestones@.take(i as int) =~= milestones@);
    if points.len() == 0 {
        assert forall|x: usize| milestones@.contains(x) implies x == 0 by {
            assert(points@.contains(x) == (x > 0 && milestones@.contains(x)));
        }
        None
    } else {
        Some(points)
    }
}

/// The measurements of a curve, point by point, as the folds deliver them.
#[derive(Debug)]
pub struct SweepBoard {
    pub points: Vec<usize>,
    pub n_folds: usize,
    pub buckets: Vec<Vec<EpochRow>>,
}

pub open spec fn bucket_views(buckets: Seq<Vec<EpochRow>>) -> Seq<Seq<EpochRow>> {
    buckets.map_values(|b: Vec<EpochRow>| b@)
}

impl SweepBoard {
    /// One bucket for each point, with measurements of that point only.
    pub open spec fn wf(&self) -> bool {
        &&& strictly_increasing(self.points@)
        &&& self.buckets@.len() == self.points@.len()
        &&& forall|p: int, k: int|
            0 <= p < self.points@.len() && 0 <= k < self.buckets@[p]@.len()
                ==> #[trigger] self.buckets@[p]@[k].epochs == self.points@[p]
    }

    pub fn new(points: Vec<usize>, n_folds: usize) -> (board: SweepBoard)
        requires
            strictly_increasing(points@),
        ensures
            board.wf(),
            board.points@ == points@,
            board.n_folds == n_folds,
            forall|p: int| 0 <= p < board.buckets@.len() ==> (#[trigger] board.buckets@[p])@.len()
                == 0,
    {
        let mut buckets: Vec<Vec<EpochRow>> = Vec::new();
        while buckets.len() < points.len()
            invariant
                buckets.len() <= points@.len(),
                forall|p: int| 0 <= p < buckets@.len() ==> (#[trigger] buckets@[p])@.len() == 0,
            decreases points@.len() - buckets.len(),
        {
            buckets.push(Vec::new());
        }
        SweepBoard { points, n_folds, buckets }
    }

    /// The place of a point.
    fn place(&self, epochs: usize) -> (p: Option<usize>)
        ensures
            match p {
                Some(p) => p < self.points@.len() && self.points@[p as int] == epochs,
                None => !self.points@.contains(epochs),
            },
    {
        let mut p: usize = 0;
        while p < self.points.len()
            invariant
                p <= self.points@.len(),
                forall|k: int| 0 <= k < p ==> self.points@[k] != epochs,
            decreases self.points@.len() - p,
        {
            if self.points[p] == epochs {
                return Some(p);
            }
            p += 1;
        }
        None
    }

    /// The measurement went to the point at place `p`.
    pub open spec fn recorded_at(
        self,
        next: SweepBoard,
        row: EpochRow,
        full: Option<usize>,
        p: int,
    ) -> bool {
        &&& 0 <= p < self.points@.len()
        &&& self.points@[p] == row.epochs
        &&& bucket_views(next.buckets@) == bucket_views(self.buckets@).update(
            p,
            self.buckets@[p]@.push(row),
        )
        &&& full == if self.buckets@[p]@.len() + 1 == self.n_folds {
            Some(p as usize)
        } else {
            None
        }
    }

    /// The measurement went to its point.
    pub open spec fn recorded(self, next: SweepBoard, row: EpochRow, full: Option<usize>) -> bool {
        &&& next.wf()
        &&& next.points == self.points
        &&& next.n_folds == self.n_folds
        &&& exists|p: int| self.recorded_at(next, row, full, p)
    }

    /// Takes a measurement of one fold. The answer is the place of the point
    /// if all folds have now measured it: only then may it be shown.
    pub fn record(&mut self, row: EpochRow) -> (full: Option<usize>)
        requires
            old(self).wf(),
            old(self).points@.contains(row.epochs),
        ensures
            final(self).wf(),
            final(self).points == old(self).points,
            final(self).n_folds == old(self).n_folds,
            exists|p: int|
                {
                    &&& 0 <= p < old(self).points@.len()
                    &&& #[trigger] old(self).points@[p] == row.epochs
                    &&& bucket_views(final(self).buckets@) == bucket_views(
                        old(self).buckets@,
                    ).update(p, old(self).buckets@[p]@.push(row))
                    &&& full == if old(self).buckets@[p]@.len() + 1 == old(self).n_folds {
                        Some(p as usize)
                    } else {
                        None
                    }
                },
            old(self).recorded(*final(self), row, full),
    {
        match self.place(row.epochs) {
            None => None,
            Some(p) => {
                let ghost before = self.buckets@;
                let mut bucket: Vec<EpochRow> = self.buckets.remove(p);
                bucket.push(row);
                let full: bool = bucket.len() == self.n_folds;
                self.buckets.insert(p, bucket);
                proof {
                    assert(bucket_views(self.buckets@) =~= bucket_views(before).update(
                        p as int,
                        before[p as int]@.push(row),
                    ));
                }
                let answer: Option<usize> = if full {
                    Some(p)
                } else {
                    None
                };
                assert(old(self).recorded_at(*self, row, answer, p as int));
                answer
            },
        }
    }
}

/// Why training may stop.
#[derive(Clone, Copy, Debug, PartialEq, Eq, Structural)]
pub enum StopReason {
    /// The target was reached.
    Target,
    /// The curve went flat.
    Plateau,
    /// The last point there is.
    Best,
}

/// The first point from `i` on that reaches the target.
pub open spec fn target_from(rows: Seq<EpochRow>, target: Single, i: int) -> Option<usize>
    decreases rows.len() - i,
{
    if i < 0 || i >= rows.len() {
        None
    } else if target.at_most(rows[i].r2) {
        Some(rows[i].epochs)
    } else {
        target_from(rows, target, i + 1)
    }
}

/// The first point from `i` on that is good enough and behind which the curve
/// gains less than `min_gain`. `gains[i]` is the gain from point `i` to the
/// next.
pub open spec fn plateau_from(
    rows: Seq<EpochRow>,
    gains: Seq<Single>,
    min_gain: Single,
    plateau_min: Single,
    i: int,
) -> Option<usize>
    decreases rows.len() - i,
{
    if i < 0 || i + 1 >= rows.len() {
        None
    } else if plateau_min.at_most(rows[i].r2) && gains[i].less(min_gain) {
        Some(rows[i].epochs)
    } else {
        plateau_from(rows, gains, min_gain, plateau_min, i + 1)
    }
}

/// The recommended number of epochs: the first point that reaches the target,
/// else the beginning of a plateau, else the last point.
pub open spec fn stop_of(
    rows: Seq<EpochRow>,
    gains: Seq<Single>,
    target: Single,
    min_gain: Single,
    plateau_min: Single,
) -> Option<(usize, StopReason)> {
    if rows.len() == 0 {
        None
    } else {
        match target_from(rows, target, 0) {
            Some(e) => Some((e, StopReason::Target)),
            None => match plateau_from(rows, gains, min_gain, plateau_min, 0) {
                Some(e) => Some((e, StopReason::Plateau)),
                None => Some((rows.last().epochs, StopReason::Best)),
            },
        }
    }
}

pub fn recommended_stop(
    rows: &Vec<EpochRow>,
    gains: &Vec<Single>,
    target_r2: Single,
    min_gain: Single,
    plateau_min: Single,
) -> (stop: Option<(usize, StopReason)>)
    requires
        rows@.len() > 0 ==> gains@.len() + 1 == rows@.len(),
    ensures
        stop == stop_of(rows@, gains@, target_r2, min_gain, plateau_min),
{
    if rows.len() == 0 {
        return None;
    }
    let mut i: usize = 0;
    while i < rows.len()
        invariant
            i <= rows@.len(),
            rows@.len() > 0,
            target_from(rows@, target_r2, 0) == target_from(rows@, target_r2, i as int),
        decreases rows@.len() - i,
    {
        if target_r2.is_at_most(rows[i].r2) {
            return Some((rows[i].epochs, StopReason::Target));
        }
        i += 1;
    }
    let mut k: usize = 0;
    while k < gains.len()
        invariant
            k <= gains@.len(),
            gains@.len() + 1 == rows@.len(),
            target_from(rows@, target_r2, 0) is None,
            plateau_from(rows@, gains@, min_gain, plateau_min, 0) == plateau_from(
                rows@,
                gains@,
                min_gain,
                plateau_min,
                k as int,
            ),
        decreases gains@.len() - k,
    {
        if plateau_min.is_at_most(rows[k].r2) && gains[k].is_less(min_gain) {
            return Some((rows[k].epochs, StopReason::Plateau));
        }
        k += 1;
    }
    Some((rows[rows.len() - 1].epochs, StopReason::Best))
}

/// The text for a reason, given the printed bound that it rests on.
pub open spec fn reason_text(reason: StopReason, bound: Seq<char>) -> Seq<char> {
    match reason {
        StopReason::Target => "target R²≥"@ + bound,
        StopReason::Plateau => "плато ΔR²<"@ + bound,
        StopReason::Best => "лучшее из имеющегося"@,
    }
}

pub fn stop_text(reason: StopReason, bound: &str) -> (text: String)
    ensures
        text@ == reason_text(reason, bound@),
{
    match reason {
        StopReason::Target => {
            let mut text: String = owned("target R²≥");
            text.append(bound);
            text
        },
        StopReason::Plateau => {
            let mut text: String = owned("плато ΔR²<");
            text.append(bound);
            text
        },
        StopReason::Best => owned("лучшее из имеющегося"),
    }
}

/// The printed measures of a point: loss, RMSE, MAE, relative error and R².
#[derive(Debug)]
pub struct ShownRow {
    pub train_loss: String,
    pub rmse: String,
    pub mae: String,
    pub rel_error: String,
    pub r2: String,
}

/// A line of the table of a curve.
pub open spec fn csv_line(row: EpochRow, shown: ShownRow) -> Seq<char> {
    decimal(row.epochs as nat) + ","@ + shown.train_loss@ + ","@ + shown.rmse@ + ","@
        + shown.mae@ + ","@ + shown.rel_error@ + ","@ + shown.r2@ + ","@ + label_of(row.source)
        + "\n"@
}

/// The table of the first `n` points of a curve, under its header.
pub open spec fn csv_text(rows: Seq<EpochRow>, shown: Seq<ShownRow>, n: nat) -> Seq<char>
    decreases n,
{
    if n == 0 {
        "epochs,train_loss,rmse,mae,rel_error,r2,source\n"@
    } else {
        csv_text(rows, shown, (n - 1) as nat) + csv_line(rows[n - 1], shown[n - 1])
    }
}

/// The table of a curve, with the source of each point.
pub fn rows_to_csv(rows: &Vec<EpochRow>, shown: &Vec<ShownRow>) -> (text: String)
    requires
        shown@.len() == rows@.len(),
    ensures
        text@ == csv_text(rows@, shown@, rows@.len()),
{
    let mut text: String = owned("epochs,train_loss,rmse,mae,rel_error,r2,source\n");
    let mut i: usize = 0;
    while i < rows.len()
        invariant
            i <= rows@.len() == shown@.len(),
            text@ == csv_text(rows@, shown@, i as nat),
        decreases rows@.len() - i,
    {
        let mut line: String = decimal_text(rows[i].epochs as u64);
        line.append(",");
        line.append(shown[i].train_loss.as_str());
        line.append(",");
        line.append(shown[i].rmse.as_str());
        line.append(",");
        line.append(shown[i].mae.as_str());
        line.append(",");
        line.append(shown[i].rel_error.as_str());
        line.append(",");
        line.append(shown[i].r2.as_str());
        line.append(",");
        line.append(source_label(rows[i].source).as_str());
        line.append("\n");
        text.append(line.as_str());
        i += 1;
    }
    text
}

proof fn lemma_target(rows: Seq<EpochRow>, target: Single, i: int)
    requires
        0 <= i <= rows.len(),
    ensures
        match target_from(rows, target, i) {
            Some(e) => exists|k: int|
                i <= k < rows.len() && (#[trigger] rows[k]).epochs == e && target.at_most(rows[k].r2)
                    && forall|j: int|
                    i <= j < k ==> !target.at_most((#[trigger] rows[j]).r2),
            None => forall|k: int| i <= k < rows.len() ==> !target.at_most((#[trigger] rows[k]).r2),
        },
    decreases rows.len() - i,
{
    if i < rows.len() && !target.at_most(rows[i].r2) {
        lemma_target(rows, target, i + 1);
    }
}

/// Where the curve reaches the target, training stops at the first point
/// that does, whatever comes later; where it does not, no point did.
pub proof fn law_target_comes_first(
    rows: Seq<EpochRow>,
    gains: Seq<Single>,
    target: Single,
    min_gain: Single,
    plateau_min: Single,
)
    requires
        rows.len() > 0,
    ensures
        match stop_of(rows, gains, target, min_gain, plateau_min) {
            Some((e, StopReason::Target)) => exists|k: int|
                0 <= k < rows.len() && (#[trigger] rows[k]).epochs == e && target.at_most(rows[k].r2)
                    && forall|j: int|
                    0 <= j < k ==> !target.at_most((#[trigger] rows[j]).r2),
            Some((e, _)) => forall|k: int|
                0 <= k < rows.len() ==> !target.at_most((#[trigger] rows[k]).r2),
            None => false,
        },
{
    lemma_target(rows, target, 0);
}

proof fn lemma_plateau(
    rows: Seq<EpochRow>,
    gains: Seq<Single>,
    min_gain: Single,
    plateau_min: Single,
    i: int,
)
    requires
        0 <= i,
    ensures
        match plateau_from(rows, gains, min_gain, plateau_min, i) {
            Some(e) => exists|k: int|
                i <= k < rows.len() - 1 && (#[trigger] rows[k]).epochs == e && plateau_min.at_most(
                    rows[k].r2,
                ) && gains[k].less(min_gain) && forall|j: int|
                    i <= j < k ==> !(plateau_min.at_most((#[trigger] rows[j]).r2) && gains[j].less(
                        min_gain,
                    )),
            None => forall|k: int|
                i <= k < rows.len() - 1 ==> !(plateau_min.at_most((#[trigger] rows[k]).r2)
                    && gains[k].less(min_gain)),
        },
    decreases rows.len() - i,
{
    if i + 1 < rows.len() && !(plateau_min.at_most(rows[i].r2) && gains[i].less(min_gain)) {
        lemma_plateau(rows, gains, min_gain, plateau_min, i + 1);
    }
}

/// Without a point that reaches the target, training stops where a good enough
/// curve goes flat, at the first such point; a slow start is no plateau. Only
/// where there is no such point, and no target was reached, it goes on to the
/// last point. An empty curve recommends nothing.
pub proof fn law_a_plateau_is_good_and_flat(
    rows: Seq<EpochRow>,
    gains: Seq<Single>,
    target: Single,
    min_gain: Single,
    plateau_min: Single,
)
    ensures
        match stop_of(rows, gains, target, min_gain, plateau_min) {
            Some((e, StopReason::Target)) => exists|k: int|
                0 <= k < rows.len() && (#[trigger] rows[k]).epochs == e && target.at_most(rows[k].r2)
                    && forall|j: int| 0 <= j < k ==> !target.at_most((#[trigger] rows[j]).r2),
            Some((e, StopReason::Plateau)) => {
                &&& forall|k: int|
                    0 <= k < rows.len() ==> !target.at_most((#[trigger] rows[k]).r2)
                &&& exists|k: int|
                    0 <= k < rows.len() - 1 && (#[trigger] rows[k]).epochs == e
                        && plateau_min.at_most(rows[k].r2) && gains[k].less(min_gain)
                        && forall|j: int|
                        0 <= j < k ==> !(plateau_min.at_most((#[trigger] rows[j]).r2)
                            && gains[j].less(min_gain))
            },
            Some((e, StopReason::Best)) => {
                &&& rows.len() > 0
                &&& e == rows[rows.len() - 1].epochs
                &&& forall|k: int|
                    0 <= k < rows.len() ==> !target.at_most((#[trigger] rows[k]).r2)
                &&& forall|k: int|
                    0 <= k < rows.len() - 1 ==> !(plateau_min.at_most((#[trigger] rows[k]).r2)
                        && gains[k].less(min_gain))
            },
            None => rows.len() == 0,
        },
{
    lemma_target(rows, target, 0);
    lemma_plateau(rows, gains, min_gain, plateau_min, 0);
}

/// The points of a curve are the positive milestones, each once and in order,
/// whatever order they were given in.
pub proof fn law_points_are_the_positive_milestones(milestones: Seq<usize>, points: Seq<usize>)
    requires
        points_of(milestones, points),
    ensures
        forall|i: int, j: int| 0 <= i < j < points.len() ==> points[i] < points[j],
        forall|i: int| 0 <= i < points.len() ==> #[trigger] points[i] >= 1 && exists|k: int|
            0 <= k < milestones.len() && milestones[k] == points[i],
        forall|k: int| 0 <= k < milestones.len() && #[trigger] milestones[k] >= 1 ==> exists|i: int|
            0 <= i < points.len() && points[i] == milestones[k],
{
    assert forall|i: int| 0 <= i < points.len() implies #[trigger] points[i] >= 1 && exists|k: int|
        0 <= k < milestones.len() && milestones[k] == points[i] by {
        assert(points.contains(points[i]));
    }
    assert forall|k: int| 0 <= k < milestones.len() && #[trigger] milestones[k]
        >= 1 implies exists|i: int| 0 <= i < points.len() && points[i] == milestones[k] by {
        assert(milestones.contains(milestones[k]));
        assert(points.contains(milestones[k]));
    }
}

/// A measurement joins those of its own point, behind them, and no other point
/// changes; the point may be shown exactly when as many measurements of it are
/// there as there are folds.
pub proof fn law_a_point_is_full_when_every_fold_measured_it(
    before: SweepBoard,
    after: SweepBoard,
    row: EpochRow,
    full: Option<usize>,
    p: int,
)
    requires
        before.wf(),
        before.recorded(after, row, full),
        0 <= p < before.points@.len(),
    ensures
        before.points@[p] == row.epochs ==> {
            &&& after.buckets@[p]@ == before.buckets@[p]@ + seq![row]
            &&& full is Some <==> after.buckets@[p]@.len() == before.n_folds
            &&& full matches Some(at) ==> at == p
        },
        before.points@[p] != row.epochs ==> after.buckets@[p]@ == before.buckets@[p]@,
{
    let q = choose|q: int| before.recorded_at(after, row, full, q);
    assert(before.points.len() == before.points@.len());
    assert(bucket_views(after.buckets@)[p] == after.buckets@[p]@);
    assert(bucket_views(before.buckets@)[p] == before.buckets@[p]@);
    if before.points@[p] == row.epochs {
        if p < q {
            assert(before.points@[p] < before.points@[q]);
        }
        if q < p {
            assert(before.points@[q] < before.points@[p]);
        }
        assert(before.buckets@[p]@.push(row) =~= before.buckets@[p]@ + seq![row]);
    }
}

/// Sources have labels of their own.
pub proof fn law_sources_have_labels_of_their_own(a: EvalSource, b: EvalSource)
    requires
        label_of(a) == label_of(b),
    ensures
        a == b,
{
    reveal_strlit("validation");
    reveal_strlit("test");
    reveal_strlit("cv-");
    let x = label_of(a);
    let y = label_of(b);
    assert(x[0] == y[0]);
    if let EvalSource::Cv { k } = a {
        assert(x[0] == 'c');
        if let EvalSource::Cv { k: m } = b {
            assert(x.skip(3) =~= decimal(k as nat));
            assert(y.skip(3) =~= decimal(m as nat));
            lemma_decimal(k as nat);
            lemma_decimal(m as nat);
        }
    }
    if let EvalSource::Cv { k } = b {
        assert(y[0] == 'c');
    }
}

/// A line of the table holds the seven fields of its point between commas, in
/// the order of the header, and ends with a line feed.
pub proof fn law_a_line_holds_the_fields_of_the_header(row: EpochRow, shown: ShownRow)
    ensures
        csv_line(row, shown) == joined(
            seq![
                decimal(row.epochs as nat),
                shown.train_loss@,
                shown.rmse@,
                shown.mae@,
                shown.rel_error@,
                shown.r2@,
                label_of(row.source),
            ],
            ","@,
        ) + "\n"@,
        csv_text(Seq::empty(), Seq::empty(), 0) == joined(
            seq![
                "epochs"@,
                "train_loss"@,
                "rmse"@,
                "mae"@,
                "rel_error"@,
                "r2"@,
                "source"@,
            ],
            ","@,
        ) + "\n"@,
{
    reveal_with_fuel(joined, 8);
    let fields = seq![
        decimal(row.epochs as nat),
        shown.train_loss@,
        shown.rmse@,
        shown.mae@,
        shown.rel_error@,
        shown.r2@,
        label_of(row.source),
    ];
    lemma_seven_joined(fields, ","@);
    assert(csv_line(row, shown) =~= joined(fields, ","@) + "\n"@);
    let names = seq![
        "epochs"@,
        "train_loss"@,
        "rmse"@,
        "mae"@,
        "rel_error"@,
        "r2"@,
        "source"@,
    ];
    lemma_seven_joined(names, ","@);
    reveal_strlit("epochs");
    reveal_strlit("train_loss");
    reveal_strlit("rmse");
    reveal_strlit("mae");
    reveal_strlit("rel_error");
    reveal_strlit("r2");
    reveal_strlit("source");
    reveal_strlit(",");
    reveal_strlit("\n");
    reveal_strlit("epochs,train_loss,rmse,mae,rel_error,r2,source\n");
    assert("epochs,train_loss,rmse,mae,rel_error,r2,source\n"@ =~= joined(names, ","@) + "\n"@);
}

proof fn lemma_seven_joined(f: Seq<Seq<char>>, sep: Seq<char>)
    requires
        f.len() == 7,
    ensures
        joined(f, sep) == f[0] + sep + f[1] + sep + f[2] + sep + f[3] + sep + f[4] + sep + f[5]
            + sep + f[6],
{
    let a = f.drop_last();
    let b = a.drop_last();
    let c = b.drop_last();
    let d = c.drop_last();
    let e = d.drop_last();
    let g = e.drop_last();
    assert(joined(g, sep) == g[0]);
    assert(joined(e, sep) == joined(g, sep) + sep + e[1]);
    assert(joined(d, sep) == joined(e, sep) + sep + d[2]);
    assert(joined(c, sep) == joined(d, sep) + sep + c[3]);
    assert(joined(b, sep) == joined(c, sep) + sep + b[4]);
    assert(joined(a, sep) == joined(b, sep) + sep + a[5]);
    assert(joined(f, sep) == joined(a, sep) + sep + f[6]);
}

/// The table of a curve has a line for each point, in their order, under its
/// header.
pub proof fn law_every_point_has_a_line(
    rows: Seq<EpochRow>,
    shown: Seq<ShownRow>,
    n: nat,
    i: int,
)
    requires
        0 <= i < n <= rows.len(),
        shown.len() == rows.len(),
    ensures
        ({
            let line = csv_line(rows[i], shown[i]);
            let from = csv_text(rows, shown, i as nat).len() as int;
            from + line.len() <= csv_text(rows, shown, n).len() && csv_text(
                rows,
                shown,
                n,
            ).subrange(from, from + line.len()) == line
        }),
        csv_text(rows, shown, n).take(csv_text(rows, shown, 0).len() as int) == csv_text(
            rows,
            shown,
            0,
        ),
{
    let line = csv_line(rows[i], shown[i]);
    let from = csv_text(rows, shown, i as nat).len() as int;
    lemma_table_grows(rows, shown, 0, n);
    lemma_table_grows(rows, shown, (i + 1) as nat, n);
    let whole = csv_text(rows, shown, n);
    let front = csv_text(rows, shown, (i + 1) as nat);
    assert(front == csv_text(rows, shown, i as nat) + line);
    assert(whole.subrange(from, from + line.len()) =~= line) by {
        assert forall|k: int| 0 <= k < line.len() implies whole.subrange(
            from,
            from + line.len(),
        )[k] == line[k] by {
            assert(whole.take(front.len() as int)[from + k] == front[from + k]);
        }
    }
}

proof fn lemma_table_grows(rows: Seq<EpochRow>, shown: Seq<ShownRow>, m: nat, n: nat)
    requires
        m <= n,
    ensures
        csv_text(rows, shown, m).len() <= csv_text(rows, shown, n).len(),
        csv_text(rows, shown, n).take(csv_text(rows, shown, m).len() as int) == csv_text(
            rows,
            shown,
            m,
        ),
    decreases n,
{
    if m < n {
        lemma_table_grows(rows, shown, m, (n - 1) as nat);
        let before = csv_text(rows, shown, (n - 1) as nat);
        let line = csv_line(rows[n - 1], shown[n - 1]);
        let k = csv_text(rows, shown, m).len() as int;
        assert((before + line).take(k) =~= before.take(k));
    } else {
        let t = csv_text(rows, shown, n);
        assert(t.take(t.len() as int) =~= t);
    }
}

} // verus!
