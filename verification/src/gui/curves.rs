//! Learning curves of several folds, epoch by epoch.

use crate::gui::messages::CurvePoint;
use crate::single::Single;
use vstd::prelude::*;

verus! {

/// What is read off a point of a curve.
#[derive(Clone, Copy, Debug, PartialEq, Eq, Structural)]
pub enum Measure {
    TrainLoss,
    ValR2,
}

pub open spec fn measure_of(point: CurvePoint, measure: Measure) -> Option<Single> {
    match measure {
        Measure::TrainLoss => Some(point.train_loss),
        Measure::ValR2 => point.val_r2,
    }
}

/// The values that the folds measured at one epoch.
#[derive(Debug)]
pub struct EpochGroup {
    pub epoch: usize,
    pub values: Vec<Single>,
}

/// The values measured at an epoch by the first `n` points of a curve.
pub open spec fn in_curve(curve: Seq<CurvePoint>, measure: Measure, epoch: usize, n: int) -> Seq<
    Single,
>
    decreases n,
{
    if n <= 0 {
        Seq::empty()
    } else {
        let head = in_curve(curve, measure, epoch, n - 1);
        match measure_of(curve[n - 1], measure) {
            Some(v) => if curve[n - 1].epoch == epoch {
                head.push(v)
            } else {
                head
            },
            None => head,
        }
    }
}

/// The values measured at an epoch by the first `n` curves, curve by curve.
pub open spec fn in_curves(
    curves: Seq<Vec<CurvePoint>>,
    measure: Measure,
    epoch: usize,
    n: int,
) -> Seq<Single>
    decreases n,
{
    if n <= 0 {
        Seq::empty()
    } else {
        in_curves(curves, measure, epoch, n - 1) + in_curve(
            curves[n - 1]@,
            measure,
            epoch,
            curves[n - 1]@.len() as int,
        )
    }
}

pub open spec fn measured(curves: Seq<Vec<CurvePoint>>, measure: Measure, epoch: usize) -> Seq<
    Single,
> {
    in_curves(curves, measure, epoch, curves.len() as int)
}

pub open spec fn epochs_increase(groups: Seq<EpochGroup>) -> bool {
    forall|i: int, j: int|
        0 <= i < j < groups.len() ==> (#[trigger] groups[i]).epoch < (#[trigger] groups[j]).epoch
}

/// The groups are what was measured: `values` says it for each epoch.
spec fn grouped(groups: Seq<EpochGroup>, values: spec_fn(usize) -> Seq<Single>) -> bool {
    &&& epochs_increase(groups)
    &&& forall|i: int|
        0 <= i < groups.len() ==> (#[trigger] groups[i]).values@ == values(groups[i].epoch)
            && groups[i].values@.len() > 0
    &&& forall|e: usize|
        (#[trigger] values(e)).len() > 0 ==> exists|i: int|
            0 <= i < groups.len() && (#[trigger] groups[i]).epoch == e
}

fn note(groups: &mut Vec<EpochGroup>, epoch: usize, v: Single, Ghost(values): Ghost<spec_fn(usize) -> Seq<Single>>)
    requires
        grouped(old(groups)@, values),
    ensures
        grouped(
            final(groups)@,
            |e: usize|
                if e == epoch {
                    values(e).push(v)
                } else {
                    values(e)
                },
        ),
{
    let ghost start = groups@;
    let ghost next = |e: usize|
        if e == epoch {
            values(e).push(v)
        } else {
            values(e)
        };
    let mut p: usize = 0;
    while p < groups.len() && groups[p].epoch < epoch
        invariant
            p <= groups.len(),
            groups@ == start,
            forall|k: int| 0 <= k < p ==> (#[trigger] start[k]).epoch < epoch,
        decreases groups.len() - p,
    {
        p += 1;
    }
    if p < groups.len() && groups[p].epoch == epoch {
        let mut group: EpochGroup = groups.remove(p);
        group.values.push(v);
        groups.insert(p, group);
        assert(groups@ =~= start.update(p as int, group));
        assert forall|e: usize| (#[trigger] next(e)).len() > 0 implies exists|i: int|
            0 <= i < groups@.len() && (#[trigger] groups@[i]).epoch == e by {
            if e == epoch {
                assert(groups@[p as int].epoch == e);
            } else {
                assert(values(e).len() > 0);
                let i = choose|i: int| 0 <= i < start.len() && (#[trigger] start[i]).epoch == e;
                assert(groups@[i].epoch == e);
            }
        }
        assert forall|i: int| 0 <= i < groups@.len() implies (#[trigger] groups@[i]).values@ == next(
            groups@[i].epoch,
        ) && groups@[i].values@.len() > 0 by {
            assert(start[i].values@ == values(start[i].epoch));
            if i != p {
                assert(start[i].epoch != start[p as int].epoch);
            }
        }
    } else {
        let mut list: Vec<Single> = Vec::new();
        list.push(v);
        let group: EpochGroup = EpochGroup { epoch, values: list };
        proof {
            if values(epoch).len() > 0 {
                let i = choose|i: int| 0 <= i < start.len() && (#[trigger] start[i]).epoch == epoch;
                if i > p {
                    assert(start[p as int].epoch < start[i].epoch);
                }
                assert(false);
            }
            assert(values(epoch) =~= Seq::empty());
        }
        groups.insert(p, group);
        assert(groups@ =~= start.insert(p as int, group));
        assert(group.values@ =~= next(epoch));
        assert forall|i: int, j: int| 0 <= i < j < groups@.len() implies (#[trigger] groups@[i]).epoch
            < (#[trigger] groups@[j]).epoch by {
            if i < p && j < p {
                assert(start[i].epoch < start[j].epoch);
            } else if i < p && j == p {
                assert(start[i].epoch < epoch);
            } else if i < p {
                assert(groups@[j] == start[j - 1]);
                assert(start[i].epoch < start[j - 1].epoch);
            } else if i == p {
                assert(groups@[j] == start[j - 1]);
                if p < j - 1 {
                    assert(start[p as int].epoch < start[j - 1].epoch);
                }
            } else {
                assert(groups@[i] == start[i - 1] && groups@[j] == start[j - 1]);
                assert(start[i - 1].epoch < start[j - 1].epoch);
            }
        }
        assert forall|i: int| 0 <= i < groups@.len() implies (#[trigger] groups@[i]).values@ == next(
            groups@[i].epoch,
        ) && groups@[i].values@.len() > 0 by {
            if i < p {
                assert(groups@[i] == start[i]);
                assert(start[i].epoch < epoch);
                assert(start[i].values@ == values(start[i].epoch));
            } else if i > p {
                assert(groups@[i] == start[i - 1]);
                assert(start[i - 1].values@ == values(start[i - 1].epoch));
                if i - 1 > p {
                    assert(start[p as int].epoch < start[i - 1].epoch);
                }
            }
        }
        assert forall|e: usize| (#[trigger] next(e)).len() > 0 implies exists|i: int|
            0 <= i < groups@.len() && (#[trigger] groups@[i]).epoch == e by {
            if e == epoch {
                assert(groups@[p as int].epoch == e);
            } else {
                assert(values(e).len() > 0);
                let i = choose|i: int| 0 <= i < start.len() && (#[trigger] start[i]).epoch == e;
                if i < p {
                    assert(groups@[i].epoch == e);
                } else {
                    assert(groups@[i + 1] == start[i]);
                }
            }
        }
    }
}

proof fn lemma_same_values(
    groups: Seq<EpochGroup>,
    a: spec_fn(usize) -> Seq<Single>,
    b: spec_fn(usize) -> Seq<Single>,
)
    requires
        grouped(groups, a),
        forall|e: usize| #[trigger] a(e) == b(e),
    ensures
        grouped(groups, b),
{
    assert forall|e: usize| (#[trigger] b(e)).len() > 0 implies exists|i: int|
        0 <= i < groups.len() && (#[trigger] groups[i]).epoch == e by {
        assert(a(e) == b(e));
    }
    assert forall|i: int| 0 <= i < groups.len() implies (#[trigger] groups[i]).values@ == b(
        groups[i].epoch,
    ) && groups[i].values@.len() > 0 by {
        assert(a(groups[i].epoch) == b(groups[i].epoch));
    }
}

/// Whether each curve has a value for this epoch.
pub open spec fn in_every_curve(
    curves: Seq<Vec<CurvePoint>>,
    measure: Measure,
    epoch: usize,
) -> bool {
    forall|c: int|
        0 <= c < curves.len() ==> in_curve(
            #[trigger] curves[c]@,
            measure,
            epoch,
            curves[c]@.len() as int,
        ).len() > 0
}

/// The groups are those of the epochs that every curve measured, in
/// increasing order, each with all that was measured there.
pub open spec fn are_fold_groups(
    groups: Seq<EpochGroup>,
    curves: Seq<Vec<CurvePoint>>,
    measure: Measure,
) -> bool {
    &&& epochs_increase(groups)
    &&& forall|i: int|
        0 <= i < groups.len() ==> (#[trigger] groups[i]).values@ == measured(
            curves,
            measure,
            groups[i].epoch,
        )
    &&& curves.len() == 0 ==> groups.len() == 0
    &&& forall|e: usize|
        #![trigger in_every_curve(curves, measure, e)]
        #![trigger measured(curves, measure, e)]
        curves.len() > 0 ==> ((exists|i: int|
            0 <= i < groups.len() && (#[trigger] groups[i]).epoch == e)
            <==> in_every_curve(curves, measure, e))
}

fn visits(curve: &Vec<CurvePoint>, measure: Measure, epoch: usize) -> (found: bool)
    ensures
        found == (in_curve(curve@, measure, epoch, curve@.len() as int).len() > 0),
{
    let mut found: bool = false;
    let mut k: usize = 0;
    while k < curve.len()
        invariant
            k <= curve.len(),
            found == (in_curve(curve@, measure, epoch, k as int).len() > 0),
        decreases curve.len() - k,
    {
        let point: CurvePoint = curve[k];
        let has_value: bool = match measure {
            Measure::TrainLoss => true,
            Measure::ValR2 => point.val_r2.is_some(),
        };
        if point.epoch == epoch && has_value {
            found = true;
        }
        k += 1;
    }
    found
}

fn all_visit(curves: &Vec<Vec<CurvePoint>>, measure: Measure, epoch: usize) -> (all: bool)
    ensures
        all == in_every_curve(curves@, measure, epoch),
{
    let mut c: usize = 0;
    while c < curves.len()
        invariant
            c <= curves.len(),
            forall|k: int|
                0 <= k < c ==> in_curve(
                    #[trigger] curves@[k]@,
                    measure,
                    epoch,
                    curves@[k]@.len() as int,
                ).len() > 0,
        decreases curves.len() - c,
    {
        if !visits(&curves[c], measure, epoch) {
            assert(in_curve(
                curves@[c as int]@,
                measure,
                epoch,
                curves@[c as int]@.len() as int,
            ).len() == 0);
            return false;
        }
        c += 1;
    }
    true
}

/// What was measured at an epoch holds what each curve measured there.
proof fn lemma_measured_somewhere(
    curves: Seq<Vec<CurvePoint>>,
    measure: Measure,
    epoch: usize,
    c: int,
    n: int,
)
    requires
        0 <= c < n <= curves.len(),
        in_curve(curves[c]@, measure, epoch, curves[c]@.len() as int).len() > 0,
    ensures
        in_curves(curves, measure, epoch, n).len() > 0,
    decreases n,
{
    if c < n - 1 {
        lemma_measured_somewhere(curves, measure, epoch, c, n - 1);
    }
}

/// The epochs that every fold measured, in increasing order, with the values
/// of the folds. An epoch that some fold did not measure is left out: a mean
/// over fewer folds would look like a change of the curve.
pub fn fold_groups(curves: &Vec<Vec<CurvePoint>>, measure: Measure) -> (groups: Vec<EpochGroup>)
    ensures
        are_fold_groups(groups@, curves@, measure),
{
    let mut groups: Vec<EpochGroup> = Vec::new();
    let mut c: usize = 0;
    assert(grouped(groups@, |e: usize| in_curves(curves@, measure, e, c as int)));
    while c < curves.len()
        invariant
            c <= curves.len(),
            grouped(groups@, |e: usize| in_curves(curves@, measure, e, c as int)),
        decreases curves.len() - c,
    {
        let curve: &Vec<CurvePoint> = &curves[c];
        let mut k: usize = 0;
        proof {
            lemma_same_values(
                groups@,
                |e: usize| in_curves(curves@, measure, e, c as int),
                |e: usize|
                    in_curves(curves@, measure, e, c as int) + in_curve(
                        curve@,
                        measure,
                        e,
                        k as int,
                    ),
            );
        }
        while k < curve.len()
            invariant
                k <= curve.len(),
                c < curves.len(),
                grouped(
                    groups@,
                    |e: usize|
                        in_curves(curves@, measure, e, c as int) + in_curve(
                            curve@,
                            measure,
                            e,
                            k as int,
                        ),
                ),
            decreases curve.len() - k,
        {
            let point: CurvePoint = curve[k];
            let value: Option<Single> = match measure {
                Measure::TrainLoss => Some(point.train_loss),
                Measure::ValR2 => point.val_r2,
            };
            let ghost before = |e: usize|
                in_curves(curves@, measure, e, c as int) + in_curve(curve@, measure, e, k as int);
            let ghost after = |e: usize|
                in_curves(curves@, measure, e, c as int) + in_curve(curve@, measure, e, k + 1);
            match value {
                Some(v) => {
                    note(&mut groups, point.epoch, v, Ghost(before));
                    proof {
                        let next = |e: usize|
                            if e == point.epoch {
                                before(e).push(v)
                            } else {
                                before(e)
                            };
                        assert forall|e: usize| #[trigger] next(e) == after(e) by {
                            assert(before(e).push(v) =~= in_curves(curves@, measure, e, c as int)
                                + in_curve(curve@, measure, e, k as int).push(v));
                        }
                        lemma_same_values(groups@, next, after);
                    }
                },
                None => {
                    proof {
                        assert forall|e: usize| #[trigger] before(e) == after(e) by {}
                        lemma_same_values(groups@, before, after);
                    }
                },
            }
            k += 1;
            assert(grouped(
                groups@,
                |e: usize|
                    in_curves(curves@, measure, e, c as int) + in_curve(
                        curve@,
                        measure,
                        e,
                        k as int,
                    ),
            ));
        }
        proof {
            lemma_same_values(
                groups@,
                |e: usize|
                    in_curves(curves@, measure, e, c as int) + in_curve(
                        curve@,
                        measure,
                        e,
                        k as int,
                    ),
                |e: usize| in_curves(curves@, measure, e, c + 1),
            );
        }
        c += 1;
    }
    let ghost all = groups@;
    let ghost values = |e: usize| in_curves(curves@, measure, e, curves@.len() as int);
    let mut i: usize = 0;
    while i < groups.len()
        invariant
            i <= groups.len(),
            grouped(all, values),
            epochs_increase(groups@),
            forall|k: int|
                0 <= k < groups@.len() ==> all.contains(#[trigger] groups@[k]),
            forall|k: int|
                0 <= k < all.len() && in_every_curve(curves@, measure, (#[trigger] all[k]).epoch)
                    ==> groups@.contains(all[k]),
            forall|k: int|
                0 <= k < i ==> in_every_curve(curves@, measure, (#[trigger] groups@[k]).epoch),
        decreases groups.len() - i,
    {
        if all_visit(curves, measure, groups[i].epoch) {
            i += 1;
        } else {
            let ghost before = groups@;
            groups.remove(i);
            assert(groups@ == before.remove(i as int));
            assert forall|k: int| 0 <= k < groups@.len() implies all.contains(
                #[trigger] groups@[k],
            ) by {
                if k < i {
                    assert(groups@[k] == before[k]);
                } else {
                    assert(groups@[k] == before[k + 1]);
                }
            }
            assert forall|k: int|
                0 <= k < all.len() && in_every_curve(
                    curves@,
                    measure,
                    (#[trigger] all[k]).epoch,
                ) implies groups@.contains(all[k]) by {
                let j = choose|j: int| 0 <= j < before.len() && before[j] == all[k];
                if j < i {
                    assert(groups@[j] == all[k]);
                } else {
                    assert(groups@[j - 1] == all[k]);
                }
            }
            assert forall|a: int, b: int| 0 <= a < b < groups@.len() implies (
            #[trigger] groups@[a]).epoch < (#[trigger] groups@[b]).epoch by {
                let x = if a < i {
                    a
                } else {
                    a + 1
                };
                let y = if b < i {
                    b
                } else {
                    b + 1
                };
                assert(before[x].epoch < before[y].epoch);
            }
        }
    }
    proof {
        assert forall|k: int| 0 <= k < groups@.len() implies (#[trigger] groups@[k]).values@
            == measured(curves@, measure, groups@[k].epoch) by {
            assert(all.contains(groups@[k]));
            let j = choose|j: int| 0 <= j < all.len() && all[j] == groups@[k];
            assert(all[j].values@ == values(all[j].epoch) && all[j].values@.len() > 0);
        }
        if curves@.len() == 0 && groups@.len() > 0 {
            assert(all.contains(groups@[0]));
            let j = choose|j: int| 0 <= j < all.len() && all[j] == groups@[0];
            assert(all[j].values@ == values(all[j].epoch) && all[j].values@.len() > 0);
            assert(false);
        }
        assert forall|e: usize| curves@.len() > 0 implies ((exists|k: int|
            0 <= k < groups@.len() && (#[trigger] groups@[k]).epoch == e)
            <==> #[trigger] in_every_curve(curves@, measure, e)) by {
            if in_every_curve(curves@, measure, e) {
                assert(in_curve(curves@[0]@, measure, e, curves@[0]@.len() as int).len() > 0);
                lemma_measured_somewhere(curves@, measure, e, 0, curves@.len() as int);
                assert(values(e).len() > 0);
                let j = choose|j: int| 0 <= j < all.len() && (#[trigger] all[j]).epoch == e;
                assert(groups@.contains(all[j]));
            }
        }
    }
    groups
}

/// An epoch that some fold did not measure is in no group, however often the
/// other folds measured it.
pub proof fn law_partly_measured_epochs_are_left_out(
    groups: Seq<EpochGroup>,
    curves: Seq<Vec<CurvePoint>>,
    measure: Measure,
    epoch: usize,
    fold: int,
)
    requires
        are_fold_groups(groups, curves, measure),
        0 <= fold < curves.len(),
        in_curve(curves[fold]@, measure, epoch, curves[fold]@.len() as int).len() == 0,
    ensures
        forall|i: int| 0 <= i < groups.len() ==> (#[trigger] groups[i]).epoch != epoch,
{
    assert(!in_every_curve(curves, measure, epoch));
}

/// A single curve with distinct epochs comes back as its own measured points.
pub proof fn law_a_single_curve_stays_itself(
    groups: Seq<EpochGroup>,
    curves: Seq<Vec<CurvePoint>>,
    measure: Measure,
    i: int,
)
    requires
        are_fold_groups(groups, curves, measure),
        curves.len() == 1,
        forall|j: int, k: int|
            0 <= j < k < curves[0]@.len() ==> (#[trigger] curves[0]@[j]).epoch
                != (#[trigger] curves[0]@[k]).epoch,
        0 <= i < curves[0]@.len(),
    ensures
        match measure_of(curves[0]@[i], measure) {
            Some(v) => exists|g: int|
                0 <= g < groups.len() && (#[trigger] groups[g]).epoch == curves[0]@[i].epoch
                    && groups[g].values@ == seq![v],
            None => forall|g: int|
                0 <= g < groups.len() ==> (#[trigger] groups[g]).epoch != curves[0]@[i].epoch,
        },
{
    let curve = curves[0]@;
    let epoch = curve[i].epoch;
    let found = in_curve(curve, measure, epoch, curve.len() as int);
    lemma_only_here(curve, measure, i, curve.len() as int);
    assert(in_curves(curves, measure, epoch, 0) =~= Seq::empty());
    reveal_with_fuel(in_curves, 2);
    assert(measured(curves, measure, epoch) =~= found);
    assert(in_every_curve(curves, measure, epoch) == (found.len() > 0)) by {
        assert(curves[0]@ == curve);
    }
}

proof fn lemma_only_here(curve: Seq<CurvePoint>, measure: Measure, i: int, n: int)
    requires
        0 <= i < curve.len(),
        0 <= n <= curve.len(),
        forall|j: int, k: int|
            0 <= j < k < curve.len() ==> (#[trigger] curve[j]).epoch != (#[trigger] curve[k]).epoch,
    ensures
        in_curve(curve, measure, curve[i].epoch, n) == (match measure_of(curve[i], measure) {
            Some(v) => if i < n {
                seq![v]
            } else {
                Seq::empty()
            },
            None => Seq::empty(),
        }),
    decreases n,
{
    if n > 0 {
        lemma_only_here(curve, measure, i, n - 1);
        if i < n - 1 {
            assert(curve[i].epoch != curve[n - 1].epoch);
        } else if i > n - 1 {
            assert(curve[n - 1].epoch != curve[i].epoch);
        }
    }
}

proof fn lemma_measured_point(curve: Seq<CurvePoint>, measure: Measure, epoch: usize, n: int)
    requires
        0 <= n <= curve.len(),
    ensures
        in_curve(curve, measure, epoch, n).len() > 0 <==> exists|k: int|
            0 <= k < n && (#[trigger] curve[k]).epoch == epoch && (measure == Measure::TrainLoss
                || curve[k].val_r2 is Some),
    decreases n,
{
    if n > 0 {
        lemma_measured_point(curve, measure, epoch, n - 1);
        if in_curve(curve, measure, epoch, n).len() > 0 && in_curve(
            curve,
            measure,
            epoch,
            n - 1,
        ).len() == 0 {
            assert(curve[n - 1].epoch == epoch);
        }
        if curve[n - 1].epoch == epoch && (measure == Measure::TrainLoss || curve[n
            - 1].val_r2 is Some) {
            assert(in_curve(curve, measure, epoch, n).len() > 0);
        }
    }
}

/// Every fold has a point with a value at the epoch of a group, and the groups
/// stand in the order of their epochs.
pub proof fn law_every_fold_measured_the_epoch_of_a_group(
    groups: Seq<EpochGroup>,
    curves: Seq<Vec<CurvePoint>>,
    measure: Measure,
    i: int,
    c: int,
)
    requires
        are_fold_groups(groups, curves, measure),
        0 <= i < groups.len(),
        0 <= c < curves.len(),
    ensures
        exists|k: int|
            0 <= k < curves[c]@.len() && (#[trigger] curves[c]@[k]).epoch == groups[i].epoch && (
            measure == Measure::TrainLoss || curves[c]@[k].val_r2 is Some),
        forall|j: int| i < j < groups.len() ==> groups[i].epoch < (#[trigger] groups[j]).epoch,
{
    let e = groups[i].epoch;
    assert(in_every_curve(curves, measure, e));
    assert(in_curve(curves[c]@, measure, e, curves[c]@.len() as int).len() > 0);
    lemma_measured_point(curves[c]@, measure, e, curves[c]@.len() as int);
}

/// An epoch at which every fold has a point with a value has a group.
pub proof fn law_an_epoch_of_every_fold_has_a_group(
    groups: Seq<EpochGroup>,
    curves: Seq<Vec<CurvePoint>>,
    measure: Measure,
    epoch: usize,
    at: Seq<int>,
)
    requires
        are_fold_groups(groups, curves, measure),
        curves.len() > 0,
        at.len() == curves.len(),
        forall|c: int|
            #![trigger curves[c]]
            0 <= c < curves.len() ==> 0 <= at[c] < curves[c]@.len() && curves[c]@[at[c]].epoch
                == epoch && (measure == Measure::TrainLoss || curves[c]@[at[c]].val_r2 is Some),
    ensures
        exists|i: int| 0 <= i < groups.len() && (#[trigger] groups[i]).epoch == epoch,
{
    assert forall|c: int| 0 <= c < curves.len() implies in_curve(
        #[trigger] curves[c]@,
        measure,
        epoch,
        curves[c]@.len() as int,
    ).len() > 0 by {
        lemma_measured_point(curves[c]@, measure, epoch, curves[c]@.len() as int);
        assert(curves[c]@[at[c]].epoch == epoch);
    }
    assert(in_every_curve(curves, measure, epoch));
}

proof fn lemma_one_each(
    curves: Seq<Vec<CurvePoint>>,
    measure: Measure,
    epoch: usize,
    at: Seq<int>,
    n: int,
)
    requires
        0 <= n <= curves.len(),
        at.len() == curves.len(),
        forall|c: int|
            #![trigger curves[c]]
            0 <= c < curves.len() ==> 0 <= at[c] < curves[c]@.len() && curves[c]@[at[c]].epoch
                == epoch && measure_of(curves[c]@[at[c]], measure) is Some,
        forall|c: int, j: int, k: int|
            0 <= c < curves.len() && 0 <= j < k < curves[c]@.len() ==> (
            #[trigger] curves[c]@[j]).epoch != (#[trigger] curves[c]@[k]).epoch,
    ensures
        in_curves(curves, measure, epoch, n) == Seq::new(
            n as nat,
            |c: int| measure_of(curves[c]@[at[c]], measure)->0,
        ),
    decreases n,
{
    if n > 0 {
        lemma_one_each(curves, measure, epoch, at, n - 1);
        let curve = curves[n - 1]@;
        lemma_only_here(curve, measure, at[n - 1], curve.len() as int);
    }
    assert(in_curves(curves, measure, epoch, n) =~= Seq::new(
        n as nat,
        |c: int| measure_of(curves[c]@[at[c]], measure)->0,
    ));
}

/// Where every fold measured an epoch once, its group holds one value of each
/// fold, in the order of the folds.
pub proof fn law_a_group_holds_one_value_of_each_fold(
    groups: Seq<EpochGroup>,
    curves: Seq<Vec<CurvePoint>>,
    measure: Measure,
    at: Seq<int>,
    i: int,
)
    requires
        are_fold_groups(groups, curves, measure),
        0 <= i < groups.len(),
        at.len() == curves.len(),
        forall|c: int|
            #![trigger curves[c]]
            0 <= c < curves.len() ==> 0 <= at[c] < curves[c]@.len() && curves[c]@[at[c]].epoch
                == groups[i].epoch,
        forall|c: int, j: int, k: int|
            0 <= c < curves.len() && 0 <= j < k < curves[c]@.len() ==> (
            #[trigger] curves[c]@[j]).epoch != (#[trigger] curves[c]@[k]).epoch,
    ensures
        groups[i].values@.len() == curves.len(),
        forall|c: int|
            #![trigger groups[i].values@[c]]
            0 <= c < curves.len() ==> match measure {
                Measure::TrainLoss => groups[i].values@[c] == curves[c]@[at[c]].train_loss,
                Measure::ValR2 => curves[c]@[at[c]].val_r2 == Some(groups[i].values@[c]),
            },
{
    let e = groups[i].epoch;
    let n = curves.len() as int;
    assert(groups[i].values@ == measured(curves, measure, e));
    if n == 0 {
        assert(groups.len() == 0);
    }
    assert(in_every_curve(curves, measure, e));
    assert forall|c: int| #![trigger curves[c]] 0 <= c < curves.len() implies measure_of(
        curves[c]@[at[c]],
        measure,
    ) is Some by {
        let curve = curves[c]@;
        assert(in_curve(curves[c]@, measure, e, curve.len() as int).len() > 0);
        lemma_only_here(curve, measure, at[c], curve.len() as int);
    }
    lemma_one_each(curves, measure, e, at, n);
}

} // verus!
