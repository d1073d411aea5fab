//! Configuration search: the grid, its results, and the order in which they
//! are shown.

use crate::config::{KanConfig, ModelKind};
use crate::encoders::{ValueEncoderConfig, ValueEncoderKind};
use crate::epoch_sweep::EvalSource;
use crate::lifecycle::LrSchedule;
use crate::single::Single;
use vstd::prelude::*;

verus! {

/// What a search ranks by.
#[derive(Clone, Copy, Debug, PartialEq, Eq, Structural)]
pub enum SweepObjective {
    WorstOutputR2,
    AggregateR2,
    MeanOutputR2,
    Nrmse,
}

/// One configuration of a grid.
#[derive(Clone, Copy, Debug, PartialEq, Eq, Structural)]
pub struct SweepChoice {
    pub kind: ModelKind,
    pub d_model: usize,
    pub heads: usize,
    pub layers: usize,
    pub d_ff: usize,
    pub value: ValueEncoderConfig,
    pub mlp_width: usize,
    pub mlp_layers: usize,
    pub kan: KanConfig,
    pub lr: Single,
    pub batch_size: usize,
    /// The epochs of a run of the search.
    pub epochs: usize,
    /// The epochs of the training that follows.
    pub final_epochs: usize,
    pub seed: u64,
    pub schedule: LrSchedule,
}

/// What a configuration came to.
#[derive(Debug)]
pub struct SweepRow {
    pub label: String,
    pub choice: SweepChoice,
    pub source: EvalSource,
    pub r2_mean: Single,
    pub r2_std: Single,
    pub worst_output_r2_mean: Single,
    pub mean_output_r2_mean: Single,
    pub nrmse_mean: Single,
    pub rel_mean: Single,
}

/// The values that a grid is made of.
#[derive(Debug)]
pub struct SweepAxes {
    pub model_kinds: Vec<ModelKind>,
    pub seeds: Vec<u64>,
    pub d_models: Vec<usize>,
    pub layers: Vec<usize>,
    pub d_ffs: Vec<usize>,
    pub lrs: Vec<Single>,
    pub value_encoders: Vec<ValueEncoderKind>,
    pub fourier_scales: Vec<Single>,
    pub fourier_bands: usize,
    pub mlp_widths: Vec<usize>,
    pub mlp_layers: Vec<usize>,
    pub kan_widths: Vec<usize>,
    pub kan_layers: Vec<usize>,
    pub kan_grids: Vec<usize>,
    pub schedules: Vec<LrSchedule>,
    pub epochs: usize,
    pub final_epochs: usize,
    pub batch_size: usize,
}

pub struct AxesView {
    pub model_kinds: Seq<ModelKind>,
    pub seeds: Seq<u64>,
    pub d_models: Seq<usize>,
    pub layers: Seq<usize>,
    pub d_ffs: Seq<usize>,
    pub lrs: Seq<Single>,
    pub value_encoders: Seq<ValueEncoderKind>,
    pub fourier_scales: Seq<Single>,
    pub fourier_bands: usize,
    pub mlp_widths: Seq<usize>,
    pub mlp_layers: Seq<usize>,
    pub kan_widths: Seq<usize>,
    pub kan_layers: Seq<usize>,
    pub kan_grids: Seq<usize>,
    pub schedules: Seq<LrSchedule>,
    pub epochs: usize,
    pub final_epochs: usize,
    pub batch_size: usize,
}

impl View for SweepAxes {
    type V = AxesView;

    open spec fn view(&self) -> AxesView {
        AxesView {
            model_kinds: self.model_kinds@,
            seeds: self.seeds@,
            d_models: self.d_models@,
            layers: self.layers@,
            d_ffs: self.d_ffs@,
            lrs: self.lrs@,
            value_encoders: self.value_encoders@,
            fourier_scales: self.fourier_scales@,
            fourier_bands: self.fourier_bands,
            mlp_widths: self.mlp_widths@,
            mlp_layers: self.mlp_layers@,
            kan_widths: self.kan_widths@,
            kan_layers: self.kan_layers@,
            kan_grids: self.kan_grids@,
            schedules: self.schedules@,
            epochs: self.epochs,
            final_epochs: self.final_epochs,
            batch_size: self.batch_size,
        }
    }
}

/// The score of a row: larger is better. An error counts with its sign
/// changed.
pub open spec fn score_of(objective: SweepObjective, row: SweepRow) -> Single {
    match objective {
        SweepObjective::WorstOutputR2 => row.worst_output_r2_mean,
        SweepObjective::AggregateR2 => row.r2_mean,
        SweepObjective::MeanOutputR2 => row.mean_output_r2_mean,
        SweepObjective::Nrmse => row.nrmse_mean.opposite(),
    }
}

/// The number that a table shows for a row.
pub open spec fn shown_of(objective: SweepObjective, row: SweepRow) -> Single {
    if objective == SweepObjective::Nrmse {
        row.nrmse_mean
    } else {
        score_of(objective, row)
    }
}

impl SweepObjective {
    pub fn score(&self, row: &SweepRow) -> (score: Single)
        ensures
            score == score_of(*self, *row),
    {
        match *self {
            SweepObjective::WorstOutputR2 => row.worst_output_r2_mean,
            SweepObjective::AggregateR2 => row.r2_mean,
            SweepObjective::MeanOutputR2 => row.mean_output_r2_mean,
            SweepObjective::Nrmse => row.nrmse_mean.negated(),
        }
    }

    /// The number that a table of results shows: the error itself where the
    /// search ranks by an error.
    pub fn display_score(&self, row: &SweepRow) -> (score: Single)
        ensures
            score == if *self == SweepObjective::Nrmse {
                row.nrmse_mean
            } else {
                score_of(*self, *row)
            },
            score == shown_of(*self, *row),
    {
        match *self {
            SweepObjective::Nrmse => row.nrmse_mean,
            _ => self.score(row),
        }
    }

    /// The name of the objective.
    pub open spec fn name(self) -> Seq<char> {
        match self {
            SweepObjective::WorstOutputR2 => "worst-output R²"@,
            SweepObjective::AggregateR2 => "aggregate R²"@,
            SweepObjective::MeanOutputR2 => "mean-output R²"@,
            SweepObjective::Nrmse => "aggregate nRMSE"@,
        }
    }

    pub fn label(&self) -> (text: &'static str)
        ensures
            text@ == self.name(),
    {
        match *self {
            SweepObjective::WorstOutputR2 => "worst-output R²",
            SweepObjective::AggregateR2 => "aggregate R²",
            SweepObjective::MeanOutputR2 => "mean-output R²",
            SweepObjective::Nrmse => "aggregate nRMSE",
        }
    }

    /// The objective of a form's list, the first one for an unknown number.
    pub open spec fn numbered(n: usize) -> SweepObjective {
        if n == 1 {
            SweepObjective::AggregateR2
        } else if n == 2 {
            SweepObjective::MeanOutputR2
        } else if n == 3 {
            SweepObjective::Nrmse
        } else {
            SweepObjective::WorstOutputR2
        }
    }

    pub fn from_number(n: usize) -> (objective: SweepObjective)
        ensures
            objective == SweepObjective::numbered(n),
    {
        match n {
            1 => SweepObjective::AggregateR2,
            2 => SweepObjective::MeanOutputR2,
            3 => SweepObjective::Nrmse,
            _ => SweepObjective::WorstOutputR2,
        }
    }
}

/// Where a row of this score goes: before the first row that scores less.
pub open spec fn place_of(rows: Seq<SweepRow>, objective: SweepObjective, score: Single, n: int) -> int
    decreases n,
{
    if n <= 0 {
        0
    } else if place_of(rows, objective, score, n - 1) < n - 1 {
        place_of(rows, objective, score, n - 1)
    } else if score_of(objective, rows[n - 1]).less(score) {
        n - 1
    } else {
        n
    }
}

/// The rows from the best to the worst; equal rows keep their order.
pub open spec fn ranked(rows: Seq<SweepRow>, objective: SweepObjective) -> Seq<SweepRow>
    decreases rows.len(),
{
    if rows.len() == 0 {
        rows
    } else {
        let head = ranked(rows.drop_last(), objective);
        let row = rows.last();
        head.insert(
            place_of(head, objective, score_of(objective, row), head.len() as int),
            row,
        )
    }
}

proof fn lemma_place(rows: Seq<SweepRow>, objective: SweepObjective, score: Single, n: int)
    requires
        0 <= n <= rows.len(),
    ensures
        0 <= place_of(rows, objective, score, n) <= n,
        forall|k: int|
            0 <= k < place_of(rows, objective, score, n) ==> !score_of(
                objective,
                #[trigger] rows[k],
            ).less(score),
        place_of(rows, objective, score, n) < n ==> score_of(
            objective,
            rows[place_of(rows, objective, score, n)],
        ).less(score),
    decreases n,
{
    if n > 0 {
        lemma_place(rows, objective, score, n - 1);
    }
}

proof fn lemma_ranked_len(rows: Seq<SweepRow>, objective: SweepObjective)
    ensures
        ranked(rows, objective).len() == rows.len(),
    decreases rows.len(),
{
    if rows.len() > 0 {
        lemma_ranked_len(rows.drop_last(), objective);
        let head = ranked(rows.drop_last(), objective);
        lemma_place(head, objective, score_of(objective, rows.last()), head.len() as int);
    }
}

/// Where the row number `i` goes among those before it, which are ranked.
fn find_place(
    rows: &Vec<SweepRow>,
    i: usize,
    objective: SweepObjective,
    Ghost(head): Ghost<Seq<SweepRow>>,
) -> (p: usize)
    requires
        i < rows@.len(),
        head.len() == i,
        forall|k: int| 0 <= k < i ==> #[trigger] rows@[k] == head[k],
    ensures
        p <= i,
        p == place_of(head, objective, score_of(objective, rows@[i as int]), head.len() as int),
{
    let score: Single = objective.score(&rows[i]);
    let mut p: usize = 0;
    proof {
        lemma_place(head, objective, score, head.len() as int);
    }
    while p < i && !objective.score(&rows[p]).is_less(score)
        invariant
            p <= i < rows.len(),
            head.len() == i,
            forall|k: int| 0 <= k < i ==> #[trigger] rows@[k] == head[k],
            forall|k: int|
                0 <= k < p ==> !score_of(objective, #[trigger] head[k]).less(score),
        decreases i - p,
    {
        assert(rows@[p as int] == head[p as int]);
        p += 1;
    }
    proof {
        if p < i {
            assert(rows@[p as int] == head[p as int]);
        }
        let q = place_of(head, objective, score, head.len() as int);
        if q < p {
            assert(!score_of(objective, head[q]).less(score));
        }
        if p < q {
            assert(!score_of(objective, head[p as int]).less(score));
        }
    }
    p
}

/// A list whose front is in another order, one step on.
proof fn lemma_one_step<T>(front: Seq<T>, all: Seq<T>, i: int, p: int)
    requires
        0 <= p <= i < all.len(),
        front.len() == i,
    ensures
        (front + all.skip(i)).remove(i).insert(p, all[i]) == front.insert(p, all[i]) + all.skip(
            i + 1,
        ),
{
    assert((front + all.skip(i)).remove(i).insert(p, all[i]) =~= front.insert(p, all[i])
        + all.skip(i + 1));
}

/// Puts the rows in the order in which they are shown.
pub fn sort_rows(rows: &mut Vec<SweepRow>, objective: SweepObjective)
    ensures
        final(rows)@ == ranked(old(rows)@, objective),
{
    let ghost start = rows@;
    let mut i: usize = 0;
    assert(rows@ =~= ranked(start.take(0), objective) + start.skip(0));
    while i < rows.len()
        invariant
            start == old(rows)@,
            i <= rows.len(),
            rows.len() == start.len(),
            rows@ == ranked(start.take(i as int), objective) + start.skip(i as int),
            ranked(start.take(i as int), objective).len() == i,
        decreases rows.len() - i,
    {
        let ghost head = ranked(start.take(i as int), objective);
        assert(rows@[i as int] == start[i as int]);
        let p: usize = find_place(rows, i, objective, Ghost(head));
        let row: SweepRow = rows.remove(i);
        rows.insert(p, row);
        proof {
            lemma_one_step(head, start, i as int, p as int);
            assert(start.take(i + 1).drop_last() =~= start.take(i as int));
            assert(start.take(i + 1).last() == row);
        }
        i += 1;
    }
    assert(start.take(i as int) =~= start);
    assert(rows@ =~= ranked(start, objective));
}

/// No row stands before one that scores more.
pub open spec fn is_ranked(rows: Seq<SweepRow>, objective: SweepObjective) -> bool {
    forall|i: int, j: int|
        0 <= i < j < rows.len() ==> !(#[trigger] score_of(objective, rows[i])).less(
            #[trigger] score_of(objective, rows[j]),
        )
}

/// Ranking loses no row and adds none, and no row stands before a better one.
pub proof fn law_ranking_orders_the_same_rows(rows: Seq<SweepRow>, objective: SweepObjective)
    ensures
        ranked(rows, objective).to_multiset() == rows.to_multiset(),
        is_ranked(ranked(rows, objective), objective),
    decreases rows.len(),
{
    broadcast use vstd::seq_lib::group_to_multiset_ensures;

    lemma_ranked_len(rows, objective);
    if rows.len() > 0 {
        let front = rows.drop_last();
        let row = rows.last();
        law_ranking_orders_the_same_rows(front, objective);
        lemma_ranked_len(front, objective);
        let head = ranked(front, objective);
        let score = score_of(objective, row);
        let p = place_of(head, objective, score, head.len() as int);
        lemma_place(head, objective, score, head.len() as int);
        let full = ranked(rows, objective);
        assert(full == head.insert(p, row));
        head.insert_ensures(p, row);
        assert(rows =~= front.push(row));
        assert(head.insert(p, row) =~= head.take(p).push(row) + head.skip(p));
        assert(head =~= head.take(p) + head.skip(p));
        vstd::seq_lib::lemma_multiset_commutative(head.take(p).push(row), head.skip(p));
        vstd::seq_lib::lemma_multiset_commutative(head.take(p), head.skip(p));
        assert(full.to_multiset() =~= rows.to_multiset());
        assert forall|i: int, j: int| 0 <= i < j < full.len() implies !(#[trigger] score_of(
            objective,
            full[i],
        )).less(#[trigger] score_of(objective, full[j])) by {
            if i < p && j == p {
                assert(full[i] == head[i]);
            } else if i < p && j < p {
                assert(full[i] == head[i] && full[j] == head[j]);
                assert(!score_of(objective, head[i]).less(score_of(objective, head[j])));
            } else if i < p {
                assert(full[i] == head[i] && full[j] == head[j - 1]);
                assert(!score_of(objective, head[i]).less(score_of(objective, head[j - 1])));
            } else if i == p {
                assert(full[j] == head[j - 1]);
                assert(score_of(objective, head[p]).less(score));
                if p < j - 1 {
                    assert(!score_of(objective, head[p]).less(score_of(objective, head[j - 1])));
                }
            } else {
                assert(full[i] == head[i - 1] && full[j] == head[j - 1]);
                assert(!score_of(objective, head[i - 1]).less(score_of(objective, head[j - 1])));
            }
        }
    }
}

/// Where each row of the ranking stood before.
pub open spec fn rank_order(rows: Seq<SweepRow>, objective: SweepObjective) -> Seq<int>
    decreases rows.len(),
{
    if rows.len() == 0 {
        Seq::empty()
    } else {
        let head = ranked(rows.drop_last(), objective);
        rank_order(rows.drop_last(), objective).insert(
            place_of(head, objective, score_of(objective, rows.last()), head.len() as int),
            rows.len() - 1,
        )
    }
}

/// The order of a ranking leads from its rows back to where they stood.
pub proof fn law_rank_order_finds_the_rows(rows: Seq<SweepRow>, objective: SweepObjective)
    ensures
        rank_order(rows, objective).len() == rows.len(),
        ranked(rows, objective).len() == rows.len(),
        forall|i: int|
            0 <= i < rows.len() ==> 0 <= #[trigger] rank_order(rows, objective)[i] < rows.len()
                && ranked(rows, objective)[i] == rows[rank_order(rows, objective)[i]],
    decreases rows.len(),
{
    lemma_ranked_len(rows, objective);
    if rows.len() > 0 {
        let front = rows.drop_last();
        law_rank_order_finds_the_rows(front, objective);
        let head = ranked(front, objective);
        let order = rank_order(front, objective);
        let p = place_of(
            head,
            objective,
            score_of(objective, rows.last()),
            head.len() as int,
        );
        lemma_place(head, objective, score_of(objective, rows.last()), head.len() as int);
        assert forall|i: int| 0 <= i < rows.len() implies 0 <= #[trigger] rank_order(
            rows,
            objective,
        )[i] < rows.len() && ranked(rows, objective)[i] == rows[rank_order(
            rows,
            objective,
        )[i]] by {
            if i < p {
                assert(rank_order(rows, objective)[i] == order[i]);
                assert(front[order[i]] == rows[order[i]]);
            } else if i > p {
                assert(rank_order(rows, objective)[i] == order[i - 1]);
                assert(front[order[i - 1]] == rows[order[i - 1]]);
            }
        }
    }
}

/// What stands at these places of a list.
pub open spec fn places_taken<T>(places: Seq<int>, list: Seq<T>) -> Seq<T> {
    places.map_values(|k: int| list[k])
}

/// Puts the rows in the order in which they are shown, and with each of them
/// what is kept beside it.
pub fn sort_rows_with<T>(
    rows: &mut Vec<SweepRow>,
    beside: &mut Vec<T>,
    objective: SweepObjective,
)
    requires
        old(rows)@.len() == old(beside)@.len(),
    ensures
        final(rows)@ == ranked(old(rows)@, objective),
        final(beside)@ == places_taken(rank_order(old(rows)@, objective), old(beside)@),
{
    let ghost start = rows@;
    let ghost kept = beside@;
    let mut i: usize = 0;
    assert(rows@ =~= ranked(start.take(0), objective) + start.skip(0));
    assert(beside@ =~= places_taken(rank_order(start.take(0), objective), kept) + kept.skip(0));
    while i < rows.len()
        invariant
            start.len() == kept.len(),
            i <= rows.len(),
            rows.len() == start.len(),
            beside.len() == kept.len(),
            rows@ == ranked(start.take(i as int), objective) + start.skip(i as int),
            beside@ == places_taken(rank_order(start.take(i as int), objective), kept)
                + kept.skip(i as int),
            ranked(start.take(i as int), objective).len() == i,
            rank_order(start.take(i as int), objective).len() == i,
        decreases rows.len() - i,
    {
        let ghost head = ranked(start.take(i as int), objective);
        let ghost order = rank_order(start.take(i as int), objective);
        assert(rows@[i as int] == start[i as int]);
        assert(beside@[i as int] == kept[i as int]);
        let p: usize = find_place(rows, i, objective, Ghost(head));
        let row: SweepRow = rows.remove(i);
        rows.insert(p, row);
        let value: T = beside.remove(i);
        beside.insert(p, value);
        proof {
            lemma_one_step(head, start, i as int, p as int);
            lemma_one_step(places_taken(order, kept), kept, i as int, p as int);
            assert(start.take(i + 1).drop_last() =~= start.take(i as int));
            assert(start.take(i + 1).last() == row);
            assert(places_taken(order.insert(p as int, i as int), kept) =~= places_taken(
                order,
                kept,
            ).insert(p as int, value));
        }
        i += 1;
    }
    assert(start.take(i as int) =~= start);
    assert(rows@ =~= ranked(start, objective));
    assert(beside@ =~= places_taken(rank_order(start, objective), kept));
}

/// What a ranking means in the measures of its rows: by R² no row stands before
/// one with a larger R² of the chosen kind, and by the error none before one
/// with a smaller error.
pub proof fn law_the_best_row_comes_first(rows: Seq<SweepRow>, objective: SweepObjective, i: int, j: int)
    requires
        0 <= i < j < rows.len(),
    ensures
        ({
            let shown = ranked(rows, objective);
            &&& objective == SweepObjective::WorstOutputR2 ==> !shown[i].worst_output_r2_mean.less(
                shown[j].worst_output_r2_mean,
            )
            &&& objective == SweepObjective::AggregateR2 ==> !shown[i].r2_mean.less(
                shown[j].r2_mean,
            )
            &&& objective == SweepObjective::MeanOutputR2 ==> !shown[i].mean_output_r2_mean.less(
                shown[j].mean_output_r2_mean,
            )
            &&& objective == SweepObjective::Nrmse ==> !shown[j].nrmse_mean.less(
                shown[i].nrmse_mean,
            )
        }),
{
    law_ranking_orders_the_same_rows(rows, objective);
    lemma_ranked_len(rows, objective);
    let shown = ranked(rows, objective);
    assert(!score_of(objective, shown[i]).less(score_of(objective, shown[j])));
}

/// Rows that score the same stay in the order in which they came.
pub proof fn law_equal_rows_keep_their_order(
    rows: Seq<SweepRow>,
    objective: SweepObjective,
    i: int,
    j: int,
)
    requires
        0 <= i < j < rows.len(),
        forall|k: int| 0 <= k < rows.len() ==> !score_of(objective, #[trigger] rows[k]).nan(),
        score_of(objective, ranked(rows, objective)[i]).equals(
            score_of(objective, ranked(rows, objective)[j]),
        ),
    ensures
        rank_order(rows, objective)[i] < rank_order(rows, objective)[j],
    decreases rows.len(),
{
    let front = rows.drop_last();
    let row = rows.last();
    let head = ranked(front, objective);
    let order = rank_order(front, objective);
    let score = score_of(objective, row);
    let p = place_of(head, objective, score, head.len() as int);
    lemma_ranked_len(front, objective);
    lemma_place(head, objective, score, head.len() as int);
    law_rank_order_finds_the_rows(front, objective);
    law_ranking_orders_the_same_rows(front, objective);
    let full = ranked(rows, objective);
    let places = rank_order(rows, objective);
    assert(full == head.insert(p, row));
    assert(places == order.insert(p, rows.len() - 1));
    assert forall|k: int| 0 <= k < front.len() implies !score_of(
        objective,
        #[trigger] front[k],
    ).nan() by {
        assert(front[k] == rows[k]);
    }
    let i0 = if i > p { i - 1 } else { i };
    let j0 = if j > p { j - 1 } else { j };
    if i == p {
        assert(full[j] == head[j0]);
        if p < j0 {
            assert(!score_of(objective, head[p]).less(score_of(objective, head[j0])));
            assert(head[p] == front[order[p]]);
            assert(head[j0] == front[order[j0]]);
            assert(!score_of(objective, front[order[p]]).nan());
            assert(!score_of(objective, front[order[j0]]).nan());
        }
        assert(false);
    } else if j == p {
        assert(places[i] == order[i]);
    } else {
        assert(full[i] == head[i0] && full[j] == head[j0]);
        law_equal_rows_keep_their_order(front, objective, i0, j0);
    }
}

/// A table shows an error as it is, though the search ranks by it backwards.
pub proof fn law_errors_are_shown_as_they_are(row: SweepRow)
    ensures
        shown_of(SweepObjective::Nrmse, row) == row.nrmse_mean,
        shown_of(SweepObjective::AggregateR2, row) == row.r2_mean,
        shown_of(SweepObjective::MeanOutputR2, row) == row.mean_output_r2_mean,
        shown_of(SweepObjective::WorstOutputR2, row) == row.worst_output_r2_mean,
{
}

/// What is kept beside a row moves with it: the two that stand at one place
/// stood at one place before.
pub proof fn law_what_is_kept_beside_a_row_moves_with_it<T>(
    rows: Seq<SweepRow>,
    objective: SweepObjective,
    beside: Seq<T>,
    i: int,
) -> (k: int)
    requires
        rows.len() == beside.len(),
        0 <= i < rows.len(),
    ensures
        places_taken(rank_order(rows, objective), beside).len() == beside.len(),
        0 <= k < rows.len(),
        ranked(rows, objective)[i] == rows[k],
        places_taken(rank_order(rows, objective), beside)[i] == beside[k],
{
    law_rank_order_finds_the_rows(rows, objective);
    rank_order(rows, objective)[i]
}

} // verus!
