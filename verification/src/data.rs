//! Numeric datasets, the trained range of each feature, and character-level
//! text datasets.

use crate::encoders::FeatureSpec;
use crate::single::{one, zero, Single, INFINITE, ONE, SIGN};
use crate::text::chars_of;
use rand::rngs::StdRng;
use rand::Rng;
use vstd::prelude::*;

verus! {

/// A table of numbers with a fixed number of columns.
#[derive(Debug)]
pub struct Matrix {
    pub cols: usize,
    pub rows: Vec<Vec<Single>>,
}

pub open spec fn row_views(rows: Seq<Vec<Single>>) -> Seq<Seq<Single>> {
    rows.map_values(|r: Vec<Single>| r@)
}

impl View for Matrix {
    type V = Seq<Seq<Single>>;

    open spec fn view(&self) -> Seq<Seq<Single>> {
        row_views(self.rows@)
    }
}

impl Matrix {
    /// Every row has the declared number of columns.
    pub open spec fn wf(&self) -> bool {
        forall|r: int| 0 <= r < self@.len() ==> (#[trigger] self@[r]).len() == self.cols
    }

    /// The table with these rows, if all of them have `cols` values.
    pub fn from_rows(cols: usize, rows: Vec<Vec<Single>>) -> (m: Option<Matrix>)
        ensures
            match m {
                Some(m) => m.wf() && m.cols == cols && m@ == row_views(rows@),
                None => exists|r: int| 0 <= r < rows@.len() && (#[trigger] rows@[r]).len() != cols,
            },
    {
        let mut r: usize = 0;
        while r < rows.len()
            invariant
                r <= rows.len(),
                forall|k: int| 0 <= k < r ==> (#[trigger] rows@[k]).len() == cols,
            decreases rows.len() - r,
        {
            if rows[r].len() != cols {
                return None;
            }
            r += 1;
        }
        Some(Matrix { cols, rows })
    }

    pub fn nrows(&self) -> (n: usize)
        ensures
            n == self@.len(),
    {
        self.rows.len()
    }

    pub fn ncols(&self) -> (n: usize)
        ensures
            n == self.cols,
    {
        self.cols
    }

    pub fn at(&self, r: usize, c: usize) -> (v: Single)
        requires
            self.wf(),
            r < self@.len(),
            c < self.cols,
        ensures
            v == self@[r as int][c as int],
    {
        assert(self@[r as int].len() == self.cols);
        self.rows[r][c]
    }
}

fn copy_row(row: &Vec<Single>) -> (out: Vec<Single>)
    ensures
        out@ == row@,
{
    let mut out: Vec<Single> = Vec::new();
    let mut i: usize = 0;
    while i < row.len()
        invariant
            i <= row.len(),
            out@ == row@.take(i as int),
        decreases row.len() - i,
    {
        out.push(row[i]);
        i += 1;
    }
    assert(out@ =~= row@);
    out
}

/// Raw pairs of inputs and outputs, row by row.
#[derive(Debug)]
pub struct NumericDataset {
    pub inputs: Matrix,
    pub outputs: Matrix,
}

impl NumericDataset {
    pub open spec fn wf(&self) -> bool {
        &&& self.inputs.wf()
        &&& self.outputs.wf()
        &&& self.inputs@.len() == self.outputs@.len()
    }

    pub fn new(inputs: Matrix, outputs: Matrix) -> (data: NumericDataset)
        requires
            inputs.wf(),
            outputs.wf(),
            inputs@.len() == outputs@.len(),
        ensures
            data.wf(),
            data.inputs == inputs,
            data.outputs == outputs,
    {
        NumericDataset { inputs, outputs }
    }

    pub fn len(&self) -> (n: usize)
        ensures
            n == self.inputs@.len(),
    {
        self.inputs.nrows()
    }

    pub fn is_empty(&self) -> (yes: bool)
        ensures
            yes == (self.inputs@.len() == 0),
    {
        self.len() == 0
    }

    /// The other data are the rows with these numbers, in this order.
    pub open spec fn gathered(&self, indices: Seq<usize>, picked: NumericDataset) -> bool {
        &&& picked.inputs.cols == self.inputs.cols
        &&& picked.outputs.cols == self.outputs.cols
        &&& picked.inputs@ == indices.map_values(|i: usize| self.inputs@[i as int])
        &&& picked.outputs@ == indices.map_values(|i: usize| self.outputs@[i as int])
    }

    /// The rows with these numbers, in this order.
    pub fn gather(&self, indices: &Vec<usize>) -> (picked: NumericDataset)
        requires
            self.wf(),
            forall|k: int| 0 <= k < indices@.len() ==> #[trigger] indices@[k] < self.inputs@.len(),
        ensures
            picked.wf(),
            picked.inputs.cols == self.inputs.cols,
            picked.outputs.cols == self.outputs.cols,
            picked.inputs@ == indices@.map_values(|i: usize| self.inputs@[i as int]),
            picked.outputs@ == indices@.map_values(|i: usize| self.outputs@[i as int]),
            self.gathered(indices@, picked),
    {
        let inputs: Matrix = pick_rows(&self.inputs, indices);
        let outputs: Matrix = pick_rows(&self.outputs, indices);
        NumericDataset { inputs, outputs }
    }
}

fn pick_rows(m: &Matrix, indices: &Vec<usize>) -> (picked: Matrix)
    requires
        m.wf(),
        forall|k: int| 0 <= k < indices@.len() ==> #[trigger] indices@[k] < m@.len(),
    ensures
        picked.wf(),
        picked.cols == m.cols,
        picked@ == indices@.map_values(|i: usize| m@[i as int]),
{
    let mut rows: Vec<Vec<Single>> = Vec::new();
    let mut k: usize = 0;
    while k < indices.len()
        invariant
            k <= indices.len(),
            m.wf(),
            rows.len() == k,
            forall|j: int| 0 <= j < indices@.len() ==> #[trigger] indices@[j] < m@.len(),
            forall|j: int| 0 <= j < k ==> (#[trigger] rows@[j])@ == m@[indices@[j] as int],
        decreases indices.len() - k,
    {
        rows.push(copy_row(&m.rows[indices[k]]));
        k += 1;
    }
    let picked = Matrix { cols: m.cols, rows };
    proof {
        assert(picked@ =~= indices@.map_values(|i: usize| m@[i as int]));
        assert forall|r: int| 0 <= r < picked@.len() implies (#[trigger] picked@[r]).len()
            == picked.cols by {
            assert(picked@[r] == m@[indices@[r] as int]);
        }
    }
    picked
}

/// The smallest number in column `j` of the first `n` rows; infinity where
/// there is none.
pub open spec fn lowest(data: Seq<Seq<Single>>, j: int, n: nat) -> Single
    decreases n,
{
    if n == 0 {
        Single { bits: INFINITE }
    } else {
        let m = lowest(data, j, (n - 1) as nat);
        if data[n - 1][j].less(m) {
            data[n - 1][j]
        } else {
            m
        }
    }
}

/// The largest number in column `j` of the first `n` rows; minus infinity
/// where there is none.
pub open spec fn highest(data: Seq<Seq<Single>>, j: int, n: nat) -> Single
    decreases n,
{
    if n == 0 {
        Single { bits: (SIGN + INFINITE) as u32 }
    } else {
        let m = highest(data, j, (n - 1) as nat);
        if m.less(data[n - 1][j]) {
            data[n - 1][j]
        } else {
            m
        }
    }
}

fn column_range(data: &Matrix, j: usize) -> (range: (Single, Single))
    requires
        data.wf(),
        j < data.cols,
    ensures
        range.0 == lowest(data@, j as int, data@.len()),
        range.1 == highest(data@, j as int, data@.len()),
{
    let mut low: Single = Single { bits: INFINITE };
    let mut high: Single = Single { bits: SIGN + INFINITE };
    let mut i: usize = 0;
    while i < data.nrows()
        invariant
            i <= data@.len(),
            data.wf(),
            j < data.cols,
            low == lowest(data@, j as int, i as nat),
            high == highest(data@, j as int, i as nat),
        decreases data@.len() - i,
    {
        let v: Single = data.at(i, j);
        if v.is_less(low) {
            low = v;
        }
        if high.is_less(v) {
            high = v;
        }
        i += 1;
    }
    (low, high)
}

/// A continuous feature outside the range seen in training.
#[derive(Clone, Copy, Debug, PartialEq, Eq, Structural)]
pub struct OutOfRange {
    pub feature: usize,
    pub value: Single,
    pub min: Single,
    pub max: Single,
}

/// Column statistics of the training data. Continuous columns are scaled to
/// `(x - mean) / std`; category codes are left alone.
#[derive(Debug)]
pub struct Normalizer {
    pub mean: Vec<Single>,
    pub std: Vec<Single>,
    pub min: Vec<Single>,
    pub max: Vec<Single>,
    pub specs: Vec<FeatureSpec>,
}

impl Normalizer {
    /// All lists describe the same columns.
    pub open spec fn wf(&self) -> bool {
        &&& self.mean@.len() == self.specs@.len()
        &&& self.std@.len() == self.specs@.len()
        &&& self.min@.len() == self.specs@.len()
        &&& self.max@.len() == self.specs@.len()
    }

    /// Is `v` a value of continuous column `j` outside its trained range?
    pub open spec fn outside(&self, j: int, v: Single) -> bool {
        self.specs@[j] is Continuous && (v.less(self.min@[j]) || self.max@[j].less(v))
    }

    /// The columns of `row` from `j` on that are out of range, after those
    /// found so far.
    pub open spec fn details_from(&self, row: Seq<Single>, j: int, found: Seq<OutOfRange>) -> Seq<
        OutOfRange,
    >
        decreases row.len() - j,
    {
        if j < 0 || j >= row.len() || j >= self.specs@.len() {
            found
        } else if self.outside(j, row[j]) {
            self.details_from(
                row,
                j + 1,
                found.push(
                    OutOfRange {
                        feature: j as usize,
                        value: row[j],
                        min: self.min@[j],
                        max: self.max@[j],
                    },
                ),
            )
        } else {
            self.details_from(row, j + 1, found)
        }
    }

    pub fn all_continuous(n: usize) -> (specs: Vec<FeatureSpec>)
        ensures
            specs@ == Seq::new(n as nat, |i: int| FeatureSpec::Continuous),
    {
        let mut specs: Vec<FeatureSpec> = Vec::new();
        while specs.len() < n
            invariant
                specs.len() <= n,
                forall|k: int| 0 <= k < specs.len() ==> specs@[k] is Continuous,
            decreases n - specs.len(),
        {
            specs.push(FeatureSpec::Continuous);
        }
        assert(specs@ =~= Seq::new(n as nat, |i: int| FeatureSpec::Continuous));
        specs
    }

    /// The statistics of these rows, given the means and deviations of their
    /// columns: a category keeps its codes, and the range of a column is that
    /// of its values.
    pub open spec fn is_fit(
        &self,
        data: Seq<Seq<Single>>,
        specs: Seq<FeatureSpec>,
        means: Seq<Single>,
        deviations: Seq<Single>,
    ) -> bool {
        &&& self.wf()
        &&& self.specs@ == specs
        &&& forall|j: int|
            0 <= j < specs.len() ==> #[trigger] self.mean@[j] == if specs[j] is Continuous {
                means[j]
            } else {
                zero()
            }
        &&& forall|j: int|
            0 <= j < specs.len() ==> #[trigger] self.std@[j] == if specs[j] is Continuous {
                deviations[j]
            } else {
                one()
            }
        &&& forall|j: int|
            0 <= j < specs.len() ==> #[trigger] self.min@[j] == lowest(data, j, data.len())
        &&& forall|j: int|
            0 <= j < specs.len() ==> #[trigger] self.max@[j] == highest(data, j, data.len())
    }

    /// The normalizer of the training rows, from the computed means and
    /// deviations of their columns.
    pub fn fit(
        data: &Matrix,
        specs: &Vec<FeatureSpec>,
        means: &Vec<Single>,
        deviations: &Vec<Single>,
    ) -> (norm: Normalizer)
        requires
            data.wf(),
            data@.len() > 0,
            specs@.len() == data.cols,
            means@.len() == data.cols,
            deviations@.len() == data.cols,
        ensures
            norm.is_fit(data@, specs@, means@, deviations@),
    {
        let mut norm: Normalizer = Normalizer {
            mean: Vec::new(),
            std: Vec::new(),
            min: Vec::new(),
            max: Vec::new(),
            specs: Vec::new(),
        };
        assert(norm.specs@ =~= specs@.take(0));
        let mut j: usize = 0;
        while j < specs.len()
            invariant
                j <= specs@.len(),
                data.wf(),
                specs@.len() == data.cols,
                means@.len() == data.cols,
                deviations@.len() == data.cols,
                norm.is_fit(
                    data@,
                    specs@.take(j as int),
                    means@.take(j as int),
                    deviations@.take(j as int),
                ),
            decreases specs@.len() - j,
        {
            let (low, high) = column_range(data, j);
            norm.min.push(low);
            norm.max.push(high);
            match specs[j] {
                FeatureSpec::Continuous => {
                    norm.mean.push(means[j]);
                    norm.std.push(deviations[j]);
                },
                FeatureSpec::Categorical { .. } => {
                    norm.mean.push(Single { bits: 0 });
                    norm.std.push(Single { bits: ONE });
                },
            }
            norm.specs.push(specs[j]);
            j += 1;
            assert(norm.specs@ =~= specs@.take(j as int));
        }
        assert(specs@.take(j as int) =~= specs@);
        assert(means@.take(j as int) =~= means@);
        assert(deviations@.take(j as int) =~= deviations@);
        norm
    }

    pub fn n_features(&self) -> (n: usize)
        ensures
            n == self.mean@.len(),
    {
        self.mean.len()
    }

    pub fn is_outside(&self, j: usize, v: Single) -> (yes: bool)
        requires
            self.wf(),
            j < self.specs@.len(),
        ensures
            yes == self.outside(j as int, v),
    {
        match self.specs[j] {
            FeatureSpec::Continuous => v.is_less(self.min[j]) || self.max[j].is_less(v),
            FeatureSpec::Categorical { .. } => false,
        }
    }

    /// The positions `(row, column)` of continuous values outside the trained
    /// range, row by row: each such position once and no other.
    pub fn out_of_range(&self, data: &Matrix) -> (flags: Vec<(usize, usize)>)
        requires
            self.wf(),
            data.wf(),
            data.cols <= self.specs@.len(),
        ensures
            forall|r: usize, c: usize|
                r < data@.len() && c < data.cols ==> (#[trigger] flags@.contains((r, c))
                    == self.outside(c as int, data@[r as int][c as int])),
            forall|k: int|
                0 <= k < flags@.len() ==> (#[trigger] flags@[k]).0 < data@.len() && flags@[k].1
                    < data.cols,
            forall|a: int, b: int|
                0 <= a < b < flags@.len() ==> before(#[trigger] flags@[a], #[trigger] flags@[b]),
    {
        let mut flags: Vec<(usize, usize)> = Vec::new();
        let mut i: usize = 0;
        while i < data.nrows()
            invariant
                i <= data@.len(),
                self.wf(),
                data.wf(),
                data.cols <= self.specs@.len(),
                self.flagged(data, flags@, i as int, 0),
            decreases data@.len() - i,
        {
            let mut j: usize = 0;
            while j < data.cols
                invariant
                    i < data@.len(),
                    j <= data.cols,
                    self.wf(),
                    data.wf(),
                    data.cols <= self.specs@.len(),
                    self.flagged(data, flags@, i as int, j as int),
                decreases data.cols - j,
            {
                let ghost old_flags = flags@;
                if self.is_outside(j, data.at(i, j)) {
                    flags.push((i, j));
                    proof {
                        assert(flags@.last() == (i, j));
                        assert(flags@.contains((i, j)));
                        assert forall|r: usize, c: usize| #[trigger] flags@.contains((r, c)) == (
                        old_flags.contains((r, c)) || (r == i && c == j)) by {
                            if old_flags.contains((r, c)) {
                                let k = choose|k: int|
                                    0 <= k < old_flags.len() && old_flags[k] == (r, c);
                                assert(flags@[k] == (r, c));
                            }
                            if flags@.contains((r, c)) {
                                let k = choose|k: int|
                                    0 <= k < flags@.len() && flags@[k] == (r, c);
                                if k < old_flags.len() {
                                    assert(old_flags[k] == (r, c));
                                }
                            }
                        }
                    }
                }
                j += 1;
            }
            i += 1;
        }
        flags
    }

    /// The positions found when everything before `(i, j)` has been looked at.
    pub open spec fn flagged(
        &self,
        data: &Matrix,
        flags: Seq<(usize, usize)>,
        i: int,
        j: int,
    ) -> bool {
        &&& forall|r: usize, c: usize|
            r < data@.len() && c < data.cols ==> (#[trigger] flags.contains((r, c)) == ((r < i || (
            r == i && c < j)) && self.outside(c as int, data@[r as int][c as int])))
        &&& forall|k: int|
            0 <= k < flags.len() ==> (#[trigger] flags[k]).0 < data@.len() && flags[k].1
                < data.cols && (flags[k].0 < i || (flags[k].0 == i && flags[k].1 < j))
        &&& forall|a: int, b: int|
            0 <= a < b < flags.len() ==> before(#[trigger] flags[a], #[trigger] flags[b])
    }

    /// The continuous features of one row outside the trained range.
    pub fn out_of_range_details(&self, row: &Vec<Single>) -> (out: Vec<OutOfRange>)
        requires
            self.wf(),
        ensures
            out@ == self.details_from(row@, 0, Seq::empty()),
    {
        let mut out: Vec<OutOfRange> = Vec::new();
        let mut j: usize = 0;
        while j < row.len() && j < self.specs.len()
            invariant
                self.wf(),
                j <= row.len(),
                j <= self.specs@.len(),
                self.details_from(row@, j as int, out@) == self.details_from(
                    row@,
                    0,
                    Seq::empty(),
                ),
            decreases row.len() - j,
        {
            let v: Single = row[j];
            if self.is_outside(j, v) {
                out.push(OutOfRange { feature: j, value: v, min: self.min[j], max: self.max[j] });
            }
            j += 1;
        }
        out
    }
}

/// The order of positions: by row, then by column.
pub open spec fn before(a: (usize, usize), b: (usize, usize)) -> bool {
    a.0 < b.0 || (a.0 == b.0 && a.1 < b.1)
}

proof fn lemma_details(norm: &Normalizer, row: Seq<Single>, j: int, found: Seq<OutOfRange>)
    requires
        0 <= j,
        norm.specs@.len() <= usize::MAX,
        found_upto(norm, row, j, found),
    ensures
        found_upto(
            norm,
            row,
            if j < row.len() && j < norm.specs@.len() {
                if row.len() < norm.specs@.len() {
                    row.len() as int
                } else {
                    norm.specs@.len() as int
                }
            } else {
                j
            },
            norm.details_from(row, j, found),
        ),
    decreases row.len() - j,
{
    if j < row.len() && j < norm.specs@.len() {
        let next = if norm.outside(j, row[j]) {
            found.push(
                OutOfRange {
                    feature: j as usize,
                    value: row[j],
                    min: norm.min@[j],
                    max: norm.max@[j],
                },
            )
        } else {
            found
        };
        assert forall|c: int| 0 <= c < j + 1 && norm.outside(c, row[c]) implies exists|k: int|
            0 <= k < next.len() && (#[trigger] next[k]).feature == c by {
            if c < j {
                let k = choose|k: int| 0 <= k < found.len() && (#[trigger] found[k]).feature == c;
                assert(next[k].feature == c);
            } else {
                assert(next[next.len() - 1].feature == c);
            }
        }
        lemma_details(norm, row, j + 1, next);
    }
}

/// The entries found when the columns before `j` have been looked at.
spec fn found_upto(norm: &Normalizer, row: Seq<Single>, j: int, found: Seq<OutOfRange>) -> bool {
    &&& forall|k: int|
        0 <= k < found.len() ==> (#[trigger] found[k]).feature < j && found[k].value
            == row[found[k].feature as int] && found[k].min == norm.min@[found[k].feature as int]
            && found[k].max == norm.max@[found[k].feature as int] && norm.outside(
            found[k].feature as int,
            row[found[k].feature as int],
        )
    &&& forall|a: int, b: int|
        0 <= a < b < found.len() ==> (#[trigger] found[a]).feature < (#[trigger] found[b]).feature
    &&& forall|c: int|
        0 <= c < j && #[trigger] norm.outside(c, row[c]) ==> exists|k: int|
            0 <= k < found.len() && (#[trigger] found[k]).feature == c
}

/// Every continuous value of a row that lies below or above what was seen in
/// training is reported, and nothing else is: each once, in the order of the
/// columns, with its value and the bounds of its column.
pub proof fn law_every_value_outside_is_reported(
    norm: &Normalizer,
    row: Seq<Single>,
    out: Seq<OutOfRange>,
)
    requires
        norm.wf(),
        out == norm.details_from(row, 0, Seq::empty()),
    ensures
        forall|j: int|
            0 <= j < row.len() && j < norm.specs@.len() ==> ((exists|k: int|
                0 <= k < out.len() && (#[trigger] out[k]).feature == j) <==> (
            #[trigger] norm.specs@[j] == FeatureSpec::Continuous && (row[j].less(norm.min@[j])
                || norm.max@[j].less(row[j])))),
        forall|k: int|
            0 <= k < out.len() ==> (#[trigger] out[k]).feature < row.len() && out[k].feature
                < norm.specs@.len() && out[k].value == row[out[k].feature as int] && out[k].min
                == norm.min@[out[k].feature as int] && out[k].max
                == norm.max@[out[k].feature as int],
        forall|a: int, b: int|
            0 <= a < b < out.len() ==> (#[trigger] out[a]).feature < (#[trigger] out[b]).feature,
{
    assert(norm.specs.len() == norm.specs@.len());
    lemma_details(norm, row, 0, Seq::empty());
    assert forall|j: int| 0 <= j < row.len() && j < norm.specs@.len() implies ((exists|k: int|
        0 <= k < out.len() && (#[trigger] out[k]).feature == j) <==> (#[trigger] norm.specs@[j]
        == FeatureSpec::Continuous && (row[j].less(norm.min@[j]) || norm.max@[j].less(row[j])))) by {
        if exists|k: int| 0 <= k < out.len() && (#[trigger] out[k]).feature == j {
            let k = choose|k: int| 0 <= k < out.len() && (#[trigger] out[k]).feature == j;
            assert(norm.outside(j, row[j]));
        }
        if norm.specs@[j] == FeatureSpec::Continuous && (row[j].less(norm.min@[j])
            || norm.max@[j].less(row[j])) {
            assert(norm.outside(j, row[j]));
        }
    }
}

/// No row that a normalizer was fitted on is out of its range.
pub proof fn law_training_rows_are_in_range(
    norm: Normalizer,
    data: Seq<Seq<Single>>,
    specs: Seq<FeatureSpec>,
    means: Seq<Single>,
    deviations: Seq<Single>,
    r: int,
    j: int,
)
    requires
        norm.is_fit(data, specs, means, deviations),
        0 <= r < data.len(),
        0 <= j < specs.len(),
    ensures
        !norm.outside(j, data[r][j]),
{
    lemma_in_range(data, j, data.len(), r);
}

proof fn lemma_in_range(data: Seq<Seq<Single>>, j: int, n: nat, r: int)
    requires
        0 <= r < n,
    ensures
        !data[r][j].less(lowest(data, j, n)),
        !highest(data, j, n).less(data[r][j]),
    decreases n,
{
    if r < n - 1 {
        lemma_in_range(data, j, (n - 1) as nat, r);
    }
}

/// The pseudo-random generator of the `rand` crate.
#[verifier::external_type_specification]
#[verifier::external_body]
pub struct ExStdRng(rand::rngs::StdRng);

/// `rand::Rng::gen_range` over `0..=last`: some number from that range. Which
/// one depends on the state of the generator, which moves on.
#[verifier::external_body]
fn draw(rng: &mut StdRng, last: usize) -> (n: usize)
    ensures
        n <= last,
{
    rng.gen_range(0..=last)
}

/// The number of a character: its last place in the list, -1 if it has none.
pub open spec fn id_of(chars: Seq<char>, c: char) -> int
    decreases chars.len(),
{
    if chars.len() == 0 {
        -1
    } else if chars.last() == c {
        chars.len() - 1
    } else {
        id_of(chars.drop_last(), c)
    }
}

pub proof fn lemma_id_of(chars: Seq<char>, c: char)
    ensures
        -1 <= id_of(chars, c) < chars.len(),
        chars.contains(c) == (id_of(chars, c) >= 0),
        id_of(chars, c) >= 0 ==> chars[id_of(chars, c)] == c,
        forall|k: int| id_of(chars, c) < k < chars.len() ==> #[trigger] chars[k] != c,
    decreases chars.len(),
{
    if chars.len() > 0 && chars.last() != c {
        let rest = chars.drop_last();
        lemma_id_of(rest, c);
        if chars.contains(c) {
            let k = choose|k: int| 0 <= k < chars.len() && chars[k] == c;
            assert(rest[k] == c);
        }
        if id_of(rest, c) >= 0 {
            assert(chars[id_of(rest, c)] == c);
        }
        assert forall|k: int| id_of(chars, c) < k < chars.len() implies #[trigger] chars[k]
            != c by {
            if k < rest.len() {
                assert(rest[k] == chars[k]);
            }
        }
    } else if chars.len() > 0 {
        assert(chars[chars.len() - 1] == c);
    }
}

/// Strictly increasing characters.
pub open spec fn increasing(chars: Seq<char>) -> bool {
    forall|a: int, b: int| 0 <= a < b < chars.len() ==> #[trigger] chars[a] < #[trigger] chars[b]
}

/// A character-level vocabulary: the characters by their numbers.
#[derive(Debug)]
pub struct Vocab {
    pub itos: Vec<char>,
}

impl Vocab {
    /// The numbers of the characters of a text.
    pub open spec fn ids(&self, text: Seq<char>) -> Seq<int> {
        text.map_values(|c: char| id_of(self.itos@, c))
    }

    /// The characters of a text, each once, in increasing order.
    pub fn from_text(text: &str) -> (vocab: Vocab)
        ensures
            increasing(vocab.itos@),
            forall|c: char| #[trigger] vocab.itos@.contains(c) == text@.contains(c),
    {
        let chars: Vec<char> = chars_of(text);
        let mut itos: Vec<char> = Vec::new();
        let mut i: usize = 0;
        while i < chars.len()
            invariant
                i <= chars.len(),
                chars@ == text@,
                increasing(itos@),
                forall|c: char| #[trigger] itos@.contains(c) == chars@.take(i as int).contains(c),
            decreases chars.len() - i,
        {
            let c: char = chars[i];
            let ghost seen = chars@.take(i as int);
            let ghost next = chars@.take(i + 1);
            proof {
                assert(next =~= seen.push(c));
                assert forall|x: char| #[trigger] next.contains(x) == (seen.contains(x) || x
                    == c) by {
                    lemma_push_contains(seen, c, x);
                }
            }
            let ghost old_itos = itos@;
            insert_sorted(&mut itos, c);
            assert forall|x: char| #[trigger] itos@.contains(x) == next.contains(x) by {
                assert(itos@.contains(x) == (old_itos.contains(x) || x == c));
                assert(old_itos.contains(x) == seen.contains(x));
                assert(next.contains(x) == (seen.contains(x) || x == c));
            }
            i += 1;
        }
        assert(chars@.take(i as int) =~= text@);
        Vocab { itos }
    }

    pub fn len(&self) -> (n: usize)
        ensures
            n == self.itos@.len(),
    {
        self.itos.len()
    }

    pub fn is_empty(&self) -> (yes: bool)
        ensures
            yes == (self.itos@.len() == 0),
    {
        self.itos.len() == 0
    }

    fn id(&self, c: char) -> (id: Option<usize>)
        ensures
            match id {
                Some(i) => id_of(self.itos@, c) == i,
                None => id_of(self.itos@, c) == -1,
            },
    {
        let mut n: usize = self.itos.len();
        assert(self.itos@.take(n as int) =~= self.itos@);
        while n > 0
            invariant
                n <= self.itos@.len(),
                id_of(self.itos@.take(n as int), c) == id_of(self.itos@, c),
            decreases n,
        {
            assert(self.itos@.take(n as int).drop_last() =~= self.itos@.take(n - 1));
            if self.itos[n - 1] == c {
                return Some(n - 1);
            }
            n -= 1;
        }
        None
    }

    pub fn contains(&self, c: char) -> (yes: bool)
        ensures
            yes == self.itos@.contains(c),
    {
        proof {
            lemma_id_of(self.itos@, c);
        }
        self.id(c).is_some()
    }

    /// The numbers of the characters of a text, all of which are known.
    pub fn encode(&self, text: &str) -> (ids: Vec<usize>)
        requires
            forall|i: int| 0 <= i < text@.len() ==> self.itos@.contains(#[trigger] text@[i]),
        ensures
            ids@.map_values(|i: usize| i as int) == self.ids(text@),
            forall|i: int| 0 <= i < ids@.len() ==> #[trigger] ids@[i] < self.itos@.len(),
    {
        let chars: Vec<char> = chars_of(text);
        let mut ids: Vec<usize> = Vec::new();
        let mut i: usize = 0;
        while i < chars.len()
            invariant
                i <= chars.len(),
                chars@ == text@,
                ids.len() == i,
                forall|k: int|
                    0 <= k < text@.len() ==> self.itos@.contains(#[trigger] text@[k]),
                forall|k: int|
                    0 <= k < i ==> #[trigger] ids@[k] == id_of(self.itos@, text@[k]) && ids@[k]
                        < self.itos@.len(),
            decreases chars.len() - i,
        {
            proof {
                lemma_id_of(self.itos@, text@[i as int]);
            }
            match self.id(chars[i]) {
                Some(id) => {
                    ids.push(id);
                },
                None => {
                    assert(self.itos@.contains(text@[i as int]));
                },
            }
            i += 1;
        }
        assert(ids@.map_values(|i: usize| i as int) =~= self.ids(text@));
        ids
    }

    /// The characters with these numbers.
    pub fn decode(&self, ids: &Vec<usize>) -> (text: String)
        requires
            forall|i: int| 0 <= i < ids@.len() ==> #[trigger] ids@[i] < self.itos@.len(),
        ensures
            text@ == ids@.map_values(|i: usize| self.itos@[i as int]),
    {
        let mut text: String = String::new();
        let mut i: usize = 0;
        while i < ids.len()
            invariant
                i <= ids.len(),
                forall|k: int| 0 <= k < ids@.len() ==> #[trigger] ids@[k] < self.itos@.len(),
                text@.len() == i,
                forall|k: int|
                    0 <= k < i ==> #[trigger] text@[k] == self.itos@[ids@[k] as int],
            decreases ids.len() - i,
        {
            text.push(self.itos[ids[i]]);
            i += 1;
        }
        assert(text@ =~= ids@.map_values(|i: usize| self.itos@[i as int]));
        text
    }

    /// The characters in the order of their numbers.
    pub fn chars(&self) -> (chars: &Vec<char>)
        ensures
            chars@ == self.itos@,
    {
        &self.itos
    }

    /// The vocabulary with these characters in this order.
    pub fn from_chars(itos: Vec<char>) -> (vocab: Vocab)
        ensures
            vocab.itos@ == itos@,
    {
        Vocab { itos }
    }
}

proof fn lemma_push_contains(s: Seq<char>, c: char, x: char)
    ensures
        s.push(c).contains(x) == (s.contains(x) || x == c),
{
    let t = s.push(c);
    if s.contains(x) {
        let k = choose|k: int| 0 <= k < s.len() && s[k] == x;
        assert(t[k] == x);
    }
    if x == c {
        assert(t[s.len() as int] == x);
    }
    if t.contains(x) {
        let k = choose|k: int| 0 <= k < t.len() && t[k] == x;
        if k < s.len() {
            assert(s[k] == x);
        }
    }
}

/// Puts a character in its place unless it is there already.
fn insert_sorted(itos: &mut Vec<char>, c: char)
    requires
        increasing(old(itos)@),
    ensures
        increasing(final(itos)@),
        forall|x: char|
            #[trigger] final(itos)@.contains(x) == (old(itos)@.contains(x) || x == c),
{
    let n: usize = itos.len();
    let mut at: usize = 0;
    while at < n && itos[at] < c
        invariant
            at <= n == itos.len(),
            itos@ == old(itos)@,
            forall|k: int| 0 <= k < at ==> #[trigger] itos@[k] < c,
        decreases n - at,
    {
        at += 1;
    }
    let ghost before = itos@;
    if at < n && itos[at] == c {
        assert(before.contains(c));
        return;
    }
    itos.insert(at, c);
    proof {
        let after = itos@;
        assert(after =~= before.insert(at as int, c));
        assert forall|a: int, b: int| 0 <= a < b < after.len() implies #[trigger] after[a]
            < #[trigger] after[b] by {
            let a0 = if a > at { a - 1 } else { a };
            let b0 = if b > at { b - 1 } else { b };
            if a == at {
                assert(after[b] == before[b0]);
                if b0 > at {
                    assert(before[at as int] < before[b0]);
                }
            } else if b == at {
                assert(after[a] == before[a0]);
            } else {
                assert(after[a] == before[a0] && after[b] == before[b0]);
            }
        }
        assert forall|x: char| #[trigger] after.contains(x) == (before.contains(x) || x == c) by {
            if before.contains(x) {
                let k = choose|k: int| 0 <= k < before.len() && before[k] == x;
                assert(after[if k < at { k } else { k + 1 }] == x);
            }
            if x == c {
                assert(after[at as int] == x);
            }
            if after.contains(x) {
                let k = choose|k: int| 0 <= k < after.len() && after[k] == x;
                if k < at {
                    assert(before[k] == x);
                } else if k > at {
                    assert(before[k - 1] == x);
                }
            }
        }
    }
}

/// Decoding what was encoded gives the text back, whatever the order of the
/// vocabulary, as long as it knows every character.
pub proof fn law_decode_undoes_encode(vocab: Vocab, text: Seq<char>, ids: Seq<usize>)
    requires
        forall|i: int| 0 <= i < text.len() ==> vocab.itos@.contains(#[trigger] text[i]),
        ids.map_values(|i: usize| i as int) == vocab.ids(text),
    ensures
        ids.map_values(|i: usize| vocab.itos@[i as int]) == text,
{
    let back = ids.map_values(|i: usize| vocab.itos@[i as int]);
    let nums = ids.map_values(|i: usize| i as int);
    assert(nums.len() == ids.len());
    assert forall|i: int| 0 <= i < text.len() implies #[trigger] back[i] == text[i] by {
        lemma_id_of(vocab.itos@, text[i]);
        assert(nums[i] == id_of(vocab.itos@, text[i]));
        assert(nums[i] == ids[i] as int);
    }
    assert(back =~= text);
}

/// Where no character occurs twice in the vocabulary, encoding what was
/// decoded gives the numbers back.
pub proof fn law_encode_undoes_decode(vocab: Vocab, ids: Seq<usize>)
    requires
        vocab.itos@.no_duplicates(),
        forall|i: int| 0 <= i < ids.len() ==> #[trigger] ids[i] < vocab.itos@.len(),
    ensures
        vocab.ids(ids.map_values(|i: usize| vocab.itos@[i as int])) == ids.map_values(
            |i: usize| i as int,
        ),
{
    let text = ids.map_values(|i: usize| vocab.itos@[i as int]);
    let back = vocab.ids(text);
    let nums = ids.map_values(|i: usize| i as int);
    assert forall|i: int| 0 <= i < ids.len() implies #[trigger] back[i] == nums[i] by {
        lemma_id_of(vocab.itos@, text[i]);
        assert(vocab.itos@[ids[i] as int] == text[i]);
        assert(vocab.itos@.contains(text[i]));
    }
    assert(back =~= nums);
}

/// A corpus as a stream of character numbers.
#[derive(Debug)]
pub struct TextDataset {
    pub vocab: Vocab,
    pub data: Vec<usize>,
}

/// The windows of `len` numbers that start at `starts[b] + shift`.
pub open spec fn windows_at(data: Seq<usize>, starts: Seq<usize>, shift: int, len: int) -> Seq<
    Seq<usize>,
> {
    starts.map_values(|s: usize| data.subrange(s + shift, s + shift + len))
}

pub open spec fn id_rows(rows: Seq<Vec<usize>>) -> Seq<Seq<usize>> {
    rows.map_values(|r: Vec<usize>| r@)
}

impl TextDataset {
    /// Every number of the corpus is a number of the vocabulary.
    pub open spec fn wf(&self) -> bool {
        forall|i: int| 0 <= i < self.data@.len() ==> #[trigger] self.data@[i]
            < self.vocab.itos@.len()
    }

    pub fn new(text: &str) -> (corpus: TextDataset)
        ensures
            corpus.wf(),
            increasing(corpus.vocab.itos@),
            forall|c: char| #[trigger] corpus.vocab.itos@.contains(c) == text@.contains(c),
            corpus.data@.map_values(|i: usize| i as int) == corpus.vocab.ids(text@),
    {
        let vocab: Vocab = Vocab::from_text(text);
        assert forall|i: int| 0 <= i < text@.len() implies vocab.itos@.contains(
            #[trigger] text@[i],
        ) by {
            assert(text@.contains(text@[i]));
        }
        let data: Vec<usize> = vocab.encode(text);
        TextDataset { vocab, data }
    }

    pub fn len(&self) -> (n: usize)
        ensures
            n == self.data@.len(),
    {
        self.data.len()
    }

    pub fn is_empty(&self) -> (yes: bool)
        ensures
            yes == (self.data@.len() == 0),
    {
        self.data.len() == 0
    }

    /// The windows "context, continuation" that begin at `starts`.
    pub fn windows(&self, starts: &Vec<usize>, ctx_len: usize, tgt_len: usize) -> (batch: (
        Vec<Vec<usize>>,
        Vec<Vec<usize>>,
    ))
        requires
            ctx_len + tgt_len <= self.data@.len(),
            forall|b: int|
                0 <= b < starts@.len() ==> #[trigger] starts@[b] + ctx_len + tgt_len
                    <= self.data@.len(),
        ensures
            id_rows(batch.0@) == windows_at(self.data@, starts@, 0, ctx_len as int),
            id_rows(batch.1@) == windows_at(self.data@, starts@, ctx_len as int, tgt_len as int),
    {
        let mut src: Vec<Vec<usize>> = Vec::new();
        let mut tgt: Vec<Vec<usize>> = Vec::new();
        let mut b: usize = 0;
        while b < starts.len()
            invariant
                b <= starts.len(),
                src.len() == b,
                tgt.len() == b,
                forall|k: int|
                    0 <= k < starts@.len() ==> #[trigger] starts@[k] + ctx_len + tgt_len
                        <= self.data.len(),
                forall|k: int|
                    0 <= k < b ==> (#[trigger] src@[k])@ == self.data@.subrange(
                        starts@[k] as int,
                        starts@[k] + ctx_len,
                    ),
                forall|k: int|
                    0 <= k < b ==> (#[trigger] tgt@[k])@ == self.data@.subrange(
                        starts@[k] + ctx_len,
                        starts@[k] + ctx_len + tgt_len,
                    ),
            decreases starts.len() - b,
        {
            let start: usize = starts[b];
            src.push(span_of(&self.data, start, ctx_len));
            tgt.push(span_of(&self.data, start + ctx_len, tgt_len));
            b += 1;
        }
        assert(id_rows(src@) =~= windows_at(self.data@, starts@, 0, ctx_len as int));
        assert(id_rows(tgt@) =~= windows_at(
            self.data@,
            starts@,
            ctx_len as int,
            tgt_len as int,
        ));
        (src, tgt)
    }

    /// A random batch of windows "context, continuation", all of them inside
    /// the corpus.
    pub fn sample_batch(
        &self,
        batch: usize,
        ctx_len: usize,
        tgt_len: usize,
        rng: &mut StdRng,
    ) -> (out: (Vec<Vec<usize>>, Vec<Vec<usize>>))
        requires
            ctx_len + tgt_len <= self.data@.len(),
        ensures
            exists|starts: Seq<usize>|
                {
                    &&& starts.len() == batch
                    &&& forall|b: int|
                        0 <= b < batch ==> #[trigger] starts[b] + ctx_len + tgt_len
                            <= self.data@.len()
                    &&& id_rows(out.0@) == #[trigger] windows_at(
                        self.data@,
                        starts,
                        0,
                        ctx_len as int,
                    )
                    &&& id_rows(out.1@) == windows_at(
                        self.data@,
                        starts,
                        ctx_len as int,
                        tgt_len as int,
                    )
                },
    {
        let last: usize = self.data.len() - (ctx_len + tgt_len);
        let mut starts: Vec<usize> = Vec::new();
        while starts.len() < batch
            invariant
                starts.len() <= batch,
                last + ctx_len + tgt_len == self.data@.len(),
                forall|b: int| 0 <= b < starts.len() ==> #[trigger] starts@[b] <= last,
            decreases batch - starts.len(),
        {
            starts.push(draw(rng, last));
        }
        self.windows(&starts, ctx_len, tgt_len)
    }
}

fn span_of(data: &Vec<usize>, from: usize, len: usize) -> (out: Vec<usize>)
    requires
        from + len <= data@.len(),
    ensures
        out@ == data@.subrange(from as int, from + len),
{
    let mut out: Vec<usize> = Vec::new();
    let mut t: usize = 0;
    while t < len
        invariant
            t <= len,
            from + len <= data.len(),
            out@ == data@.subrange(from as int, from + t),
        decreases len - t,
    {
        out.push(data[from + t]);
        t += 1;
    }
    out
}

/// Rows that are picked from a table keep their inputs and outputs together:
/// row `k` of what was picked is the row that was asked for at place `k`.
pub proof fn law_picked_rows_stay_whole(
    data: NumericDataset,
    indices: Seq<usize>,
    picked: NumericDataset,
    k: int,
)
    requires
        data.gathered(indices, picked),
        0 <= k < indices.len(),
    ensures
        picked.inputs@.len() == indices.len(),
        picked.outputs@.len() == indices.len(),
        picked.inputs@[k] == data.inputs@[indices[k] as int],
        picked.outputs@[k] == data.outputs@[indices[k] as int],
{
}

proof fn lemma_attained(data: Seq<Seq<Single>>, j: int, n: nat)
    requires
        0 < n <= data.len(),
        forall|r: int| 0 <= r < n ==> !(#[trigger] data[r][j]).nan(),
    ensures
        exists|r: int| 0 <= r < n && #[trigger] data[r][j] == lowest(data, j, n),
        exists|r: int| 0 <= r < n && #[trigger] data[r][j] == highest(data, j, n),
    decreases n,
{
    assert(!data[n - 1][j].nan());
    if n == 1 {
        assert(data[0][j] == lowest(data, j, 1)) by {
            assert(lowest(data, j, 0) == (Single { bits: INFINITE }));
        }
        assert(data[0][j] == highest(data, j, 1)) by {
            assert(highest(data, j, 0) == (Single { bits: 0xff80_0000 }));
        }
    } else {
        lemma_attained(data, j, (n - 1) as nat);
        let a = choose|r: int|
            0 <= r < n - 1 && #[trigger] data[r][j] == lowest(data, j, (n - 1) as nat);
        let b = choose|r: int|
            0 <= r < n - 1 && #[trigger] data[r][j] == highest(data, j, (n - 1) as nat);
        let low = if data[n - 1][j].less(lowest(data, j, (n - 1) as nat)) {
            n - 1
        } else {
            a
        };
        let high = if highest(data, j, (n - 1) as nat).less(data[n - 1][j]) {
            n - 1
        } else {
            b
        };
        assert(data[low][j] == lowest(data, j, n));
        assert(data[high][j] == highest(data, j, n));
    }
}

/// The range of a column is exactly that of its training values: no value lies
/// below or above it, and both ends were seen. A category keeps its codes, for
/// its scale is one and its shift is zero.
pub proof fn law_the_trained_range_is_exact(
    norm: Normalizer,
    data: Seq<Seq<Single>>,
    specs: Seq<FeatureSpec>,
    means: Seq<Single>,
    deviations: Seq<Single>,
    j: int,
)
    requires
        norm.is_fit(data, specs, means, deviations),
        0 <= j < specs.len(),
        data.len() > 0,
        forall|r: int| 0 <= r < data.len() ==> !(#[trigger] data[r][j]).nan(),
    ensures
        forall|r: int|
            0 <= r < data.len() ==> norm.min@[j].at_most(#[trigger] data[r][j])
                && data[r][j].at_most(norm.max@[j]),
        exists|r: int| 0 <= r < data.len() && #[trigger] data[r][j] == norm.min@[j],
        exists|r: int| 0 <= r < data.len() && #[trigger] data[r][j] == norm.max@[j],
        specs[j] is Categorical ==> norm.mean@[j].bits == 0 && norm.std@[j].bits == 0x3f80_0000,
        specs[j] is Continuous ==> norm.mean@[j] == means[j] && norm.std@[j] == deviations[j],
{
    lemma_attained(data, j, data.len());
    let a = choose|r: int|
        0 <= r < data.len() && #[trigger] data[r][j] == lowest(data, j, data.len());
    let b = choose|r: int|
        0 <= r < data.len() && #[trigger] data[r][j] == highest(data, j, data.len());
    assert(data[a][j] == norm.min@[j]);
    assert(data[b][j] == norm.max@[j]);
    assert forall|r: int| 0 <= r < data.len() implies norm.min@[j].at_most(#[trigger] data[r][j])
        && data[r][j].at_most(norm.max@[j]) by {
        lemma_in_range(data, j, data.len(), r);
        assert(!data[r][j].nan() && !data[a][j].nan() && !data[b][j].nan());
    }
}

/// A window and its continuation follow each other in the corpus: together they
/// are the characters from the start of the window on.
pub proof fn law_a_continuation_follows_its_context(
    data: Seq<usize>,
    starts: Seq<usize>,
    ctx_len: int,
    tgt_len: int,
    b: int,
)
    requires
        0 <= ctx_len,
        0 <= tgt_len,
        0 <= b < starts.len(),
        starts[b] + ctx_len + tgt_len <= data.len(),
    ensures
        ({
            let context = windows_at(data, starts, 0, ctx_len);
            let continuation = windows_at(data, starts, ctx_len, tgt_len);
            &&& context.len() == starts.len()
            &&& continuation.len() == starts.len()
            &&& context[b].len() == ctx_len
            &&& continuation[b].len() == tgt_len
            &&& forall|t: int| 0 <= t < ctx_len ==> context[b][t] == data[starts[b] + t]
            &&& forall|t: int|
                0 <= t < tgt_len ==> continuation[b][t] == data[starts[b] + ctx_len + t]
        }),
{
}

/// A vocabulary gives every character of its text a number of its own.
pub proof fn law_characters_have_numbers_of_their_own(vocab: Vocab, text: Seq<char>, i: int, j: int)
    requires
        forall|k: int| 0 <= k < text.len() ==> vocab.itos@.contains(#[trigger] text[k]),
        0 <= i < text.len(),
        0 <= j < text.len(),
    ensures
        vocab.ids(text).len() == text.len(),
        0 <= vocab.ids(text)[i] < vocab.itos@.len(),
        vocab.ids(text)[i] == vocab.ids(text)[j] <==> text[i] == text[j],
{
    lemma_id_of(vocab.itos@, text[i]);
    lemma_id_of(vocab.itos@, text[j]);
    assert(vocab.itos@.contains(text[i]) && vocab.itos@.contains(text[j]));
}

/// The positions that are flagged in a table are exactly those of continuous
/// values below or above what was seen in training, each once, row by row.
pub proof fn law_flags_are_the_values_outside(
    norm: &Normalizer,
    data: &Matrix,
    flags: Seq<(usize, usize)>,
    r: usize,
    c: usize,
)
    requires
        norm.flagged(data, flags, data@.len() as int, 0),
        r < data@.len(),
        c < data.cols,
    ensures
        flags.contains((r, c)) <==> norm.specs@[c as int] == FeatureSpec::Continuous && (
        data@[r as int][c as int].less(norm.min@[c as int]) || norm.max@[c as int].less(
            data@[r as int][c as int],
        )),
        forall|a: int, b: int|
            0 <= a < b < flags.len() ==> (#[trigger] flags[a]).0 < (#[trigger] flags[b]).0 || (
            flags[a].0 == flags[b].0 && flags[a].1 < flags[b].1),
{
    assert(flags.contains((r, c)) || !flags.contains((r, c)));
    assert forall|a: int, b: int| 0 <= a < b < flags.len() implies (#[trigger] flags[a]).0 < (
    #[trigger] flags[b]).0 || (flags[a].0 == flags[b].0 && flags[a].1 < flags[b].1) by {
        assert(before(flags[a], flags[b]));
    }
}

/// A value that is not a number moves neither end of the range of its column.
pub proof fn law_what_is_no_number_moves_no_bound(data: Seq<Seq<Single>>, j: int, n: nat)
    requires
        0 < n <= data.len(),
        data[n - 1][j].nan(),
    ensures
        lowest(data, j, n) == lowest(data, j, (n - 1) as nat),
        highest(data, j, n) == highest(data, j, (n - 1) as nat),
{
}

} // verus!
