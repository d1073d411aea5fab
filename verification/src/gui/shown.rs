//! Texts made of printed numbers.

use crate::interpret::InterpretProfile;
use crate::lifecycle::SplitPlan;
use crate::text::{decimal, decimal_text, owned};
use vstd::prelude::*;
use vstd::string::StringExecFns;

verus! {

/// The printed numbers of an estimate; the relative error in per cent.
#[derive(Debug)]
pub struct ShownMetrics {
    pub rmse: String,
    pub mae: String,
    pub rel_error: String,
    pub r2: String,
}

impl ShownMetrics {
    /// The estimate in one line.
    pub open spec fn line(self) -> Seq<char> {
        "RMSE="@ + self.rmse@ + "   MAE="@ + self.mae@ + "   rel.error="@ + self.rel_error@
            + "%   R²="@ + self.r2@
    }

    pub fn text(&self) -> (text: String)
        ensures
            text@ == self.line(),
    {
        let mut text: String = owned("RMSE=");
        text.append(self.rmse.as_str());
        text.append("   MAE=");
        text.append(self.mae.as_str());
        text.append("   rel.error=");
        text.append(self.rel_error.as_str());
        text.append("%   R²=");
        text.append(self.r2.as_str());
        text
    }
}

/// The printed penalty and threshold of an interpretation pipeline.
#[derive(Debug)]
pub struct ShownProfile {
    pub l1: String,
    pub prune: String,
}

impl ShownProfile {
    /// The line that names a pipeline.
    pub open spec fn line(self, profile: InterpretProfile) -> Seq<char> {
        "Конвейер интерпретации "@ + profile.description(self.l1@, self.prune@)
    }

    pub fn text(&self, profile: &InterpretProfile) -> (text: String)
        ensures
            text@ == self.line(*profile),
    {
        let mut text: String = owned("Конвейер интерпретации ");
        text.append(profile.describe(self.l1.as_str(), self.prune.as_str()).as_str());
        text
    }
}

/// How many edges are active, of how many.
pub open spec fn edges_text(edges: (usize, usize)) -> Seq<char> {
    decimal(edges.0 as nat) + "/"@ + decimal(edges.1 as nat)
}

pub(crate) fn edges_label(edges: (usize, usize)) -> (text: String)
    ensures
        text@ == edges_text(edges),
{
    let mut text: String = decimal_text(edges.0 as u64);
    text.append("/");
    text.append(decimal_text(edges.1 as u64).as_str());
    text
}

/// The line of the edges that pruning left.
pub open spec fn pruned_text(edges: (usize, usize)) -> Seq<char> {
    "Активных рёбер после прунинга: "@ + edges_text(edges)
}

pub(crate) fn pruned_label(edges: (usize, usize)) -> (text: String)
    ensures
        text@ == pruned_text(edges),
{
    let mut text: String = owned("Активных рёбер после прунинга: ");
    text.append(edges_label(edges).as_str());
    text
}

/// A division with the printed percentages of its parts: of a holdout those
/// of its three parts, of folds the first one, of the test rows.
pub open spec fn split_label(
    plan: SplitPlan,
    first: Seq<char>,
    second: Seq<char>,
    third: Seq<char>,
) -> Seq<char> {
    match plan {
        SplitPlan::Holdout { split_seed, .. } => "holdout "@ + first + "/"@ + second + "/"@ + third
            + ", split seed "@ + decimal(split_seed as nat),
        SplitPlan::KFold { k, folds_seed, test_seed, .. } => decimal(k as nat) + "-fold, test "@
            + first + "%, folds seed "@ + decimal(folds_seed as nat) + ", test seed "@ + decimal(
            test_seed as nat,
        ),
    }
}

pub fn split_plan_label(plan: &SplitPlan, first: &str, second: &str, third: &str) -> (text: String)
    ensures
        text@ == split_label(*plan, first@, second@, third@),
{
    match *plan {
        SplitPlan::Holdout { split_seed, .. } => {
            let mut text: String = owned("holdout ");
            text.append(first);
            text.append("/");
            text.append(second);
            text.append("/");
            text.append(third);
            text.append(", split seed ");
            text.append(decimal_text(split_seed).as_str());
            text
        },
        SplitPlan::KFold { k, folds_seed, test_seed, .. } => {
            let mut text: String = decimal_text(k as u64);
            text.append("-fold, test ");
            text.append(first);
            text.append("%, folds seed ");
            text.append(decimal_text(folds_seed).as_str());
            text.append(", test seed ");
            text.append(decimal_text(test_seed).as_str());
            text
        },
    }
}

} // verus!
