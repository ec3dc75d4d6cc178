//! Fixed wording of the yield models in the interface and in reports.

use vstd::prelude::*;

use crate::model::YieldModel;

verus! {

/// Display name of a yield model.
pub open spec fn model_label(model: YieldModel) -> Seq<char> {
    match model {
        YieldModel::Poisson => "Poisson"@,
        YieldModel::MurphyTriangular => "Murphy triangular"@,
        YieldModel::Seeds => "Seeds"@,
        YieldModel::NegativeBinomial => "Negative binomial"@,
    }
}

/// Machine-readable key of a yield model.
pub open spec fn model_key(model: YieldModel) -> Seq<char> {
    match model {
        YieldModel::Poisson => "poisson"@,
        YieldModel::MurphyTriangular => "murphy_triangular"@,
        YieldModel::Seeds => "seeds"@,
        YieldModel::NegativeBinomial => "negative_binomial"@,
    }
}

/// Formula and assumption of a yield model.
pub open spec fn model_explanation(model: YieldModel) -> Seq<char> {
    match model {
        YieldModel::Poisson => "Y = exp(−A·D₀). Assumes independent, uniformly random defects."@,
        YieldModel::MurphyTriangular =>
            "Y = [(1 − exp(−A·D₀)) / (A·D₀)]². Models a triangular defect-density distribution."@,
        YieldModel::Seeds => "Y = 1 / (1 + A·D₀). Equivalent to negative binomial with α = 1."@,
        YieldModel::NegativeBinomial =>
            "Y = (1 + A·D₀ / α)^(−α). Lower α represents stronger defect clustering."@,
    }
}

/// Display name of a yield model.
pub fn yield_model_label(model: YieldModel) -> (text: &'static str)
    ensures
        text@ == model_label(model),
{
    match model {
        YieldModel::Poisson => "Poisson",
        YieldModel::MurphyTriangular => "Murphy triangular",
        YieldModel::Seeds => "Seeds",
        YieldModel::NegativeBinomial => "Negative binomial",
    }
}

/// Machine-readable key of a yield model, as used in report snapshots.
pub fn yield_model_key(model: YieldModel) -> (text: &'static str)
    ensures
        text@ == model_key(model),
{
    match model {
        YieldModel::Poisson => "poisson",
        YieldModel::MurphyTriangular => "murphy_triangular",
        YieldModel::Seeds => "seeds",
        YieldModel::NegativeBinomial => "negative_binomial",
    }
}

/// Formula and assumption of a yield model, as shown beside the selector.
pub fn yield_model_explanation(model: YieldModel) -> (text: &'static str)
    ensures
        text@ == model_explanation(model),
{
    match model {
        YieldModel::Poisson => "Y = exp(−A·D₀). Assumes independent, uniformly random defects.",
        YieldModel::MurphyTriangular => {
            "Y = [(1 − exp(−A·D₀)) / (A·D₀)]². Models a triangular defect-density distribution."
        },
        YieldModel::Seeds => "Y = 1 / (1 + A·D₀). Equivalent to negative binomial with α = 1.",
        YieldModel::NegativeBinomial => {
            "Y = (1 + A·D₀ / α)^(−α). Lower α represents stronger defect clustering."
        },
    }
}

} // verus!
