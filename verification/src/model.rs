//! Plain data shared by validation, die-site analysis and presentation.

use vstd::prelude::*;

use crate::text::{decimal_digits, decimal_text};

verus! {

/// Statistical model used to estimate random-defect die yield.
#[derive(Clone, Copy, Debug, PartialEq, Eq, Structural)]
pub enum YieldModel {
    /// Independent, uniformly distributed random defects.
    Poisson,
    /// Murphy's triangular defect-density distribution.
    MurphyTriangular,
    /// Seeds' clustered-defect approximation.
    Seeds,
    /// Gamma-Poisson mixture controlled by a positive clustering parameter.
    NegativeBinomial,
}

impl Default for YieldModel {
    /// Murphy's triangular model is the default selection.
    fn default() -> (model: Self)
        ensures
            model == YieldModel::MurphyTriangular,
    {
        YieldModel::MurphyTriangular
    }
}

/// Rectangular probe array dimensions.
#[derive(Clone, Copy, Debug, PartialEq, Eq, Structural)]
pub struct ProbeArray {
    /// Number of die columns covered by one touchdown.
    pub columns: u32,
    /// Number of die rows covered by one touchdown.
    pub rows: u32,
}

/// User input associated with a validation error.
#[derive(Clone, Copy, Debug, PartialEq, Eq, Structural)]
pub enum InputField {
    /// Die width.
    DieWidth,
    /// Die height.
    DieHeight,
    /// Horizontal scribe lane.
    ColumnLane,
    /// Vertical scribe lane.
    RowLane,
    /// Wafer diameter.
    WaferDiameter,
    /// Edge exclusion.
    EdgeExclusion,
    /// Defect density.
    DefectDensity,
    /// Negative-binomial clustering parameter.
    ClusteringAlpha,
    /// Horizontal grid offset.
    OffsetX,
    /// Vertical grid offset.
    OffsetY,
    /// Probe columns.
    ProbeColumns,
    /// Probe rows.
    ProbeRows,
    /// Candidate-grid size.
    GridDensity,
}

/// The human-readable label of each input field.
pub open spec fn field_label(field: InputField) -> Seq<char> {
    match field {
        InputField::DieWidth => "die width"@,
        InputField::DieHeight => "die height"@,
        InputField::ColumnLane => "column lane"@,
        InputField::RowLane => "row lane"@,
        InputField::WaferDiameter => "wafer diameter"@,
        InputField::EdgeExclusion => "edge exclusion"@,
        InputField::DefectDensity => "defect density"@,
        InputField::ClusteringAlpha => "clustering alpha"@,
        InputField::OffsetX => "horizontal offset"@,
        InputField::OffsetY => "vertical offset"@,
        InputField::ProbeColumns => "probe columns"@,
        InputField::ProbeRows => "probe rows"@,
        InputField::GridDensity => "grid density"@,
    }
}

impl InputField {
    /// Stable human-readable field label.
    pub fn label(self) -> (text: &'static str)
        ensures
            text@ == field_label(self),
    {
        match self {
            InputField::DieWidth => "die width",
            InputField::DieHeight => "die height",
            InputField::ColumnLane => "column lane",
            InputField::RowLane => "row lane",
            InputField::WaferDiameter => "wafer diameter",
            InputField::EdgeExclusion => "edge exclusion",
            InputField::DefectDensity => "defect density",
            InputField::ClusteringAlpha => "clustering alpha",
            InputField::OffsetX => "horizontal offset",
            InputField::OffsetY => "vertical offset",
            InputField::ProbeColumns => "probe columns",
            InputField::ProbeRows => "probe rows",
            InputField::GridDensity => "grid density",
        }
    }

    /// Whether the field only accepts whole numbers.
    pub fn requires_integer(self) -> (integer: bool)
        ensures
            integer == (self == InputField::ProbeColumns || self == InputField::ProbeRows),
    {
        match self {
            InputField::ProbeColumns | InputField::ProbeRows => true,
            _ => false,
        }
    }
}

/// One validation problem associated with a user input.
#[derive(Clone, Copy, Debug, PartialEq, Eq)]
pub struct ValidationError {
    /// Input that failed validation.
    pub field: InputField,
    /// Corrective message suitable for the interface.
    pub message: &'static str,
}

/// Collection of validation problems returned by an analysis request.
#[derive(Debug, PartialEq, Eq)]
pub struct ValidationErrors {
    errors: Vec<ValidationError>,
}

impl Clone for ValidationErrors {
    fn clone(&self) -> (copy: Self)
        ensures
            copy@ == self@,
    {
        proof {
            use_type_invariant(self);
        }
        let mut errors: Vec<ValidationError> = Vec::new();
        for i in 0..self.errors.len()
            invariant
                errors@ == self.errors@.take(i as int),
        {
            errors.push(self.errors[i]);
        }
        ValidationErrors { errors }
    }
}

impl View for ValidationErrors {
    type V = Seq<ValidationError>;

    closed spec fn view(&self) -> Seq<ValidationError> {
        self.errors@
    }
}

impl ValidationErrors {
    /// A collection of problems always holds at least one.
    #[verifier::type_invariant]
    spec fn holds_a_problem(self) -> bool {
        self.errors.len() > 0
    }

    /// Collects the given problems, keeping their order.
    pub fn from_errors(errors: Vec<ValidationError>) -> (collected: Self)
        requires
            errors@.len() > 0,
        ensures
            collected@ == errors@,
    {
        ValidationErrors { errors }
    }

    /// Returns the individual validation errors.
    pub fn as_slice(&self) -> (errors: &[ValidationError])
        ensures
            errors@ == self@,
    {
        self.errors.as_slice()
    }

    /// Returns whether no validation problems are present, which never holds.
    pub fn is_empty(&self) -> (empty: bool)
        ensures
            empty == (self@.len() == 0),
            !empty,
    {
        proof {
            use_type_invariant(self);
        }
        self.errors.len() == 0
    }

    /// Number of validation problems, never zero.
    pub fn len(&self) -> (count: usize)
        ensures
            count == self@.len(),
            count > 0,
    {
        proof {
            use_type_invariant(self);
        }
        self.errors.len()
    }

    /// One-line summary, such as `3 invalid input(s)`.
    pub fn describe(&self) -> (text: String)
        ensures
            text@ == decimal_digits(self@.len()) + " invalid input(s)"@,
    {
        let mut text = decimal_text(self.errors.len() as u64);
        text.append(" invalid input(s)");
        text
    }
}

/// Geometric relationship between a die candidate and the usable wafer area.
#[derive(Clone, Copy, Debug, PartialEq, Eq, Structural)]
pub enum DieClass {
    /// The complete die rectangle is within the usable wafer radius.
    Usable,
    /// The die intersects the usable-radius boundary.
    Partial,
    /// The die intersects the wafer but lies wholly in the exclusion band.
    EdgeExclusion,
}

/// Probe-array coverage summary.
#[derive(Clone, Copy, Debug, PartialEq, Eq, Structural)]
pub struct ProbeSummary {
    /// Maximum number of sites in one rectangular touchdown.
    pub sites_per_touchdown: u64,
    /// Number of occupied probe-array blocks covering all usable sites.
    pub touchdown_count: u64,
}

} // verus!
