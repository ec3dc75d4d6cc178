//! Verified core of a wafer die-yield and probe-planning calculator: input
//! rules, die-site counting, reproducible illustrative defect markers,
//! probe-array coverage, map tones, and the text the calculator emits.

pub mod focus;
pub mod labels;
pub mod model;
pub mod random;
pub mod report;
pub mod scene;
pub mod sites;
pub mod text;
pub mod validation;

pub use focus::{normalize_numeric_text, FieldFocus, FocusActions};
pub use labels::{yield_model_explanation, yield_model_key, yield_model_label};
pub use model::{
    DieClass, InputField, ProbeArray, ProbeSummary, ValidationError, ValidationErrors, YieldModel,
};
pub use random::{analysis_seed, mix, SplitMix64};
pub use report::{data_uri, data_uri_from_encoded, report_blocker, ReportFormat};
pub use scene::{cell_tone, count_tone, site_tones, CellTone};
pub use sites::{
    count_class, count_defective, expected_counts, mark_expected_defects, settle_sites,
    summarize_probe, DieSite, SiteTotals,
};
pub use text::{
    decimal_text, format_integer, hex_color, hex_color_alpha, spoken_feedback_requested,
    trim_decimal_zeros, xml_text,
};
pub use validation::{check_candidate_limit, check_probe_span, finish_validation};
