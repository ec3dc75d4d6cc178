//! Integer input rules: probe-array spans and the candidate-grid limit.

use vstd::prelude::*;

use crate::model::{InputField, ProbeArray, ValidationError, ValidationErrors};

verus! {

/// Largest number of die columns or rows one probe touchdown may span.
pub const MAX_PROBE_SPAN: u32 = 128;

/// Largest number of candidate sites a placement grid may have.
pub const MAX_CANDIDATES: u64 = 1_000_000;

/// Whether a probe-array span is accepted.
pub open spec fn probe_span_valid(value: u32) -> bool {
    1 <= value <= MAX_PROBE_SPAN
}

/// The problems, in order, reported for the two probe-array spans.
pub open spec fn probe_problems(probe: ProbeArray) -> Seq<InputField> {
    let columns = if probe_span_valid(probe.columns) {
        Seq::empty()
    } else {
        seq![InputField::ProbeColumns]
    };
    let rows = if probe_span_valid(probe.rows) {
        Seq::empty()
    } else {
        seq![InputField::ProbeRows]
    };
    columns + rows
}

/// Whether a candidate grid of the given estimated size exceeds the limit.
pub open spec fn grid_too_dense(estimated_columns: u64, estimated_rows: u64) -> bool {
    estimated_columns * estimated_rows > MAX_CANDIDATES
}

/// Records a problem with a probe-array span outside `1..=128`.
pub fn check_probe_span(errors: &mut Vec<ValidationError>, field: InputField, value: u32)
    ensures
        probe_span_valid(value) ==> final(errors)@ == old(errors)@,
        probe_span_valid(value) <==> 1 <= value <= 128,
        !probe_span_valid(value) ==> {
            &&& final(errors)@.len() == old(errors)@.len() + 1
            &&& final(errors)@.take(old(errors)@.len() as int) == old(errors)@
            &&& final(errors)@.last().field == field
            &&& final(errors)@.last().message@ == "must be between 1 and 128"@
        },
{
    if !(1 <= value && value <= MAX_PROBE_SPAN) {
        errors.push(ValidationError { field, message: "must be between 1 and 128" });
        proof {
            assert(errors@.take(old(errors)@.len() as int) =~= old(errors)@);
        }
    }
}

/// Adds the probe-array checks to the problems already found and reports
/// them all, in order, when there is any.
pub fn finish_validation(errors: Vec<ValidationError>, probe: ProbeArray) -> (result: Result<
    (),
    ValidationErrors,
>)
    ensures
        result is Ok <==> (errors@.len() == 0 && probe_span_valid(probe.columns)
            && probe_span_valid(probe.rows)),
        result is Ok <==> (errors@.len() == 0 && 1 <= probe.columns <= 128 && 1 <= probe.rows
            <= 128),
        result matches Err(problems) ==> {
            &&& problems@.len() == errors@.len() + probe_problems(probe).len()
            &&& problems@.take(errors@.len() as int) == errors@
            &&& forall|k: int|
                0 <= k < probe_problems(probe).len() ==> {
                    &&& (#[trigger] problems@[errors@.len() + k]).field == probe_problems(probe)[k]
                    &&& problems@[errors@.len() + k].message@ == "must be between 1 and 128"@
                }
        },
{
    let mut errors = errors;
    let ghost before = errors@;
    check_probe_span(&mut errors, InputField::ProbeColumns, probe.columns);
    let ghost middle = errors@;
    check_probe_span(&mut errors, InputField::ProbeRows, probe.rows);
    proof {
        assert(errors@.take(before.len() as int) =~= before) by {
            assert(errors@.take(middle.len() as int) == middle);
            assert(middle.take(before.len() as int) == before);
        }
        let problems = probe_problems(probe);
        assert forall|k: int| 0 <= k < problems.len() implies {
            &&& (#[trigger] errors@[before.len() + k]).field == problems[k]
            &&& errors@[before.len() + k].message@ == "must be between 1 and 128"@
        } by {
            if !probe_span_valid(probe.columns) {
                if k == 0 {
                    assert(errors@[before.len() as int] == middle[before.len() as int]);
                }
            }
        }
    }
    if errors.len() == 0 {
        Ok(())
    } else {
        Err(ValidationErrors::from_errors(errors))
    }
}

/// Rejects a candidate grid whose estimated columns times rows exceed one
/// million sites.
pub fn check_candidate_limit(estimated_columns: u64, estimated_rows: u64) -> (result: Result<
    (),
    ValidationErrors,
>)
    ensures
        result is Ok <==> !grid_too_dense(estimated_columns, estimated_rows),
        result is Ok <==> estimated_columns as int * estimated_rows as int <= 1_000_000,
        result matches Err(problems) ==> {
            &&& problems@.len() == 1
            &&& problems@[0].field == InputField::GridDensity
            &&& problems@[0].message@ == "produces more than one million candidate sites"@
        },
{
    let too_dense = match estimated_columns.checked_mul(estimated_rows) {
        Some(candidates) => candidates > MAX_CANDIDATES,
        None => true,
    };
    if too_dense {
        let mut errors: Vec<ValidationError> = Vec::new();
        errors.push(
            ValidationError {
                field: InputField::GridDensity,
                message: "produces more than one million candidate sites",
            },
        );
        Err(ValidationErrors::from_errors(errors))
    } else {
        Ok(())
    }
}

} // verus!
