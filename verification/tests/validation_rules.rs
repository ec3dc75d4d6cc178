use die_yield::{
    check_candidate_limit, check_probe_span, finish_validation, InputField, ProbeArray,
    ValidationError,
};

#[test]
fn probe_spans_must_be_between_one_and_128() {
    let mut errors = Vec::new();
    check_probe_span(&mut errors, InputField::ProbeColumns, 1);
    check_probe_span(&mut errors, InputField::ProbeColumns, 128);
    assert!(errors.is_empty());
    check_probe_span(&mut errors, InputField::ProbeRows, 0);
    check_probe_span(&mut errors, InputField::ProbeColumns, 129);
    assert_eq!(errors.len(), 2);
    assert_eq!(errors[0].field, InputField::ProbeRows);
    assert_eq!(errors[1].field, InputField::ProbeColumns);
    assert_eq!(errors[0].message, "must be between 1 and 128");
}

#[test]
fn validation_reports_earlier_problems_before_probe_problems() {
    let earlier = vec![ValidationError { field: InputField::DieWidth, message: "bad width" }];
    let errors = finish_validation(earlier, ProbeArray { columns: 4, rows: 0 })
        .expect_err("invalid inputs should be rejected");
    let fields: Vec<InputField> = errors.as_slice().iter().map(|error| error.field).collect();
    assert_eq!(fields, vec![InputField::DieWidth, InputField::ProbeRows]);
    assert_eq!(errors.len(), 2);
    assert!(!errors.is_empty());
    assert_eq!(errors.describe(), "2 invalid input(s)");
}

#[test]
fn valid_probe_and_no_problems_pass() {
    assert!(finish_validation(Vec::new(), ProbeArray { columns: 4, rows: 4 }).is_ok());
    let both = finish_validation(Vec::new(), ProbeArray { columns: 0, rows: 200 })
        .expect_err("both spans are invalid");
    assert_eq!(both.as_slice()[0].field, InputField::ProbeColumns);
    assert_eq!(both.as_slice()[1].field, InputField::ProbeRows);
}

#[test]
fn dense_grid_is_rejected() {
    assert!(check_candidate_limit(1_000, 1_000).is_ok());
    let errors = check_candidate_limit(1_001, 1_000).expect_err("grid should exceed the limit");
    assert_eq!(errors.as_slice()[0].field, InputField::GridDensity);
    assert_eq!(errors.as_slice()[0].message, "produces more than one million candidate sites");
    assert!(check_candidate_limit(u64::MAX, 2).is_err());
    assert!(check_candidate_limit(0, u64::MAX).is_ok());
}

#[test]
fn rejections_always_carry_a_problem() {
    let only_probe = finish_validation(Vec::new(), ProbeArray { columns: 129, rows: 1 })
        .expect_err("too many probe columns");
    assert_eq!(only_probe.len(), 1);
    assert!(!only_probe.is_empty());
    let copy = only_probe.clone();
    assert_eq!(copy, only_probe);
    assert_eq!(copy.describe(), "1 invalid input(s)");
}
