use die_yield::{
    finish_validation, normalize_numeric_text, FieldFocus, InputField, ProbeArray,
    ValidationError,
};

#[test]
fn unparsable_text_is_rejected_when_focus_leaves() {
    let mut focus = FieldFocus::default();
    focus.track_text(InputField::DieWidth, true, true, false);
    assert_eq!(focus.invalid_text, Some(InputField::DieWidth));
    assert_eq!(focus.rejected_text, None);

    focus.track_text(InputField::DieWidth, false, false, true);
    assert_eq!(focus.invalid_text, None);
    assert_eq!(focus.rejected_text, Some(InputField::DieWidth));

    focus.track_text(InputField::DieWidth, true, false, false);
    assert_eq!(focus.rejected_text, None);
}

#[test]
fn other_fields_do_not_clear_a_rejection() {
    let mut focus = FieldFocus::default();
    focus.rejected_text = Some(InputField::RowLane);
    focus.track_text(InputField::DieWidth, true, false, false);
    assert_eq!(focus.rejected_text, Some(InputField::RowLane));
    focus.track_text(InputField::DieWidth, false, false, true);
    assert_eq!(focus.rejected_text, Some(InputField::RowLane));
}

#[test]
fn pending_focus_and_buffer_refresh_are_consumed_once() {
    let mut focus = FieldFocus::default();
    focus.note_edit(InputField::OffsetX, true, true);
    assert_eq!(focus.restore, Some(InputField::OffsetX));
    focus.after_recalculation(false, true);
    assert_eq!(focus.sync_buffer, Some(InputField::OffsetX));

    let other = focus.take_pending(InputField::OffsetY);
    assert!(!other.clear_buffer && !other.request_focus);
    let actions = focus.take_pending(InputField::OffsetX);
    assert!(actions.clear_buffer && actions.request_focus);
    assert_eq!(focus.restore, None);
    assert_eq!(focus.sync_buffer, None);

    focus.note_edit(InputField::OffsetX, true, false);
    assert_eq!(focus.restore, None);
    focus.after_recalculation(true, true);
    assert_eq!(focus.sync_buffer, None);
}

#[test]
fn field_notices_follow_their_priority() {
    let mut focus = FieldFocus::default();
    let errors = finish_validation(
        vec![ValidationError { field: InputField::WaferDiameter, message: "must be between 25 mm and 450 mm" }],
        ProbeArray { columns: 4, rows: 0 },
    )
    .expect_err("invalid inputs should be rejected");

    assert_eq!(
        focus.field_notice(InputField::WaferDiameter, Some(&errors)).as_deref(),
        Some("Error: must be between 25 mm and 450 mm Results remain from the last valid setup.")
    );
    assert_eq!(focus.field_notice(InputField::DieWidth, Some(&errors)), None);
    assert_eq!(focus.field_notice(InputField::WaferDiameter, None), None);

    focus.rejected_text = Some(InputField::WaferDiameter);
    assert_eq!(
        focus.field_notice(InputField::WaferDiameter, Some(&errors)).as_deref(),
        Some("The invalid entry was not applied; the previous value remains.")
    );

    focus.invalid_text = Some(InputField::ProbeRows);
    assert_eq!(
        focus.field_notice(InputField::ProbeRows, Some(&errors)).as_deref(),
        Some("Enter a finite whole number. This text has not been applied.")
    );
    focus.invalid_text = Some(InputField::WaferDiameter);
    assert_eq!(
        focus.field_notice(InputField::WaferDiameter, None).as_deref(),
        Some("Enter a finite number. This text has not been applied.")
    );
}

#[test]
fn numeric_text_is_normalized_before_parsing() {
    assert_eq!(normalize_numeric_text(" 10.25 "), "10.25");
    assert_eq!(normalize_numeric_text("−3.5"), "-3.5");
    assert_eq!(normalize_numeric_text("1 000"), "1000");
    assert_eq!(normalize_numeric_text("\t2e-3\n"), "2e-3");
    assert_eq!(normalize_numeric_text("1\u{a0}000"), "1000");
    assert_eq!(normalize_numeric_text("abc"), "abc");
    assert_eq!(normalize_numeric_text(""), "");
    assert_eq!(normalize_numeric_text("1\u{2009}234\u{3000}"), "1234");
    assert_eq!(normalize_numeric_text("\u{85}5\u{2028}"), "5");
    assert_eq!(normalize_numeric_text("1\u{200b}0"), "1\u{200b}0");
}

#[test]
fn unparsable_and_rejected_text_are_never_both_recorded() {
    let mut focus = FieldFocus::default();
    let steps = [
        (InputField::DieWidth, true, true, false),
        (InputField::DieWidth, false, false, true),
        (InputField::DieHeight, true, true, false),
        (InputField::DieWidth, false, false, true),
        (InputField::DieHeight, false, false, true),
        (InputField::DieHeight, true, false, false),
    ];
    for (field, has_focus, invalid, lost) in steps {
        focus.track_text(field, has_focus, invalid, lost);
        assert!(focus.invalid_text.is_none() || focus.rejected_text.is_none());
    }
    assert_eq!(focus.invalid_text, None);
    assert_eq!(focus.rejected_text, None);
}
