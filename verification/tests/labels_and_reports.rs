use die_yield::{
    data_uri, data_uri_from_encoded, report_blocker, yield_model_explanation, yield_model_key, yield_model_label,
    InputField, ReportFormat, YieldModel,
};

#[test]
fn yield_models_have_labels_and_keys() {
    let cases = [
        (YieldModel::Poisson, "Poisson", "poisson"),
        (YieldModel::MurphyTriangular, "Murphy triangular", "murphy_triangular"),
        (YieldModel::Seeds, "Seeds", "seeds"),
        (YieldModel::NegativeBinomial, "Negative binomial", "negative_binomial"),
    ];
    for (model, label, key) in cases {
        assert_eq!(yield_model_label(model), label);
        assert_eq!(yield_model_key(model), key);
    }
    assert_eq!(YieldModel::default(), YieldModel::MurphyTriangular);
}

#[test]
fn yield_model_explanations_name_their_formula() {
    assert!(yield_model_explanation(YieldModel::Poisson).starts_with("Y = exp(−A·D₀)."));
    assert!(yield_model_explanation(YieldModel::Seeds).contains("α = 1"));
    assert!(yield_model_explanation(YieldModel::NegativeBinomial).contains("clustering"));
    assert!(yield_model_explanation(YieldModel::MurphyTriangular).contains("triangular"));
}

#[test]
fn input_fields_have_stable_labels() {
    assert_eq!(InputField::DieWidth.label(), "die width");
    assert_eq!(InputField::OffsetX.label(), "horizontal offset");
    assert_eq!(InputField::ClusteringAlpha.label(), "clustering alpha");
    assert_eq!(InputField::GridDensity.label(), "grid density");
    assert!(InputField::ProbeColumns.requires_integer());
    assert!(InputField::ProbeRows.requires_integer());
    assert!(!InputField::DieWidth.requires_integer());
}

#[test]
fn report_format_metadata_covers_machine_readable_json() {
    assert_eq!(ReportFormat::Json.extension(), "json");
    assert_eq!(ReportFormat::Json.mime_type(), "application/json");
}

#[test]
fn report_formats_have_file_names_and_media_types() {
    assert_eq!(ReportFormat::Png.file_name(), "yield-studio-report.png");
    assert_eq!(ReportFormat::Svg.mime_type(), "image/svg+xml");
    assert_eq!(ReportFormat::Pdf.mime_type(), "application/pdf");
    assert_eq!(ReportFormat::Json.file_name(), "yield-studio-report.json");
}

#[test]
fn data_uris_embed_standard_base64() {
    assert_eq!(data_uri("image/png", b""), "data:image/png;base64,");
    assert_eq!(data_uri("text/plain", b"Man"), "data:text/plain;base64,TWFu");
    assert_eq!(data_uri("text/plain", b"Ma"), "data:text/plain;base64,TWE=");
    assert_eq!(data_uri("font/ttf", &[0xff, 0x00, 0x10, 0x20]), "data:font/ttf;base64,/wAQIA==");
    assert_eq!(data_uri_from_encoded("image/png", "AAAA"), "data:image/png;base64,AAAA");
}

#[test]
fn reports_wait_for_a_valid_analysis() {
    assert_eq!(
        report_blocker(true, true, false),
        Some("Resolve the current validation errors before exporting")
    );
    assert_eq!(
        report_blocker(true, false, true),
        Some("Resolve the current validation errors before printing")
    );
    assert_eq!(report_blocker(false, false, false), Some("No valid analysis is available"));
    assert_eq!(report_blocker(false, true, true), None);
}

#[test]
fn data_uris_follow_the_rfc_4648_test_vectors() {
    let vectors = [
        ("", ""),
        ("f", "Zg=="),
        ("fo", "Zm8="),
        ("foo", "Zm9v"),
        ("foob", "Zm9vYg=="),
        ("fooba", "Zm9vYmE="),
        ("foobar", "Zm9vYmFy"),
    ];
    for (plain, encoded) in vectors {
        assert_eq!(data_uri("text/plain", plain.as_bytes()), format!("data:text/plain;base64,{encoded}"));
    }
    assert_eq!(data_uri("application/octet-stream", &[0xfb, 0xff]), "data:application/octet-stream;base64,+/8=");
}
