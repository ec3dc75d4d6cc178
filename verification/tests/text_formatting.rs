use die_yield::{
    decimal_text, format_integer, hex_color, hex_color_alpha, spoken_feedback_requested,
    trim_decimal_zeros, xml_text,
};

#[test]
fn integer_formatting_is_readable() {
    assert_eq!(format_integer(0), "0");
    assert_eq!(format_integer(999), "999");
    assert_eq!(format_integer(1_000), "1,000");
    assert_eq!(format_integer(12_345_678), "12,345,678");
}

#[test]
fn integer_formatting_pads_inner_groups_with_zeros() {
    assert_eq!(format_integer(1_000_005), "1,000,005");
    assert_eq!(format_integer(100_020), "100,020");
    assert_eq!(format_integer(u64::MAX), "18,446,744,073,709,551,615");
}

#[test]
fn separators_removed_leave_the_decimal_digits() {
    for value in [0u64, 7, 999, 1_000, 65_536, 12_345_678, u64::MAX] {
        let grouped = format_integer(value);
        let plain: String = grouped.chars().filter(|c| *c != ',').collect();
        assert_eq!(plain, decimal_text(value));
        assert_eq!(plain, value.to_string());
    }
}

#[test]
fn decimal_text_matches_plain_digits() {
    assert_eq!(decimal_text(0), "0");
    assert_eq!(decimal_text(9), "9");
    assert_eq!(decimal_text(10), "10");
    assert_eq!(decimal_text(1_234_567_890), "1234567890");
}

#[test]
fn spoken_feedback_query_requires_an_explicit_enabled_value() {
    assert!(spoken_feedback_requested("?spoken=1"));
    assert!(spoken_feedback_requested("?mode=compact&spoken=true"));
    assert!(!spoken_feedback_requested(""));
    assert!(!spoken_feedback_requested("?spoken=0"));
    assert!(!spoken_feedback_requested("?unspoken=1"));
}

#[test]
fn spoken_feedback_query_edge_cases() {
    assert!(spoken_feedback_requested("spoken=1"));
    assert!(spoken_feedback_requested("??spoken=true"));
    assert!(spoken_feedback_requested("a=b&&spoken=1&c"));
    assert!(!spoken_feedback_requested("?spoken=1x"));
    assert!(!spoken_feedback_requested("?spoken"));
    assert!(!spoken_feedback_requested("?x=1?spoken=1"));
    assert!(!spoken_feedback_requested("?spoken=TRUE"));
    assert!(!spoken_feedback_requested("&&&"));
}

#[test]
fn xml_text_escapes_markup_characters() {
    assert_eq!(xml_text("plain"), "plain");
    assert_eq!(
        xml_text("a<b>&\"c\"'d'"),
        "a&lt;b&gt;&amp;&quot;c&quot;&apos;d&apos;"
    );
    assert_eq!(xml_text("&amp;"), "&amp;amp;");
    assert_eq!(xml_text("Ø 300 mm · µm"), "Ø 300 mm · µm");
    assert_eq!(xml_text(""), "");
}

#[test]
fn escaped_text_contains_no_markup() {
    let escaped = xml_text("<svg a='1' b=\"2\">x & y</svg>");
    assert!(!escaped.contains('<'));
    assert!(!escaped.contains('>'));
    assert!(!escaped.contains('"'));
    assert!(!escaped.contains('\''));
}

#[test]
fn colors_render_as_lower_case_hex() {
    assert_eq!(hex_color(0, 124, 116), "#007c74");
    assert_eq!(hex_color(255, 255, 255), "#ffffff");
    assert_eq!(hex_color_alpha(0, 124, 116, 20), "#007c7414");
    assert_eq!(hex_color_alpha(13, 23, 31, 0), "#0d171f00");
}

#[test]
fn redundant_fraction_digits_are_trimmed() {
    assert_eq!(trim_decimal_zeros("300.00"), "300");
    assert_eq!(trim_decimal_zeros("123.40"), "123.4");
    assert_eq!(trim_decimal_zeros("4.86"), "4.86");
    assert_eq!(trim_decimal_zeros("1000"), "1000");
    assert_eq!(trim_decimal_zeros("0.000000"), "0");
    assert_eq!(trim_decimal_zeros("-2.500"), "-2.5");
    assert_eq!(trim_decimal_zeros(""), "");
    assert_eq!(trim_decimal_zeros(&format!("{:.2}", 254.0 / 25.4)), "10");
}

#[test]
fn grouped_integers_have_three_digit_groups_after_the_first() {
    for value in [0u64, 5, 42, 999, 1_000, 10_000, 999_999, 1_000_000, 12_345_678, u64::MAX] {
        let grouped = format_integer(value);
        let groups: Vec<&str> = grouped.split(',').collect();
        assert!((1..=3).contains(&groups[0].len()), "{grouped}");
        assert!(groups[0].chars().all(|c| c.is_ascii_digit()));
        for group in &groups[1..] {
            assert_eq!(group.len(), 3, "{grouped}");
            assert!(group.chars().all(|c| c.is_ascii_digit()));
        }
        assert!(!grouped.starts_with(',') && !grouped.ends_with(','));
    }
}

fn decode_entities(text: &str) -> String {
    text.replace("&lt;", "<")
        .replace("&gt;", ">")
        .replace("&quot;", "\"")
        .replace("&apos;", "'")
        .replace("&amp;", "&")
}

#[test]
fn escaped_text_decodes_back_to_the_input() {
    assert_eq!(xml_text("a<b & 'c'"), "a&lt;b &amp; &apos;c&apos;");
    for value in ["a<b & 'c'", "&amp;", "&&lt;", "\"'<>&", "plain", "", "Ø µm &gt"] {
        let escaped = xml_text(value);
        assert_eq!(decode_entities(&escaped), value);
        for (index, _) in escaped.match_indices('&') {
            let rest = &escaped[index..];
            assert!(
                ["&amp;", "&lt;", "&gt;", "&quot;", "&apos;"]
                    .iter()
                    .any(|entity| rest.starts_with(entity)),
                "{escaped}"
            );
        }
    }
}
