//! Report file metadata and embedded data URIs.

use vstd::prelude::*;

verus! {

/// Available report file formats.
#[derive(Clone, Copy, Debug, PartialEq, Eq, Structural)]
pub enum ReportFormat {
    /// High-resolution raster report.
    Png,
    /// Portable vector report with an embedded font and wafer-map image.
    Svg,
    /// A4 print-ready document.
    Pdf,
    /// Compact deterministic machine-readable analysis snapshot.
    Json,
}

/// File extension of a report format, without a leading dot.
pub open spec fn format_extension(format: ReportFormat) -> Seq<char> {
    match format {
        ReportFormat::Png => "png"@,
        ReportFormat::Svg => "svg"@,
        ReportFormat::Pdf => "pdf"@,
        ReportFormat::Json => "json"@,
    }
}

/// Internet media type of a report format.
pub open spec fn format_mime_type(format: ReportFormat) -> Seq<char> {
    match format {
        ReportFormat::Png => "image/png"@,
        ReportFormat::Svg => "image/svg+xml"@,
        ReportFormat::Pdf => "application/pdf"@,
        ReportFormat::Json => "application/json"@,
    }
}

impl ReportFormat {
    /// File extension without a leading dot.
    pub fn extension(self) -> (text: &'static str)
        ensures
            text@ == format_extension(self),
    {
        match self {
            ReportFormat::Png => "png",
            ReportFormat::Svg => "svg",
            ReportFormat::Pdf => "pdf",
            ReportFormat::Json => "json",
        }
    }

    /// Internet media type for downloads.
    pub fn mime_type(self) -> (text: &'static str)
        ensures
            text@ == format_mime_type(self),
    {
        match self {
            ReportFormat::Png => "image/png",
            ReportFormat::Svg => "image/svg+xml",
            ReportFormat::Pdf => "application/pdf",
            ReportFormat::Json => "application/json",
        }
    }

    /// Suggested file name of a report in this format.
    pub fn file_name(self) -> (name: String)
        ensures
            name@ == "yield-studio-report."@ + format_extension(self),
    {
        let mut name = String::from_str("yield-studio-report.");
        name.append(self.extension());
        name
    }
}

/// The character of the standard base64 alphabet for `v < 64`: `A` to `Z`,
/// `a` to `z`, `0` to `9`, `+` and `/`.
pub open spec fn base64_digit(v: nat) -> char {
    if v < 26 {
        (65 + v) as char
    } else if v < 52 {
        (97 + (v - 26)) as char
    } else if v < 62 {
        (48 + (v - 52)) as char
    } else if v == 62 {
        '+'
    } else {
        '/'
    }
}

/// Standard base64 text (RFC 4648, with `=` padding) of a byte sequence: each
/// group of three bytes becomes four alphabet characters of six bits each, most
/// significant first; a last group of two or one bytes becomes three or two
/// characters, its missing bits zero, followed by one or two `=`.
pub open spec fn base64_standard(bytes: Seq<u8>) -> Seq<char>
    decreases bytes.len(),
{
    if bytes.len() == 0 {
        Seq::empty()
    } else if bytes.len() == 1 {
        let a = bytes[0] as nat;
        seq![base64_digit(a / 4), base64_digit((a % 4) * 16), '=', '=']
    } else if bytes.len() == 2 {
        let a = bytes[0] as nat;
        let b = bytes[1] as nat;
        seq![base64_digit(a / 4), base64_digit((a % 4) * 16 + b / 16), base64_digit((b % 16) * 4), '=']
    } else {
        let a = bytes[0] as nat;
        let b = bytes[1] as nat;
        let c = bytes[2] as nat;
        seq![
            base64_digit(a / 4),
            base64_digit((a % 4) * 16 + b / 16),
            base64_digit((b % 16) * 4 + c / 64),
            base64_digit(c % 64),
        ] + base64_standard(bytes.skip(3))
    }
}

/// Length of the padded base64 text of `n` bytes.
pub open spec fn base64_len(n: nat) -> nat {
    4 * ((n + 2) / 3)
}

/// Encodes bytes as standard padded base64.
///
/// Wraps `base64::Engine::encode` on `base64::engine::general_purpose::STANDARD`.
/// The contract claims that the text is the RFC 4648 encoding with the standard
/// alphabet and `=` padding that `base64_standard` spells out, which is what the
/// crate's `STANDARD` engine (standard alphabet, `PAD` configuration) writes,
/// and that its length is four characters per started group of three bytes, as
/// the crate's `encoded_len` computes it. The crate panics when that length
/// overflows `usize`, which `requires` excludes.
#[verifier::external_body]
fn encode_base64(bytes: &[u8]) -> (text: String)
    requires
        base64_len(bytes@.len()) <= usize::MAX,
    ensures
        text@ == base64_standard(bytes@),
        text@.len() == base64_len(bytes@.len()),
{
    base64::Engine::encode(&base64::engine::general_purpose::STANDARD, bytes)
}

/// A `data:` URI from a media type and text that is already base64.
pub fn data_uri_from_encoded(media_type: &str, encoded: &str) -> (uri: String)
    ensures
        uri@ == "data:"@ + media_type@ + ";base64,"@ + encoded@,
{
    let mut uri = String::from_str("data:");
    uri.append(media_type);
    uri.append(";base64,");
    uri.append(encoded);
    uri
}

/// A `data:` URI that embeds the bytes as standard base64.
pub fn data_uri(media_type: &str, bytes: &[u8]) -> (uri: String)
    requires
        base64_len(bytes@.len()) <= usize::MAX,
    ensures
        uri@ == "data:"@ + media_type@ + ";base64,"@ + base64_standard(bytes@),
{
    let encoded = encode_base64(bytes);
    data_uri_from_encoded(media_type, encoded.as_str())
}

/// Why a report cannot be exported or printed yet: unresolved validation
/// problems come first, then a missing analysis.
pub open spec fn blocker_text(
    validation_pending: bool,
    analysis_available: bool,
    printing: bool,
) -> Option<Seq<char>> {
    if validation_pending {
        if printing {
            Some("Resolve the current validation errors before printing"@)
        } else {
            Some("Resolve the current validation errors before exporting"@)
        }
    } else if !analysis_available {
        Some("No valid analysis is available"@)
    } else {
        None
    }
}

/// The reason a report cannot be produced now, or `None` when it can.
pub fn report_blocker(validation_pending: bool, analysis_available: bool, printing: bool) -> (reason:
    Option<&'static str>)
    ensures
        reason matches Some(text) ==> blocker_text(
            validation_pending,
            analysis_available,
            printing,
        ) == Some(text@),
        reason is None ==> blocker_text(validation_pending, analysis_available, printing) is None,
{
    if validation_pending {
        if printing {
            Some("Resolve the current validation errors before printing")
        } else {
            Some("Resolve the current validation errors before exporting")
        }
    } else if !analysis_available {
        Some("No valid analysis is available")
    } else {
        None
    }
}

} // verus!
