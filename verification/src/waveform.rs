//! Format-neutral waveform format detection: the decision between VCD and
//! FST from an FST probe and a lazily requested VCD validation.

use vstd::prelude::*;

use crate::server::protocol::fit_prefix;
use crate::text::{char_utf8_len_exec, chars_of, string_of, utf8_len};
use crate::IoFailure;

verus! {

/// Largest input accepted by format detection.
pub const MAX_DETECTION_INPUT_BYTES: u64 = 8_589_934_592;

/// First byte of an FST file wrapped whole in gzip.
pub const FST_GZIP_WRAPPER_BLOCK: u8 = 254;

/// Byte bound of a detection error message before its ellipsis.
pub const MAX_DETECTION_MESSAGE_BYTES: usize = 512;

/// A waveform file format.
#[non_exhaustive]
#[derive(Debug, Clone, Copy, PartialEq, Eq, Hash, Structural)]
pub enum WaveformFormat {
    Vcd,
    Fst,
}

pub open spec fn format_text(format: WaveformFormat) -> Seq<char> {
    match format {
        WaveformFormat::Vcd => "vcd"@,
        WaveformFormat::Fst => "fst"@,
    }
}

impl WaveformFormat {
    /// The format's lower-case name.
    pub fn name(self) -> (s: &'static str)
        ensures
            s@ == format_text(self),
    {
        match self {
            WaveformFormat::Vcd => "vcd",
            WaveformFormat::Fst => "fst",
        }
    }
}

/// An optional format assertion.
#[non_exhaustive]
#[derive(Debug, Clone, Copy, PartialEq, Eq, Structural)]
pub enum WaveformFormatHint {
    Auto,
    Vcd,
    Fst,
}

impl Default for WaveformFormatHint {
    fn default() -> (h: Self)
        ensures
            h == WaveformFormatHint::Auto,
    {
        WaveformFormatHint::Auto
    }
}

impl WaveformFormatHint {
    /// The hint that asserts a format.
    pub fn from_format(format: WaveformFormat) -> (h: Self)
        ensures
            h == (match format {
                WaveformFormat::Vcd => WaveformFormatHint::Vcd,
                WaveformFormat::Fst => WaveformFormatHint::Fst,
            }),
    {
        match format {
            WaveformFormat::Vcd => WaveformFormatHint::Vcd,
            WaveformFormat::Fst => WaveformFormatHint::Fst,
        }
    }
}

/// Failure while identifying or validating a waveform input.
#[derive(Debug, Clone)]
pub enum WaveformDetectionError {
    Io { path: String, source: IoFailure },
    ExplicitMismatch { requested: WaveformFormat, detected: WaveformFormat },
    Invalid { format: WaveformFormat, message: String },
    UnsupportedFst { message: String },
    ResourceLimit { actual: u64, limit: u64 },
    FstParserPanicked,
    Undetected { message: String },
}

/// The text of a detection error.
pub open spec fn detection_error_text(e: WaveformDetectionError) -> Seq<char> {
    match e {
        WaveformDetectionError::Io { path, source } => "failed to read waveform "@ + path@ + ": "@ + source.message@,
        WaveformDetectionError::ExplicitMismatch { requested, detected } => format_text(requested)
            + " format was requested, but the input is valid "@ + format_text(detected),
        WaveformDetectionError::Invalid { format, message } => "input is not a valid "@ + format_text(format) + " waveform: "@
            + message@,
        WaveformDetectionError::UnsupportedFst { message } => "unsupported FST input: "@ + message@,
        WaveformDetectionError::ResourceLimit { actual, limit } => "waveform input exceeds the format-detection limit ("@
            + crate::text::decimal_chars(actual as nat) + " > "@ + crate::text::decimal_chars(limit as nat) + " bytes)"@,
        WaveformDetectionError::FstParserPanicked => "FST parser failed while validating the input"@,
        WaveformDetectionError::Undetected { message } => "could not detect a VCD or FST waveform: "@ + message@,
    }
}

impl WaveformDetectionError {
    /// The error's text (its `Display` in other front ends).
    pub fn message(&self) -> (s: String)
        ensures
            s@ == detection_error_text(*self),
    {
        proof {
            reveal_strlit(": ");
            reveal_strlit(" > ");
            reveal_strlit(" bytes)");
            reveal_strlit(" waveform: ");
        }
        match self {
            WaveformDetectionError::Io { path, source } => {
                let mut s = crate::concat("failed to read waveform ", path.as_str());
                s.append(": ");
                s.append(source.message.as_str());
                s
            },
            WaveformDetectionError::ExplicitMismatch { requested, detected } => {
                let mut s = crate::concat(requested.name(), " format was requested, but the input is valid ");
                s.append(detected.name());
                s
            },
            WaveformDetectionError::Invalid { format, message } => {
                let mut s = crate::concat("input is not a valid ", format.name());
                s.append(" waveform: ");
                s.append(message.as_str());
                s
            },
            WaveformDetectionError::UnsupportedFst { message } => crate::concat("unsupported FST input: ", message.as_str()),
            WaveformDetectionError::ResourceLimit { actual, limit } => {
                let mut s = crate::concat(
                    "waveform input exceeds the format-detection limit (",
                    crate::text::u64_decimal(*actual).as_str(),
                );
                s.append(" > ");
                s.append(crate::text::u64_decimal(*limit).as_str());
                s.append(" bytes)");
                s
            },
            WaveformDetectionError::FstParserPanicked => String::from_str("FST parser failed while validating the input"),
            WaveformDetectionError::Undetected { message } => crate::concat(
                "could not detect a VCD or FST waveform: ",
                message.as_str(),
            ),
        }
    }
}

/// `s` when its UTF-8 length is at most the bound; otherwise its longest
/// prefix within the bound followed by an ellipsis.
pub open spec fn bounded_message_text(s: Seq<char>) -> Seq<char> {
    if utf8_len(s) <= MAX_DETECTION_MESSAGE_BYTES {
        s
    } else {
        s.take(fit_prefix(s, MAX_DETECTION_MESSAGE_BYTES as int) as int).push('\u{2026}')
    }
}

proof fn lemma_fit_prefix_le(s: Seq<char>, budget: int)
    ensures
        fit_prefix(s, budget) <= s.len(),
    decreases s.len(),
{
    if s.len() > 0 && crate::text::char_utf8_len(s[0]) <= budget {
        lemma_fit_prefix_le(s.drop_first(), budget - crate::text::char_utf8_len(s[0]));
    }
}

/// An error message bounded for reporting.
pub fn bounded_message(message: String) -> (out: String)
    ensures
        out@ == bounded_message_text(message@),
{
    let chars = chars_of(message.as_str());
    let total = crate::text::utf8_len_exec(chars.as_slice());
    proof {
        crate::text::lemma_utf8_len_prefix(chars@, 0);
    }
    if total <= MAX_DETECTION_MESSAGE_BYTES {
        return message;
    }
    let budget: usize = MAX_DETECTION_MESSAGE_BYTES;
    let mut used: usize = 0;
    let mut i: usize = 0;
    let mut done = false;
    let mut kept: Vec<char> = Vec::new();
    proof {
        lemma_fit_prefix_le(chars@, budget as int);
        assert(chars@.skip(0) == chars@);
    }
    while i < chars.len() && !done
        invariant
            i <= chars.len(),
            used <= budget,
            kept@ == chars@.take(i as int),
            fit_prefix(chars@, budget as int) == i + fit_prefix(
                chars@.skip(i as int),
                budget - used,
            ),
            done ==> fit_prefix(chars@.skip(i as int), budget - used) == 0,
        decreases chars.len() - i, if done { 0int } else { 1int },
    {
        let c = chars[i];
        let n = char_utf8_len_exec(c);
        assert(chars@.skip(i as int)[0] == c);
        if n > budget - used {
            done = true;
        } else {
            assert(chars@.skip(i as int).drop_first() == chars@.skip(i + 1));
            used = used + n;
            kept.push(c);
            i = i + 1;
            assert(kept@ == chars@.take(i as int));
        }
    }
    proof {
        if !done {
            assert(chars@.skip(i as int).len() == 0);
        }
    }
    kept.push('\u{2026}');
    string_of(kept.as_slice())
}

/// Detect the format of one waveform file from the outcome of probing it
/// as FST (`Ok(true)`: a valid FST; `Ok(false)`: no FST structure) and, only
/// where the decision needs it, one call of `validate_vcd`.
pub fn detect_waveform_format<F: FnOnce() -> Result<(), String>>(
    hint: WaveformFormatHint,
    fst_probe: Result<bool, WaveformDetectionError>,
    validate_vcd: F,
) -> (r: Result<WaveformFormat, WaveformDetectionError>)
    requires
        validate_vcd.requires(()),
    ensures
        match fst_probe {
            Err(e) => r matches Err(e2) && e2 == e,
            Ok(true) => if hint == WaveformFormatHint::Vcd {
                r matches Err(WaveformDetectionError::ExplicitMismatch { requested, detected })
                    && requested == WaveformFormat::Vcd && detected == WaveformFormat::Fst
            } else {
                r == Ok::<WaveformFormat, WaveformDetectionError>(WaveformFormat::Fst)
            },
            Ok(false) => exists|outcome: Result<(), String>|
                #[trigger] validate_vcd.ensures((), outcome) && match (hint, outcome) {
                    (WaveformFormatHint::Fst, Ok(())) => r matches Err(
                        WaveformDetectionError::ExplicitMismatch { requested, detected },
                    ) && requested == WaveformFormat::Fst && detected == WaveformFormat::Vcd,
                    (WaveformFormatHint::Fst, Err(_)) => r matches Err(
                        WaveformDetectionError::Invalid { format, message },
                    ) && format == WaveformFormat::Fst && message@ == "FST signature not found"@,
                    (_, Ok(())) => r == Ok::<WaveformFormat, WaveformDetectionError>(
                        WaveformFormat::Vcd,
                    ),
                    (WaveformFormatHint::Vcd, Err(m)) => r matches Err(
                        WaveformDetectionError::Invalid { format, message },
                    ) && format == WaveformFormat::Vcd && message@ == bounded_message_text(m@),
                    (_, Err(m)) => r matches Err(WaveformDetectionError::Undetected { message })
                        && message@ == bounded_message_text(m@),
                },
        },
{
    let looks_like_fst = match fst_probe {
        Err(e) => {
            return Err(e);
        },
        Ok(b) => b,
    };
    if looks_like_fst {
        if hint == WaveformFormatHint::Vcd {
            return Err(
                WaveformDetectionError::ExplicitMismatch {
                    requested: WaveformFormat::Vcd,
                    detected: WaveformFormat::Fst,
                },
            );
        }
        return Ok(WaveformFormat::Fst);
    }
    let outcome = validate_vcd();
    assert(validate_vcd.ensures((), outcome));
    if hint == WaveformFormatHint::Fst {
        return match outcome {
            Ok(()) => Err(
                WaveformDetectionError::ExplicitMismatch {
                    requested: WaveformFormat::Fst,
                    detected: WaveformFormat::Vcd,
                },
            ),
            Err(_) => Err(
                WaveformDetectionError::Invalid {
                    format: WaveformFormat::Fst,
                    message: String::from_str("FST signature not found"),
                },
            ),
        };
    }
    match outcome {
        Ok(()) => Ok(WaveformFormat::Vcd),
        Err(message) => {
            let message = bounded_message(message);
            if hint == WaveformFormatHint::Vcd {
                Err(WaveformDetectionError::Invalid { format: WaveformFormat::Vcd, message })
            } else {
                Err(WaveformDetectionError::Undetected { message })
            }
        },
    }
}

/// Decision on an input before its FST probe: refuse inputs over the size
/// limit and whole-file gzip wrappers (first byte `254`).
pub fn precheck_fst_input(length: u64, first_byte: Option<u8>) -> (r: Result<(), WaveformDetectionError>)
    ensures
        length > MAX_DETECTION_INPUT_BYTES ==> (r matches Err(
            WaveformDetectionError::ResourceLimit { actual, limit },
        ) && actual == length && limit == MAX_DETECTION_INPUT_BYTES),
        length <= MAX_DETECTION_INPUT_BYTES && first_byte == Some(FST_GZIP_WRAPPER_BLOCK)
            ==> (r matches Err(WaveformDetectionError::UnsupportedFst { .. })),
        r is Ok <==> (length <= MAX_DETECTION_INPUT_BYTES && first_byte != Some(
            FST_GZIP_WRAPPER_BLOCK,
        )),
{
    if length > MAX_DETECTION_INPUT_BYTES {
        return Err(
            WaveformDetectionError::ResourceLimit {
                actual: length,
                limit: MAX_DETECTION_INPUT_BYTES,
            },
        );
    }
    if first_byte == Some(FST_GZIP_WRAPPER_BLOCK) {
        return Err(
            WaveformDetectionError::UnsupportedFst {
                message: String::from_str(
                    "whole-file gzip wrappers are disabled because fst-reader decompresses them entirely in memory",
                ),
            },
        );
    }
    Ok(())
}

} // verus!
