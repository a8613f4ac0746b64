use vcd_tools_rs::header::sanitize_header;
use vcd_tools_rs::opened::identity::ContentFingerprint;
use vcd_tools_rs::server::protocol::truncate_utf8;
use vcd_tools_rs::text::{chars_of, string_of};

#[test]
fn fingerprint_matches_the_outside_digest() {
    for bytes in [&b""[..], &b"abc"[..], &[0u8; 1000][..]] {
        assert_eq!(ContentFingerprint::of_bytes(bytes).as_bytes(), blake3::hash(bytes).as_bytes());
    }
}

#[test]
fn sanitized_header_replaces_ill_formed_bytes() {
    let text = sanitize_header(&[b'a', 0xff, b'b', b'\n']);
    assert_eq!(text, "a\u{FFFD}b\n");
}

#[test]
fn truncation_counts_utf8_bytes() {
    assert_eq!(truncate_utf8("h\u{e9}llo".to_string(), 6), "h\u{e9}llo");
    assert_eq!(truncate_utf8("h\u{e9}llo".to_string(), 5), "h\u{2026}");
    assert_eq!(truncate_utf8("h\u{e9}llo".to_string(), 3), "\u{2026}");
}

#[test]
fn characters_round_trip_through_strings() {
    let chars = chars_of("a\u{e9}\u{2026}z");
    assert_eq!(chars, vec!['a', '\u{e9}', '\u{2026}', 'z']);
    assert_eq!(string_of(&chars), "a\u{e9}\u{2026}z");
    assert_eq!(string_of(&[]), "");
}
