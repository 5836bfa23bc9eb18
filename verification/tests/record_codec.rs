use kvcache::codec::{decode_entry, encode_entry};

#[test]
fn encode_has_fixed_length_prefix() {
    let record = encode_entry("some key", "a value");
    assert_eq!(record, "00000000000000000008some keya value");
}

#[test]
fn encode_empty_pair() {
    let record = encode_entry("", "");
    assert_eq!(record, "00000000000000000000");
    assert_eq!(decode_entry(&record), Some((String::new(), String::new())));
}

#[test]
fn round_trip_plain() {
    let record = encode_entry("some key", "a value");
    assert_eq!(
        decode_entry(&record),
        Some(("some key".to_string(), "a value".to_string()))
    );
}

#[test]
fn round_trip_awkward_text() {
    let cases = [
        ("", "a value"),
        ("some key", ""),
        ("key with\nnewline", "value with\nnewline"),
        ("0000000000000000000042", "looks like a prefix"),
        ("kl\u{00fc}\u{00df}el", "w\u{00e4}rt"),
        ("\u{1f511}", "\u{1f4e6}"),
    ];
    for (key, value) in cases {
        let record = encode_entry(key, value);
        assert_eq!(
            decode_entry(&record),
            Some((key.to_string(), value.to_string())),
            "round trip failed for {:?}",
            (key, value)
        );
    }
}

#[test]
fn distinct_pairs_have_distinct_records() {
    let a = encode_entry("ab", "c");
    let b = encode_entry("a", "bc");
    assert_ne!(a, b);
}

#[test]
fn decode_rejects_short_text() {
    assert_eq!(decode_entry(""), None);
    assert_eq!(decode_entry("0000000000000000000"), None);
}

#[test]
fn decode_rejects_bad_prefix() {
    assert_eq!(decode_entry("0000000000000000000xrest"), None);
    assert_eq!(decode_entry("x0000000000000000000rest"), None);
}

#[test]
fn decode_rejects_truncated_key() {
    // The prefix promises nine characters of key; only three follow.
    assert_eq!(decode_entry("00000000000000000009abc"), None);
}

#[test]
fn decode_rejects_huge_length() {
    assert_eq!(decode_entry("99999999999999999999abc"), None);
}
