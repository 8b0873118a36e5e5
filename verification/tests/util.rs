use libra::util::{extract_sha1_from_anchor, normalize_commit_anchor};

/// A SHA-256 hash (64 chars) is accepted and returned as it is.
#[test]
fn normalize_accepts_sha256() {
    let v = "a".repeat(64);
    assert_eq!(normalize_commit_anchor(&v).unwrap(), v);
}

/// A SHA-1 hash (40 chars) is zero-padded to 64 characters.
#[test]
fn normalize_pads_sha1() {
    let sha1 = "b".repeat(40);
    let normalized = normalize_commit_anchor(&sha1).unwrap();
    assert_eq!(normalized.len(), 64);
    assert!(normalized.starts_with(&sha1));
    assert_eq!(&normalized[40..], "0".repeat(24));
}

/// Hashes of other lengths are rejected.
#[test]
fn normalize_rejects_other_lengths() {
    assert!(normalize_commit_anchor("abc").is_err());
}

/// The first 40 characters of an anchor are its SHA-1 hash.
#[test]
fn extract_sha1_from_anchor_returns_prefix() {
    let anchor = format!("{}{}", "c".repeat(40), "0".repeat(24));
    assert_eq!(extract_sha1_from_anchor(&anchor).unwrap(), "c".repeat(40));
}

#[test]
fn normalize_trims_and_lowers() {
    let input = format!("  \t{}\n", "AbCdEf0123".repeat(4));
    let expected = format!("{}{}", "abcdef0123".repeat(4), "0".repeat(24));
    assert_eq!(normalize_commit_anchor(&input).unwrap(), expected);
    let long = "ABCDEF01".repeat(8);
    assert_eq!(normalize_commit_anchor(&long).unwrap(), "abcdef01".repeat(8));
}

#[test]
fn normalize_reports_length() {
    assert_eq!(
        normalize_commit_anchor("abc").unwrap_err(),
        "Invalid commit hash length: 3"
    );
    assert_eq!(
        normalize_commit_anchor("").unwrap_err(),
        "Invalid commit hash length: 0"
    );
    assert_eq!(
        normalize_commit_anchor(&"f".repeat(128)).unwrap_err(),
        "Invalid commit hash length: 128"
    );
}

#[test]
fn normalize_reports_other_characters() {
    assert_eq!(
        normalize_commit_anchor(" xyz ").unwrap_err(),
        "Invalid commit hash: contains non-hex characters: xyz"
    );
    let bad = format!("{}g", "a".repeat(39));
    assert_eq!(
        normalize_commit_anchor(&bad).unwrap_err(),
        format!("Invalid commit hash: contains non-hex characters: {}", bad)
    );
}

#[test]
fn extract_reports_length_in_bytes() {
    assert_eq!(
        extract_sha1_from_anchor("abc").unwrap_err(),
        "Invalid anchor length: 3"
    );
    // 63 characters, one of them two bytes long: 64 bytes, but not hexadecimal.
    let odd = format!("{}\u{e9}", "a".repeat(62));
    assert_eq!(
        extract_sha1_from_anchor(&odd).unwrap_err(),
        format!("Invalid anchor: contains non-hex characters: {}", odd)
    );
    // 64 characters that take 65 bytes.
    let wide = format!("{}\u{e9}", "a".repeat(63));
    assert_eq!(
        extract_sha1_from_anchor(&wide).unwrap_err(),
        "Invalid anchor length: 65"
    );
}

#[test]
fn extract_keeps_case_and_trims() {
    let anchor = format!("\n {}{} ", "AB".repeat(20), "0".repeat(24));
    assert_eq!(extract_sha1_from_anchor(&anchor).unwrap(), "AB".repeat(20));
}

#[test]
fn anchor_round_trip() {
    let sha1 = "0123456789abcdef0123456789abcdef01234567";
    let anchor = normalize_commit_anchor(sha1).unwrap();
    assert_eq!(extract_sha1_from_anchor(&anchor).unwrap(), sha1);
}
