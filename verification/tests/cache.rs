use autocommit::ai::cache::{build_key, entry_answers, is_fresh, CACHE_TTL_SECONDS};
use sha2::{Digest, Sha256};

fn hex(bytes: &[u8]) -> String {
    bytes.iter().map(|b| format!("{b:02x}")).collect()
}

#[test]
fn cache_key_is_unambiguous_and_deterministic() {
    assert_eq!(
        build_key(&["provider", "model"]),
        build_key(&["provider", "model"])
    );
    assert_ne!(build_key(&["ab", "c"]), build_key(&["a", "bc"]));
}

#[test]
fn freshness_rejects_expired_and_future_entries() {
    assert!(is_fresh(100, 100 + CACHE_TTL_SECONDS));
    assert!(!is_fresh(100, 101 + CACHE_TTL_SECONDS));
    assert!(!is_fresh(101, 100));
}

#[test]
fn key_of_no_parts_is_the_digest_of_nothing() {
    assert_eq!(
        build_key(&[]),
        "e3b0c44298fc1c149afbf4c8996fb92427ae41e4649b934ca495991b7852b855"
    );
}

#[test]
fn key_is_the_hex_digest_of_length_framed_parts() {
    let mut framed = Vec::new();
    for part in ["gemini", "héllo"] {
        framed.extend_from_slice(&(part.len() as u64).to_le_bytes());
        framed.extend_from_slice(part.as_bytes());
    }
    let expected = hex(&Sha256::digest(&framed));
    assert_eq!(build_key(&["gemini", "héllo"]), expected);
    assert_eq!(build_key(&["a"; 40]).len(), 64);
    assert_eq!(expected.len(), 64);
}

#[test]
fn an_empty_part_still_counts() {
    assert_ne!(build_key(&["a"]), build_key(&["a", ""]));
}

#[test]
fn entries_answer_only_their_own_key_while_fresh() {
    assert!(entry_answers("k", 10, "k", 10 + CACHE_TTL_SECONDS));
    assert!(!entry_answers("k", 10, "other", 10));
    assert!(!entry_answers("k", 10, "k", 11 + CACHE_TTL_SECONDS));
    assert!(!entry_answers("k", 10, "k", 9));
}

#[test]
fn freshness_does_not_overflow_near_the_limit() {
    assert!(is_fresh(u64::MAX, u64::MAX));
    assert!(!is_fresh(0, u64::MAX));
}
