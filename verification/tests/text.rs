use autocommit::text::{decimal_of, lossy_chars, trim_str, utf8_prefix_of};

fn s(v: Vec<char>) -> String {
    v.into_iter().collect()
}

#[test]
fn trimming_uses_unicode_whitespace() {
    assert_eq!(s(trim_str("\u{3000} a b \t\n")), "a b");
    assert_eq!(s(trim_str("   ")), "");
}

#[test]
fn decimals_are_written_without_leading_zeros() {
    assert_eq!(s(decimal_of(0)), "0");
    assert_eq!(s(decimal_of(907)), "907");
    assert_eq!(s(decimal_of(u64::MAX)), u64::MAX.to_string());
}

#[test]
fn prefixes_stop_at_a_character_boundary() {
    let chars: Vec<char> = "aé€".chars().collect();
    assert_eq!(s(utf8_prefix_of(&chars, 2)), "a");
    assert_eq!(s(utf8_prefix_of(&chars, 3)), "aé");
    assert_eq!(s(utf8_prefix_of(&chars, 100)), "aé€");
}

#[test]
fn invalid_bytes_become_replacement_characters() {
    assert_eq!(s(lossy_chars(b"ok\xffok")), "ok\u{fffd}ok");
    assert_eq!(s(lossy_chars("é".as_bytes())), "é");
}
