use autocommit::digest::{hex_lower_of, sha256_hex};
use autocommit::types::{CommitType, MessageStyle, ModelType};

#[test]
fn digest_of_abc_is_the_known_value() {
    let hex: String = sha256_hex(b"abc").into_iter().collect();
    assert_eq!(hex, "ba7816bf8f01cfea414140de5dae2223b00361a396177a9cb410ff61f20015ad");
}

#[test]
fn hex_is_lower_case_two_digits_per_byte() {
    let hex: String = hex_lower_of(&[0x00, 0x0f, 0xa0, 0xff]).into_iter().collect();
    assert_eq!(hex, "000fa0ff");
}

#[test]
fn names_of_types_models_and_styles() {
    assert_eq!(CommitType::Refactor.as_str(), "refactor");
    assert_eq!(CommitType::Ci.as_str(), "ci");
    assert_eq!(ModelType::Gemini.as_str(), "gemini");
    assert_eq!(ModelType::default(), ModelType::Openai);
    assert_eq!(MessageStyle::Long.as_str(), "long");
    assert_eq!(MessageStyle::default(), MessageStyle::Short);
}
