use url_shortener::codes::code_char;
use url_shortener::codes::generate_short_code;
use url_shortener::codes::is_valid_code;

#[test]
fn generated_codes_have_length_six_from_the_alphabet() {
    for _ in 0..100 {
        let code = generate_short_code();
        assert_eq!(code.chars().count(), 6);
        assert!(code
            .chars()
            .all(|c| c.is_ascii_uppercase() || c.is_ascii_lowercase() || c.is_ascii_digit()));
    }
}

#[test]
fn code_char_covers_the_whole_alphabet_in_order() {
    let expected = "ABCDEFGHIJKLMNOPQRSTUVWXYZabcdefghijklmnopqrstuvwxyz0123456789";
    let produced: String = (0u8..62).map(code_char).collect();
    assert_eq!(produced, expected);
}

#[test]
fn valid_code_accepts_path_safe_strings() {
    for good in ["a", "Z9", "abc-DEF_123.x~"] {
        assert!(is_valid_code(&good.to_string()), "code {:?} must be accepted", good);
    }
}

#[test]
fn valid_code_rejects_empty_and_unsafe_strings() {
    for bad in ["", " ", "a/b", "a?b", "a#b", "ö", "a\u{0}b"] {
        assert!(!is_valid_code(&bad.to_string()), "code {:?} must be rejected", bad);
    }
}
