use probe_engine::wide::encode_string_to_wide;

fn expected(text: &str) -> Vec<u16> {
    text.encode_utf16().chain(std::iter::once(0)).collect()
}

#[test]
fn empty_text_is_one_nul() {
    assert_eq!(encode_string_to_wide(""), vec![0]);
}

#[test]
fn ascii_is_one_unit_per_character() {
    assert_eq!(encode_string_to_wide("Admin"), vec![65, 100, 109, 105, 110, 0]);
}

#[test]
fn characters_beyond_the_basic_plane_become_surrogate_pairs() {
    assert_eq!(encode_string_to_wide("\u{10000}"), vec![0xD800, 0xDC00, 0]);
    assert_eq!(encode_string_to_wide("\u{1F600}"), vec![0xD83D, 0xDE00, 0]);
    assert_eq!(encode_string_to_wide("\u{10FFFF}"), vec![0xDBFF, 0xDFFF, 0]);
    assert_eq!(encode_string_to_wide("\u{FFFF}"), vec![0xFFFF, 0]);
}

#[test]
fn agrees_with_the_standard_library() {
    for text in ["", "user", "Ünïcödé", "日本語", "a\u{0}b", "mixed 😀 text \u{E000}\u{D7FF}"] {
        assert_eq!(encode_string_to_wide(text), expected(text), "{:?}", text);
    }
}
