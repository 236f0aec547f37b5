use window_tracker::title::{title_from_text, title_from_utf16, title_from_utf8};

#[test]
fn text_title_is_kept() {
    assert_eq!(title_from_text("Editor".to_string()), Some("Editor".to_string()));
    assert_eq!(title_from_text(" ".to_string()), Some(" ".to_string()));
}

#[test]
fn empty_text_is_no_title() {
    assert_eq!(title_from_text(String::new()), None);
}

#[test]
fn utf8_title_is_decoded() {
    assert_eq!(title_from_utf8(b"Editor"), Some("Editor".to_string()));
    let text = "Éditeur — 文書";
    assert_eq!(title_from_utf8(text.as_bytes()), Some(text.to_string()));
}

#[test]
fn empty_utf8_is_no_title() {
    assert_eq!(title_from_utf8(b""), None);
}

#[test]
fn malformed_utf8_is_replaced_not_refused() {
    assert_eq!(title_from_utf8(b"ab\xFFcd"), Some("ab\u{FFFD}cd".to_string()));
    assert_eq!(title_from_utf8(b"\xC3"), Some("\u{FFFD}".to_string()));
    assert_eq!(title_from_utf8(b"\xF0\x9F\x92"), Some("\u{FFFD}".to_string()));
}

#[test]
fn utf16_title_is_decoded_up_to_reported_length() {
    let mut buffer = [0u16; 512];
    for (slot, unit) in buffer.iter_mut().zip("Editor".encode_utf16()) {
        *slot = unit;
    }
    assert_eq!(title_from_utf16(&buffer, 6), Some("Editor".to_string()));
    assert_eq!(title_from_utf16(&buffer, 4), Some("Edit".to_string()));
    assert_eq!(title_from_utf16(&buffer, 7), Some("Editor\0".to_string()));
}

#[test]
fn utf16_title_outside_the_basic_plane() {
    let units: Vec<u16> = "文書 😀".encode_utf16().collect();
    assert_eq!(units.len(), 5);
    assert_eq!(title_from_utf16(&units, 5), Some("文書 😀".to_string()));
}

#[test]
fn utf16_without_length_is_no_title() {
    let buffer = [0x45u16, 0x64];
    assert_eq!(title_from_utf16(&buffer, 0), None);
    assert_eq!(title_from_utf16(&buffer, -1), None);
    assert_eq!(title_from_utf16(&buffer, i32::MIN), None);
    assert_eq!(title_from_utf16(&[], 0), None);
}

#[test]
fn utf16_length_beyond_the_buffer_is_no_title() {
    let buffer = [0x45u16, 0x64];
    assert_eq!(title_from_utf16(&buffer, 3), None);
    assert_eq!(title_from_utf16(&buffer, i32::MAX), None);
    assert_eq!(title_from_utf16(&[], 1), None);
    assert_eq!(title_from_utf16(&buffer, 2), Some("Ed".to_string()));
}

#[test]
fn malformed_utf16_is_replaced_not_refused() {
    let buffer = [0x61u16, 0xD800, 0x62];
    assert_eq!(title_from_utf16(&buffer, 3), Some("a\u{FFFD}b".to_string()));
    assert_eq!(title_from_utf16(&buffer, 2), Some("a\u{FFFD}".to_string()));
}
