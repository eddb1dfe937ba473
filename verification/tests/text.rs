use std::cmp::Ordering;
use string2::DecodeError;
use string2::String2;

#[test]
fn round_trip_restores_text() {
    let samples = [
        "",
        "hello, world!",
        "héllo wörld",
        "κόσμε",
        "日本語のテキスト",
        "🦀🚀",
        "a\u{7f}\u{80}\u{7ff}\u{800}\u{d7ff}\u{e000}\u{ffff}\u{10000}\u{10ffff}",
    ];
    for s in samples {
        assert_eq!(String2::from_text(s).to_text(), s);
    }
}

#[test]
fn from_text_decodes_whole_characters() {
    let s = String2::from_text("aé€𝄞");
    assert_eq!(s.len(), 4);
    assert_eq!(s.get(0), Some(&'a'));
    assert_eq!(s.get(1), Some(&'é'));
    assert_eq!(s.get(2), Some(&'€'));
    assert_eq!(s.get(3), Some(&'𝄞'));
}

#[test]
fn as_bytes_matches_utf8_encoding() {
    let samples = ["", "hello", "aé€𝄞", "Hello, wörld!"];
    for s in samples {
        assert_eq!(String2::from_text(s).as_bytes(), s.as_bytes().to_vec());
    }
}

#[test]
fn from_utf8_accepts_valid_encodings() {
    let samples = ["", "hello", "aé€𝄞", "κόσμε"];
    for s in samples {
        let decoded = String2::from_utf8(s.as_bytes()).unwrap();
        assert_eq!(decoded, String2::from_text(s));
        assert_eq!(decoded.to_text(), s);
    }
}

#[test]
fn from_utf8_round_trips_with_as_bytes() {
    let s = String2::from_text("Hêllo, wörld! 𝄞");
    assert_eq!(String2::from_utf8(&s.as_bytes()), Ok(s));
}

#[test]
fn from_utf8_rejects_malformed_input() {
    let malformed: &[&[u8]] = &[
        &[0x80],  // stray continuation byte
        &[0xC2],  // truncated two-byte form
        &[0xC2, 0x41],  // broken continuation byte
        &[0xC0, 0xAF],  // overlong two-byte form
        &[0xE0, 0x80, 0xAF],  // overlong three-byte form
        &[0xE2, 0x82],  // truncated three-byte form
        &[0xED, 0xA0, 0x80],  // surrogate
        &[0xF0, 0x80, 0x80, 0xAF],  // overlong four-byte form
        &[0xF4, 0x90, 0x80, 0x80],  // past the scalar range
        &[0xF0, 0x9D, 0x84],  // truncated four-byte form
        &[0xF8, 0x88, 0x80, 0x80, 0x80],  // five-byte leading pattern
        &[0xFF],  // not a leading byte at all
        &[0x61, 0x62, 0x80],  // valid prefix, bad tail
    ];
    for bytes in malformed {
        assert_eq!(String2::from_utf8(bytes), Err(DecodeError));
        assert!(std::str::from_utf8(bytes).is_err());
    }
}

#[test]
fn scenario_push_and_push_str() {
    let mut s = String2::from_text("Hello, ");
    s.push('w');
    s.push_str("orld!");
    assert_eq!(s.to_text(), "Hello, world!");
}

#[test]
fn push_str_decodes_in_order() {
    let mut s = String2::new();
    s.push_str("αβ");
    s.push_str("");
    s.push_str("γ");
    assert_eq!(s.len(), 3);
    assert_eq!(s.to_text(), "αβγ");
}

#[test]
fn from_chars_takes_ownership_without_validation() {
    let s = String2::from_chars(vec!['h', 'i', '!']);
    assert_eq!(s.len(), 3);
    assert_eq!(s.to_text(), "hi!");
    assert_eq!(s.capacity(), 3);
}

#[test]
fn from_char_slice_copies() {
    let chars = ['h', 'i'];
    let s = String2::from_char_slice(&chars);
    assert_eq!(s.to_text(), "hi");
    assert_eq!(s, String2::from_chars(chars.to_vec()));
}

#[test]
fn as_slice_and_as_vec_expose_elements() {
    let s = String2::from_text("hello");
    assert_eq!(s.as_slice(), &['h', 'e', 'l', 'l', 'o'][..]);
    assert_eq!(s.as_vec(), vec!['h', 'e', 'l', 'l', 'o']);
}

#[test]
fn iter_yields_characters_once_in_order() {
    let s = String2::from_text("héi");
    let mut it = s.iter();
    assert_eq!(it.next(), Some('h'));
    assert_eq!(it.next(), Some('é'));
    assert_eq!(it.next(), Some('i'));
    assert_eq!(it.next(), None);
    assert_eq!(it.next(), None);
}

#[test]
fn iter_on_empty_is_done_immediately() {
    let mut it = String2::new().iter();
    assert_eq!(it.next(), None);
}

#[test]
fn equality_is_element_wise() {
    assert_eq!(String2::from_text("abc"), String2::from_text("abc"));
    assert_ne!(String2::from_text("abc"), String2::from_text("abd"));
    assert_ne!(String2::from_text("abc"), String2::from_text("ab"));
    let mut padded = String2::with_capacity(16);
    padded.push_str("abc");
    assert_eq!(padded, String2::from_text("abc"));
}

#[test]
fn ordering_is_lexicographic_by_scalar_value() {
    let a = String2::from_text("abc");
    let b = String2::from_text("abd");
    assert_eq!(a.partial_cmp(&b), Some(Ordering::Less));
    assert_eq!(b.partial_cmp(&a), Some(Ordering::Greater));
    assert_eq!(a.partial_cmp(&a), Some(Ordering::Equal));
    assert!(a < b);

    let prefix = String2::from_text("ab");
    assert_eq!(prefix.partial_cmp(&a), Some(Ordering::Less));
    assert!(prefix < a);

    let low = String2::from_text("a");
    let high = String2::from_text("é");
    assert_eq!(low.partial_cmp(&high), Some(Ordering::Less));

    let empty = String2::new();
    assert_eq!(empty.partial_cmp(&empty), Some(Ordering::Equal));
    assert_eq!(empty.partial_cmp(&low), Some(Ordering::Less));
}

#[test]
fn clone_is_independent() {
    let mut s = String2::from_text("abc");
    let c = s.clone();
    s.push('d');
    assert_eq!(c.to_text(), "abc");
    assert_eq!(s.to_text(), "abcd");
}
