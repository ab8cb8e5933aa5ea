use inlinable_string::INLINE_STRING_CAPACITY;
use small_string::{InvalidUtf8, SmallString};

#[test]
fn push_str_onto_new() {
    let mut s = SmallString::new();
    s.push_str("id-42");
    assert_eq!(s.as_str(), "id-42");
    assert_eq!(s.len(), 5);
    assert_eq!(s.capacity(), INLINE_STRING_CAPACITY);
}

#[test]
fn push_str_past_small_capacity_request() {
    let text = "hello world this is long";
    let mut s = SmallString::with_capacity(4);
    s.push_str(text);
    assert_eq!(s.as_str(), text);
    assert_eq!(s.len(), 24);
    assert_eq!(s.as_bytes(), text.as_bytes());
}

#[test]
fn push_str_across_promotion() {
    let text = "hello world this is long, longer than any inline buffer";
    let mut s = SmallString::with_capacity(4);
    assert_eq!(s.capacity(), INLINE_STRING_CAPACITY);
    s.push_str(text);
    assert_eq!(s.as_str(), text);
    assert_eq!(s.len(), 55);
    assert!(s.capacity() > INLINE_STRING_CAPACITY);
}

#[test]
fn from_utf8_four_byte_character() {
    let s = SmallString::from_utf8(vec![0xF0, 0x9F, 0x98, 0x80]).unwrap();
    assert_eq!(s.len(), 4);
    assert_eq!(s.as_str().chars().count(), 1);
    assert_eq!(s.as_str(), "\u{1F600}");
    assert_eq!(s.as_bytes(), [0xF0, 0x9F, 0x98, 0x80]);
}

#[test]
fn from_utf8_rejects_invalid_byte() {
    let r = SmallString::from_utf8(vec![0xFF]);
    assert_eq!(r, Err(InvalidUtf8 { bytes: vec![0xFF], valid_up_to: 0 }));
}

#[test]
fn from_utf8_reports_first_invalid_offset() {
    let e = SmallString::from_utf8(vec![b'a', b'b', 0xE2, 0x82, b'c']).unwrap_err();
    assert_eq!(e.valid_up_to(), 2);
    assert_eq!(e.as_bytes(), [b'a', b'b', 0xE2, 0x82, b'c']);
    assert_eq!(e.into_bytes(), vec![b'a', b'b', 0xE2, 0x82, b'c']);
}

#[test]
fn from_utf8_reports_truncated_tail() {
    let e = SmallString::from_utf8(vec![b'o', b'k', 0xF0, 0x9F]).unwrap_err();
    assert_eq!(e.valid_up_to, 2);
    assert_eq!(e.bytes, vec![b'o', b'k', 0xF0, 0x9F]);
}

#[test]
fn split_off_at_a_boundary_after_two_byte_character() {
    let mut s = SmallString::from("h\u{e9}llo");
    assert_eq!(s.len(), 6);
    assert!(s.as_str().is_char_boundary(1));
    assert!(!s.as_str().is_char_boundary(2));
    assert!(s.as_str().is_char_boundary(3));
    let t = s.split_off(3);
    assert_eq!(s.as_str(), "h\u{e9}");
    assert_eq!(t.as_str(), "llo");
    assert_eq!(s.len(), 3);
    assert_eq!(t.len(), 3);
}

#[test]
fn round_trip_of_valid_bytes() {
    let samples: Vec<Vec<u8>> = vec![
        vec![],
        b"plain ascii".to_vec(),
        "h\u{e9}llo w\u{f6}rld".as_bytes().to_vec(),
        "\u{20ac}\u{1F600}\u{7ff}\u{800}\u{ffff}\u{10000}\u{10ffff}".as_bytes().to_vec(),
        "a text that is much longer than thirty bytes, to be sure".as_bytes().to_vec(),
    ];
    for b in samples {
        let s = SmallString::from_utf8(b.clone()).unwrap();
        assert_eq!(s.as_bytes(), &b[..]);
        assert_eq!(s.len(), b.len());
        assert_eq!(s.into_bytes(), b);
    }
}

#[test]
fn invalid_bytes_are_refused_whole() {
    let samples: Vec<(Vec<u8>, usize)> = vec![
        (vec![0x80], 0),
        (vec![0xC0, 0x80], 0),
        (vec![b'a', 0xED, 0xA0, 0x80], 1),
        (vec![b'a', b'b', b'c', 0xF5, 0x80, 0x80, 0x80], 3),
        (vec![0xE2, 0x82, 0xAC, 0xE2, 0x82], 3),
    ];
    for (b, at) in samples {
        let e = SmallString::from_utf8(b.clone()).unwrap_err();
        assert_eq!(e.valid_up_to, at);
        assert_eq!(e.bytes, b);
    }
}

#[test]
fn from_utf8_unchecked_keeps_valid_bytes() {
    let s = SmallString::from_utf8_unchecked("gr\u{fc}n".as_bytes().to_vec());
    assert_eq!(s.as_str(), "gr\u{fc}n");
    assert_eq!(s.len(), 5);
}

#[test]
fn push_grows_by_the_encoded_width() {
    let mut s = SmallString::new();
    s.push('a');
    assert_eq!(s.len(), 1);
    s.push('\u{e9}');
    assert_eq!(s.len(), 3);
    s.push('\u{20ac}');
    assert_eq!(s.len(), 6);
    s.push('\u{1F600}');
    assert_eq!(s.len(), 10);
    assert_eq!(s.as_str(), "a\u{e9}\u{20ac}\u{1F600}");
}

#[test]
fn push_promotes_when_inline_is_full() {
    let mut s = SmallString::new();
    for _ in 0..INLINE_STRING_CAPACITY {
        s.push('x');
    }
    assert_eq!(s.len(), INLINE_STRING_CAPACITY);
    assert_eq!(s.capacity(), INLINE_STRING_CAPACITY);
    s.push('y');
    assert_eq!(s.len(), INLINE_STRING_CAPACITY + 1);
    assert!(s.capacity() > INLINE_STRING_CAPACITY);
    let mut expected = "x".repeat(INLINE_STRING_CAPACITY);
    expected.push('y');
    assert_eq!(s.as_str(), expected);
}

#[test]
fn split_and_join_reproduce_the_text() {
    let text = "a\u{e9}\u{20ac}\u{1F600}z, and then a tail long enough for the heap";
    for at in 0..=text.len() {
        if !text.is_char_boundary(at) {
            continue;
        }
        let mut s = SmallString::from(text);
        let t = s.split_off(at);
        assert_eq!(s.len(), at);
        assert_eq!(t.len(), text.len() - at);
        let mut joined = String::from(s.as_str());
        joined.push_str(t.as_str());
        assert_eq!(joined, text);
        let mut bytes = s.as_bytes().to_vec();
        bytes.extend_from_slice(t.as_bytes());
        assert_eq!(bytes, text.as_bytes());
    }
}

#[test]
fn split_off_at_both_ends() {
    let mut s = SmallString::from("abc");
    let t = s.split_off(3);
    assert_eq!(s.as_str(), "abc");
    assert_eq!(t.as_str(), "");
    let u = s.split_off(0);
    assert_eq!(s.as_str(), "");
    assert_eq!(u.as_str(), "abc");
}

#[test]
fn retain_keeps_what_the_predicate_accepts() {
    let mut s = SmallString::from("a1\u{e9}2\u{20ac}3\u{1F600}4");
    s.retain(|c| !c.is_ascii_digit());
    assert_eq!(s.as_str(), "a\u{e9}\u{20ac}\u{1F600}");
    s.retain(|c| c.is_ascii());
    assert_eq!(s.as_str(), "a");
    s.retain(|_| false);
    assert_eq!(s.as_str(), "");
    assert!(s.is_empty());
}

#[test]
fn retain_asks_each_character_once_in_order() {
    let text = "h\u{e9}llo, w\u{f6}rld \u{1F600}!";
    let mut s = SmallString::from(text);
    let mut seen = String::new();
    let mut n = 0;
    s.retain(|c| {
        seen.push(c);
        n += 1;
        n % 2 == 0
    });
    assert_eq!(seen, text);
    assert_eq!(n, text.chars().count());
    let expected: String = text.chars().enumerate().filter(|(i, _)| i % 2 == 1).map(|(_, c)| c).collect();
    assert_eq!(s.as_str(), expected);
}

#[test]
fn retain_on_a_heap_string() {
    let text = "0123456789 0123456789 0123456789 0123456789";
    let mut s = SmallString::from(text);
    assert!(s.capacity() > INLINE_STRING_CAPACITY);
    s.retain(|c| c != ' ' && c != '0');
    assert_eq!(s.as_str(), "123456789123456789123456789123456789");
    s.retain(|c| c == '9');
    assert_eq!(s.as_str(), "9999");
    assert!(s.capacity() > INLINE_STRING_CAPACITY);
}

#[test]
fn clear_empties_any_string() {
    let mut a = SmallString::new();
    a.clear();
    assert_eq!(a.len(), 0);
    assert!(a.is_empty());
    let mut b = SmallString::from("short");
    b.clear();
    assert_eq!(b.len(), 0);
    assert!(b.is_empty());
    let mut c = SmallString::from("this text does not fit into an inline buffer at all");
    c.clear();
    assert_eq!(c.len(), 0);
    assert!(c.is_empty());
    assert_eq!(c.as_str(), "");
    c.clear();
    assert!(c.is_empty());
}

#[test]
fn offsets_inside_a_character_are_no_boundaries() {
    let s = SmallString::from("a\u{e9}\u{20ac}\u{1F600}");
    let boundaries = [0usize, 1, 3, 6, 10];
    for at in 0..=s.len() {
        assert_eq!(s.as_str().is_char_boundary(at), boundaries.contains(&at));
    }
    assert!(!s.as_str().is_char_boundary(11));
}
