use inlinable_string::INLINE_STRING_CAPACITY;
use small_string::SmallString;
use std::borrow::Cow;
use std::collections::hash_map::DefaultHasher;
use std::hash::{Hash, Hasher};
use std::str::FromStr;

const LONG: &str = "a text that is much longer than thirty bytes";

#[test]
fn from_plain_strings() {
    let a = SmallString::from("h\u{e9}llo");
    assert_eq!(a.as_str(), "h\u{e9}llo");
    assert_eq!(a.capacity(), INLINE_STRING_CAPACITY);
    let b = SmallString::from(String::from(LONG));
    assert_eq!(b.as_str(), LONG);
    assert!(b.capacity() >= LONG.len());
    assert_ne!(b.capacity(), INLINE_STRING_CAPACITY);
    let owned = String::from("owned");
    let c = SmallString::from(&owned);
    assert_eq!(c.as_str(), "owned");
    let d = SmallString::from(String::from("short")) ;
    assert_eq!(d.capacity(), INLINE_STRING_CAPACITY);
    let e = SmallString::from(Box::<str>::from("boxed"));
    assert_eq!(e.as_str(), "boxed");
    let f = SmallString::from_str("parsed").unwrap();
    assert_eq!(f.as_str(), "parsed");
    let g: SmallString = "into".into();
    assert_eq!(g.as_str(), "into");
}

#[test]
fn into_plain_strings() {
    for text in ["", "h\u{e9}llo", LONG] {
        assert_eq!(String::from(SmallString::from(text)), text);
        assert_eq!(&*Box::<str>::from(SmallString::from(text)), text);
        assert_eq!(&*SmallString::from(text).into_boxed_str(), text);
        assert_eq!(Vec::<u8>::from(SmallString::from(text)), text.as_bytes());
        assert_eq!(SmallString::from(text).into_bytes(), text.as_bytes());
        let cow: Cow<'static, str> = SmallString::from(text).into();
        assert_eq!(cow, text);
    }
    let heap = SmallString::from_utf8(b"tiny".to_vec()).unwrap();
    assert_eq!(&*heap.into_boxed_str(), "tiny");
}

#[test]
fn default_and_clone() {
    let d = SmallString::default();
    assert!(d.is_empty());
    assert_eq!(d.capacity(), INLINE_STRING_CAPACITY);
    let a = SmallString::from("h\u{e9}llo");
    let mut b = a.clone();
    assert_eq!(a, b);
    b.push('!');
    assert_eq!(a.as_str(), "h\u{e9}llo");
    assert_eq!(b.as_str(), "h\u{e9}llo!");
    let long = SmallString::from(LONG);
    let copy = long.clone();
    assert_eq!(copy.as_str(), LONG);
    assert_ne!(copy.capacity(), INLINE_STRING_CAPACITY);
}

#[test]
fn equality_goes_by_the_text() {
    let inline = SmallString::from("same");
    let heap = SmallString::from_utf8(b"same".to_vec()).unwrap();
    assert_ne!(inline.capacity(), heap.capacity());
    assert!(inline == heap);
    assert!(heap == inline);
    assert!(inline == inline.clone());
    assert!(inline != SmallString::from("other"));
    assert!(inline == *"same");
    assert!(*"same" == inline);
    assert!(inline != *"sane");
    assert!(inline == String::from("same"));
    assert!(String::from("same") == heap);
    assert!(String::from("sam") != heap);
}

#[test]
fn order_and_hash_go_by_the_text() {
    let a = SmallString::from("apple");
    let b = SmallString::from_utf8(b"banana".to_vec()).unwrap();
    let c = SmallString::from("banana");
    assert!(a < b);
    assert!(b > a);
    assert!(b <= c);
    assert!(b >= c);
    assert_eq!(a.cmp(&b), "apple".cmp("banana"));
    assert_eq!(SmallString::from("\u{e9}").cmp(&SmallString::from("z")), "\u{e9}".cmp("z"));
    let mut h1 = DefaultHasher::new();
    b.hash(&mut h1);
    let mut h2 = DefaultHasher::new();
    c.hash(&mut h2);
    assert_eq!(h1.finish(), h2.finish());
}

#[test]
fn borrows_as_a_string_slice() {
    let s = SmallString::from("h\u{e9}llo");
    let d: &str = &s;
    assert_eq!(d, "h\u{e9}llo");
    let r: &str = s.as_ref();
    assert_eq!(r, "h\u{e9}llo");
    let b: &[u8] = s.as_ref();
    assert_eq!(b, "h\u{e9}llo".as_bytes());
    let w: &str = std::borrow::Borrow::borrow(&s);
    assert_eq!(w, "h\u{e9}llo");
    assert_eq!(s.to_uppercase(), "H\u{c9}LLO");
    assert!(s.starts_with("h\u{e9}"));
}

#[test]
fn borrows_as_a_mutable_string_slice() {
    let mut s = SmallString::from("h\u{e9}llo");
    s.make_ascii_uppercase();
    assert_eq!(s.as_str(), "H\u{e9}LLO");
    let m: &mut str = std::borrow::BorrowMut::borrow_mut(&mut s);
    m.make_ascii_lowercase();
    assert_eq!(s.as_str(), "h\u{e9}llo");
}

#[test]
fn add_appends() {
    let s = SmallString::from("id") + "-42";
    assert_eq!(s.as_str(), "id-42");
    let mut t = s + " and more text, enough of it to leave the inline buffer";
    assert_eq!(t.as_str(), "id-42 and more text, enough of it to leave the inline buffer");
    assert_ne!(t.capacity(), INLINE_STRING_CAPACITY);
    t += "!";
    assert_eq!(t.as_str(), "id-42 and more text, enough of it to leave the inline buffer!");
    let mut u = SmallString::new();
    u += "a";
    u += "";
    u += "\u{e9}";
    assert_eq!(u.as_str(), "a\u{e9}");
}

#[test]
fn index_by_byte_range() {
    let s = SmallString::from("a\u{e9}\u{20ac}z");
    assert_eq!(&s[0..0], "");
    assert_eq!(&s[0..1], "a");
    assert_eq!(&s[1..3], "\u{e9}");
    assert_eq!(&s[1..6], "\u{e9}\u{20ac}");
    assert_eq!(&s[3..7], "\u{20ac}z");
    assert_eq!(&s[0..7], "a\u{e9}\u{20ac}z");
    let long = SmallString::from(LONG);
    assert_eq!(&long[2..6], "text");
}

#[test]
fn slice_mut_edits_the_range_only() {
    let mut s = SmallString::from("abc d\u{e9}f ghi");
    s.slice_mut(4..8).make_ascii_uppercase();
    assert_eq!(s.as_str(), "abc D\u{e9}F ghi");
    s.slice_mut(0..0).make_ascii_uppercase();
    assert_eq!(s.as_str(), "abc D\u{e9}F ghi");
    let mut long = SmallString::from(LONG);
    long.slice_mut(2..6).make_ascii_uppercase();
    assert_eq!(long.as_str(), "a TEXT that is much longer than thirty bytes");
}

#[test]
fn extend_appends_each_item() {
    let mut s = SmallString::from("a");
    s.extend_chars(&['b', '\u{e9}', '\u{1F600}']);
    assert_eq!(s.as_str(), "ab\u{e9}\u{1F600}");
    assert_eq!(s.len(), 8);
    s.extend_chars(&[]);
    assert_eq!(s.as_str(), "ab\u{e9}\u{1F600}");
    s.extend_strs(&["-", "", "cd", "\u{20ac}"]);
    assert_eq!(s.as_str(), "ab\u{e9}\u{1F600}-cd\u{20ac}");
    assert_eq!(s.capacity(), INLINE_STRING_CAPACITY);
    s.extend_strs(&[" and ", "then ", "enough ", "to ", "leave ", "inline"]);
    assert_eq!(s.as_str(), "ab\u{e9}\u{1F600}-cd\u{20ac} and then enough to leave inline");
    assert_ne!(s.capacity(), INLINE_STRING_CAPACITY);
    let mut t = SmallString::new();
    t.extend_chars(&['x'; 40]);
    assert_eq!(t.as_str(), "x".repeat(40));
}

#[test]
fn order_is_by_bytes() {
    let pairs = [("", "a"), ("a", "ab"), ("ab", "b"), ("Z", "a"), ("z", "\u{e9}"), ("\u{e9}", "\u{20ac}"), ("\u{ffff}", "\u{10000}")];
    for (x, y) in pairs {
        let a = SmallString::from(x);
        let b = SmallString::from(y);
        assert!(a < b);
        assert!(b > a);
        assert_eq!(a.partial_cmp(&b), Some(std::cmp::Ordering::Less));
        assert_eq!(b.partial_cmp(&a), Some(std::cmp::Ordering::Greater));
        assert_eq!(a.partial_cmp(&a.clone()), Some(std::cmp::Ordering::Equal));
        assert_eq!(a.cmp(&b), std::cmp::Ordering::Less);
    }
}
