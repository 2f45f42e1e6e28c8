use imstr::data::{Cloned, Data, Local, Threadsafe};
use imstr::string::ImString;
use std::borrow::{Borrow, Cow};
use std::cmp::Ordering;
use std::collections::hash_map::DefaultHasher;
use std::collections::HashMap;
use std::fmt::Write;
use std::hash::{Hash, Hasher};
use std::str::FromStr;

fn hash_of<T: Hash + ?Sized>(value: &T) -> u64 {
    let mut hasher = DefaultHasher::new();
    value.hash(&mut hasher);
    hasher.finish()
}

#[test]
fn text_survives_the_way_out_and_back() {
    for text in ["", "hello", "gr\u{fc}\u{df}e", "\u{1f600}\n\r\n", "a\0b"] {
        let first: ImString<Threadsafe> = ImString::from(text);
        let owned = first.into_std_string();
        assert_eq!(owned, text);
        let again: ImString<Local> = ImString::from_std_string(owned);
        assert!(again == text);
        assert_eq!(again.as_bytes(), text.as_bytes());
    }
}

#[test]
fn from_std_string_keeps_the_buffer() {
    let mut owned = String::with_capacity(50);
    owned.push_str("hello");
    let capacity = owned.capacity();
    let string: ImString<Threadsafe> = ImString::from_std_string(owned);
    assert_eq!(string.capacity(), capacity);
    assert_eq!(string.raw_offset(), 0..5);
    assert!(string == "hello");
}

#[test]
fn equal_text_is_equal_and_hashes_alike() {
    let a: ImString<Threadsafe> = ImString::from("x");
    let b: ImString<Threadsafe> = ImString::from(String::from("x"));
    assert!(a == b);
    assert_eq!(hash_of(&a), hash_of(&b));
    let longer: ImString<Threadsafe> = ImString::from("ax yx");
    let c = longer.slice(1..2);
    let d = longer.slice(4..);
    assert!(c == a);
    assert!(d == c);
    assert_eq!(hash_of(&c), hash_of(&a));
    assert_eq!(hash_of(&d), hash_of(&a));
    let other: ImString<Local> = ImString::from("x");
    assert!(a == other);
    assert_eq!(hash_of(&other), hash_of(&a));
    assert_eq!(hash_of(&a), hash_of("x"));
    let y: ImString<Threadsafe> = ImString::from("y");
    assert!(a != y);
    assert_ne!(hash_of(&a), hash_of(&y));
}

#[test]
fn strings_as_keys() {
    let text: ImString<Threadsafe> = ImString::from("one two one");
    let mut counts: HashMap<ImString<Threadsafe>, usize> = HashMap::new();
    *counts.entry(text.slice(0..3)).or_insert(0) += 1;
    *counts.entry(text.slice(4..7)).or_insert(0) += 1;
    *counts.entry(text.slice(8..11)).or_insert(0) += 1;
    assert_eq!(counts.len(), 2);
    assert_eq!(counts.get("one"), Some(&2));
    assert_eq!(counts.get("two"), Some(&1));
}

#[test]
fn order_goes_by_the_bytes() {
    let words = ["", "a", "ab", "abc", "b", "\u{e4}", "\u{1f600}", "a\u{e4}", "B", "aB"];
    for left in words {
        for right in words {
            let a: ImString<Threadsafe> = ImString::from(left);
            let padded: ImString<Threadsafe> = ImString::from(format!("<{right}>").as_str());
            let b = padded.slice(1..1 + right.len());
            assert_eq!(a.partial_cmp(&b), Some(left.cmp(right)));
            assert_eq!(a.cmp(&b), left.cmp(right));
            assert_eq!(a < b, left < right);
            assert_eq!(a >= b, left >= right);
            assert_eq!(a == b, left == right);
        }
    }
    let a: ImString<Threadsafe> = ImString::from("abc");
    let b: ImString<Threadsafe> = ImString::from("abd");
    assert_eq!(a.partial_cmp(&b), Some(Ordering::Less));
    assert_eq!(b.partial_cmp(&a), Some(Ordering::Greater));
    assert_eq!(a.partial_cmp(&a.clone()), Some(Ordering::Equal));
}

fn lossy_keeps_valid_text<S: Data<String>>() {
    let string: ImString<S> = ImString::from_utf8_lossy(b"hello");
    assert!(string == "hello");
    assert_eq!(string.raw_offset(), 0..5);
    let string: ImString<S> = ImString::from_utf8_lossy(b"Hello \xF0\x90\x80World");
    assert!(string == "Hello \u{fffd}World");
    let string: ImString<S> = ImString::from_utf8_lossy(&[240, 159, 146, 150]);
    assert!(string == "\u{1f496}");
    let string: ImString<S> = ImString::from_utf8_lossy(&[0xff, 0x61, 0xc3]);
    assert!(string == "\u{fffd}a\u{fffd}");
    assert_eq!(string.raw_offset(), 0..7);
}

#[test]
fn test_from_utf8_lossy() {
    lossy_keeps_valid_text::<Threadsafe>();
    lossy_keeps_valid_text::<Local>();
    lossy_keeps_valid_text::<Cloned<String>>();
    lossy_keeps_valid_text::<Box<String>>();
}

fn unchecked_takes_valid_bytes<S: Data<String>>() {
    let string: ImString<S> = ImString::from_utf8_unchecked(b"hello".to_vec());
    assert!(string == "hello");
    assert_eq!(string.raw_offset(), 0..5);
    let string: ImString<S> = ImString::from_utf8_unchecked("gr\u{fc}n".as_bytes().to_vec());
    assert!(string == "gr\u{fc}n");
    assert_eq!(string.raw_offset(), 0..5);
}

#[test]
fn test_from_utf8_unchecked() {
    unchecked_takes_valid_bytes::<Threadsafe>();
    unchecked_takes_valid_bytes::<Local>();
    unchecked_takes_valid_bytes::<Cloned<String>>();
    unchecked_takes_valid_bytes::<Box<String>>();
}

#[test]
fn from_utf8_takes_valid_bytes() {
    let string: ImString<Threadsafe> = ImString::from_utf8(vec![104, 101, 108, 108, 111]).ok().unwrap();
    assert!(string == "hello");
    assert_eq!(string.raw_offset(), 0..5);
    let string: ImString<Threadsafe> = ImString::from_utf8(Vec::new()).ok().unwrap();
    assert!(string.is_empty());
    let string: ImString<Threadsafe> = ImString::from_utf8(vec![0xf0, 0x9f, 0x92, 0x96]).ok().unwrap();
    assert!(string == "\u{1f496}");
}

#[test]
fn from_utf8_tells_where_the_bytes_go_wrong() {
    let error = ImString::<Threadsafe>::from_utf8(vec![0x61, 0x62, 0xff, 0x63]).err().unwrap();
    assert_eq!(error.valid_up_to(), 2);
    assert_eq!(error.into_bytes(), vec![0x61, 0x62, 0xff, 0x63]);
    let error = ImString::<Threadsafe>::from_utf8(vec![0x61, 0xe2, 0x82]).err().unwrap();
    assert_eq!(error.valid_up_to(), 1);
    let error = ImString::<Threadsafe>::from_utf8(vec![0xc0, 0x80]).err().unwrap();
    assert_eq!(error.valid_up_to(), 0);
    let error = ImString::<Threadsafe>::from_utf8(vec![0xed, 0xa0, 0x80]).err().unwrap();
    assert_eq!(error.valid_up_to(), 0);
    let error = ImString::<Threadsafe>::from_utf8(vec![0xc3, 0xa4, 0xf4, 0x90, 0x80, 0x80])
        .err()
        .unwrap();
    assert_eq!(error.valid_up_to(), 2);
    let bytes = error.into_bytes();
    let lossy: ImString<Threadsafe> = ImString::from_utf8_lossy(&bytes);
    assert!(lossy.as_str().starts_with('\u{e4}'));
}

#[test]
fn from_text_of_every_kind() {
    let a: ImString<Threadsafe> = ImString::from("text");
    let b: ImString<Threadsafe> = ImString::from(String::from("text"));
    let c: ImString<Threadsafe> = ImString::from(Cow::Borrowed("text"));
    let d: ImString<Threadsafe> = ImString::from(Cow::Owned(String::from("text")));
    let e: ImString<Threadsafe> = ImString::from_str("text").unwrap();
    let f: ImString<Threadsafe> = "text".parse().unwrap();
    for string in [b, c, d, e, f] {
        assert!(string == a);
        assert_eq!(string.raw_offset(), 0..4);
    }
    let g: ImString<Threadsafe> = ImString::from('\u{3a9}');
    assert!(g == "\u{3a9}");
    assert_eq!(g.len(), 2);
    let back: String = a.into();
    assert_eq!(back, "text");
}

#[test]
fn borrow_is_the_text() {
    let string: ImString<Local> = ImString::from("hello world");
    let slice = string.slice(6..);
    let borrowed: &str = slice.borrow();
    assert_eq!(borrowed, "world");
    let bytes: &[u8] = slice.as_ref();
    assert_eq!(bytes, b"world");
}

#[test]
fn with_capacity_is_empty() {
    let string: ImString<Threadsafe> = ImString::with_capacity(0);
    assert!(string.is_empty());
    let string: ImString<Threadsafe> = ImString::with_capacity(1000);
    assert!(string == "");
    assert!(string.capacity() >= 1000);
}

#[test]
fn handles_store_and_duplicate() {
    fn stores<S: Data<String>>() {
        let mut handle = S::new(String::from("value"));
        assert_eq!(handle.get(), "value");
        let second = handle.duplicate();
        assert_eq!(second.get(), "value");
        drop(second);
        handle.get_mut().unwrap().push('!');
        assert_eq!(handle.get(), "value!");
    }
    stores::<Threadsafe>();
    stores::<Local>();
    stores::<Cloned<String>>();
    stores::<Box<String>>();
}

#[test]
fn shared_handles_refuse_to_be_written() {
    let mut first: Threadsafe = Data::new(String::from("value"));
    let second = first.duplicate();
    assert!(Data::get_mut(&mut first).is_none());
    drop(second);
    assert!(Data::get_mut(&mut first).is_some());
    let mut first: Local = Data::new(String::from("value"));
    let second = first.duplicate();
    assert!(Data::get_mut(&mut first).is_none());
    drop(second);
    assert!(Data::get_mut(&mut first).is_some());
    let mut first: Cloned<String> = Data::new(String::from("value"));
    let mut second = first.duplicate();
    Data::get_mut(&mut first).unwrap().push('1');
    Data::get_mut(&mut second).unwrap().push('2');
    assert_eq!(first.get(), "value1");
    assert_eq!(second.get(), "value2");
    let mut first: Box<String> = Data::new(String::from("value"));
    let second = Data::duplicate(&first);
    Data::get_mut(&mut first).unwrap().push('1');
    assert_eq!(Data::get(&first), "value1");
    assert_eq!(Data::get(&second), "value");
}

#[test]
fn writing_appends() {
    let mut string: ImString<Threadsafe> = ImString::from("a");
    let shared = string.clone();
    assert!(string.write_str("bc").is_ok());
    assert!(string.write_char('\u{e4}').is_ok());
    assert!(string == "abc\u{e4}");
    assert!(shared == "a");
}

fn starts_at_the_start_of_its_buffer<S: Data<String>>() {
    let made: Vec<ImString<S>> = vec![
        ImString::new(),
        ImString::default(),
        ImString::with_capacity(8),
        ImString::from("text"),
        ImString::from(String::from("text")),
        ImString::from(Cow::Borrowed("text")),
        ImString::from('\u{3a9}'),
        ImString::from_str("text").unwrap(),
        ImString::from_utf8(b"text".to_vec()).ok().unwrap(),
        ImString::from_utf8_lossy(b"text\xff"),
        ImString::from_utf8_unchecked(b"text".to_vec()),
    ];
    for string in made {
        assert_eq!(string.raw_offset(), 0..string.len());
        assert_eq!(string.raw_string().get().as_str(), string.as_str());
    }
}

#[test]
fn every_constructor_shows_its_buffer_whole() {
    starts_at_the_start_of_its_buffer::<Threadsafe>();
    starts_at_the_start_of_its_buffer::<Local>();
    starts_at_the_start_of_its_buffer::<Cloned<String>>();
    starts_at_the_start_of_its_buffer::<Box<String>>();
}
