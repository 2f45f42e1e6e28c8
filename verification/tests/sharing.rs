use imstr::data::{Cloned, Data, Local, Threadsafe};
use imstr::string::ImString;
use std::rc::Rc;
use std::sync::Arc;

#[test]
fn change_to_a_clone_does_not_show_in_the_other() {
    let a: ImString<Threadsafe> = ImString::from("hello");
    let mut b = a.clone();
    b.push_str(" world");
    assert!(a == "hello");
    assert!(b == "hello world");
}

fn changes_stay_apart<S: Data<String>>() {
    let a: ImString<S> = ImString::from("hello world");
    let mut pushed = a.clone();
    pushed.push('!');
    let mut inserted = a.clone();
    inserted.insert(5, ',');
    let mut inserted_str = a.slice(6..);
    inserted_str.insert_str(0, "the ");
    let mut truncated = a.clone();
    truncated.truncate(5);
    let mut cleared = a.clone();
    cleared.clear();
    assert!(a == "hello world");
    assert!(pushed == "hello world!");
    assert!(inserted == "hello, world");
    assert!(inserted_str == "the world");
    assert!(truncated == "hello");
    assert!(cleared == "");
}

#[test]
fn every_storage_keeps_changes_apart() {
    changes_stay_apart::<Threadsafe>();
    changes_stay_apart::<Local>();
    changes_stay_apart::<Cloned<String>>();
    changes_stay_apart::<Box<String>>();
}

#[test]
fn clones_and_slices_share_the_buffer() {
    let a: ImString<Threadsafe> = ImString::from("hello world");
    let b = a.clone();
    let c = a.slice(6..);
    assert!(Arc::ptr_eq(&a.raw_string(), &b.raw_string()));
    assert!(Arc::ptr_eq(&a.raw_string(), &c.raw_string()));
    let l: ImString<Local> = ImString::from("hello world");
    let m = l.slice(..5);
    assert!(Rc::ptr_eq(&l.raw_string(), &m.raw_string()));
}

#[test]
fn sole_owner_writes_in_place() {
    let mut a: ImString<Box<String>> = ImString::with_capacity(64);
    let capacity = a.capacity();
    assert!(capacity >= 64);
    a.push_str("hello");
    a.push(' ');
    a.insert_str(6, "world");
    assert!(a == "hello world");
    assert_eq!(a.capacity(), capacity);
    assert_eq!(a.raw_offset(), 0..11);
    a.truncate(5);
    assert!(a == "hello");
    assert_eq!(a.capacity(), capacity);
    a.clear();
    assert!(a == "");
    assert_eq!(a.capacity(), capacity);
}

#[test]
fn shared_string_moves_to_a_buffer_of_its_own() {
    let a: ImString<Threadsafe> = ImString::from("hello world");
    let mut b = a.slice(6..);
    assert!(Arc::ptr_eq(&a.raw_string(), &b.raw_string()));
    b.push('!');
    assert!(!Arc::ptr_eq(&a.raw_string(), &b.raw_string()));
    assert_eq!(b.raw_string().as_str(), "world!");
    assert_eq!(b.raw_offset(), 0..6);
    assert!(a == "hello world");
}

#[test]
fn window_that_starts_late_moves_to_a_buffer_of_its_own() {
    let a: ImString<Threadsafe> = ImString::from("hello world");
    let mut b = a.slice(6..);
    drop(a);
    b.push('!');
    assert_eq!(b.raw_string().as_str(), "world!");
    assert_eq!(b.raw_offset(), 0..6);
}

#[test]
fn after_a_change_the_string_shows_its_buffer_whole() {
    let a: ImString<Local> = ImString::from("hello world");
    let mut b = a.slice(..5);
    drop(a);
    b.push_str("!!");
    assert_eq!(b.raw_offset(), 0..7);
    assert_eq!(b.raw_string().as_str(), "hello!!");
    let mut c = b.clone();
    c.truncate(2);
    assert_eq!(c.raw_offset(), 0..2);
    assert_eq!(c.raw_string().as_str(), "he");
    assert_eq!(b.raw_string().as_str(), "hello!!");
}

#[test]
fn split_gives_both_parts() {
    let suffix;
    let prefix;
    {
        let mut string: ImString<Threadsafe> = ImString::from("hello world");
        suffix = string.try_split_off(5).unwrap();
        assert!(Arc::ptr_eq(&string.raw_string(), &suffix.raw_string()));
        prefix = string.clone();
    }
    assert!(prefix == "hello");
    assert!(suffix == " world");
    assert_eq!(prefix.raw_offset(), 0..5);
    assert_eq!(suffix.raw_offset(), 5..11);
}

#[test]
fn split_of_a_slice_counts_from_the_slice() {
    let string: ImString<Local> = ImString::from("hello wide world");
    let mut middle = string.slice(6..10);
    let tail = middle.split_off(2);
    assert!(middle == "wi");
    assert!(tail == "de");
    assert_eq!(middle.raw_offset(), 6..8);
    assert_eq!(tail.raw_offset(), 8..10);
    let mut all = string.clone();
    let nothing = all.split_off(16);
    assert!(nothing == "");
    assert!(all == "hello wide world");
    let everything = all.split_off(0);
    assert!(all == "");
    assert!(everything == "hello wide world");
}

#[test]
fn split_that_fails_changes_nothing() {
    let mut string: ImString<Threadsafe> = ImString::from("a\u{e4}b");
    assert!(string.try_split_off(2).is_none());
    assert!(string.try_split_off(5).is_none());
    assert!(string == "a\u{e4}b");
    assert_eq!(string.raw_offset(), 0..4);
    let mut slice = string.slice(1..3);
    assert!(slice.try_split_off(3).is_none());
    assert!(slice.try_split_off(1).is_none());
    assert!(slice == "\u{e4}");
    assert_eq!(slice.raw_offset(), 1..3);
}

#[test]
fn reference_into_the_buffer_is_found_again() {
    let v: ImString<Threadsafe> = ImString::from("abcdef");
    let sub = &v.as_str()[1..3];
    let found = v.try_str_ref(sub).unwrap();
    assert!(found == "bc");
    assert_eq!(found.raw_offset(), 1..3);
    assert!(Arc::ptr_eq(&v.raw_string(), &found.raw_string()));
    let bytes = &v.as_bytes()[2..6];
    let found = v.try_slice_ref(bytes).unwrap();
    assert!(found == "cdef");
    assert_eq!(found.raw_offset(), 2..6);
    assert!(v.try_slice_ref(b"zz").is_none());
    assert!(v.try_str_ref("bc").is_none());
}

#[test]
fn reference_is_sought_in_the_whole_buffer() {
    let v: ImString<Threadsafe> = ImString::from("hello world");
    let head = v.slice(..5);
    let tail = &v.as_str()[6..];
    let found = head.try_str_ref(tail).unwrap();
    assert!(found == "world");
    assert_eq!(found.raw_offset(), 6..11);
}

#[test]
fn reference_to_a_copy_is_not_found() {
    let v: ImString<Threadsafe> = ImString::from("abcdef");
    let copy = v.as_str().to_string();
    assert!(v.try_str_ref(&copy).is_none());
    assert!(v.try_slice_ref(copy.as_bytes()).is_none());
    let other: ImString<Threadsafe> = ImString::from("abcdef");
    assert!(v.try_str_ref(other.as_str()).is_none());
}

#[test]
fn reference_across_a_character_is_not_found() {
    let v: ImString<Threadsafe> = ImString::from("a\u{e4}b");
    assert!(v.try_slice_ref(&v.as_bytes()[2..3]).is_none());
    assert!(v.try_slice_ref(&v.as_bytes()[1..2]).is_none());
    assert!(v.try_slice_ref(&v.as_bytes()[2..2]).is_none());
    assert!(v.try_slice_ref(&v.as_bytes()[1..3]).unwrap() == "\u{e4}");
}

#[test]
fn trimmed_text_is_found_without_a_copy() {
    let v: ImString<Local> = ImString::from("  padded text \n");
    let trimmed = v.try_str_ref(v.as_str().trim()).unwrap();
    assert!(trimmed == "padded text");
    assert_eq!(trimmed.raw_offset(), 2..13);
    assert!(Rc::ptr_eq(&v.raw_string(), &trimmed.raw_string()));
}

#[test]
fn into_std_string_takes_the_buffer_of_a_sole_owner() {
    let mut string: ImString<Threadsafe> = ImString::with_capacity(100);
    string.push_str("hello");
    let capacity = string.capacity();
    let taken = string.into_std_string();
    assert_eq!(taken, "hello");
    assert_eq!(taken.capacity(), capacity);
    let shared: ImString<Threadsafe> = ImString::from("hello world");
    let head = shared.slice(..5);
    assert_eq!(head.into_std_string(), "hello");
    assert_eq!(shared.slice(6..).into_std_string(), "world");
    let mut cut: ImString<Threadsafe> = ImString::from("hello world");
    let _ = cut.split_off(5);
    assert_eq!(cut.into_std_string(), "hello");
}

#[test]
fn detach_copies_what_is_shared() {
    let source: ImString<Threadsafe> = ImString::from("hello world");
    let mut world = source.slice(6..);
    assert!(world.detach());
    assert!(world == "world");
    assert_eq!(world.raw_offset(), 0..5);
    assert_eq!(world.raw_string().as_str(), "world");
    assert!(!Arc::ptr_eq(&source.raw_string(), &world.raw_string()));
    assert!(source == "hello world");
    assert!(!world.detach());
    assert_eq!(world.raw_offset(), 0..5);
}

#[test]
fn detach_leaves_a_sole_owner_alone() {
    let source: ImString<Local> = ImString::from("hello world");
    let mut world = source.slice(6..);
    drop(source);
    assert!(!world.detach());
    assert!(world == "world");
    assert_eq!(world.raw_offset(), 6..11);
    assert_eq!(world.raw_string().as_str(), "hello world");
    let mut owned: ImString<Box<String>> = ImString::from("text");
    let copy = owned.clone();
    assert!(!owned.detach());
    assert!(owned == copy);
    let mut owned: ImString<Cloned<String>> = ImString::from("text");
    assert!(!owned.detach());
    assert_eq!(owned.raw_offset(), 0..4);
}
