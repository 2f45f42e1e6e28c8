use imstr::address::AddressRange;
use imstr::data::{Data, Local, Threadsafe};
use imstr::error::SliceError;
use imstr::string::ImString;
use std::ops::{Bound, RangeBounds, RangeInclusive};

#[test]
fn slice_has_the_bytes_of_the_range() {
    let string: ImString<Threadsafe> = ImString::from("gr\u{fc}\u{df}e, \u{3a9}!");
    let text = string.as_str().to_string();
    for start in 0..=text.len() {
        for end in start..=text.len() {
            if text.is_char_boundary(start) && text.is_char_boundary(end) {
                let slice = string.slice(start..end);
                assert_eq!(slice.as_bytes(), &text.as_bytes()[start..end]);
                assert_eq!(slice.as_str(), &text[start..end]);
            }
        }
    }
}

#[test]
fn slice_of_a_slice_counts_from_the_slice() {
    let string: ImString<Local> = ImString::from("hello world");
    let world = string.slice(6..);
    assert_eq!(world.as_str(), "world");
    assert_eq!(world.raw_offset(), 6..11);
    let or = world.slice(1..3);
    assert_eq!(or.as_str(), "or");
    assert_eq!(or.raw_offset(), 7..9);
    assert_eq!(or.raw_string().get().as_str(), "hello world");
}

#[test]
fn slice_of_everything_equals_the_string() {
    let string: ImString<Threadsafe> = ImString::from("\u{1f600}\u{1f603}");
    let all = string.slice(0..string.len());
    assert!(all == string);
    assert_eq!(all.raw_offset(), string.raw_offset());
    let part = string.slice(4..);
    assert!(part.slice(0..part.len()) == part);
    assert!(part.slice(..) == "\u{1f603}");
}

#[test]
fn start_out_of_bounds_comes_before_end_before_start() {
    let string: ImString<Threadsafe> = ImString::from("hello");
    let len = string.len();
    assert_eq!(string.try_slice(len + 1..0).err(), Some(SliceError::StartOutOfBounds));
    let slice = string.slice(1..3);
    assert_eq!(slice.try_slice(3..0).err(), Some(SliceError::StartOutOfBounds));
    assert_eq!(slice.try_slice(2..0).err(), Some(SliceError::EndBeforeStart));
}

#[test]
fn each_slice_error_has_its_input() {
    let string: ImString<Threadsafe> = ImString::from("a\u{e4}b");
    assert_eq!(string.len(), 4);
    assert_eq!(string.try_slice(5..6).err(), Some(SliceError::StartOutOfBounds));
    assert_eq!(string.try_slice(3..2).err(), Some(SliceError::EndBeforeStart));
    assert_eq!(string.try_slice(1..5).err(), Some(SliceError::EndOutOfBounds));
    assert_eq!(string.try_slice(2..3).err(), Some(SliceError::StartNotAligned));
    assert_eq!(string.try_slice(1..2).err(), Some(SliceError::EndNotAligned));
    assert!(string.try_slice(1..3).unwrap() == "\u{e4}");
    assert!(string.try_slice(4..4).unwrap() == "");
}

#[test]
fn errors_keep_their_order() {
    let string: ImString<Threadsafe> = ImString::from("a\u{e4}b");
    // the end lies behind the string and the start inside a character
    assert_eq!(string.try_slice(2..9).err(), Some(SliceError::EndOutOfBounds));
    // both ends inside a character
    assert_eq!(string.try_slice(2..2).err(), Some(SliceError::StartNotAligned));
    // the end before the start and behind nothing
    assert_eq!(string.try_slice(4..2).err(), Some(SliceError::EndBeforeStart));
}

#[test]
fn bounds_of_every_form() {
    let string: ImString<Threadsafe> = ImString::from("abcdef");
    assert!(string.slice(2..4) == "cd");
    assert!(string.slice(2..) == "cdef");
    assert!(string.slice(..4) == "abcd");
    assert!(string.slice(..) == "abcdef");
    assert!(string.slice((Bound::Included(2), Bound::Excluded(4))) == "cd");
    assert!(string.slice((Bound::Excluded(2), Bound::Unbounded)) == "def");
    assert!(string.slice((Bound::Unbounded, Bound::Excluded(1))) == "a");
}

#[test]
fn included_end_belongs_to_the_range() {
    let string: ImString<Threadsafe> = ImString::from("abcdef");
    assert!(string.slice(..=4) == "abcde");
    assert!(string.slice(..=5) == "abcdef");
    assert!(string.slice((Bound::Included(1), Bound::Included(4))) == "bcde");
    assert!(string.slice((Bound::Included(1), Bound::Included(1))) == "b");
    assert!(string.slice((Bound::Included(1), Bound::Included(0))) == "");
    assert!(string.slice((Bound::Excluded(1), Bound::Included(2))) == "c");
    assert_eq!(string.try_slice(..=6).err(), Some(SliceError::EndOutOfBounds));
    assert_eq!(string.try_slice(..=7).err(), Some(SliceError::EndOutOfBounds));
    assert_eq!(string.try_slice(..=usize::MAX).err(), Some(SliceError::EndOutOfBounds));
    assert_eq!(
        string.try_slice((Bound::Included(3), Bound::Included(1))).err(),
        Some(SliceError::EndBeforeStart)
    );
    assert_eq!(
        string.try_slice((Bound::Included(7), Bound::Included(9))).err(),
        Some(SliceError::StartOutOfBounds)
    );
    let string: ImString<Threadsafe> = ImString::from("a\u{e4}b");
    assert_eq!(string.try_slice(..=1).err(), Some(SliceError::EndNotAligned));
    assert!(string.try_slice(..=2).unwrap() == "a\u{e4}");
    assert_eq!(string.try_slice(2..=2).err(), Some(SliceError::StartNotAligned));
}

#[test]
fn excluded_start_at_the_largest_offset_is_out_of_bounds() {
    let string: ImString<Threadsafe> = ImString::from("abc");
    assert_eq!(
        string.try_slice((Bound::Excluded(usize::MAX), Bound::Unbounded)).err(),
        Some(SliceError::StartOutOfBounds)
    );
    assert_eq!(
        string.try_slice((Bound::Excluded(3), Bound::Unbounded)).err(),
        Some(SliceError::StartOutOfBounds)
    );
    assert!(string.try_slice((Bound::Excluded(2), Bound::Unbounded)).unwrap() == "");
}

#[test]
fn slice_unchecked_takes_an_admitted_range() {
    let string: ImString<Threadsafe> = ImString::from("hello world");
    let slice = string.slice_unchecked(6..11);
    assert_eq!(slice.as_str(), "world");
    assert_eq!(slice.raw_offset(), 6..11);
    assert_eq!(slice.slice_unchecked(..2).as_str(), "wo");
}

#[test]
fn failed_slice_leaves_the_string_as_it_is() {
    let string: ImString<Threadsafe> = ImString::from("a\u{e4}b");
    assert!(string.try_slice(2..3).is_err());
    assert_eq!(string.as_str(), "a\u{e4}b");
    assert_eq!(string.raw_offset(), 0..4);
}

#[test]
fn raw_slice_counts_from_the_buffer() {
    let string: ImString<Threadsafe> = ImString::from("a\u{e4}bc");
    let tail = string.slice(3..);
    assert_eq!(tail.as_str(), "bc");
    let head = tail.try_raw_slice(0..3).unwrap();
    assert_eq!(head.as_str(), "a\u{e4}");
    assert_eq!(head.raw_offset(), 0..3);
    assert!(tail.try_raw_slice(2..3).is_none());
    assert!(tail.try_raw_slice(1..2).is_none());
    assert!(tail.try_raw_slice(3..1).is_none());
    assert!(tail.try_raw_slice(0..6).is_none());
    assert!(tail.try_raw_slice(5..5).unwrap() == "");
}

#[test]
fn index_by_ranges() {
    let string: ImString<Threadsafe> = ImString::from("hello world");
    let world = string.slice(6..);
    assert_eq!(&world[1..3], "or");
    assert_eq!(&world[3..], "ld");
    assert_eq!(&world[..2], "wo");
    assert_eq!(&world[..], "world");
}

fn used_up(start: usize, end: usize) -> RangeInclusive<usize> {
    let mut range = start..=end;
    for _ in range.by_ref() {}
    range
}

#[test]
fn inclusive_range_as_a_slice() {
    let string: ImString<Threadsafe> = ImString::from("hello");
    assert!(string.slice(1..=3) == "ell");
    assert!(string.slice(1..=3) == string.slice(1..4));
    assert!(string.slice(1..=3) == string.as_str()[1..=3]);
    assert_eq!(string.slice(1..=3).raw_offset(), 1..4);
    assert!(string.slice(0..=4) == "hello");
    assert!(string.slice(2..=2) == "l");
    assert!(string.slice(3..=2) == "");
    assert_eq!(string.try_slice(0..=5).err(), Some(SliceError::EndOutOfBounds));
    assert_eq!(string.try_slice(4..=2).err(), Some(SliceError::EndBeforeStart));
    assert_eq!(string.try_slice(6..=9).err(), Some(SliceError::StartOutOfBounds));
    let slice = string.slice(1..);
    assert_eq!(slice.slice(1..=3).raw_offset(), 2..5);
    for start in 0..5 {
        for end in start..5 {
            assert!(string.slice(start..=end) == string.as_str()[start..=end]);
        }
    }
}

#[test]
fn inclusive_range_that_was_used_up() {
    let string: ImString<Threadsafe> = ImString::from("hello");
    for (start, end) in [(1, 3), (0, 4), (2, 2), (0, 0), (3, 9)] {
        let range = used_up(start, end);
        let first = match range.start_bound() {
            Bound::Included(value) => *value,
            _ => unreachable!(),
        };
        let last = match range.end_bound() {
            Bound::Excluded(value) => *value,
            _ => unreachable!(),
        };
        let found = string.try_slice(range.clone());
        if first <= last && last <= string.len() {
            assert_eq!(found.ok().unwrap().raw_offset(), first..last);
        } else {
            assert!(found.is_err());
        }
    }
    let never = 3..=1;
    assert_eq!(never.end_bound(), Bound::Included(&1));
    assert_eq!(string.try_slice(never).err(), Some(SliceError::EndBeforeStart));
}

#[test]
fn index_by_inclusive_ranges() {
    let string: ImString<Threadsafe> = ImString::from("hello world");
    let world = string.slice(6..);
    assert_eq!(&world[1..=3], "orl");
    assert_eq!(&world[0..=4], "world");
    assert_eq!(&world[2..=2], "r");
    assert_eq!(&world[3..=2], "");
    for (start, end) in [(1, 3), (0, 4), (2, 2), (0, 0)] {
        let range = used_up(start, end);
        assert_eq!(&world[range.clone()], &"world"[range]);
    }
}

#[test]
fn slice_at_the_place_of_an_address_range() {
    let string: ImString<Threadsafe> = ImString::from("a\u{e4}bc");
    let head = string.slice(..1);
    let buffer = AddressRange { start: 100, end: 105 };
    let found = head.try_address_slice(buffer, AddressRange { start: 103, end: 105 }).unwrap();
    assert!(found == "bc");
    assert_eq!(found.raw_offset(), 3..5);
    let found = head.try_address_slice(buffer, AddressRange { start: 101, end: 103 }).unwrap();
    assert!(found == "\u{e4}");
    let found = head.try_address_slice(buffer, AddressRange { start: 105, end: 105 }).unwrap();
    assert_eq!(found.raw_offset(), 5..5);
    assert!(head.try_address_slice(buffer, AddressRange { start: 102, end: 103 }).is_none());
    assert!(head.try_address_slice(buffer, AddressRange { start: 101, end: 102 }).is_none());
    assert!(head.try_address_slice(buffer, AddressRange { start: 99, end: 101 }).is_none());
    assert!(head.try_address_slice(buffer, AddressRange { start: 103, end: 106 }).is_none());
    assert!(head.try_address_slice(buffer, AddressRange { start: 104, end: 103 }).is_none());
    // addresses that span more than the buffer holds give a place behind it
    let wide = AddressRange { start: 100, end: 200 };
    assert!(head.try_address_slice(wide, AddressRange { start: 103, end: 106 }).is_none());
}
