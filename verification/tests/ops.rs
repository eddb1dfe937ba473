use string2::CapacityError;
use string2::String2;

#[test]
fn scenario_hello_world() {
    let mut s = String2::from_text("hello, world!");
    assert_eq!(s.len(), 13);
    assert_eq!(s.get(0), Some(&'h'));
    assert_eq!(s.pop(), Some('!'));
    assert_eq!(s.len(), 12);
}

#[test]
fn push_then_pop_is_identity() {
    let mut s = String2::from_text("héllo");
    let before = s.len();
    s.push('€');
    assert_eq!(s.pop(), Some('€'));
    assert_eq!(s.len(), before);
    assert_eq!(s.to_text(), "héllo");

    let mut empty = String2::new();
    empty.push('x');
    assert_eq!(empty.pop(), Some('x'));
    assert_eq!(empty.len(), 0);
}

#[test]
fn pop_on_empty_reports_none() {
    let mut s = String2::new();
    assert_eq!(s.pop(), None);
    assert_eq!(s.len(), 0);
}

#[test]
fn insert_then_remove_restores() {
    let mut s = String2::from_text("abcd");
    for i in 0..5 {
        s.insert(i, 'x');
        assert_eq!(s.len(), 5);
        assert_eq!(s.remove(i), 'x');
        assert_eq!(s.to_text(), "abcd");
    }
}

#[test]
fn insert_shifts_right() {
    let mut s = String2::from_text("ac");
    s.insert(1, 'b');
    assert_eq!(s.to_text(), "abc");
    s.insert(0, '_');
    assert_eq!(s.to_text(), "_abc");
    s.insert(4, '!');
    assert_eq!(s.to_text(), "_abc!");
}

#[test]
fn remove_shifts_left() {
    let mut s = String2::from_text("abc");
    assert_eq!(s.remove(1), 'b');
    assert_eq!(s.to_text(), "ac");
    assert_eq!(s.remove(1), 'c');
    assert_eq!(s.remove(0), 'a');
    assert!(s.is_empty());
}

#[test]
fn get_and_get_mut() {
    let mut s = String2::from_text("hello");
    assert_eq!(s.get(4), Some(&'o'));
    assert_eq!(s.get(5), None);
    if let Some(c) = s.get_mut(1) {
        *c = 'a';
    }
    assert_eq!(s.to_text(), "hallo");
    assert!(s.get_mut(5).is_none());
}

#[test]
fn index_reads_by_position() {
    let s = String2::from_text("hi");
    assert_eq!(*s.index(0), 'h');
    assert_eq!(*s.index(1), 'i');
}

#[test]
fn truncate_drops_tail_only() {
    let mut s = String2::from_text("hello");
    let cap = s.capacity();
    s.truncate(10);
    assert_eq!(s.to_text(), "hello");
    s.truncate(2);
    assert_eq!(s.to_text(), "he");
    assert_eq!(s.capacity(), cap);
    s.truncate(0);
    assert!(s.is_empty());
}

#[test]
fn clear_keeps_capacity() {
    let mut s = String2::from_text("hello");
    let cap = s.capacity();
    s.clear();
    assert!(s.is_empty());
    assert_eq!(s.capacity(), cap);
}

#[test]
fn retain_true_is_noop_and_false_empties() {
    let mut s = String2::from_text("a1b2");
    let cap = s.capacity();
    s.retain(|_| true);
    assert_eq!(s.to_text(), "a1b2");
    assert_eq!(s.capacity(), cap);
    s.retain(|_| false);
    assert!(s.is_empty());
    assert_eq!(s.capacity(), cap);
}

#[test]
fn retain_is_stable() {
    let mut s = String2::from_text("a1b2c3");
    s.retain(|c| c.is_alphabetic());
    assert_eq!(s.to_text(), "abc");
    let mut t = String2::from_text("a1b2c3");
    t.retain(|c| c.is_ascii_digit());
    assert_eq!(t.to_text(), "123");
}

#[test]
fn split_off_then_append_reconstitutes() {
    for at in 0..7 {
        let mut s = String2::from_text("abcdef");
        let orig = s.clone();
        let at = at.min(s.len());
        let mut tail = s.split_off(at);
        s.append(&mut tail);
        assert_eq!(s, orig);
        assert!(tail.is_empty());
    }
}

#[test]
fn split_off_keeps_storage() {
    let mut s = String2::from_text("abcdef");
    let cap = s.capacity();
    let tail = s.split_off(2);
    assert_eq!(s.to_text(), "ab");
    assert_eq!(tail.to_text(), "cdef");
    assert_eq!(s.capacity(), cap);
}

#[test]
fn scenario_split_at_copies() {
    let s = String2::from_text("hello");
    let (a, b) = s.split_at(2);
    assert_eq!(a, String2::from_text("he"));
    assert_eq!(b, String2::from_text("llo"));
    assert_eq!(s, String2::from_text("hello"));
}

#[test]
fn append_moves_and_empties_other() {
    let mut a = String2::from_text("foo");
    let mut b = String2::from_text("bar");
    let bcap = b.capacity();
    a.append(&mut b);
    assert_eq!(a.to_text(), "foobar");
    assert!(b.is_empty());
    assert_eq!(b.capacity(), bcap);
}

#[test]
fn add_consumes_both_operands() {
    let a = String2::from_text("foo");
    let b = String2::from_text("bar");
    assert_eq!(a.add(b).to_text(), "foobar");
}

#[test]
fn add_assign_appends_in_place() {
    let mut a = String2::from_text("foo");
    a.add_assign(String2::from_text("bar"));
    assert_eq!(a.to_text(), "foobar");
}

#[test]
fn insert_str_shifts_tail() {
    let mut s = String2::from_text("hd!");
    s.insert_str(1, "ello, worl");
    assert_eq!(s.to_text(), "hello, world!");
    let mut t = String2::from_text("ab");
    t.insert_str(0, "x");
    assert_eq!(t.to_text(), "xab");
    let mut u = String2::from_text("ab");
    u.insert_str(2, "yz");
    assert_eq!(u.to_text(), "abyz");
    let mut v = String2::from_text("ab");
    v.insert_str(1, "");
    assert_eq!(v.to_text(), "ab");
}

#[test]
fn scenario_reserve_then_push_ten() {
    let mut s = String2::new();
    s.reserve(10).unwrap();
    let cap = s.capacity();
    assert!(cap >= 10);
    for _ in 0..10 {
        s.push('a');
    }
    assert_eq!(s.capacity(), cap);
    s.push('a');
    assert_eq!(s.len(), 11);
    assert!(s.capacity() >= 11);
}

#[test]
fn reserve_is_noop_when_sufficient() {
    let mut s = String2::with_capacity(10);
    s.push('a');
    s.push('b');
    assert_eq!(s.len(), 2);
    assert_eq!(s.capacity(), 10);
    s.reserve(8).unwrap();
    assert_eq!(s.capacity(), 10);
    s.reserve_exact(8).unwrap();
    assert_eq!(s.capacity(), 10);
}

#[test]
fn reserve_exact_does_not_overallocate() {
    let mut s = String2::new();
    s.reserve_exact(7).unwrap();
    assert_eq!(s.capacity(), 7);
    s.push('a');
    s.reserve_exact(9).unwrap();
    assert_eq!(s.capacity(), 10);
}

#[test]
fn reserve_overflow_is_reported_and_harmless() {
    let mut s = String2::from_text("a");
    assert_eq!(s.reserve(usize::MAX), Err(CapacityError));
    assert_eq!(s.reserve_exact(usize::MAX), Err(CapacityError));
    assert_eq!(s.to_text(), "a");
    assert_eq!(s.len(), 1);
}

#[test]
fn shrink_to_fit_releases_slack() {
    let mut s = String2::from_text("foo");
    s.reserve(100).unwrap();
    assert!(s.capacity() >= 100);
    s.shrink_to_fit();
    assert_eq!(s.capacity(), 3);
    assert_eq!(s.to_text(), "foo");
}

#[test]
fn with_capacity_zero_is_like_new() {
    let s = String2::with_capacity(0);
    assert_eq!(s.capacity(), 0);
    assert_eq!(s.len(), 0);
    assert_eq!(s, String2::new());
}

#[test]
fn length_never_exceeds_capacity() {
    let mut s = String2::new();
    assert!(s.len() <= s.capacity());
    s.push_str("hello");
    assert!(s.len() <= s.capacity());
    s.insert(0, 'x');
    assert!(s.len() <= s.capacity());
    s.remove(3);
    assert!(s.len() <= s.capacity());
    s.reserve(20).unwrap();
    assert!(s.len() <= s.capacity());
    let mut t = s.split_off(2);
    assert!(s.len() <= s.capacity());
    assert!(t.len() <= t.capacity());
    s.append(&mut t);
    assert!(s.len() <= s.capacity());
    s.retain(|c| *c != 'l');
    assert!(s.len() <= s.capacity());
    s.truncate(1);
    assert!(s.len() <= s.capacity());
    s.shrink_to_fit();
    assert!(s.len() <= s.capacity());
    s.clear();
    assert!(s.len() <= s.capacity());
}

#[test]
fn default_is_empty() {
    let s = String2::default();
    assert!(s.is_empty());
    assert_eq!(s.capacity(), 0);
}
