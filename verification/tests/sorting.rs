use tenutoc::ir::{AtomicEvent, EventKind};
use tenutoc::sorting::sort_by_tick;
use tenutoc::text::{
    comes_before, contains_chars, from_chars, index_of, parse_decimal, same_text, to_chars,
};

fn at(tick: u64, mark: u64) -> AtomicEvent {
    AtomicEvent { tick, duration_ticks: mark, kind: EventKind::Rest }
}

#[test]
fn sort_is_ascending_and_stable() {
    let v = vec![at(5, 0), at(1, 1), at(5, 2), at(0, 3), at(1, 4), at(5, 5), at(0, 6)];
    assert_eq!(
        sort_by_tick(&v),
        vec![at(0, 3), at(0, 6), at(1, 1), at(1, 4), at(5, 0), at(5, 2), at(5, 5)]
    );
}

#[test]
fn sort_of_little() {
    assert_eq!(sort_by_tick(&Vec::<AtomicEvent>::new()), vec![]);
    assert_eq!(sort_by_tick(&vec![at(9, 9)]), vec![at(9, 9)]);
    let sorted = vec![at(1, 0), at(1, 1), at(2, 2)];
    assert_eq!(sort_by_tick(&sorted), sorted);
}

#[test]
fn decimal_numbers() {
    let v = to_chars("x120y");
    assert_eq!(parse_decimal(&v, 1, 4, 255), Some(120));
    assert_eq!(parse_decimal(&v, 1, 4, 119), None);
    assert_eq!(parse_decimal(&v, 1, 4, 120), Some(120));
    assert_eq!(parse_decimal(&v, 0, 4, 255), None);
    assert_eq!(parse_decimal(&v, 2, 2, 255), None);
    let big = to_chars("18446744073709551615");
    assert_eq!(parse_decimal(&big, 0, big.len(), u64::MAX), Some(u64::MAX));
    let bigger = to_chars("18446744073709551616");
    assert_eq!(parse_decimal(&bigger, 0, bigger.len(), u64::MAX), None);
    let zeros = to_chars("0007");
    assert_eq!(parse_decimal(&zeros, 0, 4, 7), Some(7));
}

#[test]
fn characters_and_back() {
    let v = to_chars("héllo");
    assert_eq!(v, vec!['h', 'é', 'l', 'l', 'o']);
    assert_eq!(from_chars(&v, 1, 4), "éll");
    assert_eq!(from_chars(&v, 2, 2), "");
    assert_eq!(index_of(&v, 'l', 0), 2);
    assert_eq!(index_of(&v, 'l', 3), 3);
    assert_eq!(index_of(&v, 'z', 0), 5);
}

#[test]
fn order_of_strings() {
    let lt = |a: &str, b: &str| comes_before(&to_chars(a), &to_chars(b));
    assert!(lt("a", "b"));
    assert!(!lt("b", "a"));
    assert!(!lt("a", "a"));
    assert!(lt("", "a"));
    assert!(lt("ab", "abc"));
    assert!(!lt("abc", "ab"));
    assert!(lt("Z", "a"));
    assert!(lt("z", "é"));
    for (a, b) in [("vln", "vla"), ("x", "xy"), ("", ""), ("é", "e"), ("a1", "a10")] {
        assert_eq!(lt(a, b), a < b);
        assert_eq!(lt(b, a), b < a);
    }
}

#[test]
fn substrings() {
    let has = |h: &str, n: &str| contains_chars(&to_chars(h), &to_chars(n));
    assert!(has("grand piano", "piano"));
    assert!(has("piano", "piano"));
    assert!(has("xpianox", "piano"));
    assert!(!has("pian", "piano"));
    assert!(!has("pianx piaon", "piano"));
    assert!(has("abc", ""));
    assert!(has("", ""));
    assert!(!has("", "a"));
    assert!(same_text("abc", "abc"));
    assert!(!same_text("abc", "abd"));
    assert!(!same_text("abc", "ab"));
}
