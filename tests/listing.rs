use desk_monitor::listing::list_entries;
use desk_monitor::listing::name_precedes;
use desk_monitor::listing::ListError;
use desk_monitor::listing::NameCollector;
use desk_monitor::listing::ENTRY_LIMIT;
use desk_monitor::listing::LISTING_LIMIT;

fn present(names: &[&str]) -> Vec<Option<String>> {
    names.iter().map(|n| Some(n.to_string())).collect()
}

#[test]
fn five_entries_come_back_sorted() {
    let r = list_entries(present(&["b", "a", "d", "c", "e"]));
    assert_eq!(r, vec!["a", "b", "c", "d", "e"]);
}

#[test]
fn two_hundred_entries_keep_the_smallest_of_the_first_hundred() {
    // Read in descending order: the first hundred read are n199 down to n100.
    let entries: Vec<Option<String>> = (0..200).rev().map(|i| Some(format!("n{:03}", i))).collect();
    let r = list_entries(entries);
    assert_eq!(r.len(), 32);
    let expected: Vec<String> = (100..132).map(|i| format!("n{:03}", i)).collect();
    assert_eq!(r, expected);
    assert!(!r.contains(&"n000".to_string()));
}

#[test]
fn two_hundred_entries_in_ascending_order() {
    let entries: Vec<Option<String>> = (0..200).map(|i| Some(format!("n{:03}", i))).collect();
    let r = list_entries(entries);
    let expected: Vec<String> = (0..32).map(|i| format!("n{:03}", i)).collect();
    assert_eq!(r, expected);
}

#[test]
fn listing_never_exceeds_the_limit() {
    for n in [0usize, 1, 31, 32, 33, 99, 100, 101, 250] {
        let entries: Vec<Option<String>> = (0..n).map(|i| Some(format!("{}", n * 7 % 13 + i))).collect();
        let r = list_entries(entries);
        assert!(r.len() <= LISTING_LIMIT);
        assert_eq!(r.len(), n.min(LISTING_LIMIT));
    }
}

#[test]
fn listing_is_sorted_and_keeps_every_reported_name() {
    let r = list_entries(present(&["zeta", "alpha", "Beta", "alpha", "gamma"]));
    assert_eq!(r, vec!["Beta", "alpha", "alpha", "gamma", "zeta"]);
    for w in r.windows(2) {
        assert!(w[0] <= w[1]);
    }
}

#[test]
fn empty_directory_gives_empty_listing() {
    assert!(list_entries(Vec::new()).is_empty());
}

#[test]
fn unreadable_entries_are_skipped() {
    let r = list_entries(vec![Some("x".to_string()), None, Some("a".to_string()), None]);
    assert_eq!(r, vec!["a", "x"]);
}

#[test]
fn unreadable_entries_do_not_count_toward_the_entry_limit() {
    let mut entries: Vec<Option<String>> = vec![None; 150];
    entries.extend((0..40).rev().map(|i| Some(format!("f{:02}", i))));
    let r = list_entries(entries);
    let expected: Vec<String> = (0..32).map(|i| format!("f{:02}", i)).collect();
    assert_eq!(r, expected);
}

#[test]
fn names_past_the_entry_limit_are_not_considered() {
    let mut entries: Vec<Option<String>> = (0..100).map(|i| Some(format!("m{:03}", i))).collect();
    entries.push(Some("a".to_string()));
    let r = list_entries(entries);
    assert_eq!(r[0], "m000");
    assert!(!r.contains(&"a".to_string()));
}

#[test]
fn collector_stops_taking_at_the_entry_limit() {
    let mut c = NameCollector::new();
    for i in 0..ENTRY_LIMIT - 1 {
        assert!(c.offer(Some(format!("{:03}", i))));
        assert!(!c.is_full());
    }
    assert!(!c.offer(Some("last".to_string())));
    assert!(c.is_full());
    assert!(!c.offer(Some("0".to_string())));
    let r = c.finish();
    assert_eq!(r.len(), LISTING_LIMIT);
    assert_eq!(r[0], "000");
}

#[test]
fn collector_skips_unreadable_entries() {
    let mut c = NameCollector::new();
    assert!(c.offer(None));
    assert!(c.offer(Some("b".to_string())));
    assert!(c.offer(Some("a".to_string())));
    assert_eq!(c.finish(), vec!["a", "b"]);
}

#[test]
fn name_order_is_by_code_point() {
    assert!(name_precedes("a", "b"));
    assert!(!name_precedes("b", "a"));
    assert!(name_precedes("ab", "abc"));
    assert!(!name_precedes("abc", "ab"));
    assert!(name_precedes("B", "a"));
    assert!(name_precedes("z", "é"));
    assert!(name_precedes("same", "same"));
    assert!(name_precedes("", ""));
    assert!(name_precedes("", "x"));
}

#[test]
fn home_unavailable_message() {
    assert_eq!(ListError::HomeUnavailable.message(), "Unable to locate home directory");
}

#[test]
fn read_failed_message() {
    let e = ListError::ReadFailed { path: "/home/ana".to_string(), cause: "permission denied".to_string() };
    assert_eq!(e.message(), "Failed to read /home/ana: permission denied");
}
