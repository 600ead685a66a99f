use horst3::cache::{
    file_times_after_touch, is_entry_file_name, join_path_exec, order_by_access_time,
    plan_eviction, CacheEntry,
};

fn entry(name: &str, atime: u64, size: u64) -> CacheEntry {
    CacheEntry { atime, path: format!("/cache/{}", name), size }
}

fn names(v: &[CacheEntry]) -> Vec<String> {
    v.iter().map(|e| e.path.clone()).collect()
}

#[test]
fn test_cache() {
    // budget of two bytes; one-byte entries read at times 1 and 2
    let budget = 2;
    let ordered = order_by_access_time(vec![]);
    assert!(ordered.is_empty());

    let ordered = order_by_access_time(vec![entry("test1", 1, 1)]);
    assert_eq!(names(&ordered), vec!["/cache/test1"]);

    let ordered = order_by_access_time(vec![entry("test2", 2, 1), entry("test1", 1, 1)]);
    assert_eq!(names(&ordered), vec!["/cache/test1", "/cache/test2"]);

    // can't make space for a file that's bigger than the cache
    let plan = plan_eviction(budget, 3, &ordered);
    assert!(!plan.made_space);
    assert_eq!(plan.num_to_delete, 0);

    // this deletes test1 only
    let plan = plan_eviction(budget, 1, &ordered);
    assert!(plan.made_space);
    assert_eq!(plan.num_to_delete, 1);
    assert_eq!(names(&ordered[plan.num_to_delete..]), vec!["/cache/test2"]);
}

#[test]
fn equal_access_times_keep_every_entry() {
    let ordered = order_by_access_time(vec![
        entry("b", 5, 1),
        entry("a", 5, 2),
        entry("c", 3, 4),
        entry("d", 5, 8),
    ]);
    assert_eq!(ordered.len(), 4);
    assert_eq!(ordered[0].path, "/cache/c");
    let mut rest = names(&ordered[1..]);
    rest.sort();
    assert_eq!(rest, vec!["/cache/a", "/cache/b", "/cache/d"]);
    assert!(ordered.windows(2).all(|w| w[0].atime <= w[1].atime));
}

#[test]
fn eviction_takes_fewest_oldest_entries() {
    let ordered = order_by_access_time(vec![
        entry("new", 30, 10),
        entry("old", 10, 3),
        entry("mid", 20, 4),
    ]);
    let plan = plan_eviction(100, 5, &ordered);
    assert!(plan.made_space);
    assert_eq!(plan.num_to_delete, 2);
    assert_eq!(names(&ordered[..2]), vec!["/cache/old", "/cache/mid"]);
    let plan = plan_eviction(100, 3, &ordered);
    assert_eq!((plan.made_space, plan.num_to_delete), (true, 1));
}

#[test]
fn eviction_of_everything_that_is_not_enough_fails() {
    let ordered = order_by_access_time(vec![entry("a", 1, 1), entry("b", 2, 1)]);
    let plan = plan_eviction(10, 5, &ordered);
    assert_eq!((plan.made_space, plan.num_to_delete), (false, 2));
    let plan = plan_eviction(10, 1, &order_by_access_time(vec![]));
    assert_eq!((plan.made_space, plan.num_to_delete), (false, 0));
}

#[test]
fn eviction_of_zero_bytes_deletes_nothing() {
    let ordered = order_by_access_time(vec![entry("a", 1, 0), entry("b", 2, 7)]);
    let plan = plan_eviction(10, 0, &ordered);
    assert_eq!((plan.made_space, plan.num_to_delete), (true, 0));
    let plan = plan_eviction(10, 0, &order_by_access_time(vec![]));
    assert_eq!((plan.made_space, plan.num_to_delete), (true, 0));
}

#[test]
fn eviction_sum_saturates_instead_of_overflowing() {
    let ordered = order_by_access_time(vec![entry("a", 1, u64::MAX), entry("b", 2, u64::MAX)]);
    let plan = plan_eviction(u64::MAX, u64::MAX, &ordered);
    assert_eq!((plan.made_space, plan.num_to_delete), (true, 1));
}

#[test]
fn touch_sets_access_time_and_keeps_modification_time() {
    assert_eq!(file_times_after_touch(1700, (5, 42)), (1700, 42));
    assert_eq!(file_times_after_touch(0, (9, 9)), (0, 9));
}

#[test]
fn lock_marker_is_not_an_entry() {
    assert!(!is_entry_file_name("lock"));
    assert!(is_entry_file_name("lock.tmp"));
    assert!(is_entry_file_name("0123456789abcdef0123456789abcdef"));
    assert!(is_entry_file_name("Lock"));
    assert!(is_entry_file_name(""));
}

#[test]
fn paths_join_like_unix_paths() {
    assert_eq!(join_path_exec("/var/cache", "abc"), "/var/cache/abc");
    assert_eq!(join_path_exec("/var/cache/", "abc"), "/var/cache/abc");
    assert_eq!(join_path_exec("", "abc"), "abc");
    assert_eq!(join_path_exec("/var/cache", "/etc/x"), "/etc/x");
    assert_eq!(join_path_exec("/var/cache", "abc.tmp"), "/var/cache/abc.tmp");
}
