use db_checksum::range::{resolve_range, KeyRange};
use db_checksum::walk::{get_checksum, ProgressSink, Record, SilentProgress, WalkResult};

fn rec(key: &[u8], value: &[u8]) -> Record {
    Record { key: key.to_vec(), value: value.to_vec() }
}

fn three_record_table() -> Vec<Record> {
    vec![rec(&[1], b"a"), rec(&[2], b"b"), rec(&[3], b"c")]
}

fn run(table: &Vec<Record>, range: &KeyRange, limit: Option<usize>) -> WalkResult {
    let mut sink = SilentProgress;
    get_checksum(table, range, limit, &mut sink)
}

#[test]
fn unbounded_no_limit_visits_all() {
    let table = three_record_table();
    let range = resolve_range(None, None);
    let res = run(&table, &range, None);
    assert_eq!(res.record_count, 3);
    assert_eq!(res.first_key, Some(vec![1]));
    assert_eq!(res.end_key, Some(vec![3]));
}

#[test]
fn checksum_is_reproducible() {
    let table = three_record_table();
    let range = resolve_range(None, None);
    let a = run(&table, &range, None);
    let b = run(&table, &range, None);
    assert_eq!(a.checksum, b.checksum);
    assert_eq!(a.record_count, b.record_count);
    assert_eq!(a.first_key, b.first_key);
    assert_eq!(a.end_key, b.end_key);
}

#[test]
fn start_key_only_visits_to_table_end() {
    let table = three_record_table();
    let range = resolve_range(Some(vec![2]), None);
    let res = run(&table, &range, None);
    assert_eq!(res.record_count, 2);
    assert_eq!(res.first_key, Some(vec![2]));
    assert_eq!(res.end_key, Some(vec![3]));
}

#[test]
fn end_key_only_visits_from_table_start() {
    let table = three_record_table();
    let range = resolve_range(None, Some(vec![2]));
    let res = run(&table, &range, None);
    assert_eq!(res.record_count, 2);
    assert_eq!(res.first_key, Some(vec![1]));
    assert_eq!(res.end_key, Some(vec![2]));
}

#[test]
fn limit_truncates_after_exactly_limit_records() {
    let table = three_record_table();
    let range = resolve_range(None, None);
    let res = run(&table, &range, Some(2));
    assert_eq!(res.record_count, 2);
    assert_eq!(res.first_key, Some(vec![1]));
    assert_eq!(res.end_key, Some(vec![2]));
}

#[test]
fn limit_zero_visits_nothing() {
    let table = three_record_table();
    let range = resolve_range(None, None);
    let res = run(&table, &range, Some(0));
    assert_eq!(res.record_count, 0);
    assert_eq!(res.first_key, None);
    assert_eq!(res.end_key, None);
}

#[test]
fn limit_above_table_size_visits_all() {
    let table = three_record_table();
    let range = resolve_range(None, None);
    let res = run(&table, &range, Some(10));
    assert_eq!(res.record_count, 3);
    assert_eq!(res.end_key, Some(vec![3]));
}

#[test]
fn limit_checksum_matches_prefix_walk() {
    // Stopping at the limit makes exactly the write calls of the visited
    // prefix.
    let full = three_record_table();
    let prefix = vec![rec(&[1], b"a"), rec(&[2], b"b")];
    let range = resolve_range(None, None);
    let limited = run(&full, &range, Some(2));
    let whole_prefix = run(&prefix, &range, None);
    assert_eq!(limited.checksum, whole_prefix.checksum);
}

#[test]
fn bounded_range_includes_both_endpoints() {
    let table = three_record_table();
    let range = resolve_range(Some(vec![1]), Some(vec![3]));
    let res = run(&table, &range, None);
    assert_eq!(res.record_count, 3);
    assert_eq!(res.first_key, Some(vec![1]));
    assert_eq!(res.end_key, Some(vec![3]));
}

#[test]
fn bounded_range_excludes_keys_outside() {
    let table = three_record_table();
    // Keys 1 and 3 lie just outside [2, 2]: only key 2 is visited.
    let range = resolve_range(Some(vec![2]), Some(vec![2]));
    let res = run(&table, &range, None);
    assert_eq!(res.record_count, 1);
    assert_eq!(res.first_key, Some(vec![2]));
    assert_eq!(res.end_key, Some(vec![2]));
}

#[test]
fn inverted_range_yields_zero_records_not_error() {
    let table = three_record_table();
    let range = resolve_range(Some(vec![3]), Some(vec![1]));
    let res = run(&table, &range, None);
    assert_eq!(res.record_count, 0);
    assert_eq!(res.first_key, None);
    assert_eq!(res.end_key, None);
    // The checksum is the seeded-but-unfed accumulator's value: the same one
    // an empty table produces.
    let empty: Vec<Record> = Vec::new();
    let unbounded = resolve_range(None, None);
    let seeded_empty = run(&empty, &unbounded, None);
    assert_eq!(res.checksum, seeded_empty.checksum);
}

#[test]
fn empty_table_reports_no_keys() {
    let empty: Vec<Record> = Vec::new();
    let range = resolve_range(None, None);
    let res = run(&empty, &range, None);
    assert_eq!(res.record_count, 0);
    assert_eq!(res.first_key, None);
    assert_eq!(res.end_key, None);
}

#[test]
fn visitation_order_changes_checksum() {
    let forward = vec![rec(&[1], b"a"), rec(&[2], b"b")];
    let backward = vec![rec(&[2], b"b"), rec(&[1], b"a")];
    let range = resolve_range(None, None);
    let a = run(&forward, &range, None);
    let b = run(&backward, &range, None);
    assert_eq!(a.record_count, b.record_count);
    assert_ne!(a.checksum, b.checksum);
}

#[test]
fn value_bytes_reach_the_checksum() {
    let one = vec![rec(&[1], b"a")];
    let other = vec![rec(&[1], b"x")];
    let range = resolve_range(None, None);
    assert_ne!(run(&one, &range, None).checksum, run(&other, &range, None).checksum);
}

#[test]
fn key_bytes_reach_the_checksum() {
    let one = vec![rec(&[1], b"a")];
    let other = vec![rec(&[2], b"a")];
    let range = resolve_range(None, None);
    assert_ne!(run(&one, &range, None).checksum, run(&other, &range, None).checksum);
}

#[test]
fn nonempty_walk_differs_from_seeded_empty() {
    let table = three_record_table();
    let empty: Vec<Record> = Vec::new();
    let range = resolve_range(None, None);
    assert_ne!(run(&table, &range, None).checksum, run(&empty, &range, None).checksum);
}

#[test]
fn resolve_range_picks_the_right_variant() {
    assert!(matches!(resolve_range(None, None), KeyRange::Unbounded));
    assert!(matches!(resolve_range(Some(vec![1]), None), KeyRange::FromStart(s) if s == vec![1]));
    assert!(matches!(resolve_range(None, Some(vec![2])), KeyRange::ToEnd(e) if e == vec![2]));
    assert!(matches!(
        resolve_range(Some(vec![1]), Some(vec![2])),
        KeyRange::Bounded(s, e) if s == vec![1] && e == vec![2]
    ));
}

#[test]
fn contains_key_is_inclusive_and_lexicographic() {
    let range = KeyRange::Bounded(vec![2], vec![5]);
    assert!(range.contains_key(&[2]));
    assert!(range.contains_key(&[5]));
    assert!(range.contains_key(&[3, 200]));
    // A key that extends the start key follows it lexicographically.
    assert!(range.contains_key(&[2, 0]));
    assert!(!range.contains_key(&[1]));
    assert!(!range.contains_key(&[1, 255]));
    assert!(!range.contains_key(&[5, 0]));
    assert!(!range.contains_key(&[6]));
    // The empty key precedes every nonempty key.
    assert!(!range.contains_key(&[]));
    assert!(KeyRange::ToEnd(vec![2]).contains_key(&[]));
}

struct CountingSink {
    reports: Vec<usize>,
}

impl ProgressSink for CountingSink {
    fn report(&mut self, visited: usize) {
        self.reports.push(visited);
    }
}

#[test]
fn progress_reports_at_interval_start() {
    let table = three_record_table();
    let range = resolve_range(None, None);
    let mut sink = CountingSink { reports: Vec::new() };
    let res = get_checksum(&table, &range, None, &mut sink);
    assert_eq!(res.record_count, 3);
    // Three visited records: only the first one hits the 100000 interval.
    assert_eq!(sink.reports, vec![0]);
}

#[test]
fn write_call_boundaries_reach_the_checksum() {
    // The hasher folds each write call's length into its state, so the same
    // flattened bytes split differently between key and value must not
    // collide: one record (key [1], value [2]) against (key [1,2], value []).
    let split = vec![rec(&[1], &[2])];
    let merged = vec![rec(&[1, 2], b"")];
    let range = resolve_range(None, None);
    assert_ne!(run(&split, &range, None).checksum, run(&merged, &range, None).checksum);
}
