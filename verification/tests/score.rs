use bench_rs::score::Score;

#[test]
fn test_set() {
    let mut score = Score::new();
    score.add_point_table("a", 1);
    score.add_point_table("b", 2);
    score.add_point_table("c", 3);

    assert_eq!(score.point("a").unwrap(), 1);
    assert_eq!(score.point("b").unwrap(), 2);
    assert_eq!(score.point("c").unwrap(), 3);
}

#[test]
fn score_test_record() {
    let mut score = Score::new();
    score.record("a");
    score.record("b");
    score.record("c");

    assert_eq!(score.records()[0], "a");
    assert_eq!(score.records()[1], "b");
    assert_eq!(score.records()[2], "c");
}

#[test]
fn test_total() {
    let mut score = Score::new();
    score.add_point_table("a", 1);
    score.add_point_table("b", 2);
    score.add_point_table("c", 3);
    score.record("a");
    score.record("b");
    score.record("c");

    assert_eq!(score.total(), 6);
}

#[test]
fn new_score_is_empty() {
    let score = Score::new();
    assert_eq!(score.records().len(), 0);
    assert_eq!(score.point("a"), None);
    assert_eq!(score.total(), 0);
    assert_eq!(score.checked_total(), Some(0));
}

#[test]
fn later_table_entry_replaces_earlier() {
    let mut score = Score::new();
    score.add_point_table("a", 1);
    score.add_point_table("b", 2);
    score.add_point_table("a", 10);
    score.record("a");
    score.record("b");
    score.record("a");

    assert_eq!(score.point("a"), Some(10));
    assert_eq!(score.point("b"), Some(2));
    assert_eq!(score.total(), 22);
}

#[test]
fn unknown_event_counts_as_zero() {
    let mut score = Score::new();
    score.add_point_table("a", 5);
    score.record("a");
    score.record("missing");
    score.record("a");

    assert_eq!(score.point("missing"), None);
    assert_eq!(score.total(), 10);
    assert_eq!(score.checked_total(), Some(10));
}

#[test]
fn table_change_after_record_changes_total() {
    let mut score = Score::new();
    score.record("a");
    assert_eq!(score.total(), 0);
    score.add_point_table("a", 4);
    assert_eq!(score.total(), 4);
}

#[test]
fn total_does_not_depend_on_record_order() {
    let mut first = Score::new();
    let mut second = Score::new();
    for score in [&mut first, &mut second] {
        score.add_point_table("a", 1);
        score.add_point_table("b", 20);
        score.add_point_table("c", 300);
    }
    first.record("a");
    first.record("b");
    first.record("c");
    second.record("c");
    second.record("a");
    second.record("b");

    assert_eq!(first.total(), 321);
    assert_eq!(second.total(), 321);
}

#[test]
fn checked_total_reports_overflow() {
    let mut score = Score::new();
    score.add_point_table("big", usize::MAX);
    score.add_point_table("one", 1);
    score.record("big");
    assert_eq!(score.checked_total(), Some(usize::MAX));
    assert_eq!(score.total(), usize::MAX);
    score.record("one");
    assert_eq!(score.checked_total(), None);
}

#[test]
fn checked_total_reports_overflow_in_the_middle() {
    let mut score = Score::new();
    score.add_point_table("big", usize::MAX);
    score.add_point_table("zero", 0);
    score.record("big");
    score.record("big");
    score.record("zero");
    assert_eq!(score.checked_total(), None);
}

#[test]
fn clone_of_score_is_independent() {
    let mut score = Score::new();
    score.add_point_table("a", 1);
    score.record("a");
    let mut copy = score.clone();
    copy.record("a");
    copy.add_point_table("b", 7);

    assert_eq!(score.total(), 1);
    assert_eq!(copy.total(), 2);
    assert_eq!(score.point("b"), None);
    assert_eq!(copy.point("b"), Some(7));
    assert_eq!(copy.records().len(), 2);
}

#[test]
fn empty_name_is_a_name() {
    let mut score = Score::new();
    score.add_point_table("", 3);
    score.record("");
    assert_eq!(score.point(""), Some(3));
    assert_eq!(score.total(), 3);
}
