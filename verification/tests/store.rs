use mfj::metadata_store::MetadataStore;
use mfj::time::Span;

fn fresh() -> MetadataStore {
    MetadataStore::new(None, Span::new(1800, 0), Span::new(0, 0))
}

#[test]
fn counts_every_message_of_a_chat() {
    let mut store = fresh();
    let now = Span::new(1, 0);
    store.add_message(100, 7, 1000, now);
    store.add_message(100, 7, 1010, now);
    store.add_message(100, 8, 1020, now);
    store.add_message(200, 7, 1030, now);
    let counts = store.get_message_counts_by_user(100, 0);
    assert_eq!(counts, vec![(7, 2), (8, 1)]);
    let total: usize = counts.iter().map(|e| e.1).sum();
    assert_eq!(total, 3);
    assert_eq!(store.get_message_counts_by_user(200, 0), vec![(7, 1)]);
    assert_eq!(store.get_message_counts_by_user(300, 0), vec![]);
}

#[test]
fn cutoff_is_strict() {
    let mut store = fresh();
    let now = Span::new(1, 0);
    store.add_message(100, 7, 1000, now);
    store.add_message(100, 7, 1010, now);
    store.add_message(100, 7, 1020, now);
    assert_eq!(store.get_message_counts_by_user(100, 999), vec![(7, 3)]);
    assert_eq!(store.get_message_counts_by_user(100, 1000), vec![(7, 2)]);
    assert_eq!(store.get_message_counts_by_user(100, 1019), vec![(7, 1)]);
    assert_eq!(store.get_message_counts_by_user(100, 1020), vec![]);
}

#[test]
fn timestamps_at_or_below_zero_are_not_counted_from_zero() {
    let mut store = fresh();
    let now = Span::new(1, 0);
    store.add_message(100, 7, 0, now);
    store.add_message(100, 7, -5, now);
    store.add_message(100, 7, 5, now);
    assert_eq!(store.get_message_counts_by_user(100, 0), vec![(7, 1)]);
    assert_eq!(store.get_message_counts_by_user(100, -6), vec![(7, 3)]);
}

#[test]
fn counts_are_ordered_by_count_then_user() {
    let mut store = fresh();
    let now = Span::new(1, 0);
    for user in [5, 3, 9, 1] {
        store.add_message(100, user, 10, now);
    }
    store.add_message(100, 9, 11, now);
    store.add_message(100, 9, 12, now);
    store.add_message(100, 3, 13, now);
    assert_eq!(
        store.get_message_counts_by_user(100, 0),
        vec![(9, 3), (3, 2), (1, 1), (5, 1)]
    );
}

#[test]
fn scores_count_up_from_zero() {
    let mut store = fresh();
    let now = Span::new(1, 0);
    assert_eq!(store.get_scores_by_user("kesko", 100), vec![]);
    store.add_keyword_point("kesko", 100, 7, now);
    assert_eq!(store.get_scores_by_user("kesko", 100), vec![(7, 1)]);
    store.add_keyword_point("kesko", 100, 7, now);
    assert_eq!(store.get_scores_by_user("kesko", 100), vec![(7, 2)]);
    store.add_keyword_point("kesko", 100, 8, now);
    store.add_keyword_point("lidl", 100, 8, now);
    store.add_keyword_point("kesko", 200, 9, now);
    assert_eq!(store.get_scores_by_user("kesko", 100), vec![(7, 2), (8, 1)]);
    assert_eq!(store.get_scores_by_user("lidl", 100), vec![(8, 1)]);
    assert_eq!(store.get_scores_by_user("kesko", 200), vec![(9, 1)]);
    assert_eq!(store.get_scores_by_user("kesko", 300), vec![]);
    assert_eq!(store.get_scores_by_user("Kesko", 100), vec![]);
}

#[test]
fn user_name_is_last_write_wins() {
    let mut store = fresh();
    assert_eq!(store.get_user_name(7), None);
    store.add_user_name(7, "Ann".to_string(), Span::new(1, 0));
    assert_eq!(store.get_user_name(7), Some("Ann"));
    store.add_user_name(7, "Ann B".to_string(), Span::new(1, 0));
    assert_eq!(store.get_user_name(7), Some("Ann B"));
    assert_eq!(store.get_user_name(8), None);
}

#[test]
fn flush_is_due_only_after_the_interval() {
    let mut store = MetadataStore::new(None, Span::new(60, 0), Span::new(100, 0));
    assert!(!store.add_message(1, 1, 1, Span::new(160, 0)));
    assert!(store.add_message(1, 1, 2, Span::new(160, 1)));
    assert!(!store.add_message(1, 1, 3, Span::new(161, 0)));
    assert!(!store.add_keyword_point("kesko", 1, 1, Span::new(220, 1)));
    assert!(store.add_keyword_point("kesko", 1, 1, Span::new(220, 2)));
    assert!(!store.flush_due(Span::new(0, 0)));
    assert!(!store.add_user_name(1, "a".to_string(), Span::new(280, 2)));
    assert!(store.add_user_name(1, "b".to_string(), Span::new(280, 3)));
    assert!(!store.add_user_name(1, "c".to_string(), Span::new(280, 3)));
    assert_eq!(store.get_user_name(1), Some("c"));
    assert_eq!(store.get_message_counts_by_user(1, 0), vec![(1, 3)]);
}

#[test]
fn snapshot_is_a_copy_of_its_own() {
    let mut store = fresh();
    let now = Span::new(1, 0);
    store.add_message(100, 7, 10, now);
    store.add_keyword_point("kesko", 100, 7, now);
    store.add_user_name(7, "Ann".to_string(), now);
    let copy = store.content().snapshot();
    store.add_message(100, 7, 11, now);
    store.add_keyword_point("kesko", 100, 7, now);
    store.add_user_name(7, "Anna".to_string(), now);
    assert_eq!(copy.timestamps_by_chat_user()[&100][&7], vec![10]);
    assert_eq!(copy.keyword_scores_by_keyword_chat_user()[0].0, "kesko");
    assert_eq!(copy.keyword_scores_by_keyword_chat_user()[0].1[&100][&7], 1);
    assert_eq!(copy.user_names()[&7], "Ann");
    assert_eq!(store.get_message_counts_by_user(100, 0), vec![(7, 2)]);
}
