use mfj::ranking::{insert_ranked, precedes};

#[test]
fn higher_value_ranks_first_then_smaller_user() {
    assert!(precedes((1, 5), (2, 4)));
    assert!(!precedes((2, 4), (1, 5)));
    assert!(precedes((1, 5), (2, 5)));
    assert!(!precedes((2, 5), (1, 5)));
    assert!(!precedes((1, 5), (1, 5)));
    assert!(precedes((-3, 5), (1, 5)));
}

#[test]
fn insert_keeps_the_board_ranked() {
    let mut board = Vec::new();
    for entry in [(4, 2u64), (9, 7), (1, 2), (6, 1), (3, 7), (5, u64::MAX)] {
        insert_ranked(&mut board, entry);
    }
    assert_eq!(board, vec![(5, u64::MAX), (3, 7), (9, 7), (1, 2), (4, 2), (6, 1)]);
}
