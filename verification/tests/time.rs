use mfj::time::{cutoff_before, within_duration_weight, Span};

#[test]
fn cutoff_is_the_whole_second_that_lies_back() {
    assert_eq!(cutoff_before(Span::new(100, 0), Span::new(40, 0)), Some(60));
    assert_eq!(cutoff_before(Span::new(100, 5), Span::new(40, 6)), Some(59));
    assert_eq!(cutoff_before(Span::new(100, 5), Span::new(40, 5)), Some(60));
    assert_eq!(cutoff_before(Span::new(100, 0), Span::new(100, 0)), Some(0));
    assert_eq!(cutoff_before(Span::new(100, 0), Span::new(100, 1)), None);
    assert_eq!(cutoff_before(Span::new(0, 0), Span::new(0, 0)), Some(0));
    assert_eq!(cutoff_before(Span::new(99, 2_000_000_000), Span::new(0, 0)), Some(101));
}

#[test]
fn cutoff_beyond_the_signed_range_is_none() {
    let max = i64::MAX as u64;
    assert_eq!(cutoff_before(Span::new(max, 0), Span::new(0, 0)), Some(i64::MAX));
    assert_eq!(cutoff_before(Span::new(max + 1, 0), Span::new(0, 0)), None);
    assert_eq!(cutoff_before(Span::new(max + 1, 0), Span::new(1, 0)), Some(i64::MAX));
    assert_eq!(cutoff_before(Span::new(u64::MAX, 0), Span::new(u64::MAX, 0)), Some(0));
}

#[test]
fn weight_is_ten_to_the_digits_of_each_number() {
    assert!(within_duration_weight(""));
    assert!(within_duration_weight("2 hours"));
    assert!(within_duration_weight("1h 30min 15s 500ms 250us 100ns"));
    assert!(within_duration_weight("12345678901s"));
    assert!(within_duration_weight("12345678901s 12345678901s 12345678901s 12345678901s"));
    assert!(within_duration_weight("12345678901s 1s"));
    assert!(!within_duration_weight("123456789012s"));
    assert!(!within_duration_weight("1234 5678 9012s"));
    assert!(!within_duration_weight("1234.56789012s"));
    let five = "12345678901s 12345678901s 12345678901s 12345678901s 12345678901s";
    assert!(within_duration_weight(five));
    assert!(!within_duration_weight(&format!("{} 1s", five)));
    assert!(within_duration_weight("١٢٣١٢٣١٢٣١٢٣١٢٣"));
    assert!(!within_duration_weight("18446744073709551615s 1000ms"));
    assert!(within_duration_weight("12345678901µs 12345678901Ms"));
}
