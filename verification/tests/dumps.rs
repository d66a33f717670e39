use mfj::dumps::{comes_before, dump_file_name, find_dumps, is_dump};

fn names(list: &[&str]) -> Vec<String> {
    list.iter().map(|name| name.to_string()).collect()
}

#[test]
fn dumps_are_the_names_that_begin_with_messages() {
    assert!(is_dump("messages-2021-01-01.json.gz"));
    assert!(is_dump("messages"));
    assert!(!is_dump("message"));
    assert!(!is_dump("Messages-1"));
    assert!(!is_dump(".messages"));
    assert!(!is_dump(""));
}

#[test]
fn dumps_come_newest_first() {
    let found = find_dumps(&names(&[
        "messages-2021-03-01.json.gz",
        "notes.txt",
        "messages-2021-11-20.json.gz",
        "messages-2021-03-01.json.gz",
        "messages",
        "messages-2020-12-31.json.gz",
        "mess",
    ]));
    assert_eq!(
        found,
        names(&[
            "messages-2021-11-20.json.gz",
            "messages-2021-03-01.json.gz",
            "messages-2021-03-01.json.gz",
            "messages-2020-12-31.json.gz",
            "messages",
        ])
    );
    assert_eq!(find_dumps(&names(&["a", "b"])), names(&[]));
    assert_eq!(find_dumps(&names(&[])), names(&[]));
}

#[test]
fn text_order_is_that_of_std() {
    let samples = ["", "a", "ab", "b", "B", "aö", "az", "ä", "messages-1", "messages-10"];
    for a in samples {
        for b in samples {
            assert_eq!(comes_before(a, b), a <= b, "{:?} {:?}", a, b);
        }
    }
}

#[test]
fn a_new_snapshot_is_found_again() {
    let name = dump_file_name("2021-11-20 10:00:00.5 +02:00");
    assert_eq!(name, "messages-2021-11-20 10:00:00.5 +02:00.json.gz");
    assert!(is_dump(&name));
    assert_eq!(find_dumps(&vec![name.clone()]), vec![name]);
}
