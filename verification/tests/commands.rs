use mfj::commands::command_scores;
use mfj::commands::command_stats;
use mfj::commands::{convert_time, convert_time_at, CommandInvocation, CommandProcedure};
use mfj::metadata_store::MetadataStore;
use mfj::time::Span;

fn fresh() -> MetadataStore {
    MetadataStore::new(None, Span::new(1800, 0), Span::new(0, 0))
}

const T: i64 = 1_700_000_000;

#[test]
fn stats_report_for_one_user() {
    let mut store = fresh();
    let now = Span::new(1, 0);
    store.add_user_name(7, "Ann".to_string(), Span::new(1, 0));
    store.add_message(100, 7, T, now);
    store.add_message(100, 7, T + 10, now);
    store.add_message(100, 7, T + 20, now);
    let text = command_stats::render_at("/tilasto", 100, &mut store, Span::new(1_700_000_100, 0));
    assert_eq!(text, "Viestejä yhteensä kaikki: 3\n\nAnn: 3 (100.0%)\n");
    let by_clock = command_stats::render("/tilasto", 100, &mut store);
    assert_eq!(by_clock, text);
}

#[test]
fn stats_report_with_window_and_shares() {
    let mut store = fresh();
    let now = Span::new(1, 0);
    store.add_user_name(7, "Ann".to_string(), Span::new(1, 0));
    store.add_message(100, 7, T - 7200, now);
    store.add_message(100, 7, T - 10, now);
    store.add_message(100, 8, T - 20, now);
    store.add_message(100, 8, T - 30, now);
    store.add_message(100, -9, T - 40, now);
    let text = command_stats::render_at("/tilasto 1 hour", 100, &mut store, Span::new(T as u64, 0));
    assert_eq!(
        text,
        "Viestejä yhteensä 1 hour: 4\n\n8: 2 (50.0%)\n-9: 1 (25.0%)\nAnn: 1 (25.0%)\n"
    );
    let all = command_stats::render_at("/tilasto", 100, &mut store, Span::new(T as u64, 0));
    assert_eq!(
        all,
        "Viestejä yhteensä kaikki: 5\n\n7: 2 (40.0%)\n"
            .replace("7: 2", "Ann: 2")
            .to_string()
            + "8: 2 (40.0%)\n-9: 1 (20.0%)\n"
    );
}

#[test]
fn stats_report_of_an_empty_chat_has_no_lines() {
    let mut store = fresh();
    let text = command_stats::render_at("/tilasto", 100, &mut store, Span::new(5, 0));
    assert_eq!(text, "Viestejä yhteensä kaikki: 0\n\n");
}

#[test]
fn scores_usage_hint_without_argument() {
    let mut store = fresh();
    store.add_keyword_point("kesko", 100, 7, Span::new(1, 0));
    let text = command_scores::render("/pisteet", 100, &mut store);
    assert_eq!(text, "Käyttöohje: /pisteet sana");
    assert_eq!(store.get_scores_by_user("kesko", 100), vec![(7, 1)]);
    assert_eq!(store.get_message_counts_by_user(100, 0), vec![]);
}

#[test]
fn scores_usage_hint_unless_exactly_one_keyword() {
    let mut store = fresh();
    store.add_keyword_point("kesko", 100, 7, Span::new(1, 0));
    store.add_keyword_point("", 100, 7, Span::new(1, 0));
    store.add_keyword_point("a b", 100, 7, Span::new(1, 0));
    for command in ["/pisteet", "/pisteet ", "/pisteet \u{a0}\t", "/pisteet a b", " kesko x", ""] {
        assert_eq!(
            command_scores::render(command, 100, &mut store),
            "Käyttöohje: /pisteet sana",
            "{:?}",
            command
        );
    }
}

#[test]
fn scores_report_lists_points() {
    let mut store = fresh();
    let now = Span::new(1, 0);
    store.add_user_name(7, "Ann".to_string(), Span::new(1, 0));
    store.add_keyword_point("kesko", 100, 7, now);
    store.add_keyword_point("kesko", 100, 7, now);
    store.add_keyword_point("kesko", 100, 12, now);
    assert_eq!(
        command_scores::render("/pisteet kesko", 100, &mut store),
        "Pisteet sanalle kesko:\n\nAnn: 2\n12: 1\n"
    );
    assert_eq!(
        command_scores::render("/pisteet muu", 100, &mut store),
        "Ei pisteitä sanalle muu."
    );
    assert_eq!(
        command_scores::render("/pisteet \t kesko \n", 100, &mut store),
        "Pisteet sanalle kesko:\n\nAnn: 2\n12: 1\n"
    );
    assert_eq!(
        command_scores::render("/pisteet Kesko", 100, &mut store),
        "Ei pisteitä sanalle Kesko."
    );
}

#[test]
fn convert_time_at_reads_durations() {
    let now = Span::new(1_000_000, 500);
    assert_eq!(convert_time_at("/tilasto 2 hours", now), Some((1_000_000 - 7200, "2 hours")));
    assert_eq!(convert_time_at("/tilasto   3days  ", now), Some((1_000_000 - 259_200, "3days")));
    assert_eq!(convert_time_at("/tilasto 1s 600ns", now), Some((999_998, "1s 600ns")));
    assert_eq!(convert_time_at("/tilasto 1s 500ns", now), Some((999_999, "1s 500ns")));
    assert_eq!(convert_time_at("/tilasto", now), None);
    assert_eq!(convert_time_at("/tilasto soon", now), None);
    assert_eq!(convert_time_at("", now), None);
    assert_eq!(convert_time_at("/tilasto 1000000s 501ns", now), None);
    assert_eq!(convert_time_at("/tilasto 1000000s 500ns", now), Some((0, "1000000s 500ns")));
    assert_eq!(convert_time_at("/tilasto 2 years", now), None);
}

#[test]
fn convert_time_at_leaves_long_numbers_unread() {
    let now = Span::new(u64::MAX, 0);
    let late = Span::new(1 << 40, 0);
    assert_eq!(
        convert_time_at("/tilasto 12345678901s", late),
        Some(((1 << 40) - 12345678901, "12345678901s"))
    );
    assert_eq!(convert_time_at("/tilasto 123456789012s", late), None);
    assert_eq!(convert_time_at("/tilasto 0000000000001s", late), None);
    let many = "/tilasto 1h 30min 15s 500ms 250us 100ns";
    assert_eq!(
        convert_time_at(many, Span::new(10_000, 0)),
        Some((10_000 - 5416, "1h 30min 15s 500ms 250us 100ns"))
    );
    assert_eq!(convert_time_at("/tilasto 18446744073709551615s 1000ms", now), None);
    assert_eq!(convert_time_at("/tilasto 1s", now), None);
}

#[test]
fn convert_time_uses_the_clock() {
    assert_eq!(convert_time("/tilasto"), None);
    let (cutoff, label) = convert_time("/tilasto 1 hour").unwrap();
    assert_eq!(label, "1 hour");
    assert!(cutoff > 1_600_000_000);
}

#[test]
fn invocation_runs_its_procedure() {
    let mut store = fresh();
    store.add_message(5, 1, 10, Span::new(1, 0));
    store.add_keyword_point("kesko", 5, 1, Span::new(1, 0));
    let stats = CommandInvocation {
        procedure: CommandProcedure::Stats,
        command_string: "/tilasto".to_string(),
        chat_id: 5,
    };
    let scores = CommandInvocation {
        procedure: CommandProcedure::Scores,
        command_string: "/pisteet kesko".to_string(),
        chat_id: 5,
    };
    let report = "Viestejä yhteensä kaikki: 1\n\n1: 1 (100.0%)\n";
    assert_eq!(stats.run_at(&mut store, Span::new(100, 0)), report);
    assert_eq!(stats.run(&mut store), report);
    assert_eq!(scores.run_at(&mut store, Span::new(100, 0)), "Pisteet sanalle kesko:\n\n1: 1\n");
    assert_eq!(scores.run(&mut store), "Pisteet sanalle kesko:\n\n1: 1\n");
}

#[test]
fn convert_time_at_takes_the_text_after_the_first_whitespace() {
    let now = Span::new(1_000_000, 0);
    assert_eq!(convert_time_at("/tilasto\t\n 1 min \u{3000}", now), Some((999_940, "1 min")));
    assert_eq!(convert_time_at(" 1 min", now), Some((999_940, "1 min")));
    assert_eq!(convert_time_at("ä 1 min", now), Some((999_940, "1 min")));
    assert_eq!(convert_time_at("1min", now), None);
    assert_eq!(convert_time_at("/tilasto 1 minä", now), None);
    assert_eq!(convert_time_at("/tilasto ", now), None);
    assert_eq!(convert_time_at("/tilasto 0", now), Some((1_000_000, "0")));
}
