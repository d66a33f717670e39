use mfj::bot::{Message, PollRequest, StatsBot, Step, Update, User};
use mfj::commands::CommandProcedure;
use mfj::metadata_store::MetadataStore;
use mfj::time::Span;

const T: i64 = 1_700_000_000;

fn bot() -> StatsBot {
    let store = MetadataStore::new(None, Span::new(1800, 0), Span::new(0, 0));
    StatsBot::new(
        "https://api.example/botX",
        Span::new(60, 0),
        store,
        vec!["kesko".to_string()],
    )
}

fn ann() -> User {
    User { id: 7, first_name: "Ann".to_string(), last_name: None, username: None }
}

fn text_from(user: User, chat_id: i64, date: i64, text: &str) -> Update {
    Update {
        update_id: 1,
        message: Some(Message {
            chat_id,
            from: user,
            date,
            text: Some(text.to_string()),
            entities: vec![],
        }),
    }
}

fn command_from(user: User, chat_id: i64, date: i64, text: &str) -> Update {
    Update {
        update_id: 1,
        message: Some(Message {
            chat_id,
            from: user,
            date,
            text: Some(text.to_string()),
            entities: vec!["mention".to_string(), "bot_command".to_string()],
        }),
    }
}

fn command(bot: &mut StatsBot, date: i64, text: &str) -> Step {
    bot.process_update(&command_from(ann(), 100, date, text), now(), clock())
}

fn now() -> Span {
    Span::new(T as u64 + 1000, 0)
}

fn clock() -> Span {
    Span::new(5, 0)
}

#[test]
fn three_messages_then_stats() {
    let mut bot = bot();
    for k in 0..3 {
        let step = bot.process_update(&text_from(ann(), 100, T + 10 * k, "hello"), now(), clock());
        match step {
            Step::Ordinary { chat_id, confirmations, refresh, flush } => {
                assert_eq!(chat_id, 100);
                assert!(confirmations.is_empty());
                assert_eq!(refresh, None);
                assert!(flush.is_none());
            }
            _ => panic!("an ordinary message"),
        }
    }
    match bot.process_update(&command_from(ann(), 100, T + 30, "/tilasto"), now(), clock()) {
        Step::Command { invocation, text, .. } => {
            assert_eq!(text, "Viestejä yhteensä kaikki: 3\n\nAnn: 3 (100.0%)\n");
            assert_eq!(invocation.procedure, CommandProcedure::Stats);
            assert_eq!(invocation.command_string, "/tilasto");
            assert_eq!(invocation.chat_id, 100);
        }
        _ => panic!("a command"),
    }
    assert_eq!(bot.store().get_message_counts_by_user(100, 0), vec![(7, 3)]);
}

#[test]
fn keyword_earns_a_point_per_occurrence() {
    let mut bot = bot();
    match bot.process_update(&text_from(ann(), 100, T, "ostin Keskosta"), now(), clock()) {
        Step::Ordinary { confirmations, .. } => {
            assert_eq!(confirmations, vec!["Yksi (1) kesko lisätty kesko-tilillesi".to_string()]);
        }
        _ => panic!("an ordinary message"),
    }
    assert_eq!(bot.store().get_scores_by_user("kesko", 100), vec![(7, 1)]);
    match bot.process_update(&text_from(ann(), 100, T + 1, "kesko KESKO x"), now(), clock()) {
        Step::Ordinary { confirmations, .. } => assert_eq!(confirmations.len(), 2),
        _ => panic!("an ordinary message"),
    }
    assert_eq!(bot.store().get_scores_by_user("kesko", 100), vec![(7, 3)]);
    assert_eq!(bot.store().get_message_counts_by_user(100, 0), vec![(7, 2)]);
}

#[test]
fn second_occurrence_in_a_later_message() {
    let mut bot = bot();
    bot.process_update(&text_from(ann(), 100, T, "kesko"), now(), clock());
    assert_eq!(bot.store().get_scores_by_user("kesko", 100), vec![(7, 1)]);
    bot.process_update(&text_from(ann(), 100, T + 1, "taas kesko"), now(), clock());
    assert_eq!(bot.store().get_scores_by_user("kesko", 100), vec![(7, 2)]);
}

#[test]
fn report_is_refreshed_for_a_hundred_messages() {
    let mut bot = bot();
    let invocation = match command(&mut bot, T, "/tilasto") {
        Step::Command { invocation, text, .. } => {
            assert_eq!(text, "Viestejä yhteensä kaikki: 0\n\n");
            invocation
        }
        _ => panic!("a command"),
    };
    bot.record_response(invocation, Some(55));
    for k in 1..=100 {
        match bot.process_update(&text_from(ann(), 100, T + k, "hei"), now(), clock()) {
            Step::Ordinary { refresh, .. } => {
                let expected =
                    format!("Viestejä yhteensä kaikki: {}\n\nAnn: {} (100.0%)\n", k, k);
                assert_eq!(refresh, Some((55, expected)));
            }
            _ => panic!("an ordinary message"),
        }
    }
    match bot.process_update(&text_from(ann(), 100, T + 101, "hei"), now(), clock()) {
        Step::Ordinary { refresh, .. } => assert_eq!(refresh, None),
        _ => panic!("an ordinary message"),
    }
    match bot.process_update(&text_from(ann(), 200, T + 102, "hei"), now(), clock()) {
        Step::Ordinary { refresh, .. } => assert_eq!(refresh, None),
        _ => panic!("an ordinary message"),
    }
    assert_eq!(bot.store().get_message_counts_by_user(100, 0), vec![(7, 101)]);
}

#[test]
fn a_new_command_opens_the_window_again() {
    let mut bot = bot();
    let first = match command(&mut bot, T, "/pisteet kesko") {
        Step::Command { invocation, text, .. } => {
            assert_eq!(text, "Ei pisteitä sanalle kesko.");
            invocation
        }
        _ => panic!("a command"),
    };
    bot.record_response(first, Some(1));
    for k in 1..=101 {
        bot.process_update(&text_from(ann(), 100, T + k, "x"), now(), clock());
    }
    let second = match command(&mut bot, T + 200, "/pisteet kesko") {
        Step::Command { invocation, .. } => invocation,
        _ => panic!("a command"),
    };
    bot.record_response(second, Some(2));
    match bot.process_update(&text_from(ann(), 100, T + 201, "kesko"), now(), clock()) {
        Step::Ordinary { refresh, .. } => {
            assert_eq!(refresh, Some((2, "Pisteet sanalle kesko:\n\nAnn: 1\n".to_string())));
        }
        _ => panic!("an ordinary message"),
    }
}

#[test]
fn an_answer_that_was_not_delivered_is_not_kept() {
    let mut bot = bot();
    let first = match command(&mut bot, T, "/tilasto") {
        Step::Command { invocation, .. } => invocation,
        _ => panic!("a command"),
    };
    bot.record_response(first, None);
    match bot.process_update(&text_from(ann(), 100, T + 1, "x"), now(), clock()) {
        Step::Ordinary { refresh, .. } => assert_eq!(refresh, None),
        _ => panic!("an ordinary message"),
    }
    let second = match command(&mut bot, T + 2, "/tilasto") {
        Step::Command { invocation, .. } => invocation,
        _ => panic!("a command"),
    };
    bot.record_response(second, Some(3));
    let third = match command(&mut bot, T + 3, "/pisteet kesko") {
        Step::Command { invocation, .. } => invocation,
        _ => panic!("a command"),
    };
    bot.record_response(third, None);
    match bot.process_update(&text_from(ann(), 100, T + 4, "x"), now(), clock()) {
        Step::Ordinary { refresh, .. } => {
            let expected = "Viestejä yhteensä kaikki: 2\n\nAnn: 2 (100.0%)\n".to_string();
            assert_eq!(refresh, Some((3, expected)));
        }
        _ => panic!("an ordinary message"),
    }
}

#[test]
fn points_command_without_argument_gives_the_usage_hint() {
    let mut bot = bot();
    bot.process_update(&text_from(ann(), 100, T, "kesko"), now(), clock());
    match bot.process_update(&command_from(ann(), 100, T + 1, "/pisteet"), now(), clock()) {
        Step::Command { text, .. } => assert_eq!(text, "Käyttöohje: /pisteet sana"),
        _ => panic!("a command"),
    }
    assert_eq!(bot.store().get_scores_by_user("kesko", 100), vec![(7, 1)]);
    assert_eq!(bot.store().get_message_counts_by_user(100, 0), vec![(7, 1)]);
}

#[test]
fn commands_are_neither_counted_nor_scanned() {
    let mut bot = bot();
    assert!(matches!(
        bot.process_update(&command_from(ann(), 100, T, "/tilasto kesko"), now(), clock()),
        Step::Command { .. }
    ));
    assert!(matches!(
        bot.process_update(&command_from(ann(), 100, T, "/muu kesko"), now(), clock()),
        Step::Skipped { .. }
    ));
    assert!(matches!(
        bot.process_update(&Update { update_id: 9, message: None }, now(), clock()),
        Step::Skipped { .. }
    ));
    assert_eq!(bot.store().get_message_counts_by_user(100, 0), vec![]);
    assert_eq!(bot.store().get_scores_by_user("kesko", 100), vec![]);
    assert_eq!(bot.store().get_user_name(7), Some("Ann"));
}

#[test]
fn command_word_may_name_the_bot() {
    let mut bot = bot();
    match command(&mut bot, T, "/pisteet@somebot kesko") {
        Step::Command { invocation, text, .. } => {
            assert_eq!(invocation.procedure, CommandProcedure::Scores);
            assert_eq!(text, "Ei pisteitä sanalle kesko.");
        }
        _ => panic!("a command"),
    }
    assert!(matches!(
        bot.process_update(&command_from(ann(), 100, T, "/pisteetx kesko"), now(), clock()),
        Step::Skipped { .. }
    ));
}

#[test]
fn display_name_is_composed_and_cleaned() {
    let mut bot = bot();
    let user = User {
        id: 8,
        first_name: "Bo\u{200f}b".to_string(),
        last_name: Some("Ray".to_string()),
        username: Some("bob\u{202e}by".to_string()),
    };
    bot.process_update(&text_from(user, 100, T, "hi"), now(), clock());
    assert_eq!(bot.store().get_user_name(8), Some("Bob Ray @bobby"));
    let user = User {
        id: 8,
        first_name: "Bob".to_string(),
        last_name: None,
        username: Some("b".to_string()),
    };
    bot.process_update(&text_from(user, 100, T, "hi"), now(), clock());
    assert_eq!(bot.store().get_user_name(8), Some("Bob @b"));
}

#[test]
fn flush_is_asked_for_once_the_interval_has_passed() {
    let mut bot = bot();
    match bot.process_update(&text_from(ann(), 100, T, "kesko kesko"), now(), Span::new(1800, 0)) {
        Step::Ordinary { flush, .. } => assert!(flush.is_none()),
        _ => panic!("an ordinary message"),
    }
    match bot.process_update(&text_from(ann(), 100, T, "kesko kesko"), now(), Span::new(1800, 1)) {
        Step::Ordinary { flush, .. } => assert!(flush.is_some()),
        _ => panic!("an ordinary message"),
    }
    match bot.process_update(&text_from(ann(), 100, T, "x"), now(), Span::new(1801, 0)) {
        Step::Ordinary { flush, .. } => assert!(flush.is_none()),
        _ => panic!("an ordinary message"),
    }
}

#[test]
fn polling_follows_the_newest_update() {
    let mut bot = bot();
    assert_eq!(bot.poll(false), None);
    assert_eq!(
        bot.poll(true),
        Some(PollRequest { timeout_secs: 60, request_timeout: Span::new(70, 0), offset: None })
    );
    bot.poll_succeeded(&vec![]);
    assert_eq!(bot.poll(true).unwrap().offset, None);
    bot.poll_succeeded(&vec![
        Update { update_id: 41, message: None },
        Update { update_id: 43, message: None },
        Update { update_id: 42, message: None },
    ]);
    assert_eq!(bot.poll(true).unwrap().offset, Some(44));
    bot.poll_succeeded(&vec![]);
    assert_eq!(bot.poll(true).unwrap().offset, Some(44));
    bot.poll_succeeded(&vec![Update { update_id: u64::MAX, message: None }]);
    assert_eq!(bot.poll(true).unwrap().offset, Some(44));
    assert_eq!(bot.get_updates_url(), "https://api.example/botX/getUpdates");
    assert_eq!(bot.send_message_url(), "https://api.example/botX/sendMessage");
    assert_eq!(bot.edit_message_text_url(), "https://api.example/botX/editMessageText");
}

#[test]
fn polling_gives_up_after_too_many_failures() {
    let mut bot = bot();
    for _ in 0..32 {
        assert!(!bot.poll_failed());
    }
    assert!(bot.poll_failed());
    bot.poll_succeeded(&vec![]);
    for _ in 0..32 {
        assert!(!bot.poll_failed());
    }
    assert!(bot.poll_failed());
}

#[test]
fn given_hits_decide_the_points() {
    let store = MetadataStore::new(None, Span::new(1800, 0), Span::new(0, 0));
    let mut bot = StatsBot::new(
        "https://api.example/botX",
        Span::new(60, 0),
        store,
        vec!["kesko".to_string(), "lidl".to_string()],
    );
    let message = Message {
        chat_id: 100,
        from: ann(),
        date: T,
        text: Some("no keyword in here".to_string()),
        entities: vec![],
    };
    match bot.process_message(&message, &vec![1, 0, 1], now(), clock()) {
        Step::Ordinary { chat_id, confirmations, refresh, flush } => {
            assert_eq!(chat_id, 100);
            assert_eq!(
                confirmations,
                vec![
                    "Yksi (1) lidl lisätty lidl-tilillesi".to_string(),
                    "Yksi (1) kesko lisätty kesko-tilillesi".to_string(),
                    "Yksi (1) lidl lisätty lidl-tilillesi".to_string(),
                ]
            );
            assert_eq!(refresh, None);
            assert!(flush.is_none());
        }
        _ => panic!("an ordinary message"),
    }
    assert_eq!(bot.store().get_scores_by_user("lidl", 100), vec![(7, 2)]);
    assert_eq!(bot.store().get_scores_by_user("kesko", 100), vec![(7, 1)]);
    let command = Message {
        chat_id: 100,
        from: ann(),
        date: T,
        text: Some("/pisteet lidl".to_string()),
        entities: vec!["bot_command".to_string()],
    };
    match bot.process_message(&command, &vec![0], now(), clock()) {
        Step::Command { text, .. } => assert_eq!(text, "Pisteet sanalle lidl:\n\nAnn: 2\n"),
        _ => panic!("a command"),
    }
    assert_eq!(bot.store().get_scores_by_user("kesko", 100), vec![(7, 1)]);
}

#[test]
fn keywords_are_found_whatever_their_case() {
    let store = MetadataStore::new(None, Span::new(1800, 0), Span::new(0, 0));
    let mut bot = StatsBot::new(
        "https://api.example/botX",
        Span::new(60, 0),
        store,
        vec!["kesko".to_string(), "Lidl".to_string()],
    );
    match bot.process_update(&text_from(ann(), 1, T, "LIDL tai kesKO vai lidl?"), now(), clock()) {
        Step::Ordinary { confirmations, .. } => assert_eq!(
            confirmations,
            vec![
                "Yksi (1) Lidl lisätty Lidl-tilillesi".to_string(),
                "Yksi (1) kesko lisätty kesko-tilillesi".to_string(),
                "Yksi (1) Lidl lisätty Lidl-tilillesi".to_string(),
            ]
        ),
        _ => panic!("an ordinary message"),
    }
    assert_eq!(bot.store().get_scores_by_user("Lidl", 1), vec![(7, 2)]);
    assert_eq!(bot.store().get_scores_by_user("kesko", 1), vec![(7, 1)]);
    let no_text = Update {
        update_id: 2,
        message: Some(Message { chat_id: 1, from: ann(), date: T, text: None, entities: vec![] }),
    };
    match bot.process_update(&no_text, now(), clock()) {
        Step::Ordinary { confirmations, .. } => assert!(confirmations.is_empty()),
        _ => panic!("an ordinary message"),
    }
    assert_eq!(bot.store().get_message_counts_by_user(1, 0), vec![(7, 2)]);
}

#[test]
fn odd_command_texts_are_taken_in_without_harm() {
    let mut bot = bot();
    let odd = [
        "",
        " ",
        "   /tilasto",
        "@",
        "@/tilasto",
        "/tilasto@",
        "/tilasto\u{a0}2h",
        "ä",
        "/tilastoä",
    ];
    for text in odd {
        let step = command(&mut bot, T, text);
        match (text, step) {
            ("/tilasto@", Step::Command { invocation, text, .. }) => {
                assert_eq!(invocation.command_string, "/tilasto@");
                assert_eq!(text, "Viestejä yhteensä kaikki: 0\n\n");
            }
            ("/tilasto\u{a0}2h", Step::Command { text, .. }) => {
                assert_eq!(text, "Viestejä yhteensä 2h: 0\n\n");
            }
            (_, Step::Skipped { .. }) => {}
            (text, _) => panic!("{:?} is no known command", text),
        }
    }
    let no_text = Update {
        update_id: 3,
        message: Some(Message {
            chat_id: 100,
            from: ann(),
            date: T,
            text: None,
            entities: vec!["bot_command".to_string()],
        }),
    };
    assert!(matches!(bot.process_update(&no_text, now(), clock()), Step::Skipped { .. }));
    assert_eq!(bot.store().get_message_counts_by_user(100, 0), vec![]);
}

#[test]
fn flush_holds_the_aggregate_as_the_first_change_left_it() {
    let mut bot = bot();
    bot.process_update(&text_from(ann(), 100, T, "kesko"), now(), Span::new(5, 0));
    let late = Span::new(1800, 1);
    match bot.process_update(&text_from(ann(), 100, T + 1, "kesko"), now(), late) {
        Step::Ordinary { flush: Some(content), .. } => {
            assert_eq!(content.user_names().get(&7).map(String::as_str), Some("Ann"));
            assert_eq!(content.timestamps_by_chat_user()[&100][&7], vec![T]);
            assert_eq!(content.keyword_scores_by_keyword_chat_user().len(), 1);
            assert_eq!(content.keyword_scores_by_keyword_chat_user()[0].1[&100][&7], 1);
        }
        _ => panic!("an ordinary message with a flush"),
    }
    assert_eq!(bot.store().get_message_counts_by_user(100, 0), vec![(7, 2)]);
    assert_eq!(bot.store().get_scores_by_user("kesko", 100), vec![(7, 2)]);
    let later = Span::new(3600, 2);
    let renamed = User { id: 7, first_name: "Anna".to_string(), last_name: None, username: None };
    match bot.process_update(&command_from(renamed, 100, T + 2, "/tilasto"), now(), later) {
        Step::Command { flush: Some(content), text, .. } => {
            assert_eq!(content.user_names().get(&7).map(String::as_str), Some("Anna"));
            assert_eq!(content.timestamps_by_chat_user()[&100][&7], vec![T, T + 1]);
            assert_eq!(text, "Viestejä yhteensä kaikki: 2\n\nAnna: 2 (100.0%)\n");
        }
        _ => panic!("a command with a flush"),
    }
    match bot.process_update(&command_from(ann(), 100, T + 3, "/muu"), now(), Span::new(5400, 3)) {
        Step::Skipped { flush } => assert!(flush.is_some()),
        _ => panic!("an unknown command"),
    }
    match bot.process_update(&command_from(ann(), 100, T + 3, "/muu"), now(), Span::new(5400, 3)) {
        Step::Skipped { flush } => assert!(flush.is_none()),
        _ => panic!("an unknown command"),
    }
    let empty = Update { update_id: 1, message: None };
    match bot.process_update(&empty, now(), Span::new(9000, 0)) {
        Step::Skipped { flush } => assert!(flush.is_none()),
        _ => panic!("an update without a message"),
    }
}
