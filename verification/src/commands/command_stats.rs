//! The report of message counts per user over a time window.

use crate::commands::{
    convert_time, convert_time_at, converted_time, display_name, push_display_name,
};
use crate::metadata_store::{ContentModel, MetadataStore};
use crate::ranking::{board_total, lemma_ranking_of, ranking_of};
use crate::share::{percent_of, percent_tenths};
use crate::text::{decimal, push_decimal};
use crate::time::Span;
use crate::TelegramChatId;
use vstd::prelude::*;
use vstd::string::StringExecFns;

verus! {

/// The share of `count` in `total` as a percentage with one decimal place.
pub open spec fn percent_text(count: nat, total: nat) -> Seq<char> {
    decimal(percent_tenths(count, total) / 10) + "."@ + decimal(percent_tenths(count, total) % 10)
}

/// One line of the report: the user's name, count and share of the total.
pub open spec fn stats_line(entry: (i32, u64), total: nat, names: Map<i32, Seq<char>>) -> Seq<
    char,
> {
    display_name(names, entry.0) + ": "@ + decimal(entry.1 as nat) + " ("@ + percent_text(
        entry.1 as nat,
        total,
    ) + "%)\n"@
}

/// The lines of the report, one per entry, in order.
pub open spec fn stats_lines(board: Seq<(i32, u64)>, total: nat, names: Map<i32, Seq<char>>) -> Seq<
    char,
>
    decreases board.len(),
{
    if board.len() == 0 {
        Seq::empty()
    } else {
        stats_lines(board.drop_last(), total, names) + stats_line(board.last(), total, names)
    }
}

/// The message report of `chat` over `window`: the messages after the
/// window's cutoff under the window's label, or all messages where there is
/// no window. A header line gives the total; one line per user follows.
pub open spec fn stats_report(
    window: Option<(i64, Seq<char>)>,
    chat: TelegramChatId,
    content: ContentModel,
) -> Seq<char> {
    let cutoff = match window {
        Some(w) => w.0,
        None => 0,
    };
    let label = match window {
        Some(w) => w.1,
        None => "kaikki"@,
    };
    let board = ranking_of(content.message_counts(chat, cutoff));
    "Viestejä yhteensä "@ + label + ": "@ + decimal(board_total(board)) + "\n\n"@ + stats_lines(
        board,
        board_total(board),
        content.names,
    )
}

/// `response` is the message report of `chat` for `command` at some moment,
/// or the report over all messages.
pub open spec fn is_stats_response(
    response: Seq<char>,
    command: Seq<char>,
    chat: TelegramChatId,
    content: ContentModel,
) -> bool {
    ||| response == stats_report(None, chat, content)
    ||| exists|now: Span|
        response == stats_report(#[trigger] converted_time(command, now), chat, content)
}

/// Sums the values of a leaderboard.
pub fn total_of(board: &Vec<(i32, u64)>) -> (total: u128)
    ensures
        total == board_total(board@),
{
    let mut total: u128 = 0;
    for i in 0..board.len()
        invariant
            total == board_total(board@.take(i as int)),
            total <= i * u64::MAX,
    {
        proof {
            assert(board@.take(i + 1).drop_last() == board@.take(i as int));
        }
        total = total + board[i].1 as u128;
    }
    assert(board@.take(board@.len() as int) == board@);
    total
}

/// Appends the share of `count` in `total` as a percentage with one decimal place.
pub fn push_percent(response: &mut String, count: u64, total: u128)
    ensures
        final(response)@ == old(response)@ + percent_text(count as nat, total as nat),
{
    let tenths = percent_of(count, total);
    push_decimal(response, tenths / 10);
    response.append(".");
    push_decimal(response, tenths % 10);
}

/// Renders the message report of `chat_id` over `window`. The store is only read.
pub fn render_window(
    window: Option<(i64, &str)>,
    chat_id: TelegramChatId,
    metadata_store: &MetadataStore,
) -> (response: String)
    ensures
        response@ == stats_report(
            match window {
                Some(w) => Some((w.0, w.1@)),
                None => None,
            },
            chat_id,
            metadata_store@.content,
        ),
{
    let (after_unix, from) = match window {
        Some(w) => w,
        None => (0, "kaikki"),
    };
    let counts = metadata_store.content().message_ranking(chat_id, after_unix);
    proof {
        lemma_ranking_of(counts@, metadata_store@.content.message_counts(chat_id, after_unix));
    }
    let total = total_of(&counts);
    let mut response = String::from_str("Viestejä yhteensä ");
    response.append(from);
    response.append(": ");
    push_decimal(&mut response, total);
    response.append("\n\n");
    let ghost header = response@;
    for i in 0..counts.len()
        invariant
            total == board_total(counts@),
            response@ == header + stats_lines(
                counts@.take(i as int),
                total as nat,
                metadata_store@.content.names,
            ),
    {
        let ghost before = response@;
        let entry = counts[i];
        push_display_name(&mut response, metadata_store, entry.0);
        response.append(": ");
        push_decimal(&mut response, entry.1 as u128);
        response.append(" (");
        push_percent(&mut response, entry.1, total);
        response.append("%)\n");
        proof {
            let names = metadata_store@.content.names;
            assert(counts@.take(i + 1).drop_last() == counts@.take(i as int));
            assert(response@ == before + stats_line(entry, total as nat, names));
            assert(response@ == header + stats_lines(counts@.take(i + 1), total as nat, names));
        }
    }
    assert(counts@.take(counts@.len() as int) == counts@);
    response
}

/// Renders the answer to a statistics command at the Unix time `now`. The
/// store is only read.
pub fn render_at(
    command: &str,
    chat_id: TelegramChatId,
    metadata_store: &mut MetadataStore,
    now: Span,
) -> (response: String)
    ensures
        response@ == stats_report(
            converted_time(command@, now),
            chat_id,
            old(metadata_store)@.content,
        ),
        final(metadata_store)@ == old(metadata_store)@,
{
    let window = convert_time_at(command, now);
    render_window(window, chat_id, metadata_store)
}

/// Renders the answer to a statistics command by the system clock. The store
/// is only read. A command without a time window at any moment gets the
/// report over all messages.
pub fn render(
    command: &str,
    chat_id: TelegramChatId,
    metadata_store: &mut MetadataStore,
) -> (response: String)
    ensures
        is_stats_response(response@, command@, chat_id, old(metadata_store)@.content),
        (forall|now: Span| #[trigger] converted_time(command@, now) is None) ==> response@
            == stats_report(None, chat_id, old(metadata_store)@.content),
        final(metadata_store)@ == old(metadata_store)@,
{
    let window = convert_time(command);
    let response = render_window(window, chat_id, metadata_store);
    proof {
        if let Some((cutoff, text)) = window {
            let now = choose|now: Span| #[trigger]
                converted_time(command@, now) == Some((cutoff, text@));
            assert(response@ == stats_report(
                converted_time(command@, now),
                chat_id,
                metadata_store@.content,
            ));
        }
    }
    response
}

} // verus!
