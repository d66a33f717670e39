//! The report of keyword points per user.

use crate::commands::{argument_of, argument_text, display_name, push_display_name};
use crate::metadata_store::{ContentModel, MetadataStore};
use crate::ranking::{lemma_ranking_of, ranking_of};
use crate::text::{decimal, find_whitespace, first_whitespace, push_decimal};
use crate::TelegramChatId;
use vstd::prelude::*;
use vstd::string::{StrSliceExecFns, StringExecFns};

verus! {

/// The keyword that `command` names: what follows the command word, without
/// the whitespace around it, where that is exactly one word. There is none
/// where nothing but whitespace follows the command word, nor where what
/// follows holds whitespace within it and so is more than one word.
pub open spec fn keyword_argument(command: Seq<char>) -> Option<Seq<char>> {
    let argument = argument_text(command);
    if argument.len() > 0 && first_whitespace(argument) == argument.len() {
        Some(argument)
    } else {
        None
    }
}

/// One line of the leaderboard: the user's name and points.
pub open spec fn score_line(entry: (i32, u64), names: Map<i32, Seq<char>>) -> Seq<char> {
    display_name(names, entry.0) + ": "@ + decimal(entry.1 as nat) + "\n"@
}

/// The lines of the leaderboard, one per entry, in order.
pub open spec fn score_lines(board: Seq<(i32, u64)>, names: Map<i32, Seq<char>>) -> Seq<char>
    decreases board.len(),
{
    if board.len() == 0 {
        Seq::empty()
    } else {
        score_lines(board.drop_last(), names) + score_line(board.last(), names)
    }
}

/// The answer to a points command in `chat`: a usage hint where it does not
/// name exactly one keyword, a notice where nobody has points for the
/// keyword, else a header and the leaderboard.
pub open spec fn scores_report(
    command: Seq<char>,
    chat: TelegramChatId,
    content: ContentModel,
) -> Seq<char> {
    match keyword_argument(command) {
        None => "Käyttöohje: /pisteet sana"@,
        Some(word) => {
            let board = ranking_of(content.keyword_scores(word, chat));
            if board.len() == 0 {
                "Ei pisteitä sanalle "@ + word + "."@
            } else {
                "Pisteet sanalle "@ + word + ":\n\n"@ + score_lines(board, content.names)
            }
        },
    }
}

/// Renders the answer to a points command. The store is only read.
pub fn render(
    command: &str,
    chat_id: TelegramChatId,
    metadata_store: &mut MetadataStore,
) -> (response: String)
    ensures
        response@ == scores_report(command@, chat_id, old(metadata_store)@.content),
        final(metadata_store)@ == old(metadata_store)@,
{
    let word = argument_of(command);
    let len = word.unicode_len();
    if len > 0 && find_whitespace(word) == len {
        let board = metadata_store.get_scores_by_user(word, chat_id);
        proof {
            lemma_ranking_of(board@, metadata_store@.content.keyword_scores(word@, chat_id));
        }
        if board.len() == 0 {
            let mut response = String::from_str("Ei pisteitä sanalle ");
            response.append(word);
            response.append(".");
            response
        } else {
            let mut response = String::from_str("Pisteet sanalle ");
            response.append(word);
            response.append(":\n\n");
            let ghost header = response@;
            for i in 0..board.len()
                invariant
                    response@ == header + score_lines(
                        board@.take(i as int),
                        metadata_store@.content.names,
                    ),
            {
                let ghost before = response@;
                let entry = board[i];
                push_display_name(&mut response, metadata_store, entry.0);
                response.append(": ");
                push_decimal(&mut response, entry.1 as u128);
                response.append("\n");
                proof {
                    let names = metadata_store@.content.names;
                    assert(board@.take(i + 1).drop_last() == board@.take(i as int));
                    assert(response@ == before + score_line(entry, names));
                    assert(response@ == header + score_lines(board@.take(i + 1), names));
                }
            }
            assert(board@.take(board@.len() as int) == board@);
            response
        }
    } else {
        String::from_str("Käyttöohje: /pisteet sana")
    }
}

} // verus!
