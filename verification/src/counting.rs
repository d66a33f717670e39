//! What the message counts of a chat say about the messages that were added.

use crate::metadata_store::{count_after, ContentModel};
use crate::ranking::{board_total, is_ranking};
use crate::{TelegramChatId, TelegramUserId};
use vstd::prelude::*;

verus! {

/// The aggregate after the messages `arrivals` were added in order, each
/// given by its chat, its user and its timestamp.
pub open spec fn after_messages(content: ContentModel, arrivals: Seq<(i64, i32, i64)>)
    -> ContentModel
    decreases arrivals.len(),
{
    if arrivals.len() == 0 {
        content
    } else {
        after_messages(content, arrivals.drop_last()).add_message(
            arrivals.last().0,
            arrivals.last().1,
            arrivals.last().2,
        )
    }
}

/// Number of messages among `arrivals` that `user` sent in `chat`.
pub open spec fn sent_by(
    arrivals: Seq<(i64, i32, i64)>,
    chat: TelegramChatId,
    user: TelegramUserId,
) -> nat
    decreases arrivals.len(),
{
    if arrivals.len() == 0 {
        0
    } else {
        sent_by(arrivals.drop_last(), chat, user) + if arrivals.last().0 == chat
            && arrivals.last().1 == user {
            1nat
        } else {
            0nat
        }
    }
}

/// Number of messages among `arrivals` that were sent in `chat`.
pub open spec fn sent_in(arrivals: Seq<(i64, i32, i64)>, chat: TelegramChatId) -> nat
    decreases arrivals.len(),
{
    if arrivals.len() == 0 {
        0
    } else {
        sent_in(arrivals.drop_last(), chat) + if arrivals.last().0 == chat {
            1nat
        } else {
            0nat
        }
    }
}

/// The count after a cutoff is the number of timestamps strictly greater
/// than the cutoff, and so at most the number of timestamps.
pub proof fn lemma_count_after_is_strict(timestamps: Seq<i64>, cutoff: i64)
    ensures
        count_after(timestamps, cutoff) == timestamps.filter(|t: i64| t > cutoff).len(),
        count_after(timestamps, cutoff) <= timestamps.len(),
    decreases timestamps.len(),
{
    reveal_with_fuel(Seq::filter, 2);
    if timestamps.len() > 0 {
        lemma_count_after_is_strict(timestamps.drop_last(), cutoff);
    }
}

/// Where no timestamp lies after the cutoff, the count is zero; where all
/// do, it is their number.
pub proof fn lemma_count_after_extremes(timestamps: Seq<i64>, cutoff: i64)
    ensures
        (forall|j: int| 0 <= j < timestamps.len() ==> timestamps[j] <= cutoff) ==> count_after(
            timestamps,
            cutoff,
        ) == 0,
        (forall|j: int| 0 <= j < timestamps.len() ==> timestamps[j] > cutoff) ==> count_after(
            timestamps,
            cutoff,
        ) == timestamps.len(),
    decreases timestamps.len(),
{
    if timestamps.len() > 0 {
        let front = timestamps.drop_last();
        lemma_count_after_extremes(front, cutoff);
        if forall|j: int| 0 <= j < timestamps.len() ==> timestamps[j] <= cutoff {
            assert forall|j: int| 0 <= j < front.len() implies front[j] <= cutoff by {
                assert(front[j] == timestamps[j]);
            }
        }
        if forall|j: int| 0 <= j < timestamps.len() ==> timestamps[j] > cutoff {
            assert forall|j: int| 0 <= j < front.len() implies front[j] > cutoff by {
                assert(front[j] == timestamps[j]);
            }
        }
    }
}

/// A cutoff that no timestamp of `user` exceeds, such as the user's newest
/// timestamp itself, gives the user the count zero and leaves the user off
/// the leaderboard.
pub proof fn lemma_cutoff_at_newest(
    content: ContentModel,
    chat: TelegramChatId,
    user: TelegramUserId,
    cutoff: i64,
    board: Seq<(i32, u64)>,
)
    requires
        forall|j: int|
            0 <= j < content.timestamps_of(chat, user).len() ==> content.timestamps_of(
                chat,
                user,
            )[j] <= cutoff,
        is_ranking(board, content.message_counts(chat, cutoff)),
    ensures
        count_after(content.timestamps_of(chat, user), cutoff) == 0,
        forall|k: int| 0 <= k < board.len() ==> (#[trigger] board[k]).0 != user,
{
    lemma_count_after_extremes(content.timestamps_of(chat, user), cutoff);
    assert forall|k: int| 0 <= k < board.len() implies (#[trigger] board[k]).0 != user by {
        if board[k].0 == user {
            assert(content.message_counts(chat, cutoff)[user] == board[k].1);
        }
    }
}

proof fn lemma_add_message_effect(
    content: ContentModel,
    chat: TelegramChatId,
    user: TelegramUserId,
    timestamp: i64,
    other_chat: TelegramChatId,
    other_user: TelegramUserId,
)
    ensures
        content.add_message(chat, user, timestamp).timestamps_of(other_chat, other_user) == if chat
            == other_chat && user == other_user {
            content.timestamps_of(chat, user).push(timestamp)
        } else {
            content.timestamps_of(other_chat, other_user)
        },
        content.add_message(chat, user, timestamp).users_of(other_chat).contains_key(other_user)
            <==> (content.users_of(other_chat).contains_key(other_user) || (chat == other_chat
            && user == other_user)),
{
}

proof fn lemma_timestamps_of_arrivals(
    arrivals: Seq<(i64, i32, i64)>,
    chat: TelegramChatId,
    user: TelegramUserId,
)
    requires
        forall|i: int| 0 <= i < arrivals.len() ==> (#[trigger] arrivals[i]).2 > 0,
    ensures
        ({
            let content = after_messages(ContentModel::empty(), arrivals);
            &&& content.timestamps_of(chat, user).len() == sent_by(arrivals, chat, user)
            &&& count_after(content.timestamps_of(chat, user), 0) == sent_by(arrivals, chat, user)
            &&& content.users_of(chat).contains_key(user) <==> sent_by(arrivals, chat, user) > 0
            &&& sent_by(arrivals, chat, user) <= arrivals.len()
        }),
    decreases arrivals.len(),
{
    if arrivals.len() > 0 {
        let front = arrivals.drop_last();
        let last = arrivals.last();
        assert forall|i: int| 0 <= i < front.len() implies (#[trigger] front[i]).2 > 0 by {
            assert(front[i] == arrivals[i]);
        }
        lemma_timestamps_of_arrivals(front, chat, user);
        let before = after_messages(ContentModel::empty(), front);
        lemma_add_message_effect(before, last.0, last.1, last.2, chat, user);
        if last.0 == chat && last.1 == user {
            let stamps = before.timestamps_of(chat, user);
            assert(stamps.push(last.2).drop_last() == stamps);
            assert(last.2 > 0);
        }
    }
}

/// `list` names each user to whom `values` gives a value above zero, once, with that value.
spec fn is_listing(list: Seq<(i32, u64)>, values: Map<i32, u64>) -> bool {
    &&& forall|i: int, j: int| 0 <= i < j < list.len() ==> list[i].0 != list[j].0
    &&& forall|i: int|
        0 <= i < list.len() ==> {
            &&& values.contains_key((#[trigger] list[i]).0)
            &&& values[list[i].0] == list[i].1
            &&& list[i].1 > 0
        }
    &&& forall|user: TelegramUserId| #[trigger]
        values.contains_key(user) && values[user] > 0 ==> list.contains((user, values[user]))
}

proof fn lemma_total_without(list: Seq<(i32, u64)>, k: int)
    requires
        0 <= k < list.len(),
    ensures
        board_total(list.remove(k)) == board_total(list) - list[k].1,
    decreases list.len(),
{
    if k == list.len() - 1 {
        assert(list.remove(k) == list.drop_last());
    } else {
        lemma_total_without(list.drop_last(), k);
        assert(list.remove(k).drop_last() == list.drop_last().remove(k));
        assert(list.remove(k).last() == list.last());
    }
}

proof fn lemma_total_with(list: Seq<(i32, u64)>, k: int, entry: (i32, u64))
    requires
        0 <= k < list.len(),
    ensures
        board_total(list.update(k, entry)) == board_total(list) - list[k].1 + entry.1,
    decreases list.len(),
{
    if k == list.len() - 1 {
        assert(list.update(k, entry).drop_last() == list.drop_last());
    } else {
        lemma_total_with(list.drop_last(), k, entry);
        assert(list.update(k, entry).drop_last() == list.drop_last().update(k, entry));
        assert(list.update(k, entry).last() == list.last());
    }
}

proof fn lemma_listing_total(
    arrivals: Seq<(i64, i32, i64)>,
    chat: TelegramChatId,
    list: Seq<(i32, u64)>,
)
    requires
        arrivals.len() <= u64::MAX,
        forall|i: int| 0 <= i < arrivals.len() ==> (#[trigger] arrivals[i]).2 > 0,
        is_listing(list, after_messages(ContentModel::empty(), arrivals).message_counts(chat, 0)),
    ensures
        board_total(list) == sent_in(arrivals, chat),
    decreases arrivals.len(),
{
    let values = after_messages(ContentModel::empty(), arrivals).message_counts(chat, 0);
    if arrivals.len() == 0 {
        if list.len() > 0 {
            assert(values.contains_key(list[0].0));
        }
    } else {
        let front = arrivals.drop_last();
        let last = arrivals.last();
        let earlier = after_messages(ContentModel::empty(), front).message_counts(chat, 0);
        assert forall|i: int| 0 <= i < front.len() implies (#[trigger] front[i]).2 > 0 by {
            assert(front[i] == arrivals[i]);
        }
        assert forall|user: TelegramUserId|
            (values.contains_key(user) <==> sent_by(arrivals, chat, user) > 0) && (
            values.contains_key(user) ==> values[user] == sent_by(arrivals, chat, user)) && (
            earlier.contains_key(user) <==> sent_by(front, chat, user) > 0) && (
            earlier.contains_key(user) ==> earlier[user] == sent_by(front, chat, user)) by {
            lemma_timestamps_of_arrivals(arrivals, chat, user);
            lemma_timestamps_of_arrivals(front, chat, user);
        }
        if last.0 != chat {
            assert(is_listing(list, earlier)) by {
                assert forall|user: TelegramUserId| #[trigger]
                    earlier.contains_key(user) && earlier[user] > 0 implies list.contains(
                    (user, earlier[user]),
                ) by {
                    assert(values.contains_key(user) && values[user] > 0);
                }
            }
            lemma_listing_total(front, chat, list);
        } else {
            let user = last.1;
            let sent = sent_by(arrivals, chat, user);
            assert(values.contains_key(user) && values[user] > 0);
            assert(list.contains((user, values[user])));
            let k = choose|k: int| 0 <= k < list.len() && list[k] == (user, values[user]);
            if sent == 1 {
                let rest = list.remove(k);
                assert(is_listing(rest, earlier)) by {
                    assert forall|i: int, j: int| 0 <= i < j < rest.len() implies rest[i].0
                        != rest[j].0 by {
                        let x = if i < k { i } else { i + 1 };
                        let y = if j < k { j } else { j + 1 };
                        assert(rest[i] == list[x] && rest[j] == list[y]);
                    }
                    assert forall|i: int| 0 <= i < rest.len() implies earlier.contains_key(
                        (#[trigger] rest[i]).0,
                    ) && earlier[rest[i].0] == rest[i].1 && rest[i].1 > 0 by {
                        let x = if i < k { i } else { i + 1 };
                        assert(rest[i] == list[x]);
                        assert(list[x].0 != list[k].0);
                        assert(values.contains_key(list[x].0));
                    }
                    assert forall|other: i32| #[trigger]
                        earlier.contains_key(other) && earlier[other] > 0 implies rest.contains(
                        (other, earlier[other]),
                    ) by {
                        assert(other != user);
                        assert(values.contains_key(other) && values[other] > 0);
                        assert(list.contains((other, values[other])));
                        let x = choose|x: int|
                            0 <= x < list.len() && list[x] == (other, values[other]);
                        let i = if x < k { x } else { x - 1 };
                        assert(rest[i] == list[x]);
                    }
                }
                lemma_total_without(list, k);
                lemma_listing_total(front, chat, rest);
            } else {
                let lower = (user, (sent - 1) as u64);
                let rest = list.update(k, lower);
                assert(is_listing(rest, earlier)) by {
                    assert forall|i: int, j: int| 0 <= i < j < rest.len() implies rest[i].0
                        != rest[j].0 by {
                        assert(rest[i].0 == list[i].0 && rest[j].0 == list[j].0);
                    }
                    assert forall|i: int| 0 <= i < rest.len() implies earlier.contains_key(
                        (#[trigger] rest[i]).0,
                    ) && earlier[rest[i].0] == rest[i].1 && rest[i].1 > 0 by {
                        if i != k {
                            assert(rest[i] == list[i]);
                            assert(list[i].0 != list[k].0);
                            assert(values.contains_key(list[i].0));
                        }
                    }
                    assert forall|other: i32| #[trigger]
                        earlier.contains_key(other) && earlier[other] > 0 implies rest.contains(
                        (other, earlier[other]),
                    ) by {
                        if other == user {
                            assert(rest[k] == (other, earlier[other]));
                        } else {
                            assert(values.contains_key(other) && values[other] > 0);
                            assert(list.contains((other, values[other])));
                            let x = choose|x: int|
                                0 <= x < list.len() && list[x] == (other, values[other]);
                            assert(rest[x] == list[x]);
                        }
                    }
                }
                lemma_total_with(list, k, lower);
                lemma_listing_total(front, chat, rest);
            }
        }
    }
}

/// After any sequence of added messages, each with a timestamp above zero,
/// the leaderboard of a chat from the cutoff zero gives every user that sent
/// a message there, with the number of messages the user sent there, and its
/// values add up to the number of messages sent in the chat.
pub proof fn lemma_counts_every_message(
    arrivals: Seq<(i64, i32, i64)>,
    chat: TelegramChatId,
    board: Seq<(i32, u64)>,
)
    requires
        arrivals.len() <= u64::MAX,
        forall|i: int| 0 <= i < arrivals.len() ==> (#[trigger] arrivals[i]).2 > 0,
        is_ranking(board, after_messages(ContentModel::empty(), arrivals).message_counts(chat, 0)),
    ensures
        forall|k: int|
            0 <= k < board.len() ==> (#[trigger] board[k]).1 == sent_by(
                arrivals,
                chat,
                board[k].0,
            ),
        forall|user: TelegramUserId|
            sent_by(arrivals, chat, user) > 0 ==> board.contains(
                (user, #[trigger] sent_by(arrivals, chat, user) as u64),
            ),
        board_total(board) == sent_in(arrivals, chat),
{
    let values = after_messages(ContentModel::empty(), arrivals).message_counts(chat, 0);
    assert forall|user: TelegramUserId|
        (values.contains_key(user) <==> sent_by(arrivals, chat, user) > 0) && (values.contains_key(
            user,
        ) ==> values[user] == #[trigger] sent_by(arrivals, chat, user)) by {
        lemma_timestamps_of_arrivals(arrivals, chat, user);
    }
    assert(is_listing(board, values)) by {
        assert forall|i: int, j: int| 0 <= i < j < board.len() implies board[i].0
            != board[j].0 by {
            assert(crate::ranking::ranks_before(board[i], board[j]));
            assert(values[board[i].0] == board[i].1);
            assert(values[board[j].0] == board[j].1);
        }
    }
    lemma_listing_total(arrivals, chat, board);
    assert forall|k: int| 0 <= k < board.len() implies (#[trigger] board[k]).1 == sent_by(
        arrivals,
        chat,
        board[k].0,
    ) by {
        assert(values.contains_key(board[k].0));
    }
    assert forall|user: TelegramUserId| sent_by(arrivals, chat, user) > 0 implies board.contains(
        (user, #[trigger] sent_by(arrivals, chat, user) as u64),
    ) by {
        assert(values.contains_key(user) && values[user] > 0);
    }
}

} // verus!
