//! The aggregate of message timestamps, keyword points and display names,
//! and the store that holds it together with the policy for writing it out.

use crate::ranking::{insert_ranked, is_ranked, is_ranking};
use crate::text::same_text;
use crate::time::Span;
use crate::{TelegramChatId, TelegramUserId};
use std::collections::HashMap;
use vstd::prelude::*;

verus! {

/// Number of timestamps in `timestamps` that lie strictly after `cutoff`.
pub open spec fn count_after(timestamps: Seq<i64>, cutoff: i64) -> nat
    decreases timestamps.len(),
{
    if timestamps.len() == 0 {
        0
    } else {
        count_after(timestamps.drop_last(), cutoff) + if timestamps.last() > cutoff {
            1nat
        } else {
            0nat
        }
    }
}

/// The aggregate as mathematical maps: per chat and user the message
/// timestamps in arrival order, per keyword, chat and user the points, and
/// per user the display name.
#[verifier::ext_equal]
pub struct ContentModel {
    pub timestamps: Map<TelegramChatId, Map<TelegramUserId, Seq<i64>>>,
    pub scores: Map<Seq<char>, Map<TelegramChatId, Map<TelegramUserId, u64>>>,
    pub names: Map<TelegramUserId, Seq<char>>,
}

impl ContentModel {
    /// The aggregate that holds nothing.
    pub open spec fn empty() -> ContentModel {
        ContentModel { timestamps: Map::empty(), scores: Map::empty(), names: Map::empty() }
    }

    /// The users of `chat` with their timestamps; none where the chat is unknown.
    pub open spec fn users_of(self, chat: TelegramChatId) -> Map<i32, Seq<i64>> {
        if self.timestamps.contains_key(chat) {
            self.timestamps[chat]
        } else {
            Map::empty()
        }
    }

    /// The timestamps of `user` in `chat`; none where either is unknown.
    pub open spec fn timestamps_of(self, chat: TelegramChatId, user: TelegramUserId) -> Seq<i64> {
        if self.users_of(chat).contains_key(user) {
            self.users_of(chat)[user]
        } else {
            Seq::empty()
        }
    }

    /// The aggregate after one more message of `user` in `chat`.
    pub open spec fn add_message(
        self,
        chat: TelegramChatId,
        user: TelegramUserId,
        timestamp: i64,
    ) -> ContentModel {
        ContentModel {
            timestamps: self.timestamps.insert(
                chat,
                self.users_of(chat).insert(user, self.timestamps_of(chat, user).push(timestamp)),
            ),
            ..self
        }
    }

    /// The chats of `keyword` with their users' points; none where the keyword is unknown.
    pub open spec fn chats_of(self, keyword: Seq<char>) -> Map<i64, Map<i32, u64>> {
        if self.scores.contains_key(keyword) {
            self.scores[keyword]
        } else {
            Map::empty()
        }
    }

    /// Per user of `chat`, the points for `keyword`; none where either is unknown.
    pub open spec fn keyword_scores(self, keyword: Seq<char>, chat: TelegramChatId) -> Map<
        TelegramUserId,
        u64,
    > {
        if self.chats_of(keyword).contains_key(chat) {
            self.chats_of(keyword)[chat]
        } else {
            Map::empty()
        }
    }

    /// The points of `user` in `chat` for `keyword`: zero where none were counted.
    pub open spec fn points_of(
        self,
        keyword: Seq<char>,
        chat: TelegramChatId,
        user: TelegramUserId,
    ) -> u64 {
        if self.keyword_scores(keyword, chat).contains_key(user) {
            self.keyword_scores(keyword, chat)[user]
        } else {
            0
        }
    }

    /// The aggregate after one more point of `user` in `chat` for `keyword`.
    /// The counter stays at `u64::MAX` once it has reached it.
    pub open spec fn add_keyword_point(
        self,
        keyword: Seq<char>,
        chat: TelegramChatId,
        user: TelegramUserId,
    ) -> ContentModel {
        ContentModel {
            scores: self.scores.insert(
                keyword,
                self.chats_of(keyword).insert(
                    chat,
                    self.keyword_scores(keyword, chat).insert(
                        user,
                        one_more(self.points_of(keyword, chat, user)),
                    ),
                ),
            ),
            ..self
        }
    }

    /// The aggregate after `user` was seen under `name`.
    pub open spec fn add_user_name(self, user: TelegramUserId, name: Seq<char>) -> ContentModel {
        ContentModel { names: self.names.insert(user, name), ..self }
    }

    /// Per user of `chat`, the number of messages after `cutoff`.
    pub open spec fn message_counts(self, chat: TelegramChatId, cutoff: i64) -> Map<i32, u64> {
        Map::new(
            |user: TelegramUserId| self.users_of(chat).contains_key(user),
            |user: TelegramUserId| count_after(self.users_of(chat)[user], cutoff) as u64,
        )
    }
}

/// The counter after `points`: one more, but never beyond `u64::MAX`.
pub open spec fn one_more(points: u64) -> u64 {
    if points == u64::MAX {
        points
    } else {
        (points + 1) as u64
    }
}

/// What a map from user to timestamps holds.
pub open spec fn users_view(users: HashMap<i32, Vec<i64>>) -> Map<i32, Seq<i64>> {
    Map::new(|user: TelegramUserId| users@.contains_key(user), |user: TelegramUserId| users@[user]@)
}

/// What a map from chat to user to timestamps holds.
pub open spec fn chats_view(chats: HashMap<i64, HashMap<i32, Vec<i64>>>) -> Map<
    i64,
    Map<i32, Seq<i64>>,
> {
    Map::new(
        |chat: TelegramChatId| chats@.contains_key(chat),
        |chat: TelegramChatId| users_view(chats@[chat]),
    )
}

/// What a map from chat to user to points holds.
pub open spec fn points_view(chats: HashMap<i64, HashMap<i32, u64>>) -> Map<i64, Map<i32, u64>> {
    Map::new(|chat: TelegramChatId| chats@.contains_key(chat), |chat: TelegramChatId| chats@[chat]@)
}

/// What a list of keywords with their points holds. Of two entries for one
/// keyword the later one counts.
pub open spec fn keywords_view(entries: Seq<(String, HashMap<i64, HashMap<i32, u64>>)>) -> Map<
    Seq<char>,
    Map<i64, Map<i32, u64>>,
>
    decreases entries.len(),
{
    if entries.len() == 0 {
        Map::empty()
    } else {
        keywords_view(entries.drop_last()).insert(
            entries.last().0@,
            points_view(entries.last().1),
        )
    }
}

/// What a map from user to display name holds.
pub open spec fn names_view(names: HashMap<i32, String>) -> Map<i32, Seq<char>> {
    Map::new(|user: TelegramUserId| names@.contains_key(user), |user: TelegramUserId| names@[user]@)
}

proof fn lemma_keyword_absent(
    entries: Seq<(String, HashMap<i64, HashMap<i32, u64>>)>,
    keyword: Seq<char>,
)
    requires
        forall|j: int| 0 <= j < entries.len() ==> (#[trigger] entries[j]).0@ != keyword,
    ensures
        !keywords_view(entries).contains_key(keyword),
    decreases entries.len(),
{
    if entries.len() > 0 {
        let front = entries.drop_last();
        assert forall|j: int| 0 <= j < front.len() implies (#[trigger] front[j]).0@ != keyword by {
            assert(front[j] == entries[j]);
        }
        lemma_keyword_absent(front, keyword);
    }
}

proof fn lemma_keyword_found(
    entries: Seq<(String, HashMap<i64, HashMap<i32, u64>>)>,
    at: int,
)
    requires
        0 <= at < entries.len(),
        forall|j: int| at < j < entries.len() ==> (#[trigger] entries[j]).0@ != entries[at].0@,
    ensures
        keywords_view(entries).contains_key(entries[at].0@),
        keywords_view(entries)[entries[at].0@] == points_view(entries[at].1),
    decreases entries.len(),
{
    if at < entries.len() - 1 {
        let front = entries.drop_last();
        assert(front[at] == entries[at]);
        assert forall|j: int| at < j < front.len() implies (#[trigger] front[j]).0@
            != front[at].0@ by {
            assert(front[j] == entries[j]);
        }
        lemma_keyword_found(front, at);
    }
}

proof fn lemma_keyword_replaced(
    entries: Seq<(String, HashMap<i64, HashMap<i32, u64>>)>,
    at: int,
    entry: (String, HashMap<i64, HashMap<i32, u64>>),
)
    requires
        0 <= at < entries.len(),
        entry.0@ == entries[at].0@,
        forall|j: int| at < j < entries.len() ==> (#[trigger] entries[j]).0@ != entries[at].0@,
    ensures
        keywords_view(entries.update(at, entry)) == keywords_view(entries).insert(
            entry.0@,
            points_view(entry.1),
        ),
    decreases entries.len(),
{
    let changed = entries.update(at, entry);
    if at == entries.len() - 1 {
        assert(changed.drop_last() == entries.drop_last());
        assert(keywords_view(changed) =~= keywords_view(entries).insert(
            entry.0@,
            points_view(entry.1),
        ));
    } else {
        let front = entries.drop_last();
        assert(front[at] == entries[at]);
        assert forall|j: int| at < j < front.len() implies (#[trigger] front[j]).0@
            != front[at].0@ by {
            assert(front[j] == entries[j]);
        }
        lemma_keyword_replaced(front, at, entry);
        assert(changed.drop_last() == front.update(at, entry));
        assert(changed.last() == entries.last());
        assert(entries.last().0@ != entry.0@);
        assert(keywords_view(changed) =~= keywords_view(entries).insert(
            entry.0@,
            points_view(entry.1),
        ));
    }
}

proof fn lemma_keywords_alike(
    a: Seq<(String, HashMap<i64, HashMap<i32, u64>>)>,
    b: Seq<(String, HashMap<i64, HashMap<i32, u64>>)>,
)
    requires
        a.len() == b.len(),
        forall|i: int|
            0 <= i < a.len() ==> (#[trigger] a[i]).0@ == b[i].0@ && points_view(a[i].1)
                == points_view(b[i].1),
    ensures
        keywords_view(a) == keywords_view(b),
    decreases a.len(),
{
    if a.len() > 0 {
        assert forall|i: int| 0 <= i < a.drop_last().len() implies (
        #[trigger] a.drop_last()[i]).0@ == b.drop_last()[i].0@ && points_view(a.drop_last()[i].1)
            == points_view(b.drop_last()[i].1) by {
            assert(a.drop_last()[i] == a[i]);
            assert(b.drop_last()[i] == b[i]);
        }
        lemma_keywords_alike(a.drop_last(), b.drop_last());
        assert(a.last() == a[a.len() - 1]);
        assert(b.last() == b[b.len() - 1]);
    }
}

/// The durable aggregate: message timestamps, keyword points and display names.
#[derive(Debug)]
pub struct MetadataContent {
    timestamps_by_chat_user: HashMap<i64, HashMap<i32, Vec<i64>>>,
    // A list, searched from its end: vstd models hash maps for integer keys
    // but gives no such model for keys that are strings.
    keyword_scores_by_keyword_chat_user: Vec<(String, HashMap<i64, HashMap<i32, u64>>)>,
    user_names: HashMap<i32, String>,
}

impl View for MetadataContent {
    type V = ContentModel;

    closed spec fn view(&self) -> ContentModel {
        ContentModel {
            timestamps: chats_view(self.timestamps_by_chat_user),
            scores: keywords_view(self.keyword_scores_by_keyword_chat_user@),
            names: names_view(self.user_names),
        }
    }
}

/// Counts the timestamps after `cutoff`.
pub fn count_timestamps_after(timestamps: &Vec<i64>, cutoff: i64) -> (count: usize)
    ensures
        count == count_after(timestamps@, cutoff),
{
    let mut count: usize = 0;
    for i in 0..timestamps.len()
        invariant
            count <= i,
            count == count_after(timestamps@.take(i as int), cutoff),
    {
        proof {
            assert(timestamps@.take(i + 1).drop_last() == timestamps@.take(i as int));
        }
        if timestamps[i] > cutoff {
            count = count + 1;
        }
    }
    assert(timestamps@.take(timestamps@.len() as int) == timestamps@);
    count
}

impl Default for MetadataContent {
    fn default() -> (content: MetadataContent)
        ensures
            content@ == ContentModel::empty(),
    {
        MetadataContent::new()
    }
}

impl MetadataContent {
    /// The aggregate that holds what the three collections hold. Of two
    /// entries for one keyword the later one counts.
    pub fn from_parts(
        timestamps_by_chat_user: HashMap<i64, HashMap<i32, Vec<i64>>>,
        keyword_scores_by_keyword_chat_user: Vec<(String, HashMap<i64, HashMap<i32, u64>>)>,
        user_names: HashMap<i32, String>,
    ) -> (content: MetadataContent)
        ensures
            content@ == (ContentModel {
                timestamps: chats_view(timestamps_by_chat_user),
                scores: keywords_view(keyword_scores_by_keyword_chat_user@),
                names: names_view(user_names),
            }),
    {
        MetadataContent {
            timestamps_by_chat_user,
            keyword_scores_by_keyword_chat_user,
            user_names,
        }
    }

    /// A copy of the aggregate as it stands.
    pub fn snapshot(&self) -> (copy: MetadataContent)
        ensures
            copy@ == self@,
    {
        let mut scores: Vec<(String, HashMap<i64, HashMap<i32, u64>>)> = Vec::new();
        for i in 0..self.keyword_scores_by_keyword_chat_user.len()
            invariant
                scores@.len() == i,
                forall|j: int|
                    0 <= j < i ==> (#[trigger] scores@[j]).0@
                        == self.keyword_scores_by_keyword_chat_user@[j].0@ && points_view(
                        scores@[j].1,
                    ) == points_view(self.keyword_scores_by_keyword_chat_user@[j].1),
        {
            let entry = &self.keyword_scores_by_keyword_chat_user[i];
            scores.push((entry.0.clone(), entry.1.clone()));
        }
        proof {
            lemma_keywords_alike(scores@, self.keyword_scores_by_keyword_chat_user@);
        }
        let copy = MetadataContent {
            timestamps_by_chat_user: self.timestamps_by_chat_user.clone(),
            keyword_scores_by_keyword_chat_user: scores,
            user_names: self.user_names.clone(),
        };
        assert(copy@.timestamps =~= self@.timestamps);
        assert(copy@.names =~= self@.names);
        copy
    }

    /// The message timestamps, per chat and user.
    pub fn timestamps_by_chat_user(&self) -> (timestamps: &HashMap<i64, HashMap<i32, Vec<i64>>>)
        ensures
            chats_view(*timestamps) == self@.timestamps,
    {
        &self.timestamps_by_chat_user
    }

    /// The keyword points, per keyword, chat and user.
    pub fn keyword_scores_by_keyword_chat_user(&self) -> (scores: &Vec<
        (String, HashMap<i64, HashMap<i32, u64>>),
    >)
        ensures
            keywords_view(scores@) == self@.scores,
    {
        &self.keyword_scores_by_keyword_chat_user
    }

    /// The display names, per user.
    pub fn user_names(&self) -> (names: &HashMap<i32, String>)
        ensures
            names_view(*names) == self@.names,
    {
        &self.user_names
    }

    /// An aggregate that holds nothing.
    pub fn new() -> (content: MetadataContent)
        ensures
            content@ == ContentModel::empty(),
    {
        let content = MetadataContent {
            timestamps_by_chat_user: HashMap::new(),
            keyword_scores_by_keyword_chat_user: Vec::new(),
            user_names: HashMap::new(),
        };
        assert(content@.timestamps =~= Map::empty());
        assert(content@.names =~= Map::empty());
        content
    }

    /// Records one message of `user_id` in `chat_id`.
    pub fn add_message(&mut self, chat_id: TelegramChatId, user_id: TelegramUserId, timestamp: i64)
        ensures
            final(self)@ == old(self)@.add_message(chat_id, user_id, timestamp),
    {
        let mut users = match self.timestamps_by_chat_user.remove(&chat_id) {
            Some(users) => users,
            None => HashMap::new(),
        };
        let mut stamps = match users.remove(&user_id) {
            Some(stamps) => stamps,
            None => Vec::new(),
        };
        stamps.push(timestamp);
        users.insert(user_id, stamps);
        self.timestamps_by_chat_user.insert(chat_id, users);
        proof {
            let before = old(self)@;
            let after = before.add_message(chat_id, user_id, timestamp);
            assert(self@.timestamps[chat_id] =~= after.timestamps[chat_id]);
            assert(self@.timestamps =~= after.timestamps);
            assert(self@.names =~= after.names);
        }
    }

    /// The users of `chat_id` with at least one message after `after_unix`,
    /// each with the number of such messages, in leaderboard order.
    pub fn message_ranking(&self, chat_id: TelegramChatId, after_unix: i64) -> (board: Vec<
        (TelegramUserId, u64),
    >)
        ensures
            is_ranking(board@, self@.message_counts(chat_id, after_unix)),
            forall|k: int| 0 <= k < board@.len() ==> (#[trigger] board@[k]).1 <= usize::MAX,
    {
        let mut board: Vec<(i32, u64)> = Vec::new();
        match self.timestamps_by_chat_user.get(&chat_id) {
            Some(users) => {
                let ghost counts = self@.message_counts(chat_id, after_unix);
                for entry in it: users.iter()
                    invariant
                        it.seq().len() == users@.len(),
                        it.seq().no_duplicates(),
                        forall|i: int|
                            0 <= i < it.seq().len() ==> users@.contains_key(
                                *(#[trigger] it.seq()[i]).0,
                            ) && users@[*it.seq()[i].0] == *it.seq()[i].1,
                        forall|user: TelegramUserId| #[trigger]
                            users@.contains_key(user) ==> exists|i: int|
                                0 <= i < it.seq().len() && *(#[trigger] it.seq()[i]).0 == user,
                        counts == self@.message_counts(chat_id, after_unix),
                        self@.users_of(chat_id) == users_view(*users),
                        is_ranked(board@),
                        forall|k: int|
                            0 <= k < board@.len() ==> (#[trigger] board@[k]).1 <= usize::MAX,
                        forall|k: int|
                            0 <= k < board@.len() ==> {
                                &&& counts.contains_key((#[trigger] board@[k]).0)
                                &&& counts[board@[k].0] == board@[k].1
                                &&& board@[k].1 > 0
                                &&& exists|i: int|
                                    0 <= i < it.index() && *(#[trigger] it.seq()[i]).0
                                        == board@[k].0
                            },
                        forall|i: int|
                            0 <= i < it.index() && counts[*(#[trigger] it.seq()[i]).0] > 0
                                ==> board@.contains((*it.seq()[i].0, counts[*it.seq()[i].0])),
                {
                    let user: TelegramUserId = *entry.0;
                    let count = count_timestamps_after(entry.1, after_unix);
                    if count > 0 {
                        insert_ranked(&mut board, (user, count as u64));
                    }
                }
            },
            None => {},
        }
        board
    }

    /// Position of the entry that counts for `keyword`, if there is one.
    fn find_keyword(&self, keyword: &str) -> (at: Option<usize>)
        ensures
            match at {
                Some(i) => {
                    let entries = self.keyword_scores_by_keyword_chat_user@;
                    &&& i < entries.len()
                    &&& entries[i as int].0@ == keyword@
                    &&& forall|j: int|
                        i < j < entries.len() ==> (#[trigger] entries[j]).0@ != keyword@
                },
                None => forall|j: int|
                    0 <= j < self.keyword_scores_by_keyword_chat_user@.len() ==> (
                    #[trigger] self.keyword_scores_by_keyword_chat_user@[j]).0@ != keyword@,
            },
    {
        let mut i = self.keyword_scores_by_keyword_chat_user.len();
        while i > 0
            invariant
                i <= self.keyword_scores_by_keyword_chat_user@.len(),
                forall|j: int|
                    i <= j < self.keyword_scores_by_keyword_chat_user@.len() ==> (
                    #[trigger] self.keyword_scores_by_keyword_chat_user@[j]).0@ != keyword@,
            decreases i,
        {
            i = i - 1;
            if same_text(self.keyword_scores_by_keyword_chat_user[i].0.as_str(), keyword) {
                return Some(i);
            }
        }
        None
    }

    /// Counts one more point of `user_id` in `chat_id` for `keyword`.
    pub fn add_keyword_point(
        &mut self,
        keyword: &str,
        chat_id: TelegramChatId,
        user_id: TelegramUserId,
    )
        ensures
            final(self)@ == old(self)@.add_keyword_point(keyword@, chat_id, user_id),
    {
        let found = self.find_keyword(keyword);
        let ghost entries = self.keyword_scores_by_keyword_chat_user@;
        let (name, mut chats) = match found {
            Some(i) => {
                proof {
                    lemma_keyword_found(entries, i as int);
                }
                self.keyword_scores_by_keyword_chat_user.remove(i)
            },
            None => {
                proof {
                    lemma_keyword_absent(entries, keyword@);
                }
                (keyword.to_owned(), HashMap::new())
            },
        };
        assert(points_view(chats) =~= old(self)@.chats_of(keyword@));
        let mut users = match chats.remove(&chat_id) {
            Some(users) => users,
            None => HashMap::new(),
        };
        assert(users@ =~= old(self)@.keyword_scores(keyword@, chat_id));
        let points: u64 = match users.get(&user_id) {
            Some(points) => *points,
            None => 0,
        };
        let next: u64 = if points == u64::MAX {
            points
        } else {
            points + 1
        };
        users.insert(user_id, next);
        chats.insert(chat_id, users);
        let ghost entry = (name, chats);
        assert(points_view(chats) =~= old(self)@.chats_of(keyword@).insert(
            chat_id,
            old(self)@.keyword_scores(keyword@, chat_id).insert(
                user_id,
                one_more(old(self)@.points_of(keyword@, chat_id, user_id)),
            ),
        ));
        match found {
            Some(i) => {
                self.keyword_scores_by_keyword_chat_user.insert(i, (name, chats));
                proof {
                    assert(self.keyword_scores_by_keyword_chat_user@ == entries.update(
                        i as int,
                        entry,
                    ));
                    lemma_keyword_replaced(entries, i as int, entry);
                }
            },
            None => {
                self.keyword_scores_by_keyword_chat_user.push((name, chats));
                proof {
                    assert(self.keyword_scores_by_keyword_chat_user@.drop_last() == entries);
                }
            },
        }
        proof {
            let after = old(self)@.add_keyword_point(keyword@, chat_id, user_id);
            assert(self@.scores =~= after.scores);
        }
    }

    /// Remembers `name` as the display name of `user_id`, in place of an earlier one.
    pub fn add_user_name(&mut self, user_id: TelegramUserId, name: String)
        ensures
            final(self)@ == old(self)@.add_user_name(user_id, name@),
    {
        self.user_names.insert(user_id, name);
        proof {
            assert(self@.names =~= old(self)@.names.insert(user_id, name@));
        }
    }

    /// The display name last seen for `user_id`.
    pub fn get_user_name(&self, user_id: TelegramUserId) -> (name: Option<&str>)
        ensures
            match name {
                Some(text) => self@.names.contains_key(user_id) && text@ == self@.names[user_id],
                None => !self@.names.contains_key(user_id),
            },
    {
        match self.user_names.get(&user_id) {
            Some(name) => Some(name.as_str()),
            None => None,
        }
    }

    /// The users of `chat_id` with points for `keyword`, each with its points,
    /// in leaderboard order.
    pub fn score_ranking(&self, keyword: &str, chat_id: TelegramChatId) -> (board: Vec<
        (TelegramUserId, u64),
    >)
        ensures
            is_ranking(board@, self@.keyword_scores(keyword@, chat_id)),
    {
        let mut board: Vec<(i32, u64)> = Vec::new();
        let found = self.find_keyword(keyword);
        let ghost entries = self.keyword_scores_by_keyword_chat_user@;
        match found {
            Some(at) => {
                proof {
                    lemma_keyword_found(entries, at as int);
                }
                match self.keyword_scores_by_keyword_chat_user[at].1.get(&chat_id) {
                    Some(users) => {
                        let ghost scores = self@.keyword_scores(keyword@, chat_id);
                        assert(scores == users@);
                        for entry in it: users.iter()
                            invariant
                                it.seq().len() == users@.len(),
                                it.seq().no_duplicates(),
                                forall|i: int|
                                    0 <= i < it.seq().len() ==> users@.contains_key(
                                        *(#[trigger] it.seq()[i]).0,
                                    ) && users@[*it.seq()[i].0] == *it.seq()[i].1,
                                scores == users@,
                                is_ranked(board@),
                                forall|k: int|
                                    0 <= k < board@.len() ==> {
                                        &&& scores.contains_key((#[trigger] board@[k]).0)
                                        &&& scores[board@[k].0] == board@[k].1
                                        &&& board@[k].1 > 0
                                        &&& exists|i: int|
                                            0 <= i < it.index() && *(#[trigger] it.seq()[i]).0
                                                == board@[k].0
                                    },
                                forall|i: int|
                                    0 <= i < it.index() && scores[*(#[trigger] it.seq()[i]).0] > 0
                                        ==> board@.contains(
                                        (*it.seq()[i].0, scores[*it.seq()[i].0]),
                                    ),
                        {
                            let user: TelegramUserId = *entry.0;
                            let points: u64 = *entry.1;
                            if points > 0 {
                                insert_ranked(&mut board, (user, points));
                            }
                        }
                    },
                    None => {},
                }
            },
            None => {
                proof {
                    lemma_keyword_absent(entries, keyword@);
                }
            },
        }
        board
    }
}

/// A store as mathematical values: the aggregate, the moment of the last
/// flush and the time that has to pass before the next one.
pub struct StoreModel {
    pub content: ContentModel,
    pub last_written: Span,
    pub write_interval: Span,
}

impl StoreModel {
    /// Whether a change made at `now` calls for a flush: more than the write
    /// interval has passed since the last one.
    pub open spec fn flush_due(self, now: Span) -> bool {
        now.total_nanos() - self.last_written.total_nanos() > self.write_interval.total_nanos()
    }

    /// After a change at `now`, no further change at that same reading calls
    /// for a flush.
    pub proof fn lemma_changed_settles(self, content: ContentModel, now: Span)
        ensures
            !self.changed(content, now).flush_due(now),
    {
    }

    /// The store after a change at `now` that left `content`: where a flush
    /// is due, `now` becomes the moment of the last flush.
    pub open spec fn changed(self, content: ContentModel, now: Span) -> StoreModel {
        StoreModel {
            content,
            last_written: if self.flush_due(now) {
                now
            } else {
                self.last_written
            },
            write_interval: self.write_interval,
        }
    }
}

/// Per-user, per-chat activity with the policy that says when it is to be
/// written out. Time is a reading of one monotonic clock, handed in by the caller.
#[derive(Debug)]
pub struct MetadataStore {
    content: MetadataContent,
    last_written: Span,
    write_interval: Span,
}

impl View for MetadataStore {
    type V = StoreModel;

    closed spec fn view(&self) -> StoreModel {
        StoreModel {
            content: self.content@,
            last_written: self.last_written,
            write_interval: self.write_interval,
        }
    }
}

/// The entries of a message leaderboard with their counts widened to `u64`.
pub open spec fn widened(board: Seq<(i32, usize)>) -> Seq<(i32, u64)> {
    board.map_values(|entry: (i32, usize)| (entry.0, entry.1 as u64))
}

impl MetadataStore {
    /// A store over `content`, or over an empty aggregate where none is given,
    /// whose last flush counts as made at `now`.
    pub fn new(content: Option<MetadataContent>, write_interval: Span, now: Span) -> (store:
        MetadataStore)
        ensures
            store@.content == match content {
                Some(loaded) => loaded@,
                None => ContentModel::empty(),
            },
            store@.last_written == now,
            store@.write_interval == write_interval,
    {
        let content = match content {
            Some(loaded) => loaded,
            None => MetadataContent::new(),
        };
        MetadataStore { content, last_written: now, write_interval }
    }

    /// Whether a change made at `now` calls for a flush.
    pub fn flush_due(&self, now: Span) -> (due: bool)
        ensures
            due == self@.flush_due(now),
    {
        let reading: u128 = now.secs as u128 * 1_000_000_000 + now.nanos as u128;
        let written: u128 = self.last_written.secs as u128 * 1_000_000_000
            + self.last_written.nanos as u128;
        let interval: u128 = self.write_interval.secs as u128 * 1_000_000_000
            + self.write_interval.nanos as u128;
        reading > written + interval
    }

    /// Records one message of `user_id` in `chat_id`, and says whether the
    /// aggregate is to be flushed now.
    pub fn add_message(
        &mut self,
        chat_id: TelegramChatId,
        user_id: TelegramUserId,
        timestamp: i64,
        now: Span,
    ) -> (flush: bool)
        ensures
            flush == old(self)@.flush_due(now),
            final(self)@ == old(self)@.changed(
                old(self)@.content.add_message(chat_id, user_id, timestamp),
                now,
            ),
    {
        self.content.add_message(chat_id, user_id, timestamp);
        let flush = self.flush_due(now);
        if flush {
            self.last_written = now;
        }
        flush
    }

    /// Counts one more point of `user_id` in `chat_id` for `keyword`, and says
    /// whether the aggregate is to be flushed now.
    pub fn add_keyword_point(
        &mut self,
        keyword: &str,
        chat_id: TelegramChatId,
        user_id: TelegramUserId,
        now: Span,
    ) -> (flush: bool)
        ensures
            flush == old(self)@.flush_due(now),
            final(self)@ == old(self)@.changed(
                old(self)@.content.add_keyword_point(keyword@, chat_id, user_id),
                now,
            ),
    {
        self.content.add_keyword_point(keyword, chat_id, user_id);
        let flush = self.flush_due(now);
        if flush {
            self.last_written = now;
        }
        flush
    }

    /// Remembers `name` as the display name of `user_id`, and says whether the
    /// aggregate is to be flushed now.
    pub fn add_user_name(&mut self, user_id: TelegramUserId, name: String, now: Span) -> (flush:
        bool)
        ensures
            flush == old(self)@.flush_due(now),
            final(self)@ == old(self)@.changed(
                old(self)@.content.add_user_name(user_id, name@),
                now,
            ),
    {
        self.content.add_user_name(user_id, name);
        let flush = self.flush_due(now);
        if flush {
            self.last_written = now;
        }
        flush
    }

    /// The display name last seen for `user_id`.
    pub fn get_user_name(&self, user_id: TelegramUserId) -> (name: Option<&str>)
        ensures
            match name {
                Some(text) => self@.content.names.contains_key(user_id) && text@
                    == self@.content.names[user_id],
                None => !self@.content.names.contains_key(user_id),
            },
    {
        self.content.get_user_name(user_id)
    }

    /// The users of `chat_id` with at least one message after `after_unix`,
    /// each with the number of such messages: the highest count first, and of
    /// equal counts the smaller user id first.
    pub fn get_message_counts_by_user(
        &self,
        chat_id: TelegramChatId,
        after_unix: i64,
    ) -> (counts: Vec<(TelegramUserId, usize)>)
        ensures
            is_ranking(widened(counts@), self@.content.message_counts(chat_id, after_unix)),
    {
        let board = self.content.message_ranking(chat_id, after_unix);
        let mut counts: Vec<(i32, usize)> = Vec::new();
        for i in 0..board.len()
            invariant
                forall|k: int| 0 <= k < board@.len() ==> (#[trigger] board@[k]).1 <= usize::MAX,
                counts@.len() == i,
                widened(counts@) == board@.take(i as int),
        {
            let entry = board[i];
            counts.push((entry.0, entry.1 as usize));
            proof {
                assert(widened(counts@) =~= board@.take(i as int).push(entry));
                assert(board@.take(i + 1) =~= board@.take(i as int).push(entry));
            }
        }
        assert(board@.take(board@.len() as int) == board@);
        counts
    }

    /// The users of `chat_id` with points for `keyword`, each with its points:
    /// the most points first, and of equal points the smaller user id first.
    pub fn get_scores_by_user(&self, keyword: &str, chat_id: TelegramChatId) -> (scores: Vec<
        (TelegramUserId, u64),
    >)
        ensures
            is_ranking(scores@, self@.content.keyword_scores(keyword@, chat_id)),
    {
        self.content.score_ranking(keyword, chat_id)
    }

    /// The aggregate, as it is to be written out.
    pub fn content(&self) -> (content: &MetadataContent)
        ensures
            content@ == self@.content,
    {
        &self.content
    }
}

} // verus!
