//! The engine that takes in update events: it tells commands from ordinary
//! messages, keeps the store, and says which messages are to be sent or changed.

use crate::commands::{procedure_of, CommandInvocation, CommandProcedure, InvocationModel};
use crate::keywords::{find_keywords, keyword_matches};
use crate::metadata_store::{ContentModel, MetadataContent, MetadataStore, StoreModel};
use crate::text::{
    find_char, find_whitespace, first_occurrence, first_whitespace, lemma_first_occurrence,
    lemma_first_whitespace, same_text, strip_bidi_controls, texts, without_bidi_controls,
};
use crate::time::Span;
use crate::{TelegramChatId, TelegramMessageId, TelegramUserId};
use std::collections::HashMap;
use vstd::prelude::*;
use vstd::string::{StrSliceExecFns, StringExecFns};

verus! {

/// Number of ordinary messages after a command during which its report is
/// kept up to date.
pub const LIVE_WINDOW: usize = 100;

/// Number of failed polls in a row that is still put up with.
pub const MAX_POLL_ERRORS: u32 = 32;

/// Seconds that a poll request may take beyond the polling timeout.
pub const REQUEST_SLACK_SECS: u64 = 10;

/// The sender of a message.
#[derive(Debug)]
pub struct User {
    pub id: TelegramUserId,
    pub first_name: String,
    pub last_name: Option<String>,
    pub username: Option<String>,
}

/// An inbound message: where and when it was sent and by whom, its text if
/// it has one, and the type tags of its entity annotations.
#[derive(Debug)]
pub struct Message {
    pub chat_id: TelegramChatId,
    pub from: User,
    pub date: i64,
    pub text: Option<String>,
    pub entities: Vec<String>,
}

/// One update event, which describes at most one inbound message.
#[derive(Debug)]
pub struct Update {
    pub update_id: u64,
    pub message: Option<Message>,
}

/// The display name of `user`: the first name, then the last name after a
/// space, then the username behind an `@` after a space, where each is there;
/// all without direction-steering characters.
pub open spec fn full_name(user: User) -> Seq<char> {
    let last = match user.last_name {
        Some(last) => " "@ + last@,
        None => Seq::<char>::empty(),
    };
    let handle = match user.username {
        Some(handle) => " @"@ + handle@,
        None => Seq::<char>::empty(),
    };
    without_bidi_controls(user.first_name@ + last + handle)
}

/// Composes the display name of `user`.
pub fn compose_name(user: &User) -> (name: String)
    ensures
        name@ == full_name(*user),
{
    let mut name = user.first_name.clone();
    match &user.last_name {
        Some(last) => {
            name.append(" ");
            name.append(last.as_str());
        },
        None => {},
    }
    let ghost with_last = name@;
    match &user.username {
        Some(handle) => {
            name.append(" @");
            name.append(handle.as_str());
            assert(name@ == with_last + (" @"@ + handle@));
        },
        None => {
            assert(name@ == with_last + Seq::<char>::empty());
        },
    }
    strip_bidi_controls(name.as_str())
}

/// Whether one of the entity type tags is that of a bot command.
pub open spec fn has_bot_command(entities: Seq<String>) -> bool {
    exists|i: int| 0 <= i < entities.len() && (#[trigger] entities[i])@ == "bot_command"@
}

/// Tells whether one of the entity type tags is that of a bot command.
pub fn is_bot_command(entities: &Vec<String>) -> (tagged: bool)
    ensures
        tagged == has_bot_command(entities@),
{
    for i in 0..entities.len()
        invariant
            forall|j: int| 0 <= j < i ==> (#[trigger] entities@[j])@ != "bot_command"@,
    {
        if same_text(entities[i].as_str(), "bot_command") {
            return true;
        }
    }
    false
}

/// The command word of `text`: what stands before its first whitespace
/// character, without an `@` and what follows it.
pub open spec fn command_word(text: Seq<char>) -> Seq<char> {
    let head = text.take(first_whitespace(text) as int);
    head.take(first_occurrence(head, '@') as int)
}

/// Looks up the report that the command word of `text` asks for.
pub fn find_procedure(text: &str) -> (procedure: Option<CommandProcedure>)
    ensures
        procedure == procedure_of(command_word(text@)),
{
    let at = find_whitespace(text);
    proof {
        lemma_first_whitespace(text@);
    }
    let head = text.substring_char(0, at);
    assert(head@ == text@.take(at as int));
    let cut = find_char(head, '@');
    proof {
        lemma_first_occurrence(head@, '@');
    }
    let word = head.substring_char(0, cut);
    assert(word@ == head@.take(cut as int));
    if same_text(word, "/tilasto") {
        Some(CommandProcedure::Stats)
    } else if same_text(word, "/pisteet") {
        Some(CommandProcedure::Scores)
    } else {
        None
    }
}

/// The line that confirms one point for `keyword`.
pub open spec fn confirmation(keyword: Seq<char>) -> Seq<char> {
    "Yksi (1) "@ + keyword + " lisätty "@ + keyword + "-tilillesi"@
}

/// Writes the line that confirms one point for `keyword`.
pub fn confirmation_text(keyword: &str) -> (line: String)
    ensures
        line@ == confirmation(keyword@),
{
    let mut line = String::from_str("Yksi (1) ");
    line.append(keyword);
    line.append(" lisätty ");
    line.append(keyword);
    line.append("-tilillesi");
    line
}

/// The keywords found in the text of `message`; none where it has no text.
pub open spec fn message_hits(keywords: Seq<Seq<char>>, message: Message) -> Seq<usize> {
    match message.text {
        Some(text) => keyword_matches(keywords, text@),
        None => Seq::empty(),
    }
}

/// The store after one point for each of `hits`, counted at `clock` for
/// `user` in `chat`.
pub open spec fn with_points(
    store: StoreModel,
    keywords: Seq<Seq<char>>,
    hits: Seq<usize>,
    chat: TelegramChatId,
    user: TelegramUserId,
    clock: Span,
) -> StoreModel
    decreases hits.len(),
{
    if hits.len() == 0 {
        store
    } else {
        let before = with_points(store, keywords, hits.drop_last(), chat, user, clock);
        before.changed(
            before.content.add_keyword_point(keywords[hits.last() as int], chat, user),
            clock,
        )
    }
}

/// The confirmation lines for `hits`, in order.
pub open spec fn confirmations(keywords: Seq<Seq<char>>, hits: Seq<usize>) -> Seq<Seq<char>> {
    Seq::new(hits.len(), |i: int| confirmation(keywords[hits[i] as int]))
}

/// The counter of trailing messages after one more: it stops at `usize::MAX`.
pub open spec fn one_more_message(count: usize) -> usize {
    if count == usize::MAX {
        count
    } else {
        (count + 1) as usize
    }
}

/// What is to be done about one update. In each case `flush` holds the
/// aggregate as it is to be written out first, where the time for that has come.
#[derive(Debug)]
pub enum Step {
    /// Nothing is to be sent: the update holds no message, or a command that
    /// is not known.
    Skipped { flush: Option<MetadataContent> },
    /// Send `text` to the chat of `invocation`, and hand the invocation back
    /// with the id of the delivered message, or with none if it was not delivered.
    Command { invocation: CommandInvocation, text: String, flush: Option<MetadataContent> },
    /// Send each of `confirmations` to `chat_id`; then, where `refresh` names
    /// a message and a text, put the text in the place of that message.
    Ordinary {
        chat_id: TelegramChatId,
        confirmations: Vec<String>,
        refresh: Option<(TelegramMessageId, String)>,
        flush: Option<MetadataContent>,
    },
}

/// A step as mathematical values.
pub enum StepModel {
    Skipped { flush: Option<ContentModel> },
    Command { invocation: InvocationModel, text: Seq<char>, flush: Option<ContentModel> },
    Ordinary {
        chat_id: TelegramChatId,
        confirmations: Seq<Seq<char>>,
        refresh: Option<(TelegramMessageId, Seq<char>)>,
        flush: Option<ContentModel>,
    },
}

/// What is to be written out, as mathematical values.
pub open spec fn flush_view(flush: Option<MetadataContent>) -> Option<ContentModel> {
    match flush {
        Some(content) => Some(content@),
        None => None,
    }
}

impl View for Step {
    type V = StepModel;

    open spec fn view(&self) -> StepModel {
        match *self {
            Step::Skipped { flush } => StepModel::Skipped { flush: flush_view(flush) },
            Step::Command { invocation, text, flush } => StepModel::Command {
                invocation: invocation@,
                text: text@,
                flush: flush_view(flush),
            },
            Step::Ordinary { chat_id, confirmations, refresh, flush } => StepModel::Ordinary {
                chat_id,
                confirmations: texts(confirmations@),
                refresh: match refresh {
                    Some(edit) => Some((edit.0, edit.1@)),
                    None => None,
                },
                flush: flush_view(flush),
            },
        }
    }
}

/// What the next poll is to ask for.
#[derive(Clone, Copy, Debug, PartialEq, Eq, Structural)]
pub struct PollRequest {
    /// Seconds that the far side may hold the request open.
    pub timeout_secs: u64,
    /// Time after which the request is given up.
    pub request_timeout: Span,
    /// The first update id that is wanted, once one is known.
    pub offset: Option<u64>,
}

/// The bot as mathematical values.
pub struct BotModel {
    pub timeout: Span,
    pub api_url_get_updates: Seq<char>,
    pub api_url_send_message: Seq<char>,
    pub api_url_edit_message_text: Seq<char>,
    pub store: StoreModel,
    pub keywords: Seq<Seq<char>>,
    /// Per chat, the last command that was answered and the message that holds the answer.
    pub live: Map<TelegramChatId, (InvocationModel, TelegramMessageId)>,
    /// Per chat, the ordinary messages since that command.
    pub trailing: Map<TelegramChatId, usize>,
    pub error_count: u32,
    pub offset: Option<u64>,
}

impl BotModel {
    /// The ordinary messages counted in `chat` since its last command.
    pub open spec fn trailing_of(self, chat: TelegramChatId) -> usize {
        if self.trailing.contains_key(chat) {
            self.trailing[chat]
        } else {
            0
        }
    }

    /// The bot after the display name of `user` was stored at the clock
    /// reading `clock`.
    pub open spec fn named(self, user: User, clock: Span) -> BotModel {
        BotModel {
            store: self.store.changed(
                self.store.content.add_user_name(user.id, full_name(user)),
                clock,
            ),
            ..self
        }
    }

    /// What is to be written out when a message of `user` is taken in at the
    /// clock reading `clock`: where more than the write interval has passed
    /// since the last flush, the aggregate as the first change, the storing
    /// of the sender's name, leaves it.
    pub open spec fn flush_for(self, user: User, clock: Span) -> Option<ContentModel> {
        if self.store.flush_due(clock) {
            Some(self.named(user, clock).store.content)
        } else {
            None
        }
    }

    /// The report that the command in `message` asks for, if it is a known one.
    pub open spec fn procedure_for(message: Message) -> Option<CommandProcedure> {
        match message.text {
            Some(text) => procedure_of(command_word(text@)),
            None => None,
        }
    }

    /// The bot after `message`, in whose text the keywords `hits` were found,
    /// was taken in at the clock reading `clock`. The sender's name is stored
    /// in any case, and it is this first change that calls for the flush
    /// where one is due. A message tagged as a bot command changes nothing else.
    /// Any other message earns a point for each of `hits`, is recorded, and
    /// counts as one more trailing message of its chat.
    pub open spec fn after_found(self, message: Message, hits: Seq<usize>, clock: Span)
        -> BotModel {
        let named = self.named(message.from, clock);
        if has_bot_command(message.entities@) {
            named
        } else {
            let pointed = with_points(
                named.store,
                self.keywords,
                hits,
                message.chat_id,
                message.from.id,
                clock,
            );
            BotModel {
                store: pointed.changed(
                    pointed.content.add_message(message.chat_id, message.from.id, message.date),
                    clock,
                ),
                trailing: self.trailing.insert(
                    message.chat_id,
                    one_more_message(self.trailing_of(message.chat_id)),
                ),
                ..self
            }
        }
    }

    /// The step that `message`, in whose text the keywords `hits` were found,
    /// calls for. A known command is rendered on the store as it stands once
    /// the sender's name is in it. After any other message the answer to the
    /// chat's last command is rendered anew, on the store that holds the
    /// message, as long as no more than `LIVE_WINDOW` messages have followed
    /// the command.
    pub open spec fn step_for_found(
        self,
        message: Message,
        hits: Seq<usize>,
        now: Span,
        clock: Span,
    ) -> StepModel {
        if has_bot_command(message.entities@) {
            match Self::procedure_for(message) {
                Some(procedure) => {
                    let invocation = InvocationModel {
                        procedure,
                        command: message.text->0@,
                        chat_id: message.chat_id,
                    };
                    StepModel::Command {
                        invocation,
                        text: invocation.rendered(self.named(message.from, clock).store, now),
                        flush: self.flush_for(message.from, clock),
                    }
                },
                None => StepModel::Skipped { flush: self.flush_for(message.from, clock) },
            }
        } else {
            let after = self.after_found(message, hits, clock);
            StepModel::Ordinary {
                chat_id: message.chat_id,
                confirmations: confirmations(self.keywords, hits),
                refresh: if after.trailing_of(message.chat_id) <= LIVE_WINDOW
                    && self.live.contains_key(message.chat_id) {
                    Some(
                        (
                            self.live[message.chat_id].1,
                            self.live[message.chat_id].0.rendered(after.store, now),
                        ),
                    )
                } else {
                    None
                },
                flush: self.flush_for(message.from, clock),
            }
        }
    }

    /// The bot after `message` was taken in at the clock reading `clock`.
    pub open spec fn after_message(self, message: Message, clock: Span) -> BotModel {
        self.after_found(message, message_hits(self.keywords, message), clock)
    }

    /// The step that `message` calls for at the Unix time `now` and the clock
    /// reading `clock`.
    pub open spec fn step_for_message(self, message: Message, now: Span, clock: Span) -> StepModel {
        self.step_for_found(message, message_hits(self.keywords, message), now, clock)
    }

    /// The bot after `update`.
    pub open spec fn after_update(self, update: Update, clock: Span) -> BotModel {
        match update.message {
            Some(message) => self.after_message(message, clock),
            None => self,
        }
    }

    /// The step that `update` calls for.
    pub open spec fn step_for(self, update: Update, now: Span, clock: Span) -> StepModel {
        match update.message {
            Some(message) => self.step_for_message(message, now, clock),
            None => StepModel::Skipped { flush: None },
        }
    }

    /// The bot after the answer to `invocation` was delivered as `message_id`:
    /// the pair is the live response of the chat, which has no trailing messages.
    pub open spec fn answered(
        self,
        invocation: InvocationModel,
        message_id: TelegramMessageId,
    ) -> BotModel {
        BotModel {
            live: self.live.insert(invocation.chat_id, (invocation, message_id)),
            trailing: self.trailing.insert(invocation.chat_id, 0),
            ..self
        }
    }

    /// What the next poll asks for.
    pub open spec fn request(self) -> PollRequest {
        PollRequest {
            timeout_secs: self.timeout.secs,
            request_timeout: Span {
                secs: if self.timeout.secs + REQUEST_SLACK_SECS > u64::MAX {
                    u64::MAX
                } else {
                    (self.timeout.secs + REQUEST_SLACK_SECS) as u64
                },
                nanos: self.timeout.nanos,
            },
            offset: self.offset,
        }
    }
}

/// The greatest update id of `updates`, if there is any update.
pub open spec fn newest_update(updates: Seq<Update>) -> Option<u64>
    decreases updates.len(),
{
    if updates.len() == 0 {
        None
    } else {
        match newest_update(updates.drop_last()) {
            Some(newest) => Some(
                if updates.last().update_id > newest {
                    updates.last().update_id
                } else {
                    newest
                },
            ),
            None => Some(updates.last().update_id),
        }
    }
}

/// The offset to ask for after `updates` arrived: one past the greatest
/// update id. It stays as it was where there is no update, or none past the greatest.
pub open spec fn next_offset(offset: Option<u64>, updates: Seq<Update>) -> Option<u64> {
    match newest_update(updates) {
        Some(newest) => if newest < u64::MAX {
            Some((newest + 1) as u64)
        } else {
            offset
        },
        None => offset,
    }
}

/// The bot after each of `messages` was taken in, in order, at the clock
/// reading that stands beside it.
pub open spec fn after_messages(bot: BotModel, messages: Seq<(Message, Span)>) -> BotModel
    decreases messages.len(),
{
    if messages.len() == 0 {
        bot
    } else {
        after_messages(bot, messages.drop_last()).after_message(
            messages.last().0,
            messages.last().1,
        )
    }
}

/// Once the answer to a command was delivered, the ordinary messages that
/// follow in its chat each bring the answer up to date in the delivered
/// message, up to the `LIVE_WINDOW`th of them; those after it do not.
pub proof fn lemma_live_window(
    bot: BotModel,
    invocation: InvocationModel,
    message_id: TelegramMessageId,
    messages: Seq<(Message, Span)>,
    next: Message,
    now: Span,
    clock: Span,
)
    requires
        forall|i: int|
            0 <= i < messages.len() ==> (#[trigger] messages[i]).0.chat_id == invocation.chat_id
                && !has_bot_command(messages[i].0.entities@),
        next.chat_id == invocation.chat_id,
        !has_bot_command(next.entities@),
    ensures
        ({
            let then = after_messages(bot.answered(invocation, message_id), messages);
            &&& then.step_for_message(next, now, clock) matches StepModel::Ordinary {
                refresh,
                ..
            }
            &&& refresh is Some <==> messages.len() < LIVE_WINDOW
            &&& refresh matches Some(edit) ==> edit.0 == message_id
        }),
{
    lemma_trailing_messages(bot.answered(invocation, message_id), invocation.chat_id, messages);
}

proof fn lemma_trailing_messages(
    bot: BotModel,
    chat: TelegramChatId,
    messages: Seq<(Message, Span)>,
)
    requires
        bot.trailing_of(chat) == 0,
        forall|i: int|
            0 <= i < messages.len() ==> (#[trigger] messages[i]).0.chat_id == chat
                && !has_bot_command(messages[i].0.entities@),
    ensures
        after_messages(bot, messages).live == bot.live,
        after_messages(bot, messages).keywords == bot.keywords,
        after_messages(bot, messages).trailing_of(chat) == if messages.len() < usize::MAX {
            messages.len() as usize
        } else {
            usize::MAX
        },
    decreases messages.len(),
{
    if messages.len() > 0 {
        let front = messages.drop_last();
        assert forall|i: int| 0 <= i < front.len() implies (#[trigger] front[i]).0.chat_id == chat
            && !has_bot_command(front[i].0.entities@) by {
            assert(front[i] == messages[i]);
        }
        lemma_trailing_messages(bot, chat, front);
    }
}

/// The live responses as mathematical values.
pub open spec fn live_view(
    live: HashMap<TelegramChatId, (CommandInvocation, TelegramMessageId)>,
) -> Map<TelegramChatId, (InvocationModel, TelegramMessageId)> {
    Map::new(
        |chat: TelegramChatId| live@.contains_key(chat),
        |chat: TelegramChatId| (live@[chat].0@, live@[chat].1),
    )
}

/// The engine that takes in updates: it keeps the store, the keywords, and
/// per chat the last answered command with the count of messages since.
#[derive(Debug)]
pub struct StatsBot {
    timeout: Span,
    api_url_get_updates: String,
    api_url_send_message: String,
    api_url_edit_message_text: String,
    metadata_store: MetadataStore,
    keywords: Vec<String>,
    last_command_invocation_and_message_id_by_chat: HashMap<
        TelegramChatId,
        (CommandInvocation, TelegramMessageId),
    >,
    messages_after_last_post_by_chat: HashMap<TelegramChatId, usize>,
    error_count: u32,
    offset: Option<u64>,
}

impl View for StatsBot {
    type V = BotModel;

    closed spec fn view(&self) -> BotModel {
        BotModel {
            timeout: self.timeout,
            api_url_get_updates: self.api_url_get_updates@,
            api_url_send_message: self.api_url_send_message@,
            api_url_edit_message_text: self.api_url_edit_message_text@,
            store: self.metadata_store@,
            keywords: texts(self.keywords@),
            live: live_view(self.last_command_invocation_and_message_id_by_chat),
            trailing: self.messages_after_last_post_by_chat@,
            error_count: self.error_count,
            offset: self.offset,
        }
    }
}

proof fn lemma_points_settle_flush(
    store: StoreModel,
    keywords: Seq<Seq<char>>,
    hits: Seq<usize>,
    chat: TelegramChatId,
    user: TelegramUserId,
    clock: Span,
)
    ensures
        with_points(store, keywords, hits, chat, user, clock).write_interval
            == store.write_interval,
        hits.len() == 0 ==> with_points(store, keywords, hits, chat, user, clock) == store,
        hits.len() > 0 ==> !with_points(store, keywords, hits, chat, user, clock).flush_due(clock),
        !store.flush_due(clock) ==> !with_points(
            store,
            keywords,
            hits,
            chat,
            user,
            clock,
        ).flush_due(clock),
    decreases hits.len(),
{
    if hits.len() > 0 {
        lemma_points_settle_flush(store, keywords, hits.drop_last(), chat, user, clock);
    }
}

impl StatsBot {
    /// A bot that talks to the interface at `api_url`, polls with `timeout`,
    /// keeps its data in `metadata_store` and looks for `keywords`.
    pub fn new(
        api_url: &str,
        timeout: Span,
        metadata_store: MetadataStore,
        keywords: Vec<String>,
    ) -> (bot: StatsBot)
        ensures
            bot@ == (BotModel {
                timeout,
                api_url_get_updates: api_url@ + "/getUpdates"@,
                api_url_send_message: api_url@ + "/sendMessage"@,
                api_url_edit_message_text: api_url@ + "/editMessageText"@,
                store: metadata_store@,
                keywords: texts(keywords@),
                live: Map::empty(),
                trailing: Map::empty(),
                error_count: 0,
                offset: None,
            }),
    {
        let mut api_url_get_updates = String::from_str(api_url);
        api_url_get_updates.append("/getUpdates");
        let mut api_url_send_message = String::from_str(api_url);
        api_url_send_message.append("/sendMessage");
        let mut api_url_edit_message_text = String::from_str(api_url);
        api_url_edit_message_text.append("/editMessageText");
        let bot = StatsBot {
            timeout,
            api_url_get_updates,
            api_url_send_message,
            api_url_edit_message_text,
            metadata_store,
            keywords,
            last_command_invocation_and_message_id_by_chat: HashMap::new(),
            messages_after_last_post_by_chat: HashMap::new(),
            error_count: 0,
            offset: None,
        };
        assert(bot@.live =~= Map::empty());
        bot
    }

    /// Takes in one update at the Unix time `now` and the clock reading
    /// `clock`, and says what is to be done about it.
    pub fn process_update(&mut self, update: &Update, now: Span, clock: Span) -> (step: Step)
        ensures
            final(self)@ == old(self)@.after_update(*update, clock),
            step@ == old(self)@.step_for(*update, now, clock),
    {
        match &update.message {
            Some(message) => {
                let hits = if is_bot_command(&message.entities) {
                    Vec::new()
                } else {
                    match &message.text {
                        Some(text) => find_keywords(&self.keywords, text.as_str()),
                        None => Vec::new(),
                    }
                };
                self.process_message(message, &hits, now, clock)
            },
            None => Step::Skipped { flush: None },
        }
    }

    /// Takes in one message, in whose text the keywords at the positions
    /// `hits` were found, at the Unix time `now` and the clock reading
    /// `clock`, and says what is to be done about it.
    pub fn process_message(
        &mut self,
        message: &Message,
        hits: &Vec<usize>,
        now: Span,
        clock: Span,
    ) -> (step: Step)
        requires
            forall|k: int|
                0 <= k < hits@.len() ==> (#[trigger] hits@[k]) < old(self)@.keywords.len(),
        ensures
            final(self)@ == old(self)@.after_found(*message, hits@, clock),
            step@ == old(self)@.step_for_found(*message, hits@, now, clock),
    {
        let chat_id = message.chat_id;
        let user_id = message.from.id;
        let name = compose_name(&message.from);
        let flush = if self.metadata_store.add_user_name(user_id, name, clock) {
            Some(self.metadata_store.content().snapshot())
        } else {
            None
        };
        let ghost named = old(self)@.named(message.from, clock);
        assert(self@ == named);
        proof {
            old(self)@.store.lemma_changed_settles(
                old(self)@.store.content.add_user_name(user_id, full_name(message.from)),
                clock,
            );
        }
        if is_bot_command(&message.entities) {
            let procedure = match &message.text {
                Some(text) => find_procedure(text.as_str()),
                None => None,
            };
            return match procedure {
                Some(procedure) => {
                    let invocation = CommandInvocation {
                        procedure,
                        command_string: message.text.as_ref().unwrap().clone(),
                        chat_id,
                    };
                    let text = invocation.run_at(&mut self.metadata_store, now);
                    Step::Command { invocation, text, flush }
                },
                None => Step::Skipped { flush },
            };
        }
        let mut lines: Vec<String> = Vec::new();
        for i in 0..hits.len()
            invariant
                forall|k: int|
                    0 <= k < hits@.len() ==> (#[trigger] hits@[k]) < self.keywords@.len(),
                self.keywords == old(self).keywords,
                named.keywords == texts(self.keywords@),
                self.timeout == old(self).timeout,
                self.api_url_get_updates == old(self).api_url_get_updates,
                self.api_url_send_message == old(self).api_url_send_message,
                self.api_url_edit_message_text == old(self).api_url_edit_message_text,
                self.last_command_invocation_and_message_id_by_chat == old(
                    self,
                ).last_command_invocation_and_message_id_by_chat,
                self.messages_after_last_post_by_chat == old(self).messages_after_last_post_by_chat,
                self.error_count == old(self).error_count,
                self.offset == old(self).offset,
                self.metadata_store@ == with_points(
                    named.store,
                    named.keywords,
                    hits@.take(i as int),
                    chat_id,
                    user_id,
                    clock,
                ),
                lines@.len() == i,
                texts(lines@) == confirmations(named.keywords, hits@.take(i as int)),
                !named.store.flush_due(clock),
        {
            proof {
                assert(hits@.take(i + 1).drop_last() == hits@.take(i as int));
                lemma_points_settle_flush(
                    named.store,
                    named.keywords,
                    hits@.take(i as int),
                    chat_id,
                    user_id,
                    clock,
                );
            }
            let keyword = self.keywords[hits[i]].as_str();
            assert(keyword@ == named.keywords[hits@[i as int] as int]);
            let due = self.metadata_store.add_keyword_point(keyword, chat_id, user_id, clock);
            assert(!due);
            let ghost earlier = lines@;
            lines.push(confirmation_text(keyword));
            proof {
                let wanted = confirmations(named.keywords, hits@.take(i + 1));
                assert forall|j: int| 0 <= j < wanted.len() implies texts(lines@)[j]
                    == wanted[j] by {
                    if j < i {
                        assert(lines@[j] == earlier[j]);
                        assert(texts(earlier)[j] == confirmations(
                            named.keywords,
                            hits@.take(i as int),
                        )[j]);
                        assert(hits@.take(i as int)[j] == hits@.take(i + 1)[j]);
                    } else {
                        assert(hits@.take(i + 1)[j] == hits@[i as int]);
                    }
                }
                assert(texts(lines@) =~= wanted);
            }
        }
        proof {
            assert(hits@.take(hits@.len() as int) == hits@);
            lemma_points_settle_flush(named.store, named.keywords, hits@, chat_id, user_id, clock);
        }
        let count: usize = match self.messages_after_last_post_by_chat.get(&chat_id) {
            Some(count) => *count,
            None => 0,
        };
        let trailing: usize = if count == usize::MAX {
            count
        } else {
            count + 1
        };
        self.messages_after_last_post_by_chat.insert(chat_id, trailing);
        let due = self.metadata_store.add_message(chat_id, user_id, message.date, clock);
        assert(!due);
        assert(self@ == old(self)@.after_found(*message, hits@, clock));
        let refresh = if trailing <= LIVE_WINDOW {
            match self.last_command_invocation_and_message_id_by_chat.get(&chat_id) {
                Some(live) => {
                    let text = live.0.run_at(&mut self.metadata_store, now);
                    Some((live.1, text))
                },
                None => None,
            }
        } else {
            None
        };
        Step::Ordinary { chat_id, confirmations: lines, refresh, flush }
    }

    /// Takes note of how the sending of the answer to `invocation` ended.
    /// Delivered as the message `id`, it is now the live response of its
    /// chat; not delivered, it leaves everything as it was.
    pub fn record_response(
        &mut self,
        invocation: CommandInvocation,
        delivered: Option<TelegramMessageId>,
    )
        ensures
            final(self)@ == match delivered {
                Some(id) => old(self)@.answered(invocation@, id),
                None => old(self)@,
            },
    {
        match delivered {
            Some(id) => {
                let chat_id = invocation.chat_id;
                self.last_command_invocation_and_message_id_by_chat.insert(
                    chat_id,
                    (invocation, id),
                );
                self.messages_after_last_post_by_chat.insert(chat_id, 0);
                proof {
                    assert(self@.live =~= old(self)@.live.insert(chat_id, (invocation@, id)));
                }
            },
            None => {},
        }
    }

    /// What the next poll is to ask for, or nothing once the bot is told to stop.
    pub fn poll(&self, running: bool) -> (request: Option<PollRequest>)
        ensures
            request == if running {
                Some(self@.request())
            } else {
                None
            },
    {
        if running {
            Some(
                PollRequest {
                    timeout_secs: self.timeout.secs,
                    request_timeout: Span {
                        secs: self.timeout.secs.saturating_add(REQUEST_SLACK_SECS),
                        nanos: self.timeout.nanos,
                    },
                    offset: self.offset,
                },
            )
        } else {
            None
        }
    }

    /// Takes note of a failed poll, and says whether to give up: that is so
    /// once more than `MAX_POLL_ERRORS` polls in a row have failed.
    pub fn poll_failed(&mut self) -> (give_up: bool)
        ensures
            final(self)@ == (BotModel {
                error_count: if old(self)@.error_count == u32::MAX {
                    u32::MAX
                } else {
                    (old(self)@.error_count + 1) as u32
                },
                ..old(self)@
            }),
            give_up == (old(self)@.error_count >= MAX_POLL_ERRORS),
    {
        if self.error_count < u32::MAX {
            self.error_count = self.error_count + 1;
        }
        self.error_count > MAX_POLL_ERRORS
    }

    /// Takes note of a poll that brought `updates`: the run of failures is
    /// over, and the next poll asks for what follows the newest update.
    pub fn poll_succeeded(&mut self, updates: &Vec<Update>)
        ensures
            final(self)@ == (BotModel {
                error_count: 0,
                offset: next_offset(old(self)@.offset, updates@),
                ..old(self)@
            }),
    {
        self.error_count = 0;
        let mut newest: Option<u64> = None;
        for i in 0..updates.len()
            invariant
                newest == newest_update(updates@.take(i as int)),
        {
            proof {
                assert(updates@.take(i + 1).drop_last() == updates@.take(i as int));
            }
            let id = updates[i].update_id;
            newest = match newest {
                Some(seen) => Some(if id > seen { id } else { seen }),
                None => Some(id),
            };
        }
        assert(updates@.take(updates@.len() as int) == updates@);
        match newest {
            Some(newest) => {
                if newest < u64::MAX {
                    self.offset = Some(newest + 1);
                }
            },
            None => {},
        }
    }

    /// The address that updates are fetched from.
    pub fn get_updates_url(&self) -> (url: &str)
        ensures
            url@ == self@.api_url_get_updates,
    {
        self.api_url_get_updates.as_str()
    }

    /// The address that messages are sent to.
    pub fn send_message_url(&self) -> (url: &str)
        ensures
            url@ == self@.api_url_send_message,
    {
        self.api_url_send_message.as_str()
    }

    /// The address that changed message texts are sent to.
    pub fn edit_message_text_url(&self) -> (url: &str)
        ensures
            url@ == self@.api_url_edit_message_text,
    {
        self.api_url_edit_message_text.as_str()
    }

    /// The store, as it is to be written out.
    pub fn store(&self) -> (store: &MetadataStore)
        ensures
            store@ == self@.store,
    {
        &self.metadata_store
    }
}

} // verus!
