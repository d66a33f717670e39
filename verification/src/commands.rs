//! The commands that ask for reports, and what they have in common.

use crate::metadata_store::{MetadataStore, StoreModel};
use crate::text::{
    find_whitespace, first_whitespace, lemma_first_whitespace, push_signed, signed_decimal, trim,
    trimmed,
};
use crate::time::{
    cutoff_before, cutoff_secs, duration_weight, parse_duration, parsed_duration, unix_now,
    within_duration_weight, Span, MAX_DURATION_WEIGHT,
};
use crate::{TelegramChatId, TelegramUserId};
use vstd::prelude::*;
use vstd::string::{StrSliceExecFns, StringExecFns};

pub mod command_scores;
pub mod command_stats;

verus! {

/// What follows the command word: the text from the first whitespace on,
/// without the whitespace around it.
pub open spec fn argument_text(command: Seq<char>) -> Seq<char> {
    trimmed(command.skip(first_whitespace(command) as int))
}

/// Cuts out what follows the command word.
pub fn argument_of(command: &str) -> (argument: &str)
    ensures
        argument@ == argument_text(command@),
{
    let at = find_whitespace(command);
    let len = command.unicode_len();
    proof {
        lemma_first_whitespace(command@);
    }
    let rest = command.substring_char(at, len);
    assert(rest@ == command@.skip(at as int));
    trim(rest)
}

/// The time window that `command` asks for at the Unix time `now`: the
/// moment that lies the written duration before `now`, in whole seconds, with
/// the duration as it was written. There is none where the text weighs more
/// than `MAX_DURATION_WEIGHT`, is not a duration, or reaches back before the
/// epoch.
pub open spec fn converted_time(command: Seq<char>, now: Span) -> Option<(i64, Seq<char>)> {
    let text = argument_text(command);
    if duration_weight(text) > MAX_DURATION_WEIGHT {
        None
    } else {
        match parsed_duration(text) {
            Some(read) => match cutoff_secs(now, Span { secs: read.0, nanos: read.1 }) {
                Some(cutoff) => Some((cutoff, text)),
                None => None,
            },
            None => None,
        }
    }
}

/// The time window that `command` asks for, seen from the Unix time `now`.
pub fn convert_time_at(command: &str, now: Span) -> (window: Option<(i64, &str)>)
    ensures
        match window {
            Some((cutoff, text)) => converted_time(command@, now) == Some((cutoff, text@)),
            None => converted_time(command@, now) is None,
        },
{
    let text = argument_of(command);
    if !within_duration_weight(text) {
        return None;
    }
    match parse_duration(text) {
        Some(back) => match cutoff_before(now, back) {
            Some(cutoff) => Some((cutoff, text)),
            None => None,
        },
        None => None,
    }
}

/// The time window that `command` asks for, seen from the system clock. A
/// command that has no window at any time has none here, and a window that is
/// returned is the one of some moment.
pub fn convert_time(command: &str) -> (window: Option<(i64, &str)>)
    ensures
        match window {
            Some((cutoff, text)) => exists|now: Span| #[trigger]
                converted_time(command@, now) == Some((cutoff, text@)),
            None => true,
        },
        (forall|now: Span| #[trigger] converted_time(command@, now) is None) ==> window is None,
{
    match unix_now() {
        Some(now) => {
            let window = convert_time_at(command, now);
            assert(window is Some ==> converted_time(command@, now) is Some);
            window
        },
        None => None,
    }
}

/// The name under which `user` appears in a report: the display name where
/// one is known, else the user id as a number.
pub open spec fn display_name(names: Map<i32, Seq<char>>, user: TelegramUserId) -> Seq<char> {
    if names.contains_key(user) {
        names[user]
    } else {
        signed_decimal(user as int)
    }
}

/// Appends the name under which `user` appears in a report.
pub fn push_display_name(response: &mut String, store: &MetadataStore, user: TelegramUserId)
    ensures
        final(response)@ == old(response)@ + display_name(store@.content.names, user),
{
    match store.get_user_name(user) {
        Some(name) => {
            response.append(name);
        },
        None => {
            push_signed(response, user as i64);
        },
    }
}

/// The reports that a command can ask for.
#[derive(Clone, Copy, Debug, PartialEq, Eq, Structural)]
pub enum CommandProcedure {
    /// Message counts per user over a time window.
    Stats,
    /// Points per user for one keyword.
    Scores,
}

/// The report that belongs to a command word, if it is a known one.
pub open spec fn procedure_of(word: Seq<char>) -> Option<CommandProcedure> {
    if word == "/tilasto"@ {
        Some(CommandProcedure::Stats)
    } else if word == "/pisteet"@ {
        Some(CommandProcedure::Scores)
    } else {
        None
    }
}

/// A command as it was given: the report it asks for, its full text and the
/// chat it was given in.
#[derive(Debug)]
pub struct CommandInvocation {
    pub procedure: CommandProcedure,
    pub command_string: String,
    pub chat_id: TelegramChatId,
}

/// A command as mathematical values.
pub struct InvocationModel {
    pub procedure: CommandProcedure,
    pub command: Seq<char>,
    pub chat_id: TelegramChatId,
}

impl InvocationModel {
    /// The text that the command yields on `store` at the Unix time `now`.
    pub open spec fn rendered(self, store: StoreModel, now: Span) -> Seq<char> {
        match self.procedure {
            CommandProcedure::Stats => command_stats::stats_report(
                converted_time(self.command, now),
                self.chat_id,
                store.content,
            ),
            CommandProcedure::Scores => command_scores::scores_report(
                self.command,
                self.chat_id,
                store.content,
            ),
        }
    }
}

impl View for CommandInvocation {
    type V = InvocationModel;

    open spec fn view(&self) -> InvocationModel {
        InvocationModel {
            procedure: self.procedure,
            command: self.command_string@,
            chat_id: self.chat_id,
        }
    }
}

impl CommandInvocation {
    /// Renders the command on the store as it stands, at the Unix time `now`.
    pub fn run_at(&self, metadata_store: &mut MetadataStore, now: Span) -> (response: String)
        ensures
            response@ == self@.rendered(old(metadata_store)@, now),
            final(metadata_store)@ == old(metadata_store)@,
    {
        match self.procedure {
            CommandProcedure::Stats => command_stats::render_at(
                self.command_string.as_str(),
                self.chat_id,
                metadata_store,
                now,
            ),
            CommandProcedure::Scores => command_scores::render(
                self.command_string.as_str(),
                self.chat_id,
                metadata_store,
            ),
        }
    }

    /// Renders the command on the store as it stands, by the system clock.
    /// The store is left as it was; a report that does not depend on the time
    /// is the one that `rendered` gives.
    pub fn run(&self, metadata_store: &mut MetadataStore) -> (response: String)
        ensures
            final(metadata_store)@ == old(metadata_store)@,
            self.procedure == CommandProcedure::Scores ==> forall|now: Span|
                response@ == #[trigger] self@.rendered(old(metadata_store)@, now),
            self.procedure == CommandProcedure::Stats ==> command_stats::is_stats_response(
                response@,
                self.command_string@,
                self.chat_id,
                old(metadata_store)@.content,
            ),
            self.procedure == CommandProcedure::Stats && (forall|now: Span| #[trigger]
                converted_time(self.command_string@, now) is None) ==> forall|now: Span|
                response@ == #[trigger] self@.rendered(old(metadata_store)@, now),
    {
        match self.procedure {
            CommandProcedure::Stats => command_stats::render(
                self.command_string.as_str(),
                self.chat_id,
                metadata_store,
            ),
            CommandProcedure::Scores => command_scores::render(
                self.command_string.as_str(),
                self.chat_id,
                metadata_store,
            ),
        }
    }
}

} // verus!
