//! What the chat transport hands over, made into messages for the arbiter.

use crate::arbiter::MessageView;
use crate::command::{Command, Instant, Message, Privilege};
use crate::parsing::{
    command_of, is_timed_block, parse_command, parse_command_at, tokens_of,
};
use crate::text::same_text;
use vstd::prelude::*;
use vstd::string::*;

verus! {

/// Whether the chat's `mod` tag marks its sender as a moderator: the tag is
/// there and holds `1`.
pub open spec fn tag_marks_moderator(mod_tag: Option<Seq<char>>) -> bool {
    mod_tag == Some("1"@)
}

/// The privilege that the transport vouches for: the channel's own login is
/// the broadcaster, a sender with the moderator's tag is a moderator, and
/// everybody else has none.
pub open spec fn asserted_privilege(
    sender_login: Seq<char>,
    mod_tag: Option<Seq<char>>,
    channel: Seq<char>,
) -> Privilege {
    if channel == sender_login {
        Privilege::Broadcaster
    } else if tag_marks_moderator(mod_tag) {
        Privilege::Moderator
    } else {
        Privilege::Standard
    }
}

/// A tag as a mathematical value.
pub open spec fn tag_view(mod_tag: Option<&str>) -> Option<Seq<char>> {
    match mod_tag {
        Some(t) => Some(t@),
        None => None,
    }
}

/// Whether the chat's `mod` tag marks its sender as a moderator.
pub fn is_moderator(mod_tag: Option<&str>) -> (r: bool)
    ensures
        r == tag_marks_moderator(tag_view(mod_tag)),
{
    match mod_tag {
        Some(t) => same_text(t, "1"),
        None => false,
    }
}

/// The privilege that the transport vouches for.
pub fn user_privilege(sender_login: &str, mod_tag: Option<&str>, channel: &str) -> (r: Privilege)
    ensures
        r == asserted_privilege(sender_login@, tag_view(mod_tag), channel@),
{
    if same_text(channel, sender_login) {
        return Privilege::Broadcaster;
    }
    if is_moderator(mod_tag) {
        return Privilege::Moderator;
    }
    Privilege::Standard
}

/// The message that a line of chat makes at the instant `now`, where the
/// line is a command.
pub open spec fn chat_message(
    channel: Seq<char>,
    sender_login: Seq<char>,
    sender_id: Seq<char>,
    mod_tag: Option<Seq<char>>,
    text: Seq<char>,
    now: Instant,
) -> Option<MessageView> {
    match command_of(text, now) {
        Some(command) => Some(
            MessageView {
                command,
                sender_id,
                sender_name: sender_login,
                privilege: asserted_privilege(sender_login, mod_tag, channel),
            },
        ),
        None => None,
    }
}

fn wrap(
    command: Option<Command>,
    channel: &str,
    sender_login: &str,
    sender_id: &str,
    mod_tag: Option<&str>,
) -> (r: Option<Message>)
    ensures
        r.deep_view() == (match command.deep_view() {
            Some(c) => Some(
                MessageView {
                    command: c,
                    sender_id: sender_id@,
                    sender_name: sender_login@,
                    privilege: asserted_privilege(sender_login@, tag_view(mod_tag), channel@),
                },
            ),
            None => None,
        }),
{
    match command {
        Some(command) => Some(
            Message {
                command,
                sender_name: sender_login.to_owned(),
                sender_id: sender_id.to_owned(),
                privilege: user_privilege(sender_login, mod_tag, channel),
            },
        ),
        None => None,
    }
}

/// Makes a line of chat into a message for the arbiter, with timed blocks
/// running from `now`. A line that is no command makes none.
pub fn read_chat_line_at(
    channel: &str,
    sender_login: &str,
    sender_id: &str,
    mod_tag: Option<&str>,
    text: &str,
    now: Instant,
) -> (r: Option<Message>)
    ensures
        r.deep_view() == chat_message(
            channel@,
            sender_login@,
            sender_id@,
            tag_view(mod_tag),
            text@,
            now,
        ),
{
    wrap(parse_command_at(text, now), channel, sender_login, sender_id, mod_tag)
}

/// Makes a line of chat into a message for the arbiter, with timed blocks
/// running from the instant at which the line is read.
pub fn read_chat_line(
    channel: &str,
    sender_login: &str,
    sender_id: &str,
    mod_tag: Option<&str>,
    text: &str,
) -> (r: Option<Message>)
    ensures
        exists|now: Instant|
            #[trigger] chat_message(
                channel@,
                sender_login@,
                sender_id@,
                tag_view(mod_tag),
                text@,
                now,
            ) == r.deep_view(),
        !is_timed_block(tokens_of(text@)) ==> forall|now: Instant|
            #[trigger] chat_message(
                channel@,
                sender_login@,
                sender_id@,
                tag_view(mod_tag),
                text@,
                now,
            ) == r.deep_view(),
{
    let command: Option<Command> = parse_command(text);
    let ghost now = choose|now: Instant| #[trigger] command_of(text@, now) == command.deep_view();
    let r = wrap(command, channel, sender_login, sender_id, mod_tag);
    assert(chat_message(channel@, sender_login@, sender_id@, tag_view(mod_tag), text@, now)
        == r.deep_view());
    proof {
        if !is_timed_block(tokens_of(text@)) {
            assert forall|other: Instant| #[trigger] chat_message(
                channel@,
                sender_login@,
                sender_id@,
                tag_view(mod_tag),
                text@,
                other,
            ) == r.deep_view() by {
                assert(command_of(text@, other) == command.deep_view());
            }
        }
    }
    r
}

} // verus!
