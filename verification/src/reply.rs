//! What the answers of the bot ask for.

use vstd::prelude::*;
use vstd::string::*;
use vstd::utf8::*;

use crate::chunk::{
    chars_fit, chunks, encoded, fits_limit, law_chunks_cut_no_character, law_chunks_keep_the_limit,
    law_chunks_rejoin, split_text,
};
use crate::event::opt_is;
use crate::schema::GatewayReply;
use crate::text::{opt_str_view, opt_view, str_eq};

verus! {

/// The platform's name for the reaction with an emoji.
pub open spec fn reaction_named(emoji: Seq<char>) -> Option<Seq<char>> {
    if emoji == "👀"@ {
        Some("EYES"@)
    } else if emoji == "🤔"@ {
        Some("THINKING"@)
    } else if emoji == "🔥"@ {
        Some("FIRE"@)
    } else if emoji == "👨\u{200d}💻"@ {
        Some("TECHNOLOGIST"@)
    } else if emoji == "⚡"@ {
        Some("LIGHTNING"@)
    } else if emoji == "🆗"@ {
        Some("OK"@)
    } else if emoji == "👍"@ {
        Some("THUMBSUP"@)
    } else if emoji == "😱"@ {
        Some("SCREAM"@)
    } else {
        None
    }
}

/// Maps an emoji to the platform's reaction type. The platform uses string keys like "THUMBSUP".
pub fn emoji_to_feishu_reaction(emoji: &str) -> (r: Option<&'static str>)
    ensures
        opt_str_view(r) == reaction_named(emoji@),
{
    if str_eq(emoji, "👀") {
        Some("EYES")
    } else if str_eq(emoji, "🤔") {
        Some("THINKING")
    } else if str_eq(emoji, "🔥") {
        Some("FIRE")
    } else if str_eq(emoji, "👨\u{200d}💻") {
        Some("TECHNOLOGIST")
    } else if str_eq(emoji, "⚡") {
        Some("LIGHTNING")
    } else if str_eq(emoji, "🆗") {
        Some("OK")
    } else if str_eq(emoji, "👍") {
        Some("THUMBSUP")
    } else if str_eq(emoji, "😱") {
        Some("SCREAM")
    } else {
        None
    }
}

/// What an answer asks for.
#[derive(Debug)]
pub enum ReplyPlan<'a> {
    /// React to a message.
    AddReaction { message_id: &'a str, reaction_type: &'static str },
    /// Take a reaction to a message back.
    RemoveReaction { message_id: &'a str, reaction_type: &'static str },
    /// Send the texts to a chat, each as a message of its own, in order.
    Send { chat_id: &'a str, texts: Vec<&'a str> },
    /// Nothing that the platform supports.
    Nothing,
}

/// A [`ReplyPlan`] as characters, the texts as they are encoded.
pub enum ReplyPlanView {
    AddReaction { message_id: Seq<char>, reaction_type: Seq<char> },
    RemoveReaction { message_id: Seq<char>, reaction_type: Seq<char> },
    Send { chat_id: Seq<char>, texts: Seq<Seq<u8>> },
    Nothing,
}

/// The plan as characters.
pub open spec fn plan_view(plan: ReplyPlan<'_>) -> ReplyPlanView {
    match plan {
        ReplyPlan::AddReaction { message_id, reaction_type } => ReplyPlanView::AddReaction {
            message_id: message_id@,
            reaction_type: reaction_type@,
        },
        ReplyPlan::RemoveReaction { message_id, reaction_type } => ReplyPlanView::RemoveReaction {
            message_id: message_id@,
            reaction_type: reaction_type@,
        },
        ReplyPlan::Send { chat_id, texts } => ReplyPlanView::Send {
            chat_id: chat_id@,
            texts: encoded(texts@),
        },
        ReplyPlan::Nothing => ReplyPlanView::Nothing,
    }
}

/// The messages that a text is sent as: itself if it keeps the limit, else its chunks.
pub open spec fn messages_of(text: Seq<char>, limit: usize) -> Seq<Seq<u8>> {
    if encode_utf8(text).len() <= limit {
        seq![encode_utf8(text)]
    } else {
        chunks(encode_utf8(text), limit as int)
    }
}

/// Whether an answer with this command is a text to send.
pub open spec fn sends_text(command: Option<Seq<char>>) -> bool {
    &&& command != Some("add_reaction"@)
    &&& command != Some("remove_reaction"@)
    &&& command != Some("create_topic"@)
    &&& command != Some("set_reaction"@)
}

/// What an answer asks for, where messages take at most `limit` bytes.
pub open spec fn planned(reply: GatewayReply, limit: usize) -> ReplyPlanView {
    let command = opt_view(reply.command);
    let text = reply.content.text@;
    if command == Some("add_reaction"@) {
        match reaction_named(text) {
            Some(reaction_type) => ReplyPlanView::AddReaction {
                message_id: reply.reply_to@,
                reaction_type,
            },
            None => ReplyPlanView::Nothing,
        }
    } else if command == Some("remove_reaction"@) {
        match reaction_named(text) {
            Some(reaction_type) => ReplyPlanView::RemoveReaction {
                message_id: reply.reply_to@,
                reaction_type,
            },
            None => ReplyPlanView::Nothing,
        }
    } else if !sends_text(command) {
        ReplyPlanView::Nothing
    } else {
        ReplyPlanView::Send { chat_id: reply.channel.id@, texts: messages_of(text, limit) }
    }
}

/// What an answer asks for: a reaction for the commands that add or remove one, nothing for the
/// commands that are not supported, and else a text to send, in messages of at most `limit` bytes.
/// A text with a character that is wider than `limit` cannot be sent.
pub fn handle_reply<'a>(reply: &'a GatewayReply, limit: usize) -> (r: ReplyPlan<'a>)
    requires
        sends_text(opt_view(reply.command)) ==> chars_fit(reply.content.text@, limit as int),
    ensures
        plan_view(r) == planned(*reply, limit),
{
    let text = reply.content.text.as_str();
    if opt_is(&reply.command, "add_reaction") {
        return match emoji_to_feishu_reaction(text) {
            Some(reaction_type) => ReplyPlan::AddReaction {
                message_id: reply.reply_to.as_str(),
                reaction_type,
            },
            None => ReplyPlan::Nothing,
        };
    }
    if opt_is(&reply.command, "remove_reaction") {
        return match emoji_to_feishu_reaction(text) {
            Some(reaction_type) => ReplyPlan::RemoveReaction {
                message_id: reply.reply_to.as_str(),
                reaction_type,
            },
            None => ReplyPlan::Nothing,
        };
    }
    if opt_is(&reply.command, "create_topic") || opt_is(&reply.command, "set_reaction") {
        return ReplyPlan::Nothing;
    }
    let texts = if text.as_bytes().len() <= limit {
        let mut one: Vec<&'a str> = Vec::new();
        one.push(text);
        assert(encoded(one@) =~= seq![text.spec_bytes()]);
        one
    } else {
        split_text(text, limit)
    };
    ReplyPlan::Send { chat_id: reply.channel.id.as_str(), texts }
}

/// Whether an answer can be handled where messages take at most `limit` bytes.
pub fn can_handle(reply: &GatewayReply, limit: usize) -> (r: bool)
    ensures
        r == (sends_text(opt_view(reply.command)) ==> chars_fit(
            reply.content.text@,
            limit as int,
        )),
{
    opt_is(&reply.command, "add_reaction") || opt_is(&reply.command, "remove_reaction") || opt_is(
        &reply.command,
        "create_topic",
    ) || opt_is(&reply.command, "set_reaction") || fits_limit(
        reply.content.text.as_str(),
        limit,
    )
}

/// The messages that a text is sent as keep the limit, cut no character, and give the text again
/// when they are put together.
pub proof fn law_messages_carry_the_text(text: Seq<char>, limit: usize)
    requires
        chars_fit(text, limit as int),
    ensures
        messages_of(text, limit).flatten() == encode_utf8(text),
        forall|i: int|
            0 <= i < messages_of(text, limit).len() ==> (#[trigger] messages_of(
                text,
                limit,
            )[i]).len() <= limit && valid_utf8(messages_of(text, limit)[i]),
{
    encode_utf8_valid_utf8(text);
    law_chunks_rejoin(text, limit as int);
    law_chunks_keep_the_limit(text, limit as int);
    law_chunks_cut_no_character(text, limit as int);
    seq![encode_utf8(text)].lemma_flatten_one_element();
}

/// A text is sent as one message exactly if it keeps the limit.
pub proof fn law_short_text_is_one_message(text: Seq<char>, limit: usize)
    requires
        chars_fit(text, limit as int),
    ensures
        messages_of(text, limit).len() == 1 <==> encode_utf8(text).len() <= limit,
{
    law_chunks_rejoin(text, limit as int);
    law_chunks_keep_the_limit(text, limit as int);
    let parts = chunks(encode_utf8(text), limit as int);
    if parts.len() == 1 {
        assert(parts =~= seq![parts[0]]);
        parts.lemma_flatten_one_element();
        assert(parts[0].len() <= limit);
    }
}

/// Just these eight emoji have a reaction, each its own.
pub proof fn law_eight_emoji_have_reactions(emoji: Seq<char>)
    ensures
        reaction_named(emoji) == Some("EYES"@) <==> emoji == "👀"@,
        reaction_named(emoji) == Some("THINKING"@) <==> emoji == "🤔"@,
        reaction_named(emoji) == Some("FIRE"@) <==> emoji == "🔥"@,
        reaction_named(emoji) == Some("TECHNOLOGIST"@) <==> emoji == "👨\u{200d}💻"@,
        reaction_named(emoji) == Some("LIGHTNING"@) <==> emoji == "⚡"@,
        reaction_named(emoji) == Some("OK"@) <==> emoji == "🆗"@,
        reaction_named(emoji) == Some("THUMBSUP"@) <==> emoji == "👍"@,
        reaction_named(emoji) == Some("SCREAM"@) <==> emoji == "😱"@,
        reaction_named(emoji) is Some ==> {
            ||| emoji == "👀"@
            ||| emoji == "🤔"@
            ||| emoji == "🔥"@
            ||| emoji == "👨\u{200d}💻"@
            ||| emoji == "⚡"@
            ||| emoji == "🆗"@
            ||| emoji == "👍"@
            ||| emoji == "😱"@
        },
{
    reveal_strlit("👀");
    reveal_strlit("🤔");
    reveal_strlit("🔥");
    reveal_strlit("👨\u{200d}💻");
    reveal_strlit("⚡");
    reveal_strlit("🆗");
    reveal_strlit("👍");
    reveal_strlit("😱");
    assert("👀"@[0] == '👀');
    assert("🤔"@[0] == '🤔');
    assert("🔥"@[0] == '🔥');
    assert("👨\u{200d}💻"@[0] == '👨');
    assert("⚡"@[0] == '⚡');
    assert("🆗"@[0] == '🆗');
    assert("👍"@[0] == '👍');
    assert("😱"@[0] == '😱');
    reveal_strlit("EYES");
    reveal_strlit("THINKING");
    reveal_strlit("FIRE");
    reveal_strlit("TECHNOLOGIST");
    reveal_strlit("LIGHTNING");
    reveal_strlit("OK");
    reveal_strlit("THUMBSUP");
    reveal_strlit("SCREAM");
    assert("EYES"@[0] == 'E');
    assert("THINKING"@[0] == 'T' && "THINKING"@[1] == 'H' && "THINKING"@[2] == 'I');
    assert("FIRE"@[0] == 'F');
    assert("TECHNOLOGIST"@[0] == 'T' && "TECHNOLOGIST"@[1] == 'E');
    assert("LIGHTNING"@[0] == 'L');
    assert("OK"@[0] == 'O');
    assert("THUMBSUP"@[0] == 'T' && "THUMBSUP"@[1] == 'H' && "THUMBSUP"@[2] == 'U');
    assert("SCREAM"@[0] == 'S');
}

/// The command that adds or removes a reaction does so at the message that is answered, with the
/// reaction of the emoji that the text is. An emoji without a reaction asks for nothing.
pub proof fn law_reaction_commands_react_to_the_message(
    reply: GatewayReply,
    limit: usize,
    name: Seq<char>,
)
    requires
        reply.command is Some,
    ensures
        reply.command->0@ == "add_reaction"@ && reaction_named(reply.content.text@) == Some(name)
            ==> planned(reply, limit) == (ReplyPlanView::AddReaction {
            message_id: reply.reply_to@,
            reaction_type: name,
        }),
        reply.command->0@ == "remove_reaction"@ && reaction_named(reply.content.text@) == Some(name)
            ==> planned(reply, limit) == (ReplyPlanView::RemoveReaction {
            message_id: reply.reply_to@,
            reaction_type: name,
        }),
        (reply.command->0@ == "add_reaction"@ || reply.command->0@ == "remove_reaction"@)
            && reaction_named(reply.content.text@) is None ==> planned(reply, limit)
            == ReplyPlanView::Nothing,
        reply.command->0@ == "create_topic"@ || reply.command->0@ == "set_reaction"@ ==> planned(
            reply,
            limit,
        ) == ReplyPlanView::Nothing,
{
    reveal_strlit("add_reaction");
    reveal_strlit("remove_reaction");
    reveal_strlit("create_topic");
    reveal_strlit("set_reaction");
    assert("add_reaction"@.len() == 12);
    assert("remove_reaction"@.len() == 15);
    assert("create_topic"@.len() == 12);
    assert("set_reaction"@.len() == 12);
    assert("add_reaction"@[0] == 'a');
    assert("create_topic"@[0] == 'c');
    assert("set_reaction"@[0] == 's');
}

/// Any other answer is sent to its chat, with or without a command: whole as one message if it keeps
/// the limit, else in messages of which each keeps the limit and which together are the text.
pub proof fn law_other_answers_are_sent(reply: GatewayReply, limit: usize)
    requires
        reply.command is Some ==> {
            &&& reply.command->0@ != "add_reaction"@
            &&& reply.command->0@ != "remove_reaction"@
            &&& reply.command->0@ != "create_topic"@
            &&& reply.command->0@ != "set_reaction"@
        },
        chars_fit(reply.content.text@, limit as int),
    ensures
        planned(reply, limit) matches ReplyPlanView::Send { chat_id, texts } && {
            let text = encode_utf8(reply.content.text@);
            &&& chat_id == reply.channel.id@
            &&& texts.flatten() == text
            &&& text.len() <= limit ==> texts == seq![text]
            &&& text.len() > limit ==> texts == chunks(text, limit as int)
            &&& forall|i: int| 0 <= i < texts.len() ==> (#[trigger] texts[i]).len() <= limit
        },
{
    law_messages_carry_the_text(reply.content.text@, limit);
}

} // verus!
