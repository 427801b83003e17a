//! Message events of the platform (`im.message.receive_v1`), and which of them reach the bot.

use vstd::prelude::*;
use vstd::string::*;

use crate::config::FeishuConfig;
use crate::json::{from_text, get_in, get_text, member, read_text, text_in, Json};
use crate::schema::{ChannelInfo, GatewayEvent, GatewayEventView, SenderInfo};
use crate::text::{
    first_occurrence, law_trimmed_ends_are_not_white_space, law_trimmed_is_empty_iff_all_white_space,
    lemma_first_occurrence, opt_str_view, opt_view, remove_first, str_eq, trim, trimmed, views,
    white_space, without_first,
};

verus! {

/// The envelope that an event comes in.
#[derive(Debug)]
pub struct FeishuEventEnvelope {
    pub header: Option<FeishuEventHeader>,
    pub event: Option<FeishuEventBody>,
    pub challenge: Option<String>,
    pub event_type_field: Option<String>,
}

/// What an event is.
#[derive(Debug)]
pub struct FeishuEventHeader {
    pub event_id: Option<String>,
    pub event_type: Option<String>,
}

/// The event itself.
#[derive(Debug)]
pub struct FeishuEventBody {
    pub sender: Option<FeishuSender>,
    pub message: Option<FeishuMessage>,
}

/// Who sent a message.
#[derive(Debug)]
pub struct FeishuSender {
    pub sender_id: Option<FeishuSenderId>,
    pub sender_type: Option<String>,
}

/// The ids of a sender.
#[derive(Debug)]
pub struct FeishuSenderId {
    pub open_id: Option<String>,
}

/// A message.
#[derive(Debug)]
pub struct FeishuMessage {
    pub message_id: Option<String>,
    pub chat_id: Option<String>,
    pub chat_type: Option<String>,
    pub message_type: Option<String>,
    pub content: Option<String>,
    pub mentions: Option<Vec<FeishuMention>>,
    pub root_id: Option<String>,
    pub parent_id: Option<String>,
}

/// A mention of somebody in a message: `key` is what stands for the mention in the text.
#[derive(Debug)]
pub struct FeishuMention {
    pub key: Option<String>,
    pub id: Option<FeishuMentionId>,
    pub name: Option<String>,
}

/// The ids of somebody who is mentioned.
#[derive(Debug)]
pub struct FeishuMentionId {
    pub open_id: Option<String>,
}

/// Whom a mention names.
pub open spec fn mentioned(m: FeishuMention) -> Option<Seq<char>> {
    match m.id {
        Some(id) => opt_view(id.open_id),
        None => None,
    }
}

/// Everybody whom the mentions name, in order.
pub open spec fn mentioned_ids(mentions: Seq<FeishuMention>) -> Seq<Seq<char>>
    decreases mentions.len(),
{
    if mentions.len() == 0 {
        seq![]
    } else {
        let rest = mentioned_ids(mentions.drop_last());
        match mentioned(mentions.last()) {
            Some(id) => rest.push(id),
            None => rest,
        }
    }
}

/// The text without the mentions of the bot: for each, the first occurrence of its key is removed.
pub open spec fn without_bot_mentions(
    text: Seq<char>,
    mentions: Seq<FeishuMention>,
    bot: Option<Seq<char>>,
) -> Seq<char>
    decreases mentions.len(),
{
    if mentions.len() == 0 {
        text
    } else {
        let rest = without_bot_mentions(text, mentions.drop_last(), bot);
        let m = mentions.last();
        if mentioned(m) is Some && mentioned(m) == bot && m.key is Some {
            without_first(rest, m.key->0@)
        } else {
            rest
        }
    }
}

fn mentioned_id<'a>(m: &'a FeishuMention) -> (r: Option<&'a str>)
    ensures
        opt_str_view(r) == mentioned(*m),
{
    match &m.id {
        Some(id) => match &id.open_id {
            Some(open_id) => Some(open_id.as_str()),
            None => None,
        },
        None => None,
    }
}

fn is_bot_id(id: &str, bot_open_id: Option<&str>) -> (r: bool)
    ensures
        r == (Some(id@) == opt_str_view(bot_open_id)),
{
    match bot_open_id {
        Some(bot) => str_eq(id, bot),
        None => false,
    }
}

/// The text without the mentions of the bot, and everybody who is mentioned.
pub fn extract_mentions(
    raw_text: &str,
    mentions: &[FeishuMention],
    bot_open_id: Option<&str>,
) -> (r: (String, Vec<String>))
    ensures
        r.0@ == without_bot_mentions(raw_text@, mentions@, opt_str_view(bot_open_id)),
        views(r.1@) == mentioned_ids(mentions@),
{
    let mut text = raw_text.to_string();
    let mut ids: Vec<String> = Vec::new();
    let mut i: usize = 0;
    assert(mentions@.take(0) =~= seq![]);
    assert(views(ids@) =~= seq![]);
    while i < mentions.len()
        invariant
            i <= mentions@.len(),
            text@ == without_bot_mentions(
                raw_text@,
                mentions@.take(i as int),
                opt_str_view(bot_open_id),
            ),
            views(ids@) == mentioned_ids(mentions@.take(i as int)),
        decreases mentions@.len() - i,
    {
        let m = &mentions[i];
        assert(mentions@.take(i + 1).drop_last() =~= mentions@.take(i as int));
        assert(mentions@.take(i + 1).last() == *m);
        if let Some(id) = mentioned_id(m) {
            let ghost before = ids@;
            ids.push(id.to_string());
            assert(views(ids@) =~= views(before).push(id@));
            if let Some(key) = &m.key {
                if is_bot_id(id, bot_open_id) {
                    text = remove_first(text.as_str(), key.as_str());
                }
            }
        }
        i = i + 1;
    }
    assert(mentions@.take(mentions@.len() as int) =~= mentions@);
    (text, ids)
}

/// The text that the content of a text message holds.
pub open spec fn content_text(content: Option<Seq<char>>) -> Option<Seq<char>> {
    match content {
        Some(c) => match read_text(c) {
            Some(doc) => text_in(member(doc, "text"@)),
            None => None,
        },
        None => None,
    }
}

/// The id of the sender, if the sender is known and is no bot or application.
pub open spec fn human_sender(sender: FeishuSender) -> Option<Seq<char>> {
    if opt_view(sender.sender_type) == Some("bot"@) || opt_view(sender.sender_type) == Some(
        "app"@,
    ) {
        None
    } else {
        match sender.sender_id {
            Some(id) => opt_view(id.open_id),
            None => None,
        }
    }
}

/// Whether the list names nobody, and so everybody, or names `id`.
pub open spec fn permits(list: Seq<String>, id: Seq<char>) -> bool {
    list.len() == 0 || views(list).contains(id)
}

/// Whether the message was posted in a group: every chat but a direct one is a group.
pub open spec fn in_group(msg: FeishuMessage) -> bool {
    opt_view(msg.chat_type) != Some("p2p"@)
}

/// Whether the message is one that the bot may see: a text message of a permitted human other than
/// the bot, and in a group only of a permitted one.
pub open spec fn admissible(
    sender: FeishuSender,
    msg: FeishuMessage,
    bot: Option<Seq<char>>,
    config: FeishuConfig,
) -> bool {
    &&& opt_view(msg.message_type) == Some("text"@)
    &&& human_sender(sender) is Some
    &&& human_sender(sender) != bot
    &&& permits(config.allowed_users@, human_sender(sender)->0)
    &&& msg.chat_id is Some
    &&& msg.message_id is Some
    &&& in_group(msg) ==> permits(config.allowed_groups@, msg.chat_id->0@)
}

/// The mentions of a message.
pub open spec fn mentions_of(msg: FeishuMessage) -> Seq<FeishuMention> {
    match msg.mentions {
        Some(m) => m@,
        None => seq![],
    }
}

/// Whether a message in a group that should mention the bot fails to. A bot that does not know its
/// own id cannot tell.
pub open spec fn lacks_mention(
    msg: FeishuMessage,
    bot: Option<Seq<char>>,
    config: FeishuConfig,
) -> bool {
    in_group(msg) && config.require_mention && bot is Some && !mentioned_ids(
        mentions_of(msg),
    ).contains(bot->0)
}

/// The thread of a message: its root, or else its parent.
pub open spec fn thread_of(msg: FeishuMessage) -> Option<Seq<char>> {
    if msg.root_id is Some {
        opt_view(msg.root_id)
    } else {
        opt_view(msg.parent_id)
    }
}

/// What the bot is told of a message with the text `raw`, if it is told anything.
pub open spec fn forwarded(
    sender: FeishuSender,
    msg: FeishuMessage,
    bot: Option<Seq<char>>,
    config: FeishuConfig,
    raw: Option<Seq<char>>,
) -> Option<GatewayEventView> {
    if !admissible(sender, msg, bot, config) || raw is None || trimmed(raw->0).len() == 0 {
        None
    } else {
        let text = trimmed(without_bot_mentions(raw->0, mentions_of(msg), bot));
        let from = human_sender(sender)->0;
        if text.len() == 0 || lacks_mention(msg, bot, config) {
            None
        } else {
            Some(
                GatewayEventView {
                    platform: "feishu"@,
                    channel_id: msg.chat_id->0@,
                    channel_type: if in_group(msg) {
                        "group"@
                    } else {
                        "direct"@
                    },
                    thread_id: thread_of(msg),
                    sender_id: from,
                    sender_name: from,
                    sender_display_name: from,
                    sender_is_bot: false,
                    text,
                    message_id: msg.message_id->0@,
                    mentions: mentioned_ids(mentions_of(msg)),
                },
            )
        }
    }
}

/// What the bot is told of the event in an envelope whose message has the text `raw`.
pub open spec fn forwarded_event(
    envelope: FeishuEventEnvelope,
    bot: Option<Seq<char>>,
    config: FeishuConfig,
    raw: Option<Seq<char>>,
) -> Option<GatewayEventView> {
    match envelope.event {
        Some(event) => if envelope.header is Some && event.sender is Some && event.message is Some {
            forwarded(event.sender->0, event.message->0, bot, config, raw)
        } else {
            None
        },
        None => None,
    }
}

/// The content of the message in an envelope.
pub open spec fn message_content(envelope: FeishuEventEnvelope) -> Option<Seq<char>> {
    match envelope.event {
        Some(event) => match event.message {
            Some(msg) => opt_view(msg.content),
            None => None,
        },
        None => None,
    }
}

/// The characters of an optional event.
pub open spec fn event_view(e: Option<GatewayEvent>) -> Option<GatewayEventView> {
    match e {
        Some(g) => Some(g@),
        None => None,
    }
}

/// Whether the optional text is there and is `s`.
pub(crate) fn opt_is(o: &Option<String>, s: &str) -> (r: bool)
    ensures
        r == (opt_view(*o) == Some(s@)),
{
    match o {
        Some(t) => str_eq(t.as_str(), s),
        None => false,
    }
}

/// Whether one of the texts is `s`.
pub(crate) fn contains_str(list: &Vec<String>, s: &str) -> (r: bool)
    ensures
        r == views(list@).contains(s@),
{
    let mut i: usize = 0;
    while i < list.len()
        invariant
            i <= list@.len(),
            forall|j: int| 0 <= j < i ==> (#[trigger] views(list@)[j]) != s@,
        decreases list@.len() - i,
    {
        if str_eq(list[i].as_str(), s) {
            assert(views(list@)[i as int] == s@);
            return true;
        }
        i = i + 1;
    }
    false
}

fn is_permitted(list: &Vec<String>, id: &str) -> (r: bool)
    ensures
        r == permits(list@, id@),
{
    list.len() == 0 || contains_str(list, id)
}

fn human_sender_id<'a>(sender: &'a FeishuSender) -> (r: Option<&'a str>)
    ensures
        opt_str_view(r) == human_sender(*sender),
{
    if opt_is(&sender.sender_type, "bot") || opt_is(&sender.sender_type, "app") {
        return None;
    }
    match &sender.sender_id {
        Some(id) => match &id.open_id {
            Some(open_id) => Some(open_id.as_str()),
            None => None,
        },
        None => None,
    }
}

fn thread_id_of(msg: &FeishuMessage) -> (r: Option<String>)
    ensures
        opt_view(r) == thread_of(*msg),
{
    match &msg.root_id {
        Some(root) => Some(root.clone()),
        None => match &msg.parent_id {
            Some(parent) => Some(parent.clone()),
            None => None,
        },
    }
}

/// What the bot is told of a message with the text `raw_text`.
pub fn message_event(
    sender: &FeishuSender,
    msg: &FeishuMessage,
    bot_open_id: Option<&str>,
    config: &FeishuConfig,
    raw_text: Option<&str>,
) -> (r: Option<GatewayEvent>)
    ensures
        event_view(r) == forwarded(
            *sender,
            *msg,
            opt_str_view(bot_open_id),
            *config,
            opt_str_view(raw_text),
        ),
{
    if !opt_is(&msg.message_type, "text") {
        return None;
    }
    let sender_open_id = match human_sender_id(sender) {
        Some(id) => id,
        None => {
            return None;
        },
    };
    if is_bot_id(sender_open_id, bot_open_id) {
        return None;
    }
    if !is_permitted(&config.allowed_users, sender_open_id) {
        return None;
    }
    let chat_id = match &msg.chat_id {
        Some(id) => id.as_str(),
        None => {
            return None;
        },
    };
    let message_id = match &msg.message_id {
        Some(id) => id.as_str(),
        None => {
            return None;
        },
    };
    let is_group = !opt_is(&msg.chat_type, "p2p");
    if is_group && !is_permitted(&config.allowed_groups, chat_id) {
        return None;
    }
    let raw = match raw_text {
        Some(t) => t,
        None => {
            return None;
        },
    };
    if trim(raw).is_empty() {
        return None;
    }
    let none: Vec<FeishuMention> = Vec::new();
    let mentions = match &msg.mentions {
        Some(m) => m.as_slice(),
        None => none.as_slice(),
    };
    assert(mentions@ =~= mentions_of(*msg));
    let (clean_text, mention_ids) = extract_mentions(raw, mentions, bot_open_id);
    let text = trim(clean_text.as_str());
    if text.is_empty() {
        return None;
    }
    if is_group && config.require_mention {
        if let Some(bot) = bot_open_id {
            if !contains_str(&mention_ids, bot) {
                return None;
            }
        }
    }
    let channel_type = if is_group {
        "group"
    } else {
        "direct"
    };
    Some(
        GatewayEvent::new(
            "feishu",
            ChannelInfo {
                id: chat_id.to_string(),
                channel_type: channel_type.to_string(),
                thread_id: thread_id_of(msg),
            },
            SenderInfo {
                id: sender_open_id.to_string(),
                name: sender_open_id.to_string(),
                display_name: sender_open_id.to_string(),
                is_bot: false,
            },
            text,
            message_id,
            mention_ids,
        ),
    )
}

/// Parses an `im.message.receive_v1` event into a [`GatewayEvent`]. Returns `None` if the event
/// should be skipped (non-text, bot message, and so on).
pub fn parse_message_event(
    envelope: &FeishuEventEnvelope,
    bot_open_id: Option<&str>,
    config: &FeishuConfig,
) -> (r: Option<GatewayEvent>)
    ensures
        event_view(r) == forwarded_event(
            *envelope,
            opt_str_view(bot_open_id),
            *config,
            content_text(message_content(*envelope)),
        ),
{
    if envelope.header.is_none() {
        return None;
    }
    let event = match &envelope.event {
        Some(e) => e,
        None => {
            return None;
        },
    };
    let msg = match &event.message {
        Some(m) => m,
        None => {
            return None;
        },
    };
    let sender = match &event.sender {
        Some(s) => s,
        None => {
            return None;
        },
    };
    let content = match &msg.content {
        Some(c) => c.as_str(),
        None => {
            return None;
        },
    };
    match from_text(content) {
        Ok(doc) => {
            let raw = get_text(get_in(Some(&doc), "text"));
            message_event(sender, msg, bot_open_id, config, raw)
        },
        Err(_) => None,
    }
}

/// A message of a bot, an application, somebody unknown or the bot itself is never forwarded.
pub proof fn law_only_humans_are_heard(
    sender: FeishuSender,
    msg: FeishuMessage,
    bot: Option<Seq<char>>,
    config: FeishuConfig,
    raw: Option<Seq<char>>,
)
    ensures
        forwarded(sender, msg, bot, config, raw) matches Some(e) ==> {
            &&& opt_view(sender.sender_type) != Some("bot"@)
            &&& opt_view(sender.sender_type) != Some("app"@)
            &&& Some(e.sender_id) != bot
            &&& !e.sender_is_bot
        },
{
}

/// Where users are listed, only messages of listed users are forwarded; where groups are listed,
/// only messages in listed groups and direct ones are.
pub proof fn law_allowlists_are_kept(
    sender: FeishuSender,
    msg: FeishuMessage,
    bot: Option<Seq<char>>,
    config: FeishuConfig,
    raw: Option<Seq<char>>,
)
    ensures
        forwarded(sender, msg, bot, config, raw) matches Some(e) ==> {
            &&& config.allowed_users@.len() > 0 ==> views(config.allowed_users@).contains(
                e.sender_id,
            )
            &&& config.allowed_groups@.len() > 0 ==> e.channel_type == "direct"@ || views(
                config.allowed_groups@,
            ).contains(e.channel_id)
        },
{
}

/// Where a mention is required and the bot knows its own id, a message in a group is forwarded only
/// if it mentions the bot.
pub proof fn law_group_messages_mention_the_bot(
    sender: FeishuSender,
    msg: FeishuMessage,
    bot: Seq<char>,
    config: FeishuConfig,
    raw: Option<Seq<char>>,
)
    requires
        config.require_mention,
        in_group(msg),
    ensures
        forwarded(sender, msg, Some(bot), config, raw) matches Some(e) ==> e.mentions.contains(bot),
{
}

/// A text that is forwarded is not empty and neither starts nor ends with white space.
pub proof fn law_forwarded_text_is_trimmed(
    sender: FeishuSender,
    msg: FeishuMessage,
    bot: Option<Seq<char>>,
    config: FeishuConfig,
    raw: Option<Seq<char>>,
)
    ensures
        forwarded(sender, msg, bot, config, raw) matches Some(e) ==> {
            &&& e.text.len() > 0
            &&& !white_space(e.text.first())
            &&& !white_space(e.text.last())
        },
{
    if raw is Some {
        law_trimmed_ends_are_not_white_space(
            without_bot_mentions(raw->0, mentions_of(msg), bot),
        );
    }
}

/// A text in which the bot is not mentioned stays as it is.
pub proof fn law_text_without_bot_mentions_is_kept(
    text: Seq<char>,
    mentions: Seq<FeishuMention>,
    bot: Option<Seq<char>>,
)
    requires
        forall|i: int|
            0 <= i < mentions.len() ==> mentioned(#[trigger] mentions[i]) is None || mentioned(
                mentions[i],
            ) != bot,
    ensures
        without_bot_mentions(text, mentions, bot) == text,
    decreases mentions.len(),
{
    if mentions.len() > 0 {
        let rest = mentions.drop_last();
        assert forall|i: int| 0 <= i < rest.len() implies mentioned(#[trigger] rest[i]) is None
            || mentioned(rest[i]) != bot by {
            assert(rest[i] == mentions[i]);
        }
        law_text_without_bot_mentions_is_kept(text, rest, bot);
        assert(mentions.last() == mentions[mentions.len() - 1]);
    }
}

/// Everybody who is mentioned is reported, and nobody else.
pub proof fn law_mentions_are_complete(mentions: Seq<FeishuMention>, id: Seq<char>)
    ensures
        mentioned_ids(mentions).contains(id) <==> exists|i: int|
            0 <= i < mentions.len() && mentioned(#[trigger] mentions[i]) == Some(id),
    decreases mentions.len(),
{
    if mentions.len() > 0 {
        let rest = mentions.drop_last();
        let last = mentions.last();
        law_mentions_are_complete(rest, id);
        let ids = mentioned_ids(rest);
        let all = mentioned_ids(mentions);
        if ids.contains(id) {
            let j = choose|j: int| 0 <= j < ids.len() && ids[j] == id;
            assert(all[j] == id);
            let i = choose|i: int|
                0 <= i < rest.len() && mentioned(#[trigger] rest[i]) == Some(id);
            assert(mentioned(mentions[i]) == Some(id));
        }
        if mentioned(last) == Some(id) {
            assert(all[all.len() - 1] == id);
            assert(mentioned(mentions[mentions.len() - 1]) == Some(id));
        }
        if all.contains(id) && !ids.contains(id) {
            let j = choose|j: int| 0 <= j < all.len() && all[j] == id;
            if j < ids.len() {
                assert(ids[j] == id);
            }
        }
        if exists|i: int| 0 <= i < mentions.len() && mentioned(#[trigger] mentions[i]) == Some(id) {
            let i = choose|i: int|
                0 <= i < mentions.len() && mentioned(#[trigger] mentions[i]) == Some(id);
            if i < rest.len() {
                assert(mentioned(rest[i]) == Some(id));
            }
        }
    }
}

/// A mention that names the bot and has a key takes the first occurrence of the key out of what the
/// mentions before it left; any other mention changes nothing.
pub proof fn law_each_bot_mention_is_cut_out(
    text: Seq<char>,
    mentions: Seq<FeishuMention>,
    m: FeishuMention,
    bot: Option<Seq<char>>,
)
    ensures
        without_bot_mentions(text, seq![], bot) == text,
        without_bot_mentions(text, mentions.push(m), bot) == (if bot is Some && m.key is Some
            && m.id is Some && m.id->0.open_id is Some && m.id->0.open_id->0@ == bot->0 {
            without_first(without_bot_mentions(text, mentions, bot), m.key->0@)
        } else {
            without_bot_mentions(text, mentions, bot)
        }),
{
    assert(mentions.push(m).drop_last() =~= mentions);
}

/// Everybody who is mentioned with an id is listed, in the order of the mentions, as often as
/// mentioned.
pub proof fn law_mentions_are_listed_in_order(mentions: Seq<FeishuMention>, m: FeishuMention)
    ensures
        mentioned_ids(seq![]) == Seq::<Seq<char>>::empty(),
        mentioned_ids(mentions.push(m)) == (if m.id is Some && m.id->0.open_id is Some {
            mentioned_ids(mentions).push(m.id->0.open_id->0@)
        } else {
            mentioned_ids(mentions)
        }),
{
    assert(mentions.push(m).drop_last() =~= mentions);
}

/// What a content holds is the member `text` of the object that it is written as, if that is a text.
pub proof fn law_content_is_its_text_member(content: Option<Seq<char>>, text: Seq<char>)
    ensures
        content_text(content) == Some(text) <==> (content matches Some(c) && (read_text(
            c,
        ) matches Some(Json::Object(members)) && members.contains_key("text"@) && members["text"@]
            == Json::Text(text))),
{
}

/// A text message of a human other than the bot is forwarded whenever the lists permit it, which
/// they do if they are empty or name the sender and the group at any place, whenever it mentions the
/// bot where it has to, and whenever something but white space is left without the mentions of the
/// bot. It is forwarded with all that is told of it.
pub proof fn law_permitted_message_is_forwarded(
    envelope: FeishuEventEnvelope,
    event: FeishuEventBody,
    sender: FeishuSender,
    msg: FeishuMessage,
    mentions: Seq<FeishuMention>,
    from: Seq<char>,
    bot: Option<Seq<char>>,
    config: FeishuConfig,
    raw: Seq<char>,
    user: int,
    group: int,
    mention: int,
    c: int,
)
    requires
        envelope.header is Some,
        envelope.event == Some(event),
        event.sender == Some(sender),
        event.message == Some(msg),
        msg.message_type is Some && msg.message_type->0@ == "text"@,
        sender.sender_type is Some ==> sender.sender_type->0@ != "bot"@ && sender.sender_type->0@
            != "app"@,
        sender.sender_id is Some && sender.sender_id->0.open_id is Some
            && sender.sender_id->0.open_id->0@ == from,
        bot != Some(from),
        msg.chat_id is Some,
        msg.message_id is Some,
        config.allowed_users@.len() == 0 || 0 <= user < config.allowed_users@.len()
            && config.allowed_users@[user]@ == from,
        (msg.chat_type is Some && msg.chat_type->0@ == "p2p"@) || config.allowed_groups@.len() == 0
            || 0 <= group < config.allowed_groups@.len() && config.allowed_groups@[group]@
            == msg.chat_id->0@,
        match msg.mentions {
            Some(list) => mentions == list@,
            None => mentions == Seq::<FeishuMention>::empty(),
        },
        (msg.chat_type is Some && msg.chat_type->0@ == "p2p"@) || !config.require_mention || bot
            is None || 0 <= mention < mentions.len() && mentions[mention].id is Some
            && mentions[mention].id->0.open_id is Some && mentions[mention].id->0.open_id->0@
            == bot->0,
        0 <= c < without_bot_mentions(raw, mentions, bot).len(),
        !white_space(without_bot_mentions(raw, mentions, bot)[c]),
    ensures
        forwarded_event(envelope, bot, config, Some(raw)) == Some(
            GatewayEventView {
                platform: "feishu"@,
                channel_id: msg.chat_id->0@,
                channel_type: if msg.chat_type is Some && msg.chat_type->0@ == "p2p"@ {
                    "direct"@
                } else {
                    "group"@
                },
                thread_id: if msg.root_id is Some {
                    Some(msg.root_id->0@)
                } else if msg.parent_id is Some {
                    Some(msg.parent_id->0@)
                } else {
                    None
                },
                sender_id: from,
                sender_name: from,
                sender_display_name: from,
                sender_is_bot: false,
                text: trimmed(without_bot_mentions(raw, mentions, bot)),
                message_id: msg.message_id->0@,
                mentions: mentioned_ids(mentions),
            },
        ),
{
    let left = without_bot_mentions(raw, mentions, bot);
    assert(mentions =~= mentions_of(msg));
    law_trimmed_is_empty_iff_all_white_space(left);
    law_trimmed_is_empty_iff_all_white_space(raw);
    if trimmed(raw).len() == 0 {
        lemma_blank_stays_blank(raw, mentions, bot);
    }
    if config.allowed_users@.len() > 0 {
        assert(views(config.allowed_users@)[user] == from);
    }
    if in_group(msg) && config.allowed_groups@.len() > 0 {
        assert(views(config.allowed_groups@)[group] == msg.chat_id->0@);
    }
    if in_group(msg) && config.require_mention && bot is Some {
        law_mentions_are_complete(mentions, bot->0);
        assert(mentioned(mentions[mention]) == Some(bot->0));
    }
}

proof fn lemma_blank_stays_blank(
    raw: Seq<char>,
    mentions: Seq<FeishuMention>,
    bot: Option<Seq<char>>,
)
    requires
        forall|i: int| 0 <= i < raw.len() ==> white_space(#[trigger] raw[i]),
    ensures
        forall|i: int|
            0 <= i < without_bot_mentions(raw, mentions, bot).len() ==> white_space(
                #[trigger] without_bot_mentions(raw, mentions, bot)[i],
            ),
    decreases mentions.len(),
{
    if mentions.len() > 0 {
        lemma_blank_stays_blank(raw, mentions.drop_last(), bot);
        let before = without_bot_mentions(raw, mentions.drop_last(), bot);
        let after = without_bot_mentions(raw, mentions, bot);
        let m = mentions.last();
        if mentioned(m) is Some && mentioned(m) == bot && m.key is Some {
            let key = m.key->0@;
            lemma_first_occurrence(before, key, 0);
            assert forall|i: int| 0 <= i < after.len() implies white_space(#[trigger] after[i]) by {
                match first_occurrence(before, key, 0) {
                    Some(f) => {
                        if i < f {
                            assert(after[i] == before[i]);
                        } else {
                            assert(after[i] == before[i + key.len()]);
                        }
                    },
                    None => {},
                }
            }
        }
    }
}

/// Only a complete envelope brings a message: one with a header, a sender, and a text message with a
/// chat and an id, whose content holds a text.
pub proof fn law_only_complete_messages_are_forwarded(
    envelope: FeishuEventEnvelope,
    bot: Option<Seq<char>>,
    config: FeishuConfig,
    raw: Option<Seq<char>>,
)
    requires
        forwarded_event(envelope, bot, config, raw) is Some,
    ensures
        envelope.header is Some,
        envelope.event is Some,
        envelope.event->0.sender is Some,
        envelope.event->0.message is Some,
        raw is Some,
        forwarded_event(envelope, bot, config, raw) == forwarded(
            envelope.event->0.sender->0,
            envelope.event->0.message->0,
            bot,
            config,
            raw,
        ),
        ({
            let msg = envelope.event->0.message->0;
            let sender = envelope.event->0.sender->0;
            &&& msg.message_type is Some && msg.message_type->0@ == "text"@
            &&& msg.chat_id is Some
            &&& msg.message_id is Some
            &&& sender.sender_id is Some && sender.sender_id->0.open_id is Some
        }),
{
}

/// The content of an envelope is that of its message.
pub proof fn law_content_is_that_of_the_message(
    envelope: FeishuEventEnvelope,
    event: FeishuEventBody,
    msg: FeishuMessage,
)
    requires
        envelope.event == Some(event),
        event.message == Some(msg),
    ensures
        msg.content is Some ==> message_content(envelope) == Some(msg.content->0@),
        msg.content is None ==> message_content(envelope) is None,
{
}

} // verus!
