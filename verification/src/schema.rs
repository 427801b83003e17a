//! Messages between the gateway and the bot behind it.

use vstd::prelude::*;
use vstd::string::*;

use crate::text::{opt_view, views};

verus! {

/// Where a message was posted.
#[derive(Debug)]
pub struct ChannelInfo {
    pub id: String,
    pub channel_type: String,
    pub thread_id: Option<String>,
}

/// Who posted a message.
#[derive(Debug)]
pub struct SenderInfo {
    pub id: String,
    pub name: String,
    pub display_name: String,
    pub is_bot: bool,
}

/// What a message says.
#[derive(Debug)]
pub struct Content {
    pub text: String,
}

/// A message on its way to the bot.
#[derive(Debug)]
pub struct GatewayEvent {
    pub platform: String,
    pub channel: ChannelInfo,
    pub sender: SenderInfo,
    pub content: Content,
    pub message_id: String,
    pub mentions: Vec<String>,
}

/// An answer of the bot.
#[derive(Debug)]
pub struct GatewayReply {
    /// The message that is answered.
    pub reply_to: String,
    /// What to do, if it is not to send the text.
    pub command: Option<String>,
    /// The chat that the answer goes to.
    pub channel: ReplyChannel,
    pub content: Content,
}

/// The chat that an answer goes to.
#[derive(Debug)]
pub struct ReplyChannel {
    pub id: String,
}

/// A [`GatewayEvent`] as characters.
pub struct GatewayEventView {
    pub platform: Seq<char>,
    pub channel_id: Seq<char>,
    pub channel_type: Seq<char>,
    pub thread_id: Option<Seq<char>>,
    pub sender_id: Seq<char>,
    pub sender_name: Seq<char>,
    pub sender_display_name: Seq<char>,
    pub sender_is_bot: bool,
    pub text: Seq<char>,
    pub message_id: Seq<char>,
    pub mentions: Seq<Seq<char>>,
}

impl View for GatewayEvent {
    type V = GatewayEventView;

    open spec fn view(&self) -> GatewayEventView {
        GatewayEventView {
            platform: self.platform@,
            channel_id: self.channel.id@,
            channel_type: self.channel.channel_type@,
            thread_id: opt_view(self.channel.thread_id),
            sender_id: self.sender.id@,
            sender_name: self.sender.name@,
            sender_display_name: self.sender.display_name@,
            sender_is_bot: self.sender.is_bot,
            text: self.content.text@,
            message_id: self.message_id@,
            mentions: views(self.mentions@),
        }
    }
}

impl GatewayEvent {
    /// An event made of its parts.
    pub fn new(
        platform: &str,
        channel: ChannelInfo,
        sender: SenderInfo,
        text: &str,
        message_id: &str,
        mentions: Vec<String>,
    ) -> (r: GatewayEvent)
        ensures
            r.platform@ == platform@,
            r.channel == channel,
            r.sender == sender,
            r.content.text@ == text@,
            r.message_id@ == message_id@,
            r.mentions == mentions,
    {
        GatewayEvent {
            platform: platform.to_string(),
            channel,
            sender,
            content: Content { text: text.to_string() },
            message_id: message_id.to_string(),
            mentions,
        }
    }

    /// The event with the sender's name resolved.
    pub fn with_sender_name(self, name: String) -> (r: GatewayEvent)
        ensures
            r@ == (GatewayEventView {
                sender_name: name@,
                sender_display_name: name@,
                ..self@
            }),
    {
        let display_name = name.clone();
        let sender = SenderInfo {
            id: self.sender.id,
            name,
            display_name,
            is_bot: self.sender.is_bot,
        };
        GatewayEvent {
            platform: self.platform,
            channel: self.channel,
            sender,
            content: self.content,
            message_id: self.message_id,
            mentions: self.mentions,
        }
    }
}

} // verus!
