//! Data carried between this client and the notification channel: the
//! channel configuration and one outbound message. The connection loop,
//! prompting and persistence live outside; these are the values they
//! exchange.
use vstd::prelude::*;

verus! {

/// How the notification channel is set up: when the current transfer
/// started, the chat for each zone, the chat for unassigned referrals, the
/// socket path, the channel's display name, and zones excluded from the
/// averages digest.
#[derive(Clone, Debug)]
pub struct Config {
    pub last_transfer_start: i64,
    pub zone_chats: Vec<(usize, String)>,
    pub unassigned_chat: Option<String>,
    pub holly_socket: String,
    pub name: String,
    pub blacklist: Option<Vec<String>>,
}

/// One message for the notification channel.
#[derive(Clone, Debug)]
pub struct Message {
    pub sender: String,
    pub content: String,
    pub chat_id: String,
}

impl Message {
    pub fn new(sender: String, content: String, chat_id: String) -> (r: Message)
        ensures
            r.sender == sender,
            r.content == content,
            r.chat_id == chat_id,
    {
        Message { sender, content, chat_id }
    }
}

} // verus!
