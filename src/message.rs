use vstd::prelude::*;

verus! {

/// Who authored a message of a conversation.
#[derive(Debug, Clone, Copy, PartialEq, Eq, Structural)]
pub enum MessageRole {
    System,
    Assistant,
    User,
}

impl MessageRole {
    /// Whether the message was written by the user.
    pub fn is_user(&self) -> (r: bool)
        ensures
            r == (*self is User),
    {
        match self {
            MessageRole::User => true,
            _ => false,
        }
    }
}

/// What a message carries: plain text, or a list of structured parts.
#[derive(Debug, Clone)]
pub enum MessageContent {
    Text(String),
    Array(Vec<String>),
}

/// One turn of a conversation.
#[derive(Debug, Clone)]
pub struct Message {
    pub role: MessageRole,
    pub content: MessageContent,
}

impl Message {
    /// A message from `role` holding plain text.
    pub fn new(role: MessageRole, text: String) -> (r: Self)
        ensures
            r.role == role,
            r.content == MessageContent::Text(text),
    {
        Message { role, content: MessageContent::Text(text) }
    }
}

} // verus!
