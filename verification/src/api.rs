//! Message and attachment types a conversation is made of.
use vstd::prelude::*;

verus! {

/// An image carried by a turn: base64 payload plus its MIME type.
#[derive(Debug, Clone, PartialEq, Eq)]
pub struct ImageAttachment {
    pub data: String,
    pub media_type: String,
}

/// Who wrote a message.
#[derive(Debug, Clone, Copy, PartialEq, Eq, Structural)]
pub enum Role {
    System,
    User,
    Assistant,
    Tool,
}

/// One piece of a multi-part message.
#[derive(Debug, Clone, PartialEq, Eq)]
pub enum ContentPart {
    Text(String),
    Image(ImageAttachment),
}

/// A message's content: plain text, or text and images in parts.
#[derive(Debug, Clone, PartialEq, Eq)]
pub enum Content {
    Text(String),
    Parts(Vec<ContentPart>),
}

/// The plain text of a content value, if it is plain text.
pub open spec fn content_text(c: Content) -> Option<Seq<char>> {
    match c {
        Content::Text(t) => Some(t@),
        Content::Parts(_) => None,
    }
}

impl Content {
    /// Plain-text content.
    pub fn text(s: &str) -> (c: Content)
        ensures
            content_text(c) == Some(s@),
    {
        Content::Text(s.to_owned())
    }

    /// The text of plain-text content; `None` for multi-part content.
    pub fn as_text(&self) -> (r: Option<&str>)
        ensures
            match r {
                Some(t) => content_text(*self) == Some(t@),
                None => content_text(*self) is None,
            },
    {
        match self {
            Content::Text(t) => Some(t.as_str()),
            Content::Parts(_) => None,
        }
    }
}

/// One tool call an assistant message asked for.
#[derive(Debug, Clone, PartialEq, Eq)]
pub struct ToolCall {
    pub id: String,
    pub name: String,
    pub arguments: String,
}

/// One message of the API history.
#[derive(Debug, Clone, PartialEq, Eq)]
pub struct Message {
    pub role: Role,
    pub content: Option<Content>,
    pub tool_calls: Option<Vec<ToolCall>>,
    pub tool_call_id: Option<String>,
    pub reasoning_content: Option<String>,
}

impl Message {
    /// A user message holding plain text.
    pub fn user(text: &str) -> (m: Message)
        ensures
            m.role == Role::User,
            m.content is Some && content_text(m.content->0) == Some(text@),
    {
        Message {
            role: Role::User,
            content: Some(Content::text(text)),
            tool_calls: None,
            tool_call_id: None,
            reasoning_content: None,
        }
    }
}

} // verus!
