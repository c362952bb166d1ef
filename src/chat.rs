//! Conversation data model: roles, authors, messages and conversations,
//! with the mathematical views the codec's contracts are stated over.
use vstd::prelude::*;

verus! {

/// Who speaks a message.
#[derive(Clone, Copy, Debug, PartialEq, Eq, Structural)]
pub enum Role {
    System,
    Developer,
    User,
    Assistant,
    Tool,
}

/// The author of a message: a role and, for tools, the tool's namespaced name.
#[derive(Clone, Debug)]
pub struct Author {
    pub role: Role,
    pub name: Option<String>,
}

/// One turn of a conversation. `content` is plain text; structured blocks
/// (tool lists, preambles) are rendered to text by their formatter first.
#[derive(Clone, Debug)]
pub struct Message {
    pub author: Author,
    pub channel: Option<String>,
    pub recipient: Option<String>,
    pub content_type: Option<String>,
    pub content: String,
}

/// An ordered sequence of messages; the order is the dialogue order.
#[derive(Clone, Debug)]
pub struct Conversation {
    pub messages: Vec<Message>,
}

/// The mathematical value of a message.
pub struct MessageView {
    pub role: Role,
    pub name: Option<Seq<char>>,
    pub channel: Option<Seq<char>>,
    pub recipient: Option<Seq<char>>,
    pub content_type: Option<Seq<char>>,
    pub content: Seq<char>,
}

pub open spec fn opt_view(o: Option<String>) -> Option<Seq<char>> {
    match o {
        Some(s) => Some(s@),
        None => None,
    }
}

impl View for Message {
    type V = MessageView;

    open spec fn view(&self) -> MessageView {
        MessageView {
            role: self.author.role,
            name: opt_view(self.author.name),
            channel: opt_view(self.channel),
            recipient: opt_view(self.recipient),
            content_type: opt_view(self.content_type),
            content: self.content@,
        }
    }
}

pub open spec fn messages_view(ms: Seq<Message>) -> Seq<MessageView> {
    ms.map_values(|m: Message| m@)
}

impl View for Conversation {
    type V = Seq<MessageView>;

    open spec fn view(&self) -> Seq<MessageView> {
        messages_view(self.messages@)
    }
}

/// A message is well formed when a tool author carries a name and no name is
/// empty (an empty name could not be told apart from an absent one).
pub open spec fn message_wf(m: MessageView) -> bool {
    &&& m.role == Role::Tool ==> m.name is Some
    &&& m.name matches Some(n) ==> n.len() > 0
}

pub fn clone_opt(o: &Option<String>) -> (r: Option<String>)
    ensures
        opt_view(r) == opt_view(*o),
{
    match o {
        Some(s) => Some(s.clone()),
        None => None,
    }
}

impl Author {
    pub fn new(role: Role, name: String) -> (r: Author)
        ensures
            r.role == role,
            opt_view(r.name) == Some(name@),
    {
        Author { role, name: Some(name) }
    }

    pub fn from_role(role: Role) -> (r: Author)
        ensures
            r.role == role,
            r.name is None,
    {
        Author { role, name: None }
    }
}

impl Message {
    pub fn from_author_and_content(author: Author, content: String) -> (r: Message)
        ensures
            r@ == (MessageView {
                role: author.role,
                name: opt_view(author.name),
                channel: None,
                recipient: None,
                content_type: None,
                content: content@,
            }),
    {
        Message { author, channel: None, recipient: None, content_type: None, content }
    }

    pub fn from_role_and_content(role: Role, content: String) -> (r: Message)
        ensures
            r@ == (MessageView {
                role,
                name: None,
                channel: None,
                recipient: None,
                content_type: None,
                content: content@,
            }),
    {
        Message::from_author_and_content(Author::from_role(role), content)
    }

    pub fn with_channel(self, channel: String) -> (r: Message)
        ensures
            r@ == (MessageView { channel: Some(channel@), ..self@ }),
    {
        Message { channel: Some(channel), ..self }
    }

    pub fn with_recipient(self, recipient: String) -> (r: Message)
        ensures
            r@ == (MessageView { recipient: Some(recipient@), ..self@ }),
    {
        Message { recipient: Some(recipient), ..self }
    }

    pub fn with_content_type(self, content_type: String) -> (r: Message)
        ensures
            r@ == (MessageView { content_type: Some(content_type@), ..self@ }),
    {
        Message { content_type: Some(content_type), ..self }
    }
}

impl Conversation {
    pub fn from_messages(messages: Vec<Message>) -> (r: Conversation)
        ensures
            r@ == messages_view(messages@),
    {
        Conversation { messages }
    }
}

} // verus!
