//! A codec between structured chat conversations and flat token sequences:
//! a renderer, a batch parser and a streaming parser over one grammar.
pub mod chat;
pub mod grammar;
pub mod laws;
pub mod parser;
pub mod render;

pub use chat::{Author, Conversation, Message, Role};
pub use parser::{ParseError, Phase, StreamableParser, parse_messages_from_completion_tokens};
pub use render::{RenderConfig, RenderError, render_conversation, render_conversation_for_completion};
