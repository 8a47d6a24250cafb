//! Turns exported chat sessions into Markdown transcripts: the flattening of a
//! session's node mapping into a time-ordered list of turns, the Markdown text
//! of a conversation, and a file-name slug of its title.

pub mod conversation_writer;
pub mod converter;
pub mod model;
pub mod text;
pub mod utils;
