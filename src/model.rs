//! The data of an exported chat session, and the conversation derived from it.

use std::collections::HashMap;
use vstd::prelude::*;

verus! {

/// A JSON value that the library carries without looking inside.
#[verifier::external_type_specification]
#[verifier::external_body]
pub struct ExJsonValue(serde_json::Value);

/// An IEEE 754 binary64 number, held as its bit pattern.
#[derive(Clone, Copy, Debug, PartialEq, Eq, Structural)]
pub struct Float64 {
    pub bits: u64,
}

impl Float64 {
    /// The position of the number in the IEEE 754 total order: every bit
    /// pattern, NaN included, gets a distinct key, and keys compare as the
    /// numbers do.
    pub open spec fn key(self) -> int {
        if self.bits < 0x8000_0000_0000_0000 {
            self.bits as int
        } else {
            0x7fff_ffff_ffff_ffff - self.bits as int
        }
    }

    pub fn from_bits(bits: u64) -> (r: Float64)
        ensures
            r.bits == bits,
    {
        Float64 { bits }
    }

    pub fn total_order_key(&self) -> (r: i64)
        ensures
            r == self.key(),
    {
        if self.bits < 0x8000_0000_0000_0000 {
            self.bits as i64
        } else {
            let m = (self.bits - 0x8000_0000_0000_0000) as i64;
            -m - 1
        }
    }
}

/// A point in time as whole seconds since 1970-01-01 00:00 UTC and a
/// number of nanoseconds after them.
#[derive(Clone, Copy, Debug, PartialEq, Eq, Structural)]
pub struct EpochTime {
    pub seconds: i64,
    pub nanoseconds: u32,
}

impl EpochTime {
    pub fn new(seconds: i64, nanoseconds: u32) -> (r: EpochTime)
        ensures
            r.seconds == seconds,
            r.nanoseconds == nanoseconds,
    {
        EpochTime { seconds, nanoseconds }
    }
}

/// A conversation as a titled, dated list of turns.
pub struct Conversation {
    pub title: String,
    pub items: Vec<ConversationItem>,
    pub date: String,
}

impl Conversation {
    pub fn new(title: String, items: Vec<ConversationItem>, date: String) -> (r: Conversation)
        ensures
            r.title@ == title@,
            r.items@ == items@,
            r.date@ == date@,
    {
        Conversation { title, items, date }
    }
}

/// One turn of a conversation.
pub struct ConversationItem {
    pub text: String,
    pub author: String,
    pub time: Float64,
}

/// What a turn holds, as mathematical values.
pub struct ItemView {
    pub text: Seq<char>,
    pub author: Seq<char>,
    pub time: Float64,
}

impl View for ConversationItem {
    type V = ItemView;

    open spec fn view(&self) -> ItemView {
        ItemView { text: self.text@, author: self.author@, time: self.time }
    }
}

impl ConversationItem {
    pub fn new(text: String, author: String, time: Float64) -> (r: ConversationItem)
        ensures
            r@ == (ItemView { text: text@, author: author@, time }),
    {
        ConversationItem { text, author, time }
    }
}

/// The views of a sequence of turns.
pub open spec fn items_view(items: Seq<ConversationItem>) -> Seq<ItemView> {
    items.map_values(|i: ConversationItem| i@)
}

/// One exported chat session. `mapping` holds the entries of its node map,
/// node id and node, in the order in which the map was walked. Flattening
/// reads each entry's node on its own and never looks a node up by its id,
/// so nothing in the library depends on the ids being distinct.
pub struct GPTInteraction {
    pub title: String,
    pub create_time: EpochTime,
    pub update_time: EpochTime,
    pub mapping: Vec<(String, Node)>,
}

/// One position in a session's message tree.
pub struct Node {
    pub id: String,
    pub message: Option<Message>,
    pub parent: Option<String>,
    pub children: Vec<String>,
}

pub struct Message {
    pub id: String,
    pub author: Author,
    pub create_time: Option<Float64>,
    pub update_time: Option<Float64>,
    pub content: Content,
    pub status: String,
    pub end_turn: Option<bool>,
    pub weight: Float64,
    pub metadata: MessageMetadata,
    pub recipient: String,
    pub channel: Option<String>,
}

pub struct Author {
    pub role: String,
    pub name: Option<String>,
    pub metadata: HashMap<String, String>,
}

pub struct Content {
    pub content_type: String,
    pub parts: Option<Vec<Part>>,
}

/// One part of a message's content: text, or any other JSON value.
pub enum Part {
    String(String),
    Object(serde_json::Value),
}

pub struct MessageMetadata {
    pub additional_metadata: HashMap<String, serde_json::Value>,
}

} // verus!
