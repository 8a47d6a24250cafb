use chat_export_md::conversation_writer::conversation_to_md;
use chat_export_md::converter::create_conversation_from;
use chat_export_md::model::{
    Author, Content, EpochTime, Float64, GPTInteraction, Message, MessageMetadata, Node, Part,
};
use std::collections::HashMap;

fn at(seconds: f64) -> Float64 {
    Float64::from_bits(seconds.to_bits())
}

fn message(id: &str, role: &str, time: Option<f64>, parts: Option<Vec<Part>>) -> Message {
    Message {
        id: id.to_string(),
        author: Author {
            role: role.to_string(),
            name: None,
            metadata: HashMap::new(),
        },
        create_time: time.map(at),
        update_time: None,
        content: Content {
            content_type: "text".to_string(),
            parts,
        },
        status: "complete".to_string(),
        end_turn: None,
        weight: at(1.0),
        metadata: MessageMetadata {
            additional_metadata: HashMap::new(),
        },
        recipient: "all".to_string(),
        channel: None,
    }
}

fn node(id: &str, message: Option<Message>) -> (String, Node) {
    (
        id.to_string(),
        Node {
            id: id.to_string(),
            message,
            parent: None,
            children: vec![],
        },
    )
}

fn text(s: &str) -> Part {
    Part::String(s.to_string())
}

fn session(mapping: Vec<(String, Node)>) -> GPTInteraction {
    GPTInteraction {
        title: "Session".to_string(),
        create_time: EpochTime::new(0, 0),
        update_time: EpochTime::new(1672531200, 0),
        mapping,
    }
}

#[test]
fn test_create_conversation_from() {
    let interaction = GPTInteraction {
        title: "Test Conversation".to_string(),
        create_time: EpochTime::new(0, 0),
        update_time: EpochTime::new(1672531200, 0),
        mapping: vec![
            (
                "1".to_string(),
                Node {
                    id: "1".to_string(),
                    message: Some(Message {
                        id: "1".to_string(),
                        author: Author {
                            role: "user".to_string(),
                            name: None,
                            metadata: HashMap::new(),
                        },
                        create_time: Some(at(1672531200.0)),
                        update_time: None,
                        content: Content {
                            content_type: "text".to_string(),
                            parts: Some(vec![Part::String("Hello!".to_string())]),
                        },
                        status: "complete".to_string(),
                        end_turn: None,
                        weight: at(1.0),
                        metadata: MessageMetadata {
                            additional_metadata: HashMap::new(),
                        },
                        recipient: "assistant".to_string(),
                        channel: None,
                    }),
                    parent: None,
                    children: vec![],
                },
            ),
            (
                "2".to_string(),
                Node {
                    id: "2".to_string(),
                    message: Some(Message {
                        id: "2".to_string(),
                        author: Author {
                            role: "assistant".to_string(),
                            name: None,
                            metadata: HashMap::new(),
                        },
                        create_time: Some(at(1672531210.0)),
                        update_time: None,
                        content: Content {
                            content_type: "text".to_string(),
                            parts: Some(vec![Part::String("Hi!".to_string())]),
                        },
                        status: "complete".to_string(),
                        end_turn: None,
                        weight: at(1.0),
                        metadata: MessageMetadata {
                            additional_metadata: HashMap::new(),
                        },
                        recipient: "user".to_string(),
                        channel: None,
                    }),
                    parent: Some("1".to_string()),
                    children: vec![],
                },
            ),
        ],
    };

    let conversation = create_conversation_from(interaction);

    assert_eq!(conversation.title, "Test Conversation");
    assert_eq!(conversation.date, "2023-01-01");
    assert_eq!(conversation.items.len(), 2);
    assert_eq!(conversation.items[0].text, "Hello!");
    assert_eq!(conversation.items[0].author, "user");
    assert_eq!(conversation.items[1].text, "Hi!");
    assert_eq!(conversation.items[1].author, "assistant");
}

#[test]
fn end_to_end_markdown() {
    // The assistant's node comes first in the mapping; the sort puts it second.
    let conversation = create_conversation_from(GPTInteraction {
        title: "Test Conversation".to_string(),
        create_time: EpochTime::new(0, 0),
        update_time: EpochTime::new(1672531200, 0),
        mapping: vec![
            node(
                "b",
                Some(message("b", "assistant", Some(1672531210.0), Some(vec![text("Hi!")]))),
            ),
            node(
                "a",
                Some(message("a", "user", Some(1672531200.0), Some(vec![text("Hello!")]))),
            ),
        ],
    });
    assert_eq!(conversation.date, "2023-01-01");
    assert_eq!(conversation.items.len(), 2);
    assert_eq!(conversation.items[0].author, "user");
    assert_eq!(conversation.items[0].text, "Hello!");
    assert_eq!(conversation.items[1].author, "assistant");
    assert_eq!(conversation.items[1].text, "Hi!");
    assert_eq!(
        conversation_to_md(conversation),
        "# Test Conversation\n\n## Question\nHello!\n\n## Answer\nHi!\n\n"
    );
}

#[test]
fn no_dialog_nodes_give_no_items() {
    let conversation = create_conversation_from(session(vec![
        node("root", None),
        node("s", Some(message("s", "system", Some(1.0), Some(vec![text("rules")])))),
        node("t", Some(message("t", "tool", Some(2.0), Some(vec![text("output")])))),
        node("u", Some(message("u", "user", Some(3.0), None))),
        node("v", Some(message("v", "assistant", Some(4.0), Some(vec![text(" \n\t ")])))),
        node(
            "w",
            Some(message("w", "user", Some(5.0), Some(vec![Part::Object(serde_json::Value::Null)]))),
        ),
        node("x", Some(message("x", "User", Some(6.0), Some(vec![text("caps")])))),
    ]));
    assert!(conversation.items.is_empty());
    assert_eq!(conversation.title, "Session");
}

#[test]
fn object_parts_are_skipped_and_strings_joined() {
    let conversation = create_conversation_from(session(vec![node(
        "a",
        Some(message(
            "a",
            "assistant",
            Some(1.0),
            Some(vec![
                text("first"),
                Part::Object(serde_json::Value::Bool(true)),
                text(""),
                text("third"),
            ]),
        )),
    )]));
    assert_eq!(conversation.items.len(), 1);
    assert_eq!(conversation.items[0].text, "first\n\nthird");
}

#[test]
fn text_is_kept_untrimmed() {
    let conversation = create_conversation_from(session(vec![node(
        "a",
        Some(message("a", "user", Some(1.0), Some(vec![text("  hi  ")]))),
    )]));
    assert_eq!(conversation.items[0].text, "  hi  ");
}

#[test]
fn missing_time_counts_as_zero() {
    let conversation = create_conversation_from(session(vec![
        node("a", Some(message("a", "user", Some(5.0), Some(vec![text("later")])))),
        node("b", Some(message("b", "assistant", None, Some(vec![text("untimed")])))),
        node("c", Some(message("c", "user", Some(-5.0), Some(vec![text("earlier")])))),
    ]));
    let texts: Vec<&str> = conversation.items.iter().map(|i| i.text.as_str()).collect();
    assert_eq!(texts, vec!["earlier", "untimed", "later"]);
    assert_eq!(conversation.items[1].time, Float64::from_bits(0));
}

#[test]
fn items_sorted_with_nan_times() {
    let conversation = create_conversation_from(session(vec![
        node("a", Some(message("a", "user", Some(f64::NAN), Some(vec![text("nan")])))),
        node("b", Some(message("b", "user", Some(3.0), Some(vec![text("three")])))),
        node("c", Some(message("c", "user", Some(f64::NEG_INFINITY), Some(vec![text("-inf")])))),
        node("d", Some(message("d", "user", Some(-0.0), Some(vec![text("-0")])))),
        node("e", Some(message("e", "user", Some(0.0), Some(vec![text("+0")])))),
        node("f", Some(message("f", "user", Some(-f64::NAN), Some(vec![text("-nan")])))),
    ]));
    let texts: Vec<&str> = conversation.items.iter().map(|i| i.text.as_str()).collect();
    assert_eq!(texts, vec!["-nan", "-inf", "-0", "+0", "three", "nan"]);
    for pair in conversation.items.windows(2) {
        let a = f64::from_bits(pair[0].time.bits);
        let b = f64::from_bits(pair[1].time.bits);
        assert!(a.total_cmp(&b).is_le());
    }
}

#[test]
fn equal_times_keep_mapping_order() {
    let conversation = create_conversation_from(session(vec![
        node("a", Some(message("a", "user", Some(2.0), Some(vec![text("one")])))),
        node("b", Some(message("b", "assistant", Some(1.0), Some(vec![text("zero")])))),
        node("c", Some(message("c", "assistant", Some(2.0), Some(vec![text("two")])))),
        node("d", Some(message("d", "user", Some(2.0), Some(vec![text("three")])))),
    ]));
    let texts: Vec<&str> = conversation.items.iter().map(|i| i.text.as_str()).collect();
    assert_eq!(texts, vec!["zero", "one", "two", "three"]);
}

#[test]
fn total_order_key_orders_floats() {
    let values = [f64::NEG_INFINITY, -1.5, -0.0, 0.0, 1e-300, 2.0, f64::INFINITY, f64::NAN];
    for w in values.windows(2) {
        assert!(at(w[0]).total_order_key() < at(w[1]).total_order_key());
    }
    assert_eq!(at(0.0).total_order_key(), 0);
    assert_eq!(at(-0.0).total_order_key(), -1);
}
