use chat_export_md::conversation_writer::{conversation_to_md, markdown_file_name};
use chat_export_md::model::{Conversation, ConversationItem, Float64};

fn at(seconds: f64) -> Float64 {
    Float64::from_bits(seconds.to_bits())
}

#[test]
fn test_conversation_to_md() {
    let conversation = Conversation {
        title: "Test Conversation".to_string(),
        date: "2023-01-01".to_string(),
        items: vec![
            ConversationItem {
                text: "Hello!".to_string(),
                author: "user".to_string(),
                time: at(1672531200.0),
            },
            ConversationItem {
                text: "Hi!".to_string(),
                author: "assistant".to_string(),
                time: at(1672531210.0),
            },
        ],
    };

    let markdown = conversation_to_md(conversation);
    let expected = r#"# Test Conversation

## Question
Hello!

## Answer
Hi!

"#;
    assert_eq!(markdown, expected);
}

#[test]
fn markdown_of_empty_conversation() {
    let conversation = Conversation::new(String::new(), Vec::new(), "2023-01-01".to_string());
    assert_eq!(conversation_to_md(conversation), "# \n\n");
}

#[test]
fn markdown_is_not_escaped() {
    let conversation = Conversation::new(
        "# *bold*".to_string(),
        vec![ConversationItem::new(
            "`code`\n## x".to_string(),
            "tool".to_string(),
            at(0.0),
        )],
        String::new(),
    );
    assert_eq!(
        conversation_to_md(conversation),
        "# # *bold*\n\n## Answer\n`code`\n## x\n\n"
    );
}

#[test]
fn file_name_of_conversation() {
    let conversation = Conversation::new(
        "Test Conversation".to_string(),
        Vec::new(),
        "2023-01-01".to_string(),
    );
    assert_eq!(
        markdown_file_name(&conversation),
        "2023-01-01-Test_Conversation.md"
    );
}

#[test]
fn file_name_slug_is_limited() {
    let conversation = Conversation::new(
        "A rather long title that goes on and on well past the limit".to_string(),
        Vec::new(),
        "2024-02-29".to_string(),
    );
    assert_eq!(
        markdown_file_name(&conversation),
        "2024-02-29-A_rather_long_title_that_goes_on_and_on.md"
    );
}
