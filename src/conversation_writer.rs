//! The Markdown text of a conversation and the name of the file it goes to.

use crate::model::{items_view, Conversation, ItemView};
use crate::utils::{normalized_filename, normalized_filename_string};
use vstd::prelude::*;

verus! {

/// How many bytes of a file name the title's slug may take.
pub const TITLE_SLUG_BYTES: usize = 40;

/// The heading of a turn: a question where the user speaks, else an answer.
pub open spec fn section_title(author: Seq<char>) -> Seq<char> {
    if author == "user"@ {
        "Question"@
    } else {
        "Answer"@
    }
}

/// One turn as a second-level section.
pub open spec fn item_markdown(i: ItemView) -> Seq<char> {
    "## "@ + section_title(i.author) + "\n"@ + i.text + "\n\n"@
}

/// The sections of the turns, in order.
pub open spec fn items_markdown(s: Seq<ItemView>) -> Seq<char>
    decreases s.len(),
{
    if s.len() == 0 {
        Seq::empty()
    } else {
        items_markdown(s.drop_last()) + item_markdown(s.last())
    }
}

/// A first-level heading of the title, then the sections of the turns.
pub open spec fn conversation_markdown(title: Seq<char>, items: Seq<ItemView>) -> Seq<char> {
    "# "@ + title + "\n\n"@ + items_markdown(items)
}

/// The name of the file of a conversation: its date, a dash, the slug of
/// its title, and `.md`.
pub open spec fn markdown_file_name_of(date: Seq<char>, title: Seq<char>) -> Seq<char> {
    date + "-"@ + normalized_filename(title, TITLE_SLUG_BYTES as int) + ".md"@
}

/// The Markdown text of a conversation; title and turns go in unescaped.
pub fn conversation_to_md(conversation: Conversation) -> (r: String)
    ensures
        r@ == conversation_markdown(conversation.title@, items_view(conversation.items@)),
{
    let mut content = String::from_str("# ");
    content.append(conversation.title.as_str());
    content.append("\n\n");
    let items = &conversation.items;
    let ghost head = content@;
    let mut i: usize = 0;
    proof {
        assert(items_view(items@).subrange(0, 0) =~= Seq::<ItemView>::empty());
        assert(head + Seq::<char>::empty() =~= head);
    }
    while i < items.len()
        invariant
            i <= items.len(),
            head == "# "@ + conversation.title@ + "\n\n"@,
            content@ == head + items_markdown(items_view(items@).subrange(0, i as int)),
        decreases items.len() - i,
    {
        let item = &items[i];
        let ghost before = content@;
        content.append("## ");
        let user = String::from_str("user");
        if item.author.eq(&user) {
            content.append("Question");
        } else {
            content.append("Answer");
        }
        content.append("\n");
        content.append(item.text.as_str());
        content.append("\n\n");
        proof {
            let v = items_view(items@);
            assert(v.subrange(0, i + 1).drop_last() =~= v.subrange(0, i as int));
            assert(v[i as int] == item@);
            assert(content@ =~= before + item_markdown(item@));
        }
        i += 1;
    }
    proof {
        assert(items_view(items@).subrange(0, i as int) =~= items_view(items@));
    }
    content
}

/// The name of the Markdown file of a conversation.
pub fn markdown_file_name(conversation: &Conversation) -> (r: String)
    ensures
        r@ == markdown_file_name_of(conversation.date@, conversation.title@),
{
    let mut name = conversation.date.clone();
    name.append("-");
    let slug = normalized_filename_string(conversation.title.as_str(), TITLE_SLUG_BYTES);
    name.append(slug.as_str());
    name.append(".md");
    name
}

} // verus!
