//! Flattening of a session's node mapping into a time-ordered conversation.

use crate::model::{
    items_view, Conversation, ConversationItem, Float64, GPTInteraction, ItemView, Node, Part,
};
use crate::text::{is_blank, push_char, text_is_blank};
use crate::utils::{date_from_epoch_time, date_text};
use vstd::prelude::*;

verus! {

/// The texts of the parts that are strings, in order.
pub open spec fn string_parts(ps: Seq<Part>) -> Seq<Seq<char>>
    decreases ps.len(),
{
    if ps.len() == 0 {
        Seq::empty()
    } else {
        let r = string_parts(ps.drop_last());
        match ps.last() {
            Part::String(s) => r.push(s@),
            Part::Object(_) => r,
        }
    }
}

/// The texts joined by newlines.
pub open spec fn join_lines(ts: Seq<Seq<char>>) -> Seq<char>
    decreases ts.len(),
{
    if ts.len() == 0 {
        Seq::empty()
    } else if ts.len() == 1 {
        ts[0]
    } else {
        join_lines(ts.drop_last()).push('\n') + ts.last()
    }
}

/// Whether a role belongs to the dialog: the user's or the assistant's.
pub open spec fn is_dialog_role(role: Seq<char>) -> bool {
    role == "assistant"@ || role == "user"@
}

/// The turn that a node contributes: none without a message, for a role
/// outside the dialog, without parts, or where the text of its string parts
/// is blank.
pub open spec fn node_item(n: Node) -> Option<ItemView> {
    match n.message {
        None => None,
        Some(m) => if !is_dialog_role(m.author.role@) {
            None
        } else {
            match m.content.parts {
                None => None,
                Some(ps) => {
                    let text = join_lines(string_parts(ps@));
                    if is_blank(text) {
                        None
                    } else {
                        Some(
                            ItemView {
                                text,
                                author: m.author.role@,
                                time: match m.create_time {
                                    Some(t) => t,
                                    None => Float64 { bits: 0 },
                                },
                            },
                        )
                    }
                },
            }
        },
    }
}

/// The turns of the entries, in the order of the entries.
pub open spec fn node_items(es: Seq<(String, Node)>) -> Seq<ItemView>
    decreases es.len(),
{
    if es.len() == 0 {
        Seq::empty()
    } else {
        let r = node_items(es.drop_last());
        match node_item(es.last().1) {
            Some(i) => r.push(i),
            None => r,
        }
    }
}

/// `x` placed into `s` after every turn of `s`'s tail that is not later than it.
pub open spec fn insert_by_time(s: Seq<ItemView>, x: ItemView) -> Seq<ItemView>
    decreases s.len(),
{
    if s.len() == 0 {
        seq![x]
    } else if s.last().time.key() <= x.time.key() {
        s.push(x)
    } else {
        insert_by_time(s.drop_last(), x).push(s.last())
    }
}

/// The turns stably sorted by the total order of their times.
pub open spec fn sort_by_time(s: Seq<ItemView>) -> Seq<ItemView>
    decreases s.len(),
{
    if s.len() == 0 {
        s
    } else {
        insert_by_time(sort_by_time(s.drop_last()), s.last())
    }
}

/// Whether each turn is no later than the next one.
pub open spec fn sorted_by_time(s: Seq<ItemView>) -> bool {
    forall|i: int| 0 <= i < s.len() - 1 ==> #[trigger] s[i].time.key() <= s[i + 1].time.key()
}

/// The turns of a session's conversation.
pub open spec fn conversation_items(g: GPTInteraction) -> Seq<ItemView> {
    sort_by_time(node_items(g.mapping@))
}

proof fn lemma_insert_at(s: Seq<ItemView>, x: ItemView, j: int)
    requires
        0 <= j <= s.len(),
        forall|k: int| j <= k < s.len() ==> #[trigger] s[k].time.key() > x.time.key(),
        j == 0 || s[j - 1].time.key() <= x.time.key(),
    ensures
        insert_by_time(s, x) == s.subrange(0, j) + seq![x] + s.subrange(j, s.len() as int),
    decreases s.len(),
{
    if s.len() == 0 {
        assert(s.subrange(0, j) + seq![x] + s.subrange(j, s.len() as int) =~= seq![x]);
    } else if s.last().time.key() <= x.time.key() {
        assert(s.subrange(0, j) + seq![x] + s.subrange(j, s.len() as int) =~= s.push(x));
    } else {
        let d = s.drop_last();
        lemma_insert_at(d, x, j);
        assert((d.subrange(0, j) + seq![x] + d.subrange(j, d.len() as int)).push(s.last())
            =~= s.subrange(0, j) + seq![x] + s.subrange(j, s.len() as int));
    }
}

proof fn lemma_insert_bounded(s: Seq<ItemView>, x: ItemView, b: int)
    requires
        forall|k: int| 0 <= k < s.len() ==> #[trigger] s[k].time.key() <= b,
        x.time.key() <= b,
    ensures
        forall|k: int|
            0 <= k < insert_by_time(s, x).len() ==> #[trigger] insert_by_time(s, x)[k].time.key()
                <= b,
    decreases s.len(),
{
    let r = insert_by_time(s, x);
    if s.len() == 0 {
        assert(r[0] == x);
    } else if s.last().time.key() <= x.time.key() {
        assert forall|k: int| 0 <= k < r.len() implies #[trigger] r[k].time.key() <= b by {
            if k < s.len() {
                assert(r[k] == s[k]);
            }
        }
    } else {
        let d = s.drop_last();
        lemma_insert_bounded(d, x, b);
        let r1 = insert_by_time(d, x);
        assert forall|k: int| 0 <= k < r.len() implies #[trigger] r[k].time.key() <= b by {
            if k < r1.len() {
                assert(r[k] == r1[k]);
            } else {
                assert(r[k] == s[s.len() - 1]);
            }
        }
    }
}

proof fn lemma_insert_sorted(s: Seq<ItemView>, x: ItemView)
    requires
        forall|i: int, j: int| 0 <= i < j < s.len() ==> s[i].time.key() <= s[j].time.key(),
    ensures
        forall|i: int, j: int|
            0 <= i < j < insert_by_time(s, x).len() ==> insert_by_time(s, x)[i].time.key()
                <= insert_by_time(s, x)[j].time.key(),
        insert_by_time(s, x).to_multiset() == s.to_multiset().insert(x),
    decreases s.len(),
{
    broadcast use vstd::seq_lib::group_to_multiset_ensures;

    if s.len() == 0 {
        assert(seq![x] =~= Seq::<ItemView>::empty().push(x));
    } else if s.last().time.key() <= x.time.key() {
    } else {
        let d = s.drop_last();
        lemma_insert_sorted(d, x);
        lemma_insert_bounded(d, x, s.last().time.key());
        assert(d.push(s.last()) =~= s);
    }
}

proof fn lemma_sort_sorted(s: Seq<ItemView>)
    ensures
        forall|i: int, j: int|
            0 <= i < j < sort_by_time(s).len() ==> sort_by_time(s)[i].time.key() <= sort_by_time(
                s,
            )[j].time.key(),
        sort_by_time(s).to_multiset() == s.to_multiset(),
    decreases s.len(),
{
    broadcast use vstd::seq_lib::group_to_multiset_ensures;

    if s.len() > 0 {
        lemma_sort_sorted(s.drop_last());
        lemma_insert_sorted(sort_by_time(s.drop_last()), s.last());
        assert(s.drop_last().push(s.last()) =~= s);
    }
}

/// The turns of a conversation are in order of time, each no later than the
/// next, NaN times included; and they are the session's turns, each as often
/// as the session has it.
pub proof fn lemma_conversation_items_sorted(g: GPTInteraction)
    ensures
        sorted_by_time(conversation_items(g)),
        conversation_items(g).to_multiset() == node_items(g.mapping@).to_multiset(),
{
    lemma_sort_sorted(node_items(g.mapping@));
}

proof fn lemma_no_node_items(es: Seq<(String, Node)>)
    requires
        forall|k: int| 0 <= k < es.len() ==> node_item(#[trigger] es[k].1) is None,
    ensures
        node_items(es) == Seq::<ItemView>::empty(),
    decreases es.len(),
{
    if es.len() > 0 {
        lemma_no_node_items(es.drop_last());
    }
}

/// A session none of whose nodes holds a user or assistant message with
/// non-blank text gives a conversation without turns.
pub proof fn lemma_no_dialog_no_items(g: GPTInteraction)
    requires
        forall|k: int| 0 <= k < g.mapping@.len() ==> node_item(#[trigger] g.mapping@[k].1) is None,
    ensures
        conversation_items(g) == Seq::<ItemView>::empty(),
{
    lemma_no_node_items(g.mapping@);
}

fn text_is(s: &String, name: &str) -> (r: bool)
    ensures
        r == (s@ == name@),
{
    let other = String::from_str(name);
    s.eq(&other)
}

/// The texts of the string parts, joined by newlines.
fn join_string_parts(ps: &Vec<Part>) -> (r: String)
    ensures
        r@ == join_lines(string_parts(ps@)),
{
    let mut text = String::new();
    let mut any = false;
    let mut i: usize = 0;
    while i < ps.len()
        invariant
            i <= ps.len(),
            text@ == join_lines(string_parts(ps@.subrange(0, i as int))),
            any == (string_parts(ps@.subrange(0, i as int)).len() > 0),
        decreases ps.len() - i,
    {
        let ghost ts = string_parts(ps@.subrange(0, i as int));
        proof {
            assert(ps@.subrange(0, i + 1).drop_last() =~= ps@.subrange(0, i as int));
        }
        match &ps[i] {
            Part::String(s) => {
                proof {
                    assert(ts.push(s@).drop_last() =~= ts);
                }
                if any {
                    push_char(&mut text, '\n');
                }
                text.append(s.as_str());
                proof {
                    if !any {
                        assert(text@ =~= s@);
                    }
                }
                any = true;
            },
            Part::Object(_) => {},
        }
        i += 1;
    }
    proof {
        assert(ps@.subrange(0, i as int) =~= ps@);
    }
    text
}

/// The turn that `node` contributes, if any.
fn process_interaction_node(node: &Node) -> (r: Option<ConversationItem>)
    ensures
        match r {
            Some(i) => node_item(*node) == Some(i@),
            None => node_item(*node) is None,
        },
{
    let message = match &node.message {
        Some(m) => m,
        None => return None,
    };
    let role = &message.author.role;
    if !text_is(role, "assistant") && !text_is(role, "user") {
        return None;
    }
    let parts = match &message.content.parts {
        Some(ps) => ps,
        None => return None,
    };
    let text = join_string_parts(parts);
    if text_is_blank(text.as_str()) {
        return None;
    }
    let time = match message.create_time {
        Some(t) => t,
        None => Float64::from_bits(0),
    };
    Some(ConversationItem::new(text, role.clone(), time))
}

/// Places `x` into `items` after every trailing item that is not later than it.
fn insert_item(items: &mut Vec<ConversationItem>, x: ConversationItem)
    ensures
        items_view(final(items)@) == insert_by_time(items_view(old(items)@), x@),
{
    let ghost s = items_view(items@);
    let key = x.time.total_order_key();
    let mut j: usize = items.len();
    while j > 0 && items[j - 1].time.total_order_key() > key
        invariant
            j <= items.len(),
            items@ == old(items)@,
            s == items_view(items@),
            key == x@.time.key(),
            forall|k: int| j <= k < s.len() ==> #[trigger] s[k].time.key() > key,
        decreases j,
    {
        j -= 1;
    }
    proof {
        lemma_insert_at(s, x@, j as int);
    }
    items.insert(j, x);
    proof {
        assert(items_view(items@) =~= s.subrange(0, j as int) + seq![x@] + s.subrange(
            j as int,
            s.len() as int,
        ));
    }
}

/// Flattens a session into its conversation: the turns of its nodes, stably
/// sorted by time, its title, and the date of its last update.
pub fn create_conversation_from(gpt_interaction: GPTInteraction) -> (r: Conversation)
    ensures
        r.title@ == gpt_interaction.title@,
        r.date@ == date_text(gpt_interaction.update_time),
        items_view(r.items@) == conversation_items(gpt_interaction),
        sorted_by_time(items_view(r.items@)),
        items_view(r.items@).to_multiset() == node_items(gpt_interaction.mapping@).to_multiset(),
{
    let es = &gpt_interaction.mapping;
    let mut items: Vec<ConversationItem> = Vec::new();
    let mut i: usize = 0;
    proof {
        assert(es@.subrange(0, 0) =~= Seq::<(String, Node)>::empty());
        assert(items_view(items@) =~= Seq::<ItemView>::empty());
    }
    while i < es.len()
        invariant
            i <= es.len(),
            items_view(items@) == sort_by_time(node_items(es@.subrange(0, i as int))),
        decreases es.len() - i,
    {
        proof {
            assert(es@.subrange(0, i + 1).drop_last() =~= es@.subrange(0, i as int));
        }
        match process_interaction_node(&es[i].1) {
            Some(item) => {
                proof {
                    let ns = node_items(es@.subrange(0, i as int));
                    assert(ns.push(item@).drop_last() =~= ns);
                }
                insert_item(&mut items, item);
            },
            None => {},
        }
        i += 1;
    }
    proof {
        assert(es@.subrange(0, i as int) =~= es@);
    }
    proof {
        lemma_conversation_items_sorted(gpt_interaction);
    }
    let date = date_from_epoch_time(gpt_interaction.update_time);
    Conversation::new(gpt_interaction.title, items, date)
}

} // verus!
