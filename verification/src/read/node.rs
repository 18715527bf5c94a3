//! The values of a parsed file: texts, tagged values, tuples, dictionaries,
//! lists and compounds, each with the place in the file where it stands.

use vstd::prelude::*;
use crate::text::decimal;
use crate::text::decimal_string;
use crate::text::join3;
use crate::views::index_below;
use crate::views::index_of;
use crate::views::lemma_index_below;
use crate::views::lemma_index_of;
use crate::views::option_view;
use crate::views::views;

verus! {

/// The place of a character in a file.
#[derive(Clone, Copy, PartialEq, Eq, Structural, Debug)]
pub struct Position {
    pub index: usize,
    pub line: usize,
    pub column: usize,
}

/// An attribute of a tag: a key, and a value where it has one.
pub struct Attribute {
    pub key: String,
    pub value: Option<String>,
}

/// What an `Attribute` holds.
pub ghost struct AttributeView {
    pub key: Seq<char>,
    pub value: Option<Seq<char>>,
}

impl View for Attribute {
    type V = AttributeView;

    open spec fn view(&self) -> AttributeView {
        AttributeView { key: self.key@, value: option_view(self.value) }
    }
}

/// A parsed value, with the places where it starts and ends.
pub enum Node {
    /// Nothing.
    Nil(Position, Position),
    /// A text.
    Text(String, Position, Position),
    /// A value under a tag: the name of the tag, its attributes, and the
    /// value.
    Tagged(String, Vec<Attribute>, Box<Node>, Position, Position),
    /// A tuple of values.
    Tuple(Vec<Node>, Position, Position),
    /// A dictionary: its entries, each a key with a value, in the order in
    /// which they are handed over.
    Dictionary(Vec<(String, Node)>, Position, Position),
    /// A list of values.
    List(Vec<Node>, Position, Position),
    /// A compound of two or more values that stand side by side; for each
    /// but the last, whether white space follows it.
    Compound(Vec<Node>, Vec<bool>, Position, Position),
}

/// What a `Node` holds.
pub ghost enum NodeView {
    Nil(Position, Position),
    Text(Seq<char>, Position, Position),
    Tagged(Seq<char>, Seq<AttributeView>, Box<NodeView>, Position, Position),
    Tuple(Seq<NodeView>, Position, Position),
    Dictionary(Seq<(Seq<char>, NodeView)>, Position, Position),
    List(Seq<NodeView>, Position, Position),
    Compound(Seq<NodeView>, Seq<bool>, Position, Position),
}

/// What the values `values` hold, in order.
pub open spec fn node_views(values: Seq<Node>) -> Seq<NodeView>
    decreases values,
{
    Seq::new(
        values.len(),
        |i: int|
            if 0 <= i < values.len() {
                node_view(values[i])
            } else {
                arbitrary()
            },
    )
}

/// What the entries `entries` hold, in order.
pub open spec fn entry_views(entries: Seq<(String, Node)>) -> Seq<(Seq<char>, NodeView)>
    decreases entries,
{
    Seq::new(
        entries.len(),
        |i: int|
            if 0 <= i < entries.len() {
                (entries[i].0@, node_view(entries[i].1))
            } else {
                arbitrary()
            },
    )
}

/// What the value `value` holds.
pub open spec fn node_view(value: Node) -> NodeView
    decreases value,
{
    match value {
        Node::Nil(from, to) => NodeView::Nil(from, to),
        Node::Text(text, from, to) => NodeView::Text(text@, from, to),
        Node::Tagged(name, attributes, inner, from, to) => NodeView::Tagged(
            name@,
            views(attributes@),
            Box::new(node_view(*inner)),
            from,
            to,
        ),
        Node::Tuple(values, from, to) => NodeView::Tuple(node_views(values@), from, to),
        Node::Dictionary(entries, from, to) => NodeView::Dictionary(
            entry_views(entries@),
            from,
            to,
        ),
        Node::List(values, from, to) => NodeView::List(node_views(values@), from, to),
        Node::Compound(values, whitespace, from, to) => NodeView::Compound(
            node_views(values@),
            whitespace@,
            from,
            to,
        ),
    }
}

impl View for Node {
    type V = NodeView;

    open spec fn view(&self) -> NodeView {
        node_view(*self)
    }
}

/// What a sequence of values holds is what its values hold, one by one.
pub proof fn lemma_node_views(values: Seq<Node>)
    ensures
        node_views(values).len() == values.len(),
        forall|i: int| 0 <= i < values.len() ==> #[trigger] node_views(values)[i] == values[i]@,
{
    reveal_with_fuel(node_views, 2);
}

/// What a sequence of entries holds is what its entries hold, one by one.
pub proof fn lemma_entry_views(entries: Seq<(String, Node)>)
    ensures
        entry_views(entries).len() == entries.len(),
        forall|i: int|
            0 <= i < entries.len() ==> #[trigger] entry_views(entries)[i] == (
                entries[i].0@,
                entries[i].1@,
            ),
{
    reveal_with_fuel(entry_views, 2);
}

impl NodeView {
    /// The place where the value starts.
    pub open spec fn from(self) -> Position {
        match self {
            NodeView::Nil(from, _) => from,
            NodeView::Text(_, from, _) => from,
            NodeView::Tagged(_, _, _, from, _) => from,
            NodeView::Tuple(_, from, _) => from,
            NodeView::Dictionary(_, from, _) => from,
            NodeView::List(_, from, _) => from,
            NodeView::Compound(_, _, from, _) => from,
        }
    }

    /// The number of values that the value stands for where a tuple is
    /// expected: those of a tuple, and one for any other value.
    pub open spec fn len_as_tuple(self) -> nat {
        match self {
            NodeView::Tuple(values, _, _) => values.len(),
            _ => 1,
        }
    }
}

impl Node {
    /// The place where the value starts.
    pub fn from(&self) -> (from: Position)
        ensures
            from == self@.from(),
    {
        match self {
            Node::Nil(from, _) => *from,
            Node::Text(_, from, _) => *from,
            Node::Tagged(_, _, _, from, _) => *from,
            Node::Tuple(_, from, _) => *from,
            Node::Dictionary(_, from, _) => *from,
            Node::List(_, from, _) => *from,
            Node::Compound(_, _, from, _) => *from,
        }
    }

    /// The number of values that the value stands for where a tuple is
    /// expected.
    pub fn len_as_tuple(&self) -> (len: usize)
        ensures
            len == self@.len_as_tuple(),
    {
        match self {
            Node::Tuple(values, _, _) => {
                proof {
                    lemma_node_views(values@);
                }
                values.len()
            },
            _ => 1,
        }
    }
}

/// The keys of the entries `entries`, in order.
pub open spec fn entry_keys(entries: Seq<(Seq<char>, NodeView)>) -> Seq<Seq<char>> {
    Seq::new(entries.len(), |i: int| entries[i].0)
}

/// The value of the first of the entries `entries` with the key `key`.
pub open spec fn lookup(entries: Seq<(Seq<char>, NodeView)>, key: Seq<char>) -> Option<NodeView> {
    match index_of(entry_keys(entries), key) {
        Some(i) => Some(entries[i].1),
        None => None,
    }
}

/// The value of the first of the entries `entries` with the key `key`.
pub fn get<'a>(entries: &'a Vec<(String, Node)>, key: &str) -> (value: Option<&'a Node>)
    ensures
        match value {
            Some(value) => lookup(entry_views(entries@), key@) == Some(value@),
            None => lookup(entry_views(entries@), key@) is None,
        },
{
    let wanted = String::from_str(key);
    let ghost keys = entry_keys(entry_views(entries@));
    proof {
        lemma_entry_views(entries@);
    }
    let mut i: usize = 0;
    while i < entries.len()
        invariant
            i <= entries.len(),
            wanted@ == key@,
            keys == entry_keys(entry_views(entries@)),
            entry_views(entries@).len() == entries.len(),
            forall|k: int|
                0 <= k < entries.len() ==> #[trigger] entry_views(entries@)[k] == (
                    entries[k].0@,
                    entries[k].1@,
                ),
            index_below(keys, key@, i as int) is None,
        decreases entries.len() - i,
    {
        assert(keys[i as int] == entries[i as int].0@);
        if entries[i].0 == wanted {
            proof {
                lemma_index_below(keys, key@, i as int);
                lemma_index_of(keys, key@);
            }
            return Some(&entries[i].1);
        }
        i = i + 1;
    }
    None
}

/// Whether the text `text` is the text `wanted`.
pub fn text_is(text: &str, wanted: &str) -> (b: bool)
    ensures
        b == (text@ == wanted@),
{
    String::from_str(text) == String::from_str(wanted)
}

/// The place `at` as a text: its line, a colon, and its column.
pub open spec fn position_text(at: Position) -> Seq<char> {
    decimal(at.line as nat) + ":"@ + decimal(at.column as nat)
}

/// The place `at` as a text: its line, a colon, and its column.
pub fn position_string(at: Position) -> (text: String)
    ensures
        text@ == position_text(at),
{
    let line = decimal_string(at.line);
    let column = decimal_string(at.column);
    join3(line.as_str(), ":", column.as_str())
}

/// The text `before`, the place `at`, and the text `after`.
pub open spec fn message_at(before: Seq<char>, at: Position, after: Seq<char>) -> Seq<char> {
    before + position_text(at) + after
}

/// The text `before`, the place `at`, and the text `after`.
pub fn message_at_string(before: &str, at: Position, after: &str) -> (text: String)
    ensures
        text@ == message_at(before@, at, after@),
{
    let place = position_string(at);
    join3(before, place.as_str(), after)
}

} // verus!
