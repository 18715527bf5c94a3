//! The records of a document as it is read, before its links are bound to
//! the articles of the project.

use vstd::prelude::*;
use crate::document::DirNode;
use crate::key::include_key;
use crate::key::read_include_key;
use crate::key::IncludeKey;
use crate::key::IncludeKeyView;
use crate::read::article::article_declaration;
use crate::read::article::read_article_declaration;
use crate::read::content::content_text;
use crate::read::content::read_content_text;
use crate::read::node::entry_views;
use crate::read::node::get;
use crate::read::node::lemma_node_views;
use crate::read::node::lookup;
use crate::read::node::message_at;
use crate::read::node::message_at_string;
use crate::read::node::text_is;
use crate::read::node::node_views;
use crate::read::node::Attribute;
use crate::read::node::AttributeView;
use crate::read::node::Position;
use crate::read::node::Node;
use crate::read::node::NodeView;
use crate::text::join3;
use crate::views::collect;
use crate::views::lemma_collect_err;
use crate::views::lemma_collect_ok;
use crate::document::DirNodeView;
use crate::read::article::ReadArticle;
use crate::read::article::ReadArticleView;
use crate::views::option_view;
use crate::views::views;

verus! {

/// An element of a panel of links, as it is read.
pub enum ReadInlineElement {
    /// A heading within the panel: its level, its text and its index.
    Heading(u8, String, Option<String>),
    /// A link to the article with a key, with an index where it has one.
    Link(String, Option<String>),
}

/// What a `ReadInlineElement` holds.
pub ghost enum ReadInlineElementView {
    Heading(u8, Seq<char>, Option<Seq<char>>),
    Link(Seq<char>, Option<Seq<char>>),
}

impl View for ReadInlineElement {
    type V = ReadInlineElementView;

    open spec fn view(&self) -> ReadInlineElementView {
        match self {
            ReadInlineElement::Heading(level, text, index) => ReadInlineElementView::Heading(
                *level,
                text@,
                option_view(*index),
            ),
            ReadInlineElement::Link(key, index) => ReadInlineElementView::Link(
                key@,
                option_view(*index),
            ),
        }
    }
}

/// An element of the structure of a document, as it is read.
pub enum ReadElement {
    /// A heading: its level, its index and its text.
    Heading(u8, Option<String>, String),
    /// A paragraph of text.
    Paragraph(String),
    /// A panel of links.
    Panel(Vec<ReadInlineElement>),
}

/// What a `ReadElement` holds.
pub ghost enum ReadElementView {
    Heading(u8, Option<Seq<char>>, Seq<char>),
    Paragraph(Seq<char>),
    Panel(Seq<ReadInlineElementView>),
}

impl View for ReadElement {
    type V = ReadElementView;

    open spec fn view(&self) -> ReadElementView {
        match self {
            ReadElement::Heading(level, index, text) => ReadElementView::Heading(
                *level,
                option_view(*index),
                text@,
            ),
            ReadElement::Paragraph(text) => ReadElementView::Paragraph(text@),
            ReadElement::Panel(links) => ReadElementView::Panel(views(links@)),
        }
    }
}

/// A document as it is read.
pub struct ReadDocument {
    pub key: String,
    pub title: String,
    pub description: Option<String>,
    pub preamble: Option<String>,
    pub resolution_paths: Vec<String>,
    pub read_elements: Vec<ReadElement>,
    pub read_articles: Vec<ReadArticle>,
}

/// What a `ReadDocument` holds.
pub ghost struct ReadDocumentView {
    pub key: Seq<char>,
    pub title: Seq<char>,
    pub description: Option<Seq<char>>,
    pub preamble: Option<Seq<char>>,
    pub resolution_paths: Seq<Seq<char>>,
    pub read_elements: Seq<ReadElementView>,
    pub read_articles: Seq<ReadArticleView>,
}

impl View for ReadDocument {
    type V = ReadDocumentView;

    open spec fn view(&self) -> ReadDocumentView {
        ReadDocumentView {
            key: self.key@,
            title: self.title@,
            description: option_view(self.description),
            preamble: option_view(self.preamble),
            resolution_paths: views(self.resolution_paths@),
            read_elements: views(self.read_elements@),
            read_articles: views(self.read_articles@),
        }
    }
}

/// A document as it is read, with its place in the file system.
pub struct ReadFsDocument {
    pub file_name: String,
    pub dir_path: Vec<DirNode>,
    pub document: ReadDocument,
}

/// What a `ReadFsDocument` holds.
pub ghost struct ReadFsDocumentView {
    pub file_name: Seq<char>,
    pub dir_path: Seq<DirNodeView>,
    pub document: ReadDocumentView,
}

impl View for ReadFsDocument {
    type V = ReadFsDocumentView;

    open spec fn view(&self) -> ReadFsDocumentView {
        ReadFsDocumentView {
            file_name: self.file_name@,
            dir_path: views(self.dir_path@),
            document: self.document@,
        }
    }
}

/// The structure `elements` with the element `element` of a panel at its
/// end: in the panel that ends the structure where there is one, and else
/// in a new panel.
pub open spec fn append_inline(elements: Seq<ReadElementView>, element: ReadInlineElementView) -> Seq<
    ReadElementView,
> {
    if elements.len() > 0 && elements.last() is Panel {
        elements.update(
            elements.len() - 1,
            ReadElementView::Panel(elements.last()->Panel_0.push(element)),
        )
    } else {
        elements.push(ReadElementView::Panel(seq![element]))
    }
}

/// Appends the element `element` of a panel to the structure `structure`:
/// to the panel that ends the structure where there is one, and else in a
/// new panel.
pub fn append_inline_element(structure: &mut Vec<ReadElement>, element: ReadInlineElement) -> (r:
    Result<(), String>)
    ensures
        r is Ok,
        views(final(structure)@) == append_inline(views(old(structure)@), element@),
{
    let n = structure.len();
    let ends_with_panel = n > 0 && match &structure[n - 1] {
        ReadElement::Panel(_) => true,
        _ => false,
    };
    if ends_with_panel {
        match structure.pop() {
            Some(ReadElement::Panel(mut links)) => {
                let ghost before = views(links@);
                links.push(element);
                assert(views(links@) =~= before.push(element@));
                structure.push(ReadElement::Panel(links));
            },
            _ => {
                assert(false);
            },
        }
        assert(views(structure@) =~= append_inline(views(old(structure)@), element@));
    } else {
        let mut links: Vec<ReadInlineElement> = Vec::new();
        links.push(element);
        assert(views(links@) =~= seq![element@]);
        structure.push(ReadElement::Panel(links));
        assert(views(structure@) =~= append_inline(views(old(structure)@), element@));
    }
    Ok(())
}

/// The level of the heading that the tag with the name `name` makes in a
/// document, from one to six.
pub open spec fn heading_level(name: Seq<char>) -> Option<u8> {
    if name == "H1"@ {
        Some(1u8)
    } else if name == "H2"@ {
        Some(2u8)
    } else if name == "H3"@ {
        Some(3u8)
    } else if name == "H4"@ {
        Some(4u8)
    } else if name == "H5"@ {
        Some(5u8)
    } else if name == "H6"@ {
        Some(6u8)
    } else {
        None
    }
}

/// The level of the heading that the tag with the name `name` makes in a
/// document.
fn read_heading_level(name: &str) -> (level: Option<u8>)
    ensures
        level == heading_level(name@),
{
    if text_is(name, "H1") {
        Some(1)
    } else if text_is(name, "H2") {
        Some(2)
    } else if text_is(name, "H3") {
        Some(3)
    } else if text_is(name, "H4") {
        Some(4)
    } else if text_is(name, "H5") {
        Some(5)
    } else if text_is(name, "H6") {
        Some(6)
    } else {
        None
    }
}

/// The keys of the attributes `attributes`, in order.
pub open spec fn attribute_keys(attributes: Seq<AttributeView>) -> Seq<Seq<char>> {
    Seq::new(attributes.len(), |i: int| attributes[i].key)
}

/// Whether one of the attributes `attributes` has the key `key`.
fn has_attribute(attributes: &Vec<Attribute>, key: &str) -> (b: bool)
    ensures
        b == attribute_keys(views(attributes@)).contains(key@),
{
    let wanted = String::from_str(key);
    let ghost keys = attribute_keys(views(attributes@));
    let mut i: usize = 0;
    while i < attributes.len()
        invariant
            i <= attributes.len(),
            wanted@ == key@,
            keys == attribute_keys(views(attributes@)),
            forall|k: int| 0 <= k < i ==> keys[k] != key@,
        decreases attributes.len() - i,
    {
        assert(keys[i as int] == attributes[i as int].key@);
        if attributes[i].key == wanted {
            return true;
        }
        i = i + 1;
    }
    false
}

/// A heading as it is read: its level, its text, its index, and whether it
/// belongs in a panel.
pub ghost struct HeadingView {
    pub level: u8,
    pub text: Seq<char>,
    pub index: Option<Seq<char>>,
    pub inline: bool,
}

/// The index and the text of a heading that `value` holds: the two values
/// of a tuple, or a value that is no tuple as the text.
pub open spec fn heading_texts(value: NodeView) -> Result<(Option<Seq<char>>, Seq<char>), Seq<char>> {
    match value {
        NodeView::Tuple(values, from, _) => {
            if values.len() != 2 {
                Err(message_at("Heading at "@, from, " must be tuple with 1 or 2 elements."@))
            } else {
                match content_text(values[0]) {
                    Err(e) => Err(e),
                    Ok(index) => match content_text(values[1]) {
                        Err(e) => Err(e),
                        Ok(text) => Ok((Some(index), text)),
                    },
                }
            }
        },
        _ => match content_text(value) {
            Err(e) => Err(e),
            Ok(text) => Ok((None, text)),
        },
    }
}

/// The heading that the value `value` under the tag `name` with the
/// attributes `attributes` makes. The attribute `i` puts the heading in a
/// panel. A heading of the first level is not allowed.
pub open spec fn content_heading(name: Seq<char>, attributes: Seq<AttributeView>, value: NodeView) -> Result<
    HeadingView,
    Seq<char>,
>
    recommends
        heading_level(name) is Some,
{
    match heading_texts(value) {
        Err(e) => Err(e),
        Ok((index, text)) => {
            if heading_level(name) == Some(1u8) {
                Err(
                    message_at(
                        "Found illegal heading at "@,
                        value.from(),
                        ". H1 headings are not allowed."@,
                    ),
                )
            } else {
                Ok(
                    HeadingView {
                        level: heading_level(name)->0,
                        text,
                        index,
                        inline: attribute_keys(attributes).contains("i"@),
                    },
                )
            }
        },
    }
}

/// Reads the index and the text of a heading.
fn read_heading_texts(value: &Node) -> (r: Result<(Option<String>, String), String>)
    ensures
        match heading_texts(value@) {
            Ok((index, text)) => r matches Ok(read) && option_view(read.0) == index && read.1@
                == text,
            Err(e) => r matches Err(message) && message@ == e,
        },
{
    match value {
        Node::Tuple(values, from, _) => {
            proof {
                lemma_node_views(values@);
            }
            if values.len() != 2 {
                return Err(
                    message_at_string("Heading at ", *from, " must be tuple with 1 or 2 elements."),
                );
            }
            let index = match read_content_text(&values[0]) {
                Ok(index) => index,
                Err(e) => {
                    return Err(e);
                },
            };
            match read_content_text(&values[1]) {
                Ok(text) => Ok((Some(index), text)),
                Err(e) => Err(e),
            }
        },
        _ => match read_content_text(value) {
            Ok(text) => Ok((None, text)),
            Err(e) => Err(e),
        },
    }
}

/// Reads the heading that the value `value` under the tag `name` with the
/// attributes `attributes` makes: its level, its text, its index, and
/// whether it belongs in a panel.
pub fn read_content_heading(name: &str, attributes: &Vec<Attribute>, value: &Node) -> (r: Result<
    (u8, String, Option<String>, bool),
    String,
>)
    requires
        heading_level(name@) is Some,
    ensures
        match content_heading(name@, views(attributes@), value@) {
            Ok(heading) => r matches Ok(read) && read.0 == heading.level && read.1@ == heading.text
                && option_view(read.2) == heading.index && read.3 == heading.inline,
            Err(e) => r matches Err(message) && message@ == e,
        },
{
    let (index, text) = match read_heading_texts(value) {
        Ok(texts) => texts,
        Err(e) => {
            return Err(e);
        },
    };
    let inline = has_attribute(attributes, "i");
    let level = read_heading_level(name).unwrap();
    if level == 1 {
        return Err(
            message_at_string(
                "Found illegal heading at ",
                value.from(),
                ". H1 headings are not allowed.",
            ),
        );
    }
    Ok((level, text, index, inline))
}

/// The key of the article that an inclusion with the key `key` names in
/// the document with the key `document_key`: a local key gets the key of
/// the document as its suffix.
pub open spec fn included_key(key: IncludeKeyView, document_key: Seq<char>) -> Seq<char> {
    match key {
        IncludeKeyView::Class(key) => key,
        IncludeKeyView::Article(key) => key,
        IncludeKeyView::Local(key) => key + "@"@ + document_key,
    }
}

/// The link that the value `value` of an inclusion makes, which stands at
/// `at` in the document with the key `document_key`.
pub open spec fn content_include(value: NodeView, at: Position, document_key: Seq<char>) -> Result<
    ReadInlineElementView,
    Seq<char>,
> {
    match value {
        NodeView::Text(text, _, _) => match include_key(text) {
            Err(e) => Err(e),
            Ok(key) => Ok(ReadInlineElementView::Link(included_key(key, document_key), None)),
        },
        _ => Err(message_at("Value of @ include command at "@, at, " must be text."@)),
    }
}

/// What a result that is an element of a panel or an error message holds.
pub open spec fn inline_view(r: Result<ReadInlineElement, String>) -> Result<
    ReadInlineElementView,
    Seq<char>,
> {
    match r {
        Ok(element) => Ok(element@),
        Err(e) => Err(e@),
    }
}

/// Reads the link that the value `value` of an inclusion makes.
pub fn read_content_include(value: &Node, at: Position, document_key: &str) -> (r: Result<
    ReadInlineElement,
    String,
>)
    ensures
        inline_view(r) == content_include(value@, at, document_key@),
{
    let text = match value {
        Node::Text(text, _, _) => text,
        _ => {
            return Err(message_at_string("Value of @ include command at ", at, " must be text."));
        },
    };
    let key = match read_include_key(text.as_str()) {
        Ok(IncludeKey::Class(key)) => key,
        Ok(IncludeKey::Article(key)) => key,
        Ok(IncludeKey::Local(key)) => join3(key.as_str(), "@", document_key),
        Err(e) => {
            return Err(e);
        },
    };
    Ok(ReadInlineElement::Link(key, None))
}

/// Reads the declaration of an article that the value `value` under the
/// tag `name` makes, and gives the link to the article with it.
pub fn read_content_declaration(name: &str, value: &Node, at: Position, document_key: &str) -> (r:
    Result<(ReadInlineElement, ReadArticle), String>)
    ensures
        match article_declaration(name@, value@, at, document_key@) {
            Ok(article) => r matches Ok(read) && read.1@ == article && read.0@
                == ReadInlineElementView::Link(article.article_key, None),
            Err(e) => r matches Err(message) && message@ == e,
        },
{
    let read_article = match read_article_declaration(name, value, at, document_key) {
        Ok(read_article) => read_article,
        Err(e) => {
            return Err(e);
        },
    };
    let key = read_article.article_key.clone();
    Ok((ReadInlineElement::Link(key, None), read_article))
}

/// What is read of the content of a document: its structure, and the
/// articles that it declares.
pub ghost struct ContentView {
    pub elements: Seq<ReadElementView>,
    pub articles: Seq<ReadArticleView>,
}

/// The element `element` of a panel with the index `index`.
pub open spec fn with_index(element: ReadInlineElementView, index: Seq<char>) -> ReadInlineElementView {
    match element {
        ReadInlineElementView::Heading(level, text, _) => ReadInlineElementView::Heading(
            level,
            text,
            Some(index),
        ),
        ReadInlineElementView::Link(key, _) => ReadInlineElementView::Link(key, Some(index)),
    }
}

/// What is read after the value `tag` of a section of a panel with the
/// index `index`, which must be a tagged value: an inclusion, or else the
/// declaration of an article.
pub open spec fn inline_tag(
    content: ContentView,
    tag: NodeView,
    at: Position,
    document_key: Seq<char>,
    index: Seq<char>,
) -> Result<ContentView, Seq<char>> {
    match tag {
        NodeView::Tagged(name, _, inner, _, _) => {
            if name == "@"@ {
                match content_include(*inner, at, document_key) {
                    Err(e) => Err(e),
                    Ok(element) => Ok(
                        ContentView {
                            elements: append_inline(content.elements, with_index(element, index)),
                            ..content
                        },
                    ),
                }
            } else {
                match article_declaration(name, *inner, at, document_key) {
                    Err(e) => Err(e),
                    Ok(article) => Ok(
                        ContentView {
                            elements: append_inline(
                                content.elements,
                                ReadInlineElementView::Link(article.article_key, Some(index)),
                            ),
                            articles: content.articles.push(article),
                        },
                    ),
                }
            }
        },
        _ => Err("Value of inline section list must be tag."@),
    }
}

/// What is read after the first `n` of the values `tags` of a section of
/// a panel.
pub open spec fn inline_tags(
    content: ContentView,
    tags: Seq<NodeView>,
    at: Position,
    document_key: Seq<char>,
    index: Seq<char>,
    n: int,
) -> Result<ContentView, Seq<char>>
    decreases n,
{
    if n <= 0 {
        Ok(content)
    } else {
        match inline_tags(content, tags, at, document_key, index, n - 1) {
            Err(e) => Err(e),
            Ok(before) => inline_tag(before, tags[n - 1], at, document_key, index),
        }
    }
}

/// What is read after a section of a panel with the value `value`: a tuple
/// of an index, which is a text, and a tagged value or a list of tagged
/// values.
pub open spec fn inline_section(
    content: ContentView,
    value: NodeView,
    at: Position,
    document_key: Seq<char>,
) -> Result<ContentView, Seq<char>> {
    match value {
        NodeView::Tuple(values, _, _) => {
            if values.len() != 2 {
                Err("Inline section must have 2 arguments."@)
            } else {
                match values[0] {
                    NodeView::Text(index, _, _) => match values[1] {
                        NodeView::Tagged(_, _, _, _, _) => inline_tag(
                            content,
                            values[1],
                            at,
                            document_key,
                            index,
                        ),
                        NodeView::List(tags, _, _) => inline_tags(
                            content,
                            tags,
                            at,
                            document_key,
                            index,
                            tags.len() as int,
                        ),
                        _ => Err("Inline section must have a tag or list of tags value."@),
                    },
                    _ => Err("Index must be text."@),
                }
            }
        },
        _ => Err("Inline section must have 2 arguments."@),
    }
}

/// What is read after one more element `element` of the content of the
/// document with the key `document_key`, and the level of the last
/// heading; `level` is the level of the last heading before the element.
///
/// An element is a tagged value. The tags `H1` to `H6` make headings, of
/// which the level is at most one more than that of the heading before;
/// `P` makes a paragraph; `@` includes an article and `I` is a section of a
/// panel; and any other tag declares an article of the type that it names.
pub open spec fn content_step(
    content: ContentView,
    level: u8,
    element: NodeView,
    document_key: Seq<char>,
) -> Result<(ContentView, u8), Seq<char>> {
    match element {
        NodeView::Tagged(name, attributes, inner, from, _) => {
            if heading_level(name) is Some {
                match content_heading(name, attributes, *inner) {
                    Err(e) => Err(e),
                    Ok(heading) => {
                        if heading.level > level + 1 {
                            Err(
                                message_at(
                                    "Heading level jumped by multiple levels at "@,
                                    inner.from(),
                                    Seq::empty(),
                                ),
                            )
                        } else {
                            Ok(
                                (
                                    ContentView {
                                        elements: if heading.inline {
                                            append_inline(
                                                content.elements,
                                                ReadInlineElementView::Heading(
                                                    heading.level,
                                                    heading.text,
                                                    heading.index,
                                                ),
                                            )
                                        } else {
                                            content.elements.push(
                                                ReadElementView::Heading(
                                                    heading.level,
                                                    heading.index,
                                                    heading.text,
                                                ),
                                            )
                                        },
                                        articles: content.articles,
                                    },
                                    heading.level,
                                ),
                            )
                        }
                    },
                }
            } else if name == "P"@ {
                match content_text(*inner) {
                    Err(e) => Err(e),
                    Ok(text) => Ok(
                        (
                            ContentView {
                                elements: content.elements.push(ReadElementView::Paragraph(text)),
                                ..content
                            },
                            level,
                        ),
                    ),
                }
            } else if name == "@"@ {
                match content_include(*inner, from, document_key) {
                    Err(e) => Err(e),
                    Ok(link) => Ok(
                        (
                            ContentView {
                                elements: append_inline(content.elements, link),
                                ..content
                            },
                            level,
                        ),
                    ),
                }
            } else if name == "I"@ {
                match inline_section(content, *inner, from, document_key) {
                    Err(e) => Err(e),
                    Ok(after) => Ok((after, level)),
                }
            } else {
                match article_declaration(name, *inner, from, document_key) {
                    Err(e) => Err(e),
                    Ok(article) => Ok(
                        (
                            ContentView {
                                elements: append_inline(
                                    content.elements,
                                    ReadInlineElementView::Link(article.article_key, None),
                                ),
                                articles: content.articles.push(article),
                            },
                            level,
                        ),
                    ),
                }
            }
        },
        _ => Err(message_at("Element at "@, element.from(), " must be a tagged value"@)),
    }
}

/// What is read of the first `n` of the elements `values` of the content
/// of the document with the key `document_key`, and the level of the last
/// heading, which is one where there is none.
pub open spec fn document_content(values: Seq<NodeView>, document_key: Seq<char>, n: int) -> Result<
    (ContentView, u8),
    Seq<char>,
>
    decreases n,
{
    if n <= 0 {
        Ok((ContentView { elements: Seq::empty(), articles: Seq::empty() }, 1u8))
    } else {
        match document_content(values, document_key, n - 1) {
            Err(e) => Err(e),
            Ok((before, level)) => content_step(before, level, values[n - 1], document_key),
        }
    }
}

/// Content of which the first `n` elements have an error has that error
/// whatever follows.
pub proof fn lemma_document_content_stay(values: Seq<NodeView>, document_key: Seq<char>, n: int, m: int)
    requires
        n <= m,
        document_content(values, document_key, n) is Err,
    ensures
        document_content(values, document_key, m) == document_content(values, document_key, n),
    decreases m - n,
{
    if n < m {
        lemma_document_content_stay(values, document_key, n, m - 1);
    }
}

/// A section of which the first `n` values have an error has that error
/// whatever follows.
pub proof fn lemma_inline_tags_stay(
    content: ContentView,
    tags: Seq<NodeView>,
    at: Position,
    document_key: Seq<char>,
    index: Seq<char>,
    n: int,
    m: int,
)
    requires
        n <= m,
        inline_tags(content, tags, at, document_key, index, n) is Err,
    ensures
        inline_tags(content, tags, at, document_key, index, m) == inline_tags(
            content,
            tags,
            at,
            document_key,
            index,
            n,
        ),
    decreases m - n,
{
    if n < m {
        lemma_inline_tags_stay(content, tags, at, document_key, index, n, m - 1);
    }
}

/// Whether `r`, the structure `elements` and the articles `articles` are
/// the outcome `outcome` of reading content.
pub open spec fn content_read(
    r: Result<(), String>,
    elements: Seq<ReadElementView>,
    articles: Seq<ReadArticleView>,
    outcome: Result<ContentView, Seq<char>>,
) -> bool {
    match outcome {
        Ok(content) => r is Ok && elements == content.elements && articles == content.articles,
        Err(e) => r matches Err(message) && message@ == e,
    }
}

/// The element `element` of a panel with the index `index`.
fn set_index(element: ReadInlineElement, index: String) -> (indexed: ReadInlineElement)
    ensures
        indexed@ == with_index(element@, index@),
{
    match element {
        ReadInlineElement::Heading(level, text, _) => ReadInlineElement::Heading(
            level,
            text,
            Some(index),
        ),
        ReadInlineElement::Link(key, _) => ReadInlineElement::Link(key, Some(index)),
    }
}

/// Reads the value `tag` of a section of a panel with the index `index`.
pub fn read_inline_section_tag(
    read_elements: &mut Vec<ReadElement>,
    read_articles: &mut Vec<ReadArticle>,
    tag: &Node,
    at: Position,
    document_key: &str,
    index: String,
) -> (r: Result<(), String>)
    ensures
        content_read(
            r,
            views(final(read_elements)@),
            views(final(read_articles)@),
            inline_tag(
                ContentView {
                    elements: views(old(read_elements)@),
                    articles: views(old(read_articles)@),
                },
                tag@,
                at,
                document_key@,
                index@,
            ),
        ),
{
    match tag {
        Node::Tagged(name, _, inner, _, _) => {
            if text_is(name.as_str(), "@") {
                let link = match read_content_include(inner, at, document_key) {
                    Ok(link) => link,
                    Err(e) => {
                        return Err(e);
                    },
                };
                append_inline_element(read_elements, set_index(link, index))
            } else {
                let (link, read_article) = match read_content_declaration(
                    name.as_str(),
                    inner,
                    at,
                    document_key,
                ) {
                    Ok(read) => read,
                    Err(e) => {
                        return Err(e);
                    },
                };
                let ghost before = views(read_articles@);
                read_articles.push(read_article);
                assert(views(read_articles@) =~= before.push(read_article@));
                append_inline_element(read_elements, set_index(link, index))
            }
        },
        _ => Err(String::from_str("Value of inline section list must be tag.")),
    }
}

/// Reads a section of a panel with the value `value`, which stands at
/// `at`.
pub fn read_inline_section(
    read_elements: &mut Vec<ReadElement>,
    read_articles: &mut Vec<ReadArticle>,
    value: &Node,
    at: Position,
    document_key: &str,
) -> (r: Result<(), String>)
    ensures
        content_read(
            r,
            views(final(read_elements)@),
            views(final(read_articles)@),
            inline_section(
                ContentView {
                    elements: views(old(read_elements)@),
                    articles: views(old(read_articles)@),
                },
                value@,
                at,
                document_key@,
            ),
        ),
{
    let values = match value {
        Node::Tuple(values, _, _) => values,
        _ => {
            return Err(String::from_str("Inline section must have 2 arguments."));
        },
    };
    proof {
        lemma_node_views(values@);
    }
    if values.len() != 2 {
        return Err(String::from_str("Inline section must have 2 arguments."));
    }
    let index = match &values[0] {
        Node::Text(index, _, _) => index,
        _ => {
            return Err(String::from_str("Index must be text."));
        },
    };
    match &values[1] {
        Node::Tagged(_, _, _, _, _) => read_inline_section_tag(
            read_elements,
            read_articles,
            &values[1],
            at,
            document_key,
            index.clone(),
        ),
        Node::List(tags, _, _) => {
            let ghost start = ContentView {
                elements: views(read_elements@),
                articles: views(read_articles@),
            };
            let ghost all = node_views(tags@);
            proof {
                lemma_node_views(tags@);
            }
            assert(inline_section(start, value@, at, document_key@) == inline_tags(
                start,
                all,
                at,
                document_key@,
                index@,
                all.len() as int,
            ));
            let mut i: usize = 0;
            while i < tags.len()
                invariant
                    i <= tags.len(),
                    inline_section(start, value@, at, document_key@) == inline_tags(
                        start,
                        all,
                        at,
                        document_key@,
                        index@,
                        all.len() as int,
                    ),
                    all == node_views(tags@),
                    all.len() == tags.len(),
                    forall|k: int| 0 <= k < tags.len() ==> #[trigger] all[k] == tags[k]@,
                    start == (ContentView {
                        elements: views(old(read_elements)@),
                        articles: views(old(read_articles)@),
                    }),
                    inline_tags(start, all, at, document_key@, index@, i as int) == Ok::<
                        ContentView,
                        Seq<char>,
                    >(
                        ContentView {
                            elements: views(read_elements@),
                            articles: views(read_articles@),
                        },
                    ),
                decreases tags.len() - i,
            {
                match read_inline_section_tag(
                    read_elements,
                    read_articles,
                    &tags[i],
                    at,
                    document_key,
                    index.clone(),
                ) {
                    Ok(_) => {},
                    Err(e) => {
                        proof {
                            lemma_inline_tags_stay(
                                start,
                                all,
                                at,
                                document_key@,
                                index@,
                                i + 1,
                                all.len() as int,
                            );
                        }
                        return Err(e);
                    },
                }
                i = i + 1;
            }
            Ok(())
        },
        _ => Err(String::from_str("Inline section must have a tag or list of tags value.")),
    }
}

/// Reads one element of the content of a document.
fn read_content_element(
    read_elements: &mut Vec<ReadElement>,
    read_articles: &mut Vec<ReadArticle>,
    heading_level: &mut u8,
    element: &Node,
    document_key: &str,
) -> (r: Result<(), String>)
    requires
        1 <= *old(heading_level) <= 6,
    ensures
        1 <= *final(heading_level) <= 6,
        match content_step(
            ContentView {
                elements: views(old(read_elements)@),
                articles: views(old(read_articles)@),
            },
            *old(heading_level),
            element@,
            document_key@,
        ) {
            Ok((content, level)) => r is Ok && views(final(read_elements)@) == content.elements
                && views(final(read_articles)@) == content.articles && *final(heading_level)
                == level,
            Err(e) => r matches Err(message) && message@ == e,
        },
{
    let (name, attributes, inner, at) = match element {
        Node::Tagged(name, attributes, inner, from, _) => (name, attributes, inner, *from),
        _ => {
            return Err(message_at_string("Element at ", element.from(), " must be a tagged value"));
        },
    };
    if read_heading_level(name.as_str()).is_some() {
        let (level, heading, index, inline) = match read_content_heading(
            name.as_str(),
            attributes,
            inner,
        ) {
            Ok(heading) => heading,
            Err(e) => {
                return Err(e);
            },
        };
        if level > *heading_level + 1 {
            proof {
                reveal_strlit("");
                assert(""@ =~= Seq::<char>::empty());
            }
            return Err(
                message_at_string("Heading level jumped by multiple levels at ", inner.from(), ""),
            );
        }
        *heading_level = level;
        if inline {
            append_inline_element(read_elements, ReadInlineElement::Heading(level, heading, index))
        } else {
            let ghost before = views(read_elements@);
            let pushed = ReadElement::Heading(level, index, heading);
            read_elements.push(pushed);
            assert(views(read_elements@) =~= before.push(pushed@));
            Ok(())
        }
    } else if text_is(name.as_str(), "P") {
        let paragraph = match read_content_text(inner) {
            Ok(paragraph) => paragraph,
            Err(e) => {
                return Err(e);
            },
        };
        let ghost before = views(read_elements@);
        read_elements.push(ReadElement::Paragraph(paragraph));
        assert(views(read_elements@) =~= before.push(ReadElementView::Paragraph(paragraph@)));
        Ok(())
    } else if text_is(name.as_str(), "@") {
        let link = match read_content_include(inner, at, document_key) {
            Ok(link) => link,
            Err(e) => {
                return Err(e);
            },
        };
        append_inline_element(read_elements, link)
    } else if text_is(name.as_str(), "I") {
        read_inline_section(read_elements, read_articles, inner, at, document_key)
    } else {
        let (link, read_article) = match read_content_declaration(
            name.as_str(),
            inner,
            at,
            document_key,
        ) {
            Ok(read) => read,
            Err(e) => {
                return Err(e);
            },
        };
        let ghost before = views(read_articles@);
        read_articles.push(read_article);
        assert(views(read_articles@) =~= before.push(read_article@));
        append_inline_element(read_elements, link)
    }
}

/// Reads the content of the document with the key `document_key`: its
/// structure, and the articles that it declares.
pub fn read_document_content(parsed_content: &Vec<Node>, document_key: &str) -> (r: Result<
    (Vec<ReadElement>, Vec<ReadArticle>),
    String,
>)
    ensures
        match document_content(
            node_views(parsed_content@),
            document_key@,
            parsed_content.len() as int,
        ) {
            Ok((content, _)) => r matches Ok(read) && views(read.0@) == content.elements && views(
                read.1@,
            ) == content.articles,
            Err(e) => r matches Err(message) && message@ == e,
        },
{
    let mut read_elements: Vec<ReadElement> = Vec::new();
    let mut read_articles: Vec<ReadArticle> = Vec::new();
    let mut heading_level: u8 = 1;
    let ghost all = node_views(parsed_content@);
    proof {
        lemma_node_views(parsed_content@);
        assert(views(read_elements@) =~= Seq::<ReadElementView>::empty());
        assert(views(read_articles@) =~= Seq::<ReadArticleView>::empty());
    }
    let mut i: usize = 0;
    while i < parsed_content.len()
        invariant
            i <= parsed_content.len(),
            all == node_views(parsed_content@),
            all.len() == parsed_content.len(),
            forall|k: int| 0 <= k < parsed_content.len() ==> #[trigger] all[k] == parsed_content[k]@,
            1 <= heading_level <= 6,
            document_content(all, document_key@, i as int) == Ok::<(ContentView, u8), Seq<char>>(
                (
                    ContentView {
                        elements: views(read_elements@),
                        articles: views(read_articles@),
                    },
                    heading_level,
                ),
            ),
        decreases parsed_content.len() - i,
    {
        match read_content_element(
            &mut read_elements,
            &mut read_articles,
            &mut heading_level,
            &parsed_content[i],
            document_key,
        ) {
            Ok(_) => {},
            Err(e) => {
                proof {
                    lemma_document_content_stay(all, document_key@, i + 1, all.len() as int);
                }
                return Err(e);
            },
        }
        i = i + 1;
    }
    Ok((read_elements, read_articles))
}

/// The resolution path that `value` must be a text of.
pub open spec fn resolution_path(value: NodeView) -> Result<Seq<char>, Seq<char>> {
    match value {
        NodeView::Text(path, _, _) => Ok(path),
        _ => Err("An element of Resolve must be text."@),
    }
}

/// For each of `values`, the resolution path that it must be.
pub open spec fn resolution_paths(values: Seq<NodeView>) -> Seq<Result<Seq<char>, Seq<char>>> {
    Seq::new(values.len(), |i: int| resolution_path(values[i]))
}

/// Reads the resolution paths of a document.
pub fn read_resolution_paths(parsed_paths: &Vec<Node>) -> (r: Result<Vec<String>, String>)
    ensures
        crate::read::article::texts_view(r) == collect(
            resolution_paths(node_views(parsed_paths@)),
        ),
{
    let ghost results = resolution_paths(node_views(parsed_paths@));
    proof {
        lemma_node_views(parsed_paths@);
    }
    let mut paths: Vec<String> = Vec::new();
    let mut i: usize = 0;
    while i < parsed_paths.len()
        invariant
            i <= parsed_paths.len(),
            results == resolution_paths(node_views(parsed_paths@)),
            results.len() == parsed_paths.len(),
            forall|k: int|
                0 <= k < parsed_paths.len() ==> #[trigger] results[k] == resolution_path(
                    parsed_paths[k]@,
                ),
            paths.len() == i,
            forall|k: int|
                0 <= k < i ==> #[trigger] results[k] == Ok::<Seq<char>, Seq<char>>(paths[k]@),
        decreases parsed_paths.len() - i,
    {
        match &parsed_paths[i] {
            Node::Text(path, _, _) => {
                paths.push(path.clone());
            },
            _ => {
                proof {
                    lemma_collect_err(results, i as int);
                }
                return Err(String::from_str("An element of Resolve must be text."));
            },
        }
        i = i + 1;
    }
    proof {
        lemma_collect_ok(results, views(paths@));
    }
    Ok(paths)
}

/// The text of the entry with the key `key` of `entries`, which must be
/// there and must be a text: the messages are those for an entry that is
/// no text and for an entry that is not there.
pub open spec fn required_text(
    entries: Seq<(Seq<char>, NodeView)>,
    key: Seq<char>,
    no_text: Seq<char>,
    missing: Seq<char>,
) -> Result<Seq<char>, Seq<char>> {
    match lookup(entries, key) {
        Some(NodeView::Text(text, _, _)) => Ok(text),
        Some(_) => Err(no_text),
        None => Err(missing),
    }
}

/// Reads the text of the entry with the key `key`, which must be there.
fn read_required_text(entries: &Vec<(String, Node)>, key: &str, no_text: &str, missing: &str) -> (r:
    Result<String, String>)
    ensures
        crate::text::text_view(r) == required_text(entry_views(entries@), key@, no_text@, missing@),
{
    match get(entries, key) {
        Some(Node::Text(text, _, _)) => Ok(text.clone()),
        Some(_) => Err(String::from_str(no_text)),
        None => Err(String::from_str(missing)),
    }
}

/// The document that the dictionary `entries` describes.
///
/// The entries `Key` and `Title` are texts and must be there. The entry
/// `Description` is a text, `Resolve` is a list of texts, the resolution
/// paths, and `Content` is a list, the content; each of the three may be
/// left out.
pub open spec fn document(entries: Seq<(Seq<char>, NodeView)>) -> Result<
    ReadDocumentView,
    Seq<char>,
> {
    let key = required_text(
        entries,
        "Key"@,
        "Key in document must be text."@,
        "Document must have a Key entry."@,
    );
    let title = required_text(
        entries,
        "Title"@,
        "Title in document must be text."@,
        "Document must have a Title entry."@,
    );
    let description: Result<Option<Seq<char>>, Seq<char>> = match lookup(entries, "Description"@) {
        Some(NodeView::Text(text, _, _)) => Ok(Some(text)),
        Some(_) => Err("Description in document must be text."@),
        None => Ok(None),
    };
    let paths = match lookup(entries, "Resolve"@) {
        Some(NodeView::List(values, _, _)) => collect(resolution_paths(values)),
        Some(_) => Err("The Resolve section must be a list."@),
        None => Ok(Seq::empty()),
    };
    if key is Err {
        Err(key->Err_0)
    } else if title is Err {
        Err(title->Err_0)
    } else if description is Err {
        Err(description->Err_0)
    } else if paths is Err {
        Err(paths->Err_0)
    } else {
        let content = match lookup(entries, "Content"@) {
            Some(NodeView::List(values, _, _)) => document_content(
                values,
                key->Ok_0,
                values.len() as int,
            ),
            Some(_) => Err("The Content section must be a list."@),
            None => Ok((ContentView { elements: Seq::empty(), articles: Seq::empty() }, 1u8)),
        };
        match content {
            Err(e) => Err(e),
            Ok((content, _)) => Ok(
                ReadDocumentView {
                    key: key->Ok_0,
                    title: title->Ok_0,
                    description: description->Ok_0,
                    preamble: None,
                    resolution_paths: paths->Ok_0,
                    read_elements: content.elements,
                    read_articles: content.articles,
                },
            ),
        }
    }
}

/// What a result that is a document or an error message holds.
pub open spec fn read_document_view(r: Result<ReadDocument, String>) -> Result<
    ReadDocumentView,
    Seq<char>,
> {
    match r {
        Ok(document) => Ok(document@),
        Err(e) => Err(e@),
    }
}

/// Reads the document that the dictionary `document` describes.
pub fn read_document(document: &Vec<(String, Node)>) -> (r: Result<ReadDocument, String>)
    ensures
        read_document_view(r) == self::document(entry_views(document@)),
{
    let key = match read_required_text(
        document,
        "Key",
        "Key in document must be text.",
        "Document must have a Key entry.",
    ) {
        Ok(key) => key,
        Err(e) => {
            return Err(e);
        },
    };
    let title = match read_required_text(
        document,
        "Title",
        "Title in document must be text.",
        "Document must have a Title entry.",
    ) {
        Ok(title) => title,
        Err(e) => {
            return Err(e);
        },
    };
    let description = match get(document, "Description") {
        Some(Node::Text(text, _, _)) => Some(text.clone()),
        Some(_) => {
            return Err(String::from_str("Description in document must be text."));
        },
        None => None,
    };
    let resolution_paths = match get(document, "Resolve") {
        Some(Node::List(values, _, _)) => match read_resolution_paths(values) {
            Ok(paths) => paths,
            Err(e) => {
                return Err(e);
            },
        },
        Some(_) => {
            return Err(String::from_str("The Resolve section must be a list."));
        },
        None => Vec::new(),
    };
    let (read_elements, read_articles) = match get(document, "Content") {
        Some(Node::List(values, _, _)) => match read_document_content(values, key.as_str()) {
            Ok(content) => content,
            Err(e) => {
                return Err(e);
            },
        },
        Some(_) => {
            return Err(String::from_str("The Content section must be a list."));
        },
        None => (Vec::new(), Vec::new()),
    };
    let read = ReadDocument {
        key,
        title,
        description,
        preamble: None,
        resolution_paths,
        read_elements,
        read_articles,
    };
    proof {
        let entries = entry_views(document@);
        if lookup(entries, "Resolve"@) is None {
            assert(views(read.resolution_paths@) =~= Seq::<Seq<char>>::empty());
        }
        if lookup(entries, "Content"@) is None {
            assert(views(read.read_elements@) =~= Seq::<ReadElementView>::empty());
            assert(views(read.read_articles@) =~= Seq::<ReadArticleView>::empty());
        }
    }
    Ok(read)
}

} // verus!
