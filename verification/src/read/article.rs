//! The records of the articles that a document declares.

use vstd::prelude::*;
use crate::key::declaration_key;
use crate::key::read_article_key_declaration;
use crate::key::DeclarationKey;
use crate::key::DeclarationKeyView;
use crate::read::content::content_text;
use crate::read::content::read_content_text;
use crate::read::tex::tex_text;
use crate::read::tex::write_tex;
use crate::read::node::entry_views;
use crate::read::node::lemma_entry_views;
use crate::read::node::lemma_node_views;
use crate::read::node::message_at;
use crate::read::node::message_at_string;
use crate::read::node::text_is;
use crate::read::node::node_views;
use crate::read::node::Position;
use crate::read::node::Node;
use crate::read::node::NodeView;
use crate::text::join3;
use crate::views::collect;
use crate::views::lemma_collect_err;
use crate::views::lemma_collect_ok;
use crate::views::views;

verus! {

/// An element of the content of an article.
pub enum ArticleElement {
    /// A heading, with its level.
    Heading(u8, String),
    /// A paragraph of text.
    Paragraph(String),
    /// Markup that is taken as it stands.
    Html(String),
}

/// What an `ArticleElement` holds.
pub ghost enum ArticleElementView {
    Heading(u8, Seq<char>),
    Paragraph(Seq<char>),
    Html(Seq<char>),
}

impl View for ArticleElement {
    type V = ArticleElementView;

    open spec fn view(&self) -> ArticleElementView {
        match self {
            ArticleElement::Heading(level, text) => ArticleElementView::Heading(*level, text@),
            ArticleElement::Paragraph(text) => ArticleElementView::Paragraph(text@),
            ArticleElement::Html(text) => ArticleElementView::Html(text@),
        }
    }
}

impl Clone for ArticleElement {
    fn clone(&self) -> (copy: Self)
        ensures
            copy@ == self@,
    {
        match self {
            ArticleElement::Heading(level, text) => ArticleElement::Heading(*level, text.clone()),
            ArticleElement::Paragraph(text) => ArticleElement::Paragraph(text.clone()),
            ArticleElement::Html(text) => ArticleElement::Html(text.clone()),
        }
    }
}

/// The links that an article declares: for each key of a link type, the
/// keys of the classes that the links of the type go to.
pub open spec fn link_views(links: Seq<(String, Vec<String>)>) -> Seq<(Seq<char>, Seq<Seq<char>>)> {
    Seq::new(links.len(), |i: int| (links[i].0@, views(links[i].1@)))
}

/// An article as a document declares it.
pub struct ReadArticle {
    /// The key of the article type.
    pub type_key: String,
    /// The key of the class that the article is a variant of.
    pub class_key: String,
    /// The key of the article.
    pub article_key: String,
    /// The names of the article; the first is the primary one.
    pub names: Vec<String>,
    pub content: Vec<ArticleElement>,
    /// For each key of a link type, the keys of the classes that the class
    /// of the article links to.
    pub links: Vec<(String, Vec<String>)>,
}

/// What a `ReadArticle` holds.
pub ghost struct ReadArticleView {
    pub type_key: Seq<char>,
    pub class_key: Seq<char>,
    pub article_key: Seq<char>,
    pub names: Seq<Seq<char>>,
    pub content: Seq<ArticleElementView>,
    pub links: Seq<(Seq<char>, Seq<Seq<char>>)>,
}

impl View for ReadArticle {
    type V = ReadArticleView;

    open spec fn view(&self) -> ReadArticleView {
        ReadArticleView {
            type_key: self.type_key@,
            class_key: self.class_key@,
            article_key: self.article_key@,
            names: views(self.names@),
            content: views(self.content@),
            links: link_views(self.links@),
        }
    }
}

/// A copy of the elements `content`.
pub fn clone_content(content: &Vec<ArticleElement>) -> (copy: Vec<ArticleElement>)
    ensures
        views(copy@) == views(content@),
{
    let mut copy: Vec<ArticleElement> = Vec::new();
    let mut i: usize = 0;
    while i < content.len()
        invariant
            i <= content.len(),
            copy.len() == i,
            forall|j: int| 0 <= j < i ==> copy[j]@ == content[j]@,
        decreases content.len() - i,
    {
        copy.push(content[i].clone());
        i = i + 1;
    }
    assert(views(copy@) =~= views(content@));
    copy
}

/// The key of a linked class that `value` must be a text of.
pub open spec fn linked_class(value: NodeView, at: Position) -> Result<Seq<char>, Seq<char>> {
    match value {
        NodeView::Text(key, _, _) => Ok(key),
        _ => Err(message_at("Linked class must be a text in article at "@, at, "."@)),
    }
}

/// For each of `values`, the key of a linked class that it must be.
pub open spec fn linked_classes(values: Seq<NodeView>, at: Position) -> Seq<
    Result<Seq<char>, Seq<char>>,
> {
    Seq::new(values.len(), |i: int| linked_class(values[i], at))
}

/// The group of links that `entry` declares: the key of the link type, and
/// the keys of the linked classes, of which the value must be a list.
pub open spec fn link_group(entry: (Seq<char>, NodeView), at: Position) -> Result<
    (Seq<char>, Seq<Seq<char>>),
    Seq<char>,
> {
    match entry.1 {
        NodeView::List(values, _, _) => match collect(linked_classes(values, at)) {
            Ok(keys) => Ok((entry.0, keys)),
            Err(e) => Err(e),
        },
        _ => Err(message_at("Linked classes must be a list in article at "@, at, "."@)),
    }
}

/// For each of `entries`, the group of links that it declares.
pub open spec fn link_groups_of(entries: Seq<(Seq<char>, NodeView)>, at: Position) -> Seq<
    Result<(Seq<char>, Seq<Seq<char>>), Seq<char>>,
> {
    Seq::new(entries.len(), |i: int| link_group(entries[i], at))
}

/// What a result that is a list of texts or an error message holds.
pub open spec fn texts_view(r: Result<Vec<String>, String>) -> Result<Seq<Seq<char>>, Seq<char>> {
    match r {
        Ok(texts) => Ok(views(texts@)),
        Err(e) => Err(e@),
    }
}

/// What a result that is the links of an article or an error message holds.
pub open spec fn links_view(r: Result<Vec<(String, Vec<String>)>, String>) -> Result<
    Seq<(Seq<char>, Seq<Seq<char>>)>,
    Seq<char>,
> {
    match r {
        Ok(links) => Ok(link_views(links@)),
        Err(e) => Err(e@),
    }
}

/// Reads the keys of the classes that the values `values` name.
fn read_linked_classes(values: &Vec<Node>, at: Position) -> (r: Result<Vec<String>, String>)
    ensures
        texts_view(r) == collect(linked_classes(node_views(values@), at)),
{
    let ghost results = linked_classes(node_views(values@), at);
    proof {
        lemma_node_views(values@);
    }
    let mut keys: Vec<String> = Vec::new();
    let mut i: usize = 0;
    while i < values.len()
        invariant
            i <= values.len(),
            results == linked_classes(node_views(values@), at),
            results.len() == values.len(),
            forall|k: int| 0 <= k < values.len() ==> #[trigger] results[k] == linked_class(values[k]@, at),
            keys.len() == i,
            forall|k: int| 0 <= k < i ==> #[trigger] results[k] == Ok::<Seq<char>, Seq<char>>(keys[k]@),
        decreases values.len() - i,
    {
        match &values[i] {
            Node::Text(key, _, _) => {
                keys.push(key.clone());
            },
            _ => {
                proof {
                    lemma_collect_err(results, i as int);
                }
                return Err(message_at_string("Linked class must be a text in article at ", at, "."));
            },
        }
        i = i + 1;
    }
    proof {
        lemma_collect_ok(results, views(keys@));
    }
    Ok(keys)
}

/// Reads the links that the dictionary `parsed_links` declares for an
/// article that stands at `at`: for each key of a link type, in the order
/// of the entries, the keys of the linked classes.
pub fn read_links(parsed_links: &Vec<(String, Node)>, at: Position) -> (r: Result<
    Vec<(String, Vec<String>)>,
    String,
>)
    ensures
        links_view(r) == collect(link_groups_of(entry_views(parsed_links@), at)),
{
    let ghost results = link_groups_of(entry_views(parsed_links@), at);
    proof {
        lemma_entry_views(parsed_links@);
    }
    let mut links: Vec<(String, Vec<String>)> = Vec::new();
    let mut i: usize = 0;
    while i < parsed_links.len()
        invariant
            i <= parsed_links.len(),
            results == link_groups_of(entry_views(parsed_links@), at),
            results.len() == parsed_links.len(),
            forall|k: int|
                0 <= k < parsed_links.len() ==> #[trigger] results[k] == link_group(
                    (parsed_links[k].0@, parsed_links[k].1@),
                    at,
                ),
            links.len() == i,
            forall|k: int|
                0 <= k < i ==> #[trigger] results[k] == Ok::<
                    (Seq<char>, Seq<Seq<char>>),
                    Seq<char>,
                >((links[k].0@, views(links[k].1@))),
        decreases parsed_links.len() - i,
    {
        match &parsed_links[i].1 {
            Node::List(values, _, _) => {
                match read_linked_classes(values, at) {
                    Ok(keys) => {
                        links.push((parsed_links[i].0.clone(), keys));
                    },
                    Err(e) => {
                        proof {
                            lemma_collect_err(results, i as int);
                        }
                        return Err(e);
                    },
                }
            },
            _ => {
                proof {
                    lemma_collect_err(results, i as int);
                }
                return Err(
                    message_at_string("Linked classes must be a list in article at ", at, "."),
                );
            },
        }
        i = i + 1;
    }
    proof {
        lemma_collect_ok(results, link_views(links@));
    }
    Ok(links)
}

/// For each of `values`, its markup as content text.
pub open spec fn content_texts(values: Seq<NodeView>) -> Seq<Result<Seq<char>, Seq<char>>> {
    Seq::new(values.len(), |i: int| content_text(values[i]))
}

/// The names that `argument` declares: the markup of each value of a list,
/// or the markup of a value that is no list as the only name.
pub open spec fn declaration_names(argument: NodeView) -> Result<Seq<Seq<char>>, Seq<char>> {
    match argument {
        NodeView::List(values, _, _) => collect(content_texts(values)),
        _ => match content_text(argument) {
            Ok(name) => Ok(seq![name]),
            Err(e) => Err(e),
        },
    }
}

/// Reads the names that `argument` declares.
pub fn read_declaration_names(argument: &Node) -> (r: Result<Vec<String>, String>)
    ensures
        texts_view(r) == declaration_names(argument@),
{
    let mut names: Vec<String> = Vec::new();
    match argument {
        Node::List(values, _, _) => {
            let ghost results = content_texts(node_views(values@));
            proof {
                lemma_node_views(values@);
            }
            let mut i: usize = 0;
            while i < values.len()
                invariant
                    i <= values.len(),
                    argument@ matches NodeView::List(all, _, _) && all == node_views(values@),
                    results == content_texts(node_views(values@)),
                    results.len() == values.len(),
                    forall|k: int|
                        0 <= k < values.len() ==> #[trigger] results[k] == content_text(values[k]@),
                    names.len() == i,
                    forall|k: int|
                        0 <= k < i ==> #[trigger] results[k] == Ok::<Seq<char>, Seq<char>>(
                            names[k]@,
                        ),
                decreases values.len() - i,
            {
                match read_content_text(&values[i]) {
                    Ok(name) => {
                        names.push(name);
                    },
                    Err(e) => {
                        proof {
                            lemma_collect_err(results, i as int);
                        }
                        return Err(e);
                    },
                }
                i = i + 1;
            }
            proof {
                lemma_collect_ok(results, views(names@));
            }
            Ok(names)
        },
        _ => {
            match read_content_text(argument) {
                Ok(name) => {
                    names.push(name);
                    assert(views(names@) =~= seq![name@]);
                    Ok(names)
                },
                Err(e) => Err(e),
            }
        },
    }
}

/// The level of the heading that the tag with the name `name` makes in an
/// article, from two to six.
pub open spec fn article_heading_level(name: Seq<char>) -> Option<u8> {
    if name == "H2"@ {
        Some(2u8)
    } else if name == "H3"@ {
        Some(3u8)
    } else if name == "H4"@ {
        Some(4u8)
    } else if name == "H5"@ {
        Some(5u8)
    } else if name == "H6"@ {
        Some(6u8)
    } else {
        None
    }
}

/// The element of the content of an article that `value` stands for, in a
/// list of content that stands at `at`.
///
/// A value without a tag is taken as the markup of a paragraph. Of the
/// tags, `H2` to `H6` make headings, `P` makes a paragraph, and `$$` makes
/// a paragraph of displayed mathematics. A heading of the first level is
/// not allowed in an article.
pub open spec fn content_element(value: NodeView, at: Position) -> Result<
    ArticleElementView,
    Seq<char>,
> {
    match value {
        NodeView::Tagged(name, _, inner, from, _) => {
            if name == "H1"@ {
                Err(message_at("H1 heading not allowed in article at "@, at, "."@))
            } else if article_heading_level(name) is Some {
                match content_text(*inner) {
                    Ok(text) => Ok(
                        ArticleElementView::Heading(article_heading_level(name)->0, text),
                    ),
                    Err(e) => Err(e),
                }
            } else if name == "P"@ {
                match content_text(*inner) {
                    Ok(text) => Ok(ArticleElementView::Paragraph(text)),
                    Err(e) => Err(e),
                }
            } else if name == "$$"@ {
                match tex_text(*inner) {
                    Ok(tex) => Ok(ArticleElementView::Paragraph("\\["@ + tex + "\\]"@)),
                    Err(e) => Err(e),
                }
            } else {
                Err(
                    message_at(
                        "Element of article content list at "@,
                        from,
                        " must be a heading or paragraph."@,
                    ),
                )
            }
        },
        _ => match content_text(value) {
            Ok(text) => Ok(ArticleElementView::Html("<p>"@ + text + "</p>"@)),
            Err(e) => Err(e),
        },
    }
}

/// For each of `values`, the element of content that it stands for.
pub open spec fn content_elements(values: Seq<NodeView>, at: Position) -> Seq<
    Result<ArticleElementView, Seq<char>>,
> {
    Seq::new(values.len(), |i: int| content_element(values[i], at))
}

/// The content of an article that `input` stands for: the elements of a
/// list, or a value that is no list as a single paragraph.
pub open spec fn article_content(input: NodeView) -> Result<Seq<ArticleElementView>, Seq<char>> {
    match input {
        NodeView::List(values, from, _) => collect(content_elements(values, from)),
        _ => match content_text(input) {
            Ok(text) => Ok(seq![ArticleElementView::Paragraph(text)]),
            Err(e) => Err(e),
        },
    }
}

/// What a result that is an element of content or an error message holds.
pub open spec fn element_view(r: Result<ArticleElement, String>) -> Result<
    ArticleElementView,
    Seq<char>,
> {
    match r {
        Ok(element) => Ok(element@),
        Err(e) => Err(e@),
    }
}

/// What a result that is the content of an article or an error message
/// holds.
pub open spec fn content_view(r: Result<Vec<ArticleElement>, String>) -> Result<
    Seq<ArticleElementView>,
    Seq<char>,
> {
    match r {
        Ok(content) => Ok(views(content@)),
        Err(e) => Err(e@),
    }
}

/// The level of the heading that the tag with the name `name` makes in an
/// article.
fn read_article_heading_level(name: &str) -> (level: Option<u8>)
    ensures
        level == article_heading_level(name@),
{
    if text_is(name, "H2") {
        Some(2)
    } else if text_is(name, "H3") {
        Some(3)
    } else if text_is(name, "H4") {
        Some(4)
    } else if text_is(name, "H5") {
        Some(5)
    } else if text_is(name, "H6") {
        Some(6)
    } else {
        None
    }
}

/// Reads the element of the content of an article that `value` stands for,
/// in a list of content that stands at `at`.
fn read_content_element(value: &Node, at: Position) -> (r: Result<ArticleElement, String>)
    ensures
        element_view(r) == content_element(value@, at),
{
    match value {
        Node::Tagged(name, _, inner, from, _) => {
            if text_is(name.as_str(), "H1") {
                return Err(message_at_string("H1 heading not allowed in article at ", at, "."));
            }
            match read_article_heading_level(name.as_str()) {
                Some(level) => {
                    return match read_content_text(inner) {
                        Ok(text) => Ok(ArticleElement::Heading(level, text)),
                        Err(e) => Err(e),
                    };
                },
                None => {},
            }
            if text_is(name.as_str(), "P") {
                match read_content_text(inner) {
                    Ok(text) => Ok(ArticleElement::Paragraph(text)),
                    Err(e) => Err(e),
                }
            } else if text_is(name.as_str(), "$$") {
                match write_tex(inner) {
                    Ok(tex) => Ok(ArticleElement::Paragraph(join3("\\[", tex.as_str(), "\\]"))),
                    Err(e) => Err(e),
                }
            } else {
                Err(
                    message_at_string(
                        "Element of article content list at ",
                        *from,
                        " must be a heading or paragraph.",
                    ),
                )
            }
        },
        _ => match read_content_text(value) {
            Ok(text) => Ok(ArticleElement::Html(join3("<p>", text.as_str(), "</p>"))),
            Err(e) => Err(e),
        },
    }
}

/// Reads the content of an article.
pub fn read_article_content(input: &Node) -> (r: Result<Vec<ArticleElement>, String>)
    ensures
        content_view(r) == article_content(input@),
{
    let mut content: Vec<ArticleElement> = Vec::new();
    match input {
        Node::List(values, from, _) => {
            let ghost results = content_elements(node_views(values@), *from);
            proof {
                lemma_node_views(values@);
            }
            let mut i: usize = 0;
            while i < values.len()
                invariant
                    i <= values.len(),
                    input@ matches NodeView::List(all, at, _) && all == node_views(values@)
                        && at == *from,
                    results == content_elements(node_views(values@), *from),
                    results.len() == values.len(),
                    forall|k: int|
                        0 <= k < values.len() ==> #[trigger] results[k] == content_element(
                            values[k]@,
                            *from,
                        ),
                    content.len() == i,
                    forall|k: int|
                        0 <= k < i ==> #[trigger] results[k] == Ok::<
                            ArticleElementView,
                            Seq<char>,
                        >(content[k]@),
                decreases values.len() - i,
            {
                match read_content_element(&values[i], *from) {
                    Ok(element) => {
                        content.push(element);
                    },
                    Err(e) => {
                        proof {
                            lemma_collect_err(results, i as int);
                        }
                        return Err(e);
                    },
                }
                i = i + 1;
            }
            proof {
                lemma_collect_ok(results, views(content@));
            }
            Ok(content)
        },
        _ => {
            match read_content_text(input) {
                Ok(text) => {
                    content.push(ArticleElement::Paragraph(text));
                    assert(views(content@) =~= seq![ArticleElementView::Paragraph(text@)]);
                    Ok(content)
                },
                Err(e) => Err(e),
            }
        },
    }
}

/// The values that `value` stands for where a tuple is expected: those of
/// a tuple, and any other value alone.
pub open spec fn as_tuple(value: NodeView) -> Seq<NodeView> {
    match value {
        NodeView::Tuple(values, _, _) => values,
        _ => seq![value],
    }
}

/// What the values `values` hold, in order.
pub open spec fn reference_views(values: Seq<&Node>) -> Seq<NodeView> {
    Seq::new(values.len(), |i: int| values[i]@)
}

/// The values that `value` stands for where a tuple is expected.
pub fn arguments_of(value: &Node) -> (arguments: Vec<&Node>)
    ensures
        reference_views(arguments@) == as_tuple(value@),
{
    let mut arguments: Vec<&Node> = Vec::new();
    match value {
        Node::Tuple(values, _, _) => {
            proof {
                lemma_node_views(values@);
            }
            let mut i: usize = 0;
            while i < values.len()
                invariant
                    i <= values.len(),
                    arguments.len() == i,
                    forall|k: int| 0 <= k < i ==> (#[trigger] arguments[k])@ == values[k]@,
                decreases values.len() - i,
            {
                arguments.push(&values[i]);
                i = i + 1;
            }
            assert(reference_views(arguments@) =~= node_views(values@));
        },
        _ => {
            arguments.push(value);
            assert(reference_views(arguments@) =~= seq![value@]);
        },
    }
    arguments
}

/// Takes the first item from `vec`, if there is one.
pub fn remove_first<T>(vec: &mut Vec<T>) -> (first: Option<T>)
    ensures
        match first {
            Some(item) => old(vec)@.len() > 0 && item == old(vec)@[0] && final(vec)@ == old(
                vec,
            )@.drop_first(),
            None => old(vec)@.len() == 0 && final(vec)@ == old(vec)@,
        },
{
    if vec.len() > 0 {
        let item = vec.remove(0);
        assert(vec@ =~= old(vec)@.drop_first());
        Some(item)
    } else {
        None
    }
}

/// The key of the class and the key of the article of a declaration with
/// the key `key` in the document with the key `document_key`.
///
/// The suffix of the article is the key of the document. A key of a class
/// names the class, and the article is the variant of the document; with a
/// local key beside it, the local key names the article; a local key alone
/// names both.
pub open spec fn declared_keys(key: DeclarationKeyView, document_key: Seq<char>) -> (
    Seq<char>,
    Seq<char>,
) {
    match key {
        DeclarationKeyView::Class(class) => (class, class + "@"@ + document_key),
        DeclarationKeyView::ClassAndLocal(class, local) => (class, local + "@"@ + document_key),
        DeclarationKeyView::Local(local) => (
            local + "@"@ + document_key,
            local + "@"@ + document_key,
        ),
    }
}

/// The declaration of an article that the value `value` under the tag
/// `name` makes, in the document with the key `document_key`; `at` is the
/// place of the tag.
///
/// The tag names the article type. The arguments are, in order: a
/// dictionary of links, which may be left out; the key of the declaration;
/// the names; and the content, which may be left out.
pub open spec fn article_declaration(
    name: Seq<char>,
    value: NodeView,
    at: Position,
    document_key: Seq<char>,
) -> Result<ReadArticleView, Seq<char>> {
    let all = as_tuple(value);
    let with_links = all.len() > 0 && all[0] is Dictionary;
    let rest = if with_links {
        all.drop_first()
    } else {
        all
    };
    let links = if with_links {
        collect(link_groups_of(all[0]->Dictionary_0, at))
    } else {
        Ok(Seq::empty())
    };
    if links is Err {
        Err(links->Err_0)
    } else if rest.len() == 0 {
        Err(message_at("Expected first argument of key in article at "@, at, "."@))
    } else if !(rest[0] is Text) {
        Err(message_at("Key in article at "@, at, " must be text."@))
    } else if declaration_key(rest[0]->Text_0) is Err {
        Err(declaration_key(rest[0]->Text_0)->Err_0)
    } else if rest.len() == 1 {
        Err(message_at("Expected second argument of names in article at "@, at, "."@))
    } else if declaration_names(rest[1]) is Err {
        Err(declaration_names(rest[1])->Err_0)
    } else if rest.len() >= 3 && article_content(rest[2]) is Err {
        Err(article_content(rest[2])->Err_0)
    } else if rest.len() > 3 {
        Err(message_at("More arguments than expected in article at "@, at, "."@))
    } else {
        let keys = declared_keys(declaration_key(rest[0]->Text_0)->Ok_0, document_key);
        Ok(
            ReadArticleView {
                type_key: name,
                class_key: keys.0,
                article_key: keys.1,
                names: declaration_names(rest[1])->Ok_0,
                content: if rest.len() >= 3 {
                    article_content(rest[2])->Ok_0
                } else {
                    Seq::empty()
                },
                links: links->Ok_0,
            },
        )
    }
}

/// What a result that is a declaration or an error message holds.
pub open spec fn declared_view(r: Result<ReadArticle, String>) -> Result<ReadArticleView, Seq<char>> {
    match r {
        Ok(article) => Ok(article@),
        Err(e) => Err(e@),
    }
}

/// Reads the declaration of an article that the value `value` under the
/// tag `name` makes, in the document with the key `document_key`; `at` is
/// the place of the tag.
pub fn read_article_declaration(name: &str, value: &Node, at: Position, document_key: &str) -> (r:
    Result<ReadArticle, String>)
    ensures
        declared_view(r) == article_declaration(name@, value@, at, document_key@),
{
    let mut arguments = arguments_of(value);
    let ghost all = as_tuple(value@);
    let with_links = arguments.len() > 0 && match arguments[0] {
        Node::Dictionary(_, _, _) => true,
        _ => false,
    };
    assert(arguments.len() > 0 ==> arguments[0]@ == all[0]);
    let links = if with_links {
        match remove_first(&mut arguments) {
            Some(Node::Dictionary(entries, _, _)) => match read_links(entries, at) {
                Ok(links) => links,
                Err(e) => {
                    return Err(e);
                },
            },
            _ => {
                assert(false);
                Vec::new()
            },
        }
    } else {
        Vec::new()
    };
    let ghost rest = reference_views(arguments@);
    assert(rest =~= if with_links {
        all.drop_first()
    } else {
        all
    });
    assert(!with_links ==> link_views(links@) =~= Seq::empty());
    let key = match remove_first(&mut arguments) {
        Some(Node::Text(key, _, _)) => {
            assert(rest[0] is Text && rest[0]->Text_0 == key@);
            key
        },
        Some(_) => {
            assert(!(rest[0] is Text));
            return Err(message_at_string("Key in article at ", at, " must be text."));
        },
        None => {
            return Err(
                message_at_string("Expected first argument of key in article at ", at, "."),
            );
        },
    };
    let (class_key, article_key) = match read_article_key_declaration(key.as_str()) {
        Ok(DeclarationKey::Class(class)) => {
            let article = join3(class.as_str(), "@", document_key);
            (class, article)
        },
        Ok(DeclarationKey::ClassAndLocal(class, local)) => {
            let article = join3(local.as_str(), "@", document_key);
            (class, article)
        },
        Ok(DeclarationKey::Local(local)) => {
            let article = join3(local.as_str(), "@", document_key);
            (article.clone(), article)
        },
        Err(e) => {
            return Err(e);
        },
    };
    assert(reference_views(arguments@) =~= rest.drop_first());
    let names = match remove_first(&mut arguments) {
        Some(names) => {
            assert(names@ == rest[1]);
            match read_declaration_names(names) {
                Ok(names) => names,
                Err(e) => {
                    return Err(e);
                },
            }
        },
        None => {
            return Err(
                message_at_string("Expected second argument of names in article at ", at, "."),
            );
        },
    };
    assert(reference_views(arguments@) =~= rest.drop_first().drop_first());
    let content = match remove_first(&mut arguments) {
        Some(content) => {
            assert(content@ == rest[2]);
            match read_article_content(content) {
                Ok(content) => content,
                Err(e) => {
                    return Err(e);
                },
            }
        },
        None => Vec::new(),
    };
    if arguments.len() != 0 {
        return Err(message_at_string("More arguments than expected in article at ", at, "."));
    }
    assert(rest.len() < 3 ==> views(content@) =~= Seq::empty());
    Ok(ReadArticle { type_key: String::from_str(name), class_key, article_key, names, content, links })
}

} // verus!
