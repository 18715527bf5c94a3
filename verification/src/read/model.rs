//! The records of the article and link types that a model file declares.

use vstd::prelude::*;
use crate::read::node::entry_views;
use crate::read::node::get;
use crate::read::node::lemma_entry_views;
use crate::read::node::lookup;
use crate::read::node::position_string;
use crate::read::node::position_text;
use crate::read::node::text_is;
use crate::read::node::Position;
use crate::read::node::Node;
use crate::read::node::NodeView;
use crate::text::join3;
use crate::text::text_view;
use crate::views::collect;
use crate::views::lemma_collect_err;
use crate::views::lemma_collect_ok;
use crate::views::option_view;
use crate::views::views;

verus! {

/// A link type as a model file declares it.
pub struct ReadLinkType {
    pub key: String,
    pub origin_name: String,
    pub origin_description: String,
    pub target_name: String,
    pub target_description: String,
    pub target_show: bool,
}

/// What a `ReadLinkType` holds.
pub ghost struct ReadLinkTypeView {
    pub key: Seq<char>,
    pub origin_name: Seq<char>,
    pub origin_description: Seq<char>,
    pub target_name: Seq<char>,
    pub target_description: Seq<char>,
    pub target_show: bool,
}

impl View for ReadLinkType {
    type V = ReadLinkTypeView;

    open spec fn view(&self) -> ReadLinkTypeView {
        ReadLinkTypeView {
            key: self.key@,
            origin_name: self.origin_name@,
            origin_description: self.origin_description@,
            target_name: self.target_name@,
            target_description: self.target_description@,
            target_show: self.target_show,
        }
    }
}

/// An article type as a model file declares it.
pub struct ReadArticleType {
    pub key: String,
    pub name: String,
    pub description: Option<String>,
    pub abbreviation: Option<String>,
    pub colour: String,
    pub links: Vec<ReadLinkType>,
}

/// What a `ReadArticleType` holds.
pub ghost struct ReadArticleTypeView {
    pub key: Seq<char>,
    pub name: Seq<char>,
    pub description: Option<Seq<char>>,
    pub abbreviation: Option<Seq<char>>,
    pub colour: Seq<char>,
    pub links: Seq<ReadLinkTypeView>,
}

impl View for ReadArticleType {
    type V = ReadArticleTypeView;

    open spec fn view(&self) -> ReadArticleTypeView {
        ReadArticleTypeView {
            key: self.key@,
            name: self.name@,
            description: option_view(self.description),
            abbreviation: option_view(self.abbreviation),
            colour: self.colour@,
            links: views(self.links@),
        }
    }
}

/// The keys of the link types `links`, in order.
pub open spec fn read_link_keys(links: Seq<ReadLinkTypeView>) -> Seq<Seq<char>> {
    Seq::new(links.len(), |j: int| links[j].key)
}

/// The keys of the article types `types`, in order.
pub open spec fn read_type_keys(types: Seq<ReadArticleTypeView>) -> Seq<Seq<char>> {
    Seq::new(types.len(), |i: int| types[i].key)
}

/// The text of the entry with the key `key` of `entries`, which must be
/// there and must be a text.
pub open spec fn text_value(entries: Seq<(Seq<char>, NodeView)>, key: Seq<char>) -> Result<
    Seq<char>,
    Seq<char>,
> {
    match lookup(entries, key) {
        Some(NodeView::Text(text, _, _)) => Ok(text),
        Some(_) => Err("Entry "@ + key + " is not text."@),
        None => Err("Entry "@ + key + " not found."@),
    }
}

/// Reads the text of the entry with the key `key` of the dictionary
/// `dictionary`, which must be there and must be a text.
pub fn read_text_value_or_err(dictionary: &Vec<(String, Node)>, key: &str) -> (r: Result<
    String,
    String,
>)
    ensures
        text_view(r) == text_value(entry_views(dictionary@), key@),
{
    match get(dictionary, key) {
        Some(Node::Text(text, _, _)) => Ok(text.clone()),
        Some(_) => Err(join3("Entry ", key, " is not text.")),
        None => Err(join3("Entry ", key, " not found.")),
    }
}

/// The link type that the entry `entry` of the links of an article type
/// declares: its key is the key of the entry, and its value is a dictionary
/// of the texts `OriginName`, `OriginDescription`, `TargetName`,
/// `TargetDescription` and `TargetShow`, which is `True` or `False`.
pub open spec fn link_type_of(entry: (Seq<char>, NodeView)) -> Result<ReadLinkTypeView, Seq<char>> {
    match entry.1 {
        NodeView::Dictionary(fields, _, _) => {
            let origin_name = text_value(fields, "OriginName"@);
            let origin_description = text_value(fields, "OriginDescription"@);
            let target_name = text_value(fields, "TargetName"@);
            let target_description = text_value(fields, "TargetDescription"@);
            let target_show = text_value(fields, "TargetShow"@);
            if origin_name is Err {
                Err(origin_name->Err_0)
            } else if origin_description is Err {
                Err(origin_description->Err_0)
            } else if target_name is Err {
                Err(target_name->Err_0)
            } else if target_description is Err {
                Err(target_description->Err_0)
            } else if target_show is Err {
                Err(target_show->Err_0)
            } else if target_show->Ok_0 != "True"@ && target_show->Ok_0 != "False"@ {
                Err("Invalid TargetShow value: "@ + target_show->Ok_0 + "."@)
            } else {
                Ok(
                    ReadLinkTypeView {
                        key: entry.0,
                        origin_name: origin_name->Ok_0,
                        origin_description: origin_description->Ok_0,
                        target_name: target_name->Ok_0,
                        target_description: target_description->Ok_0,
                        target_show: target_show->Ok_0 == "True"@,
                    },
                )
            }
        },
        _ => Err("Error: Links value must be a dictionary."@),
    }
}

/// For each of `entries`, the link type that it declares.
pub open spec fn link_types_of(entries: Seq<(Seq<char>, NodeView)>) -> Seq<
    Result<ReadLinkTypeView, Seq<char>>,
> {
    Seq::new(entries.len(), |i: int| link_type_of(entries[i]))
}

/// What a result that is a link type or an error message holds.
pub open spec fn link_type_view(r: Result<ReadLinkType, String>) -> Result<
    ReadLinkTypeView,
    Seq<char>,
> {
    match r {
        Ok(link) => Ok(link@),
        Err(e) => Err(e@),
    }
}

/// What a result that is a list of link types or an error message holds.
pub open spec fn link_types_view(r: Result<Vec<ReadLinkType>, String>) -> Result<
    Seq<ReadLinkTypeView>,
    Seq<char>,
> {
    match r {
        Ok(links) => Ok(views(links@)),
        Err(e) => Err(e@),
    }
}

/// Reads the link type that the entry with the key `key` and the value
/// `value` declares.
fn read_link(key: &String, value: &Node) -> (r: Result<ReadLinkType, String>)
    ensures
        link_type_view(r) == link_type_of((key@, value@)),
{
    let fields = match value {
        Node::Dictionary(fields, _, _) => fields,
        _ => {
            return Err(String::from_str("Error: Links value must be a dictionary."));
        },
    };
    let origin_name = match read_text_value_or_err(fields, "OriginName") {
        Ok(text) => text,
        Err(e) => {
            return Err(e);
        },
    };
    let origin_description = match read_text_value_or_err(fields, "OriginDescription") {
        Ok(text) => text,
        Err(e) => {
            return Err(e);
        },
    };
    let target_name = match read_text_value_or_err(fields, "TargetName") {
        Ok(text) => text,
        Err(e) => {
            return Err(e);
        },
    };
    let target_description = match read_text_value_or_err(fields, "TargetDescription") {
        Ok(text) => text,
        Err(e) => {
            return Err(e);
        },
    };
    let shown = match read_text_value_or_err(fields, "TargetShow") {
        Ok(text) => text,
        Err(e) => {
            return Err(e);
        },
    };
    let target_show = if text_is(shown.as_str(), "True") {
        true
    } else if text_is(shown.as_str(), "False") {
        false
    } else {
        return Err(join3("Invalid TargetShow value: ", shown.as_str(), "."));
    };
    proof {
        reveal_strlit("True");
        reveal_strlit("False");
        assert("True"@.len() != "False"@.len());
    }
    Ok(
        ReadLinkType {
            key: key.clone(),
            origin_name,
            origin_description,
            target_name,
            target_description,
            target_show,
        },
    )
}

/// Reads the link types that the dictionary `links` declares, in the order
/// of its entries.
pub fn read_links(links: &Vec<(String, Node)>) -> (r: Result<Vec<ReadLinkType>, String>)
    ensures
        link_types_view(r) == collect(link_types_of(entry_views(links@))),
{
    let ghost results = link_types_of(entry_views(links@));
    proof {
        lemma_entry_views(links@);
    }
    let mut link_types: Vec<ReadLinkType> = Vec::new();
    let mut i: usize = 0;
    while i < links.len()
        invariant
            i <= links.len(),
            results == link_types_of(entry_views(links@)),
            results.len() == links.len(),
            forall|k: int|
                0 <= k < links.len() ==> #[trigger] results[k] == link_type_of(
                    (links[k].0@, links[k].1@),
                ),
            link_types.len() == i,
            forall|k: int|
                0 <= k < i ==> #[trigger] results[k] == Ok::<ReadLinkTypeView, Seq<char>>(
                    link_types[k]@,
                ),
        decreases links.len() - i,
    {
        match read_link(&links[i].0, &links[i].1) {
            Ok(link) => {
                link_types.push(link);
            },
            Err(e) => {
                proof {
                    lemma_collect_err(results, i as int);
                }
                return Err(e);
            },
        }
        i = i + 1;
    }
    proof {
        lemma_collect_ok(results, views(link_types@));
    }
    Ok(link_types)
}

/// The message that starts with `before`, names the type with the key
/// `type_key` and the place `at`, and ends with `after`.
pub open spec fn type_message(before: Seq<char>, type_key: Seq<char>, at: Position, after: Seq<char>) -> Seq<
    char,
> {
    before + type_key + " at "@ + position_text(at) + after
}

/// The message that starts with `before`, names the type with the key
/// `type_key` and the place `at`, and ends with `after`.
fn type_message_string(before: &str, type_key: &str, at: Position, after: &str) -> (text: String)
    ensures
        text@ == type_message(before@, type_key@, at, after@),
{
    let place = position_string(at);
    let mut text = join3(before, type_key, " at ");
    text.append(place.as_str());
    text.append(after);
    text
}

/// The text of the entry `key` of the article type `type_key`, which must
/// be a text where it is there; `name` is the name of the entry in the
/// messages.
pub open spec fn type_text(
    fields: Seq<(Seq<char>, NodeView)>,
    key: Seq<char>,
    type_key: Seq<char>,
) -> Result<Option<Seq<char>>, Seq<char>> {
    match lookup(fields, key) {
        Some(NodeView::Text(text, _, _)) => Ok(Some(text)),
        Some(value) => Err(type_message(key + " in type "@, type_key, value.from(), " must be text."@)),
        None => Ok(None),
    }
}

/// What a result that is a text, where there is one, or an error message
/// holds.
pub open spec fn optional_text_view(r: Result<Option<String>, String>) -> Result<
    Option<Seq<char>>,
    Seq<char>,
> {
    match r {
        Ok(text) => Ok(option_view(text)),
        Err(e) => Err(e@),
    }
}

/// Reads the text of the entry `key` of the article type `type_key`.
fn read_type_text(fields: &Vec<(String, Node)>, key: &str, type_key: &str) -> (r: Result<
    Option<String>,
    String,
>)
    ensures
        optional_text_view(r) == type_text(entry_views(fields@), key@, type_key@),
{
    match get(fields, key) {
        Some(Node::Text(text, _, _)) => Ok(Some(text.clone())),
        Some(value) => {
            let before = crate::text::join2(key, " in type ");
            Err(type_message_string(before.as_str(), type_key, value.from(), " must be text."))
        },
        None => Ok(None),
    }
}

/// The article type that the dictionary `fields` declares under the key
/// `type_key` at the place `at`.
///
/// The entries `Key` and `Name` are texts and must be there. The entries
/// `Description`, `Abbreviation` and `Colour` are texts and `Links` is a
/// dictionary of link types; each may be left out. The colour of a type
/// without one is `#636363`.
pub open spec fn article_type_of(
    type_key: Seq<char>,
    fields: Seq<(Seq<char>, NodeView)>,
    at: Position,
) -> Result<ReadArticleTypeView, Seq<char>> {
    let key = type_text(fields, "Key"@, type_key);
    let name = type_text(fields, "Name"@, type_key);
    let description = type_text(fields, "Description"@, type_key);
    let abbreviation = type_text(fields, "Abbreviation"@, type_key);
    let colour = type_text(fields, "Colour"@, type_key);
    let links = match lookup(fields, "Links"@) {
        Some(NodeView::Dictionary(entries, _, _)) => collect(link_types_of(entries)),
        Some(value) => Err(
            type_message("Links in type "@, type_key, value.from(), " must be a dictionary."@),
        ),
        None => Ok(Seq::empty()),
    };
    if key is Err {
        Err(key->Err_0)
    } else if key->Ok_0 is None {
        Err(type_message("The type "@, type_key, at, " must have a Key entry."@))
    } else if name is Err {
        Err(name->Err_0)
    } else if name->Ok_0 is None {
        Err(type_message("The type "@, type_key, at, " must have a Name entry."@))
    } else if description is Err {
        Err(description->Err_0)
    } else if abbreviation is Err {
        Err(abbreviation->Err_0)
    } else if colour is Err {
        Err(colour->Err_0)
    } else if links is Err {
        Err(links->Err_0)
    } else {
        Ok(
            ReadArticleTypeView {
                key: key->Ok_0->0,
                name: name->Ok_0->0,
                description: description->Ok_0,
                abbreviation: abbreviation->Ok_0,
                colour: match colour->Ok_0 {
                    Some(colour) => colour,
                    None => "#636363"@,
                },
                links: links->Ok_0,
            },
        )
    }
}

/// What a result that is an article type or an error message holds.
pub open spec fn article_type_view(r: Result<ReadArticleType, String>) -> Result<
    ReadArticleTypeView,
    Seq<char>,
> {
    match r {
        Ok(article_type) => Ok(article_type@),
        Err(e) => Err(e@),
    }
}

/// Reads the article type that the dictionary `type_value` declares under
/// the key `type_key` at the place `at`.
pub fn read_type(type_key: &str, type_value: &Vec<(String, Node)>, at: Position) -> (r: Result<
    ReadArticleType,
    String,
>)
    ensures
        article_type_view(r) == article_type_of(type_key@, entry_views(type_value@), at),
{
    let key = match read_type_text(type_value, "Key", type_key) {
        Ok(Some(key)) => key,
        Ok(None) => {
            return Err(type_message_string("The type ", type_key, at, " must have a Key entry."));
        },
        Err(e) => {
            return Err(e);
        },
    };
    let name = match read_type_text(type_value, "Name", type_key) {
        Ok(Some(name)) => name,
        Ok(None) => {
            return Err(type_message_string("The type ", type_key, at, " must have a Name entry."));
        },
        Err(e) => {
            return Err(e);
        },
    };
    let description = match read_type_text(type_value, "Description", type_key) {
        Ok(description) => description,
        Err(e) => {
            return Err(e);
        },
    };
    let abbreviation = match read_type_text(type_value, "Abbreviation", type_key) {
        Ok(abbreviation) => abbreviation,
        Err(e) => {
            return Err(e);
        },
    };
    let colour = match read_type_text(type_value, "Colour", type_key) {
        Ok(Some(colour)) => colour,
        Ok(None) => String::from_str("#636363"),
        Err(e) => {
            return Err(e);
        },
    };
    let links = match get(type_value, "Links") {
        Some(Node::Dictionary(entries, _, _)) => match read_links(entries) {
            Ok(links) => links,
            Err(e) => {
                return Err(e);
            },
        },
        Some(value) => {
            return Err(
                type_message_string(
                    "Links in type ",
                    type_key,
                    value.from(),
                    " must be a dictionary.",
                ),
            );
        },
        None => Vec::new(),
    };
    let read = ReadArticleType { key, name, description, abbreviation, colour, links };
    proof {
        if lookup(entry_views(type_value@), "Links"@) is None {
            assert(views(read.links@) =~= Seq::<ReadLinkTypeView>::empty());
        }
    }
    Ok(read)
}

/// The article type that the entry `entry` of a model declares: its value
/// must be a dictionary.
pub open spec fn model_entry(entry: (Seq<char>, NodeView)) -> Result<ReadArticleTypeView, Seq<char>> {
    match entry.1 {
        NodeView::Dictionary(fields, from, _) => article_type_of(entry.0, fields, from),
        _ => Err(
            "The type \""@ + entry.0 + "\" at "@ + position_text(entry.1.from())
                + " must be a dictionary."@,
        ),
    }
}

/// For each of `entries`, the article type that it declares.
pub open spec fn model_entries(entries: Seq<(Seq<char>, NodeView)>) -> Seq<
    Result<ReadArticleTypeView, Seq<char>>,
> {
    Seq::new(entries.len(), |i: int| model_entry(entries[i]))
}

/// What a result that is a list of article types or an error message
/// holds.
pub open spec fn model_view(r: Result<Vec<ReadArticleType>, String>) -> Result<
    Seq<ReadArticleTypeView>,
    Seq<char>,
> {
    match r {
        Ok(types) => Ok(views(types@)),
        Err(e) => Err(e@),
    }
}

/// Reads the article types that the dictionary `parsed_types` of a model
/// file declares, in the order of its entries.
pub fn read_model(parsed_types: &Vec<(String, Node)>) -> (r: Result<Vec<ReadArticleType>, String>)
    ensures
        model_view(r) == collect(model_entries(entry_views(parsed_types@))),
{
    let ghost results = model_entries(entry_views(parsed_types@));
    proof {
        lemma_entry_views(parsed_types@);
    }
    let mut read_types: Vec<ReadArticleType> = Vec::new();
    let mut i: usize = 0;
    while i < parsed_types.len()
        invariant
            i <= parsed_types.len(),
            results == model_entries(entry_views(parsed_types@)),
            results.len() == parsed_types.len(),
            forall|k: int|
                0 <= k < parsed_types.len() ==> #[trigger] results[k] == model_entry(
                    (parsed_types[k].0@, parsed_types[k].1@),
                ),
            read_types.len() == i,
            forall|k: int|
                0 <= k < i ==> #[trigger] results[k] == Ok::<ReadArticleTypeView, Seq<char>>(
                    read_types[k]@,
                ),
        decreases parsed_types.len() - i,
    {
        let type_key = &parsed_types[i].0;
        let read = match &parsed_types[i].1 {
            Node::Dictionary(fields, from, _) => read_type(type_key.as_str(), fields, *from),
            other => {
                let place = position_string(other.from());
                let mut message = join3("The type \"", type_key.as_str(), "\" at ");
                message.append(place.as_str());
                message.append(" must be a dictionary.");
                Err(message)
            },
        };
        match read {
            Ok(article_type) => {
                read_types.push(article_type);
            },
            Err(e) => {
                proof {
                    lemma_collect_err(results, i as int);
                }
                return Err(e);
            },
        }
        i = i + 1;
    }
    proof {
        lemma_collect_ok(results, views(read_types@));
    }
    Ok(read_types)
}

} // verus!
