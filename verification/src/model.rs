//! The model of a project: its article types and, for each of them, the
//! types of link that an article of the type may have.
//!
//! A model is loaded once and read afterwards. An article type is known by
//! its index in the model, a link type by the index of its article type and
//! its own index among the links of that type.

use vstd::prelude::*;
use vstd::hash_map::StringHashMap;
use crate::read::model::read_link_keys;
use crate::read::model::read_type_keys;
use crate::read::model::ReadArticleType;
use crate::read::model::ReadArticleTypeView;
use crate::read::model::ReadLinkTypeView;
use crate::text::join3;
use crate::views::clone_optional_text;
use crate::views::distinct;
use crate::views::first_repeat;
use crate::views::index_below;
use crate::views::index_of;
use crate::views::lemma_index_below;
use crate::views::lemma_index_of;
use crate::views::lemma_repeat_below;
use crate::views::occurs_below;
use crate::views::option_view;
use crate::views::repeat_below;
use crate::views::views;

verus! {

/// A link type.
pub struct LinkType {
    /// The index of the article type that the link type belongs to.
    pub article_type: usize,
    /// The index of the link type among the links of its article type.
    pub index: usize,
    pub key: String,
    pub origin_name: String,
    pub origin_description: String,
    pub target_name: String,
    pub target_description: String,
    /// Whether the link is shown at its target too.
    pub target_show: bool,
}

/// What a `LinkType` holds.
pub ghost struct LinkTypeView {
    pub article_type: usize,
    pub index: usize,
    pub key: Seq<char>,
    pub origin_name: Seq<char>,
    pub origin_description: Seq<char>,
    pub target_name: Seq<char>,
    pub target_description: Seq<char>,
    pub target_show: bool,
}

impl View for LinkType {
    type V = LinkTypeView;

    open spec fn view(&self) -> LinkTypeView {
        LinkTypeView {
            article_type: self.article_type,
            index: self.index,
            key: self.key@,
            origin_name: self.origin_name@,
            origin_description: self.origin_description@,
            target_name: self.target_name@,
            target_description: self.target_description@,
            target_show: self.target_show,
        }
    }
}

impl LinkType {
    /// The index of the article type that the link type belongs to.
    pub fn get_article_type(&self) -> (article_type: usize)
        ensures
            article_type == self@.article_type,
    {
        self.article_type
    }
}

/// The handle of a link type: the index of its article type in the model
/// and its own index among the links of that type.
#[derive(Clone, Copy, PartialEq, Eq, Structural, Debug)]
pub struct LinkTypeId {
    pub article_type: usize,
    pub link: usize,
}

/// An article type.
pub struct ArticleType {
    /// The index of the article type in its model.
    pub index: usize,
    pub key: String,
    pub name: String,
    pub description: String,
    pub colour: Option<String>,
    pub abbreviation: Option<String>,
    pub symbol: Option<String>,
    pub links: Vec<LinkType>,
}

/// What an `ArticleType` holds.
pub ghost struct ArticleTypeView {
    pub index: usize,
    pub key: Seq<char>,
    pub name: Seq<char>,
    pub description: Seq<char>,
    pub colour: Option<Seq<char>>,
    pub abbreviation: Option<Seq<char>>,
    pub symbol: Option<Seq<char>>,
    pub links: Seq<LinkTypeView>,
}

impl View for ArticleType {
    type V = ArticleTypeView;

    open spec fn view(&self) -> ArticleTypeView {
        ArticleTypeView {
            index: self.index,
            key: self.key@,
            name: self.name@,
            description: self.description@,
            colour: option_view(self.colour),
            abbreviation: option_view(self.abbreviation),
            symbol: option_view(self.symbol),
            links: views(self.links@),
        }
    }
}

/// The keys of the link types `links`, in order.
pub open spec fn link_keys(links: Seq<LinkTypeView>) -> Seq<Seq<char>> {
    Seq::new(links.len(), |j: int| links[j].key)
}

/// The keys of the article types `types`, in order.
pub open spec fn type_keys(types: Seq<ArticleTypeView>) -> Seq<Seq<char>> {
    Seq::new(types.len(), |i: int| types[i].key)
}

/// The index of the link type with the key `key` among `links`.
pub open spec fn find_link(links: Seq<LinkTypeView>, key: Seq<char>) -> Option<int> {
    index_of(link_keys(links), key)
}

/// The index of the article type with the key `key` among `types`.
pub open spec fn find_type(types: Seq<ArticleTypeView>, key: Seq<char>) -> Option<int> {
    index_of(type_keys(types), key)
}

/// Whether `types` is a model: every type and every link type holds its
/// own place, the keys of the types are distinct, and so are the keys of
/// the links of each type.
pub open spec fn model_wf(types: Seq<ArticleTypeView>) -> bool {
    &&& distinct(type_keys(types))
    &&& forall|i: int|
        0 <= i < types.len() ==> {
            &&& (#[trigger] types[i]).index == i
            &&& distinct(link_keys(types[i].links))
        }
    &&& forall|i: int, j: int|
        0 <= i < types.len() && 0 <= j < types[i].links.len() ==> {
            &&& (#[trigger] types[i].links[j]).article_type == i
            &&& types[i].links[j].index == j
        }
}

/// Whether `id` is the handle of a link type of the model `types`.
pub open spec fn link_type_in(types: Seq<ArticleTypeView>, id: LinkTypeId) -> bool {
    id.article_type < types.len() && id.link < types[id.article_type as int].links.len()
}

/// The handles of the link types of the model `types`.
pub open spec fn model_link_types(types: Seq<ArticleTypeView>) -> Set<LinkTypeId> {
    Set::new(|id: LinkTypeId| link_type_in(types, id))
}

impl ArticleType {
    /// The link type with the key `key`.
    pub fn get_link(&self, key: &str) -> (link: Option<&LinkType>)
        ensures
            match link {
                Some(link) => find_link(self@.links, key@) matches Some(j) && link@
                    == self@.links[j],
                None => find_link(self@.links, key@) is None,
            },
    {
        let wanted = String::from_str(key);
        let ghost keys = link_keys(self@.links);
        let mut j: usize = 0;
        while j < self.links.len()
            invariant
                j <= self.links.len(),
                wanted@ == key@,
                keys == link_keys(self@.links),
                index_below(keys, key@, j as int) is None,
            decreases self.links.len() - j,
        {
            assert(keys[j as int] == self.links[j as int].key@);
            if self.links[j].key == wanted {
                proof {
                    lemma_index_below(keys, key@, j as int);
                    lemma_index_of(keys, key@);
                }
                return Some(&self.links[j]);
            }
            j = j + 1;
        }
        None
    }

    /// The link types of the article type, in the order of their
    /// declaration.
    pub fn get_links(&self) -> (links: &Vec<LinkType>)
        ensures
            views(links@) == self@.links,
    {
        &self.links
    }
}

/// Whether `map` holds the keys `keys` and no other, each with the index
/// at which it stands.
pub open spec fn indexes(map: Map<Seq<char>, usize>, keys: Seq<Seq<char>>) -> bool {
    &&& forall|key: Seq<char>| #[trigger]
        map.contains_key(key) ==> map[key] < keys.len() && keys[map[key] as int] == key
    &&& forall|i: int| 0 <= i < keys.len() ==> map.contains_key(#[trigger] keys[i])
}

/// The article and link types of a project.
pub struct Model {
    types: Vec<ArticleType>,
    /// For the key of each article type, its index.
    type_map: StringHashMap<usize>,
}

impl View for Model {
    type V = Seq<ArticleTypeView>;

    closed spec fn view(&self) -> Seq<ArticleTypeView> {
        views(self.types@)
    }
}

impl Model {
    /// The keys of the article types are distinct, and the map holds the
    /// index of each.
    #[verifier::type_invariant]
    closed spec fn indexed(self) -> bool {
        &&& distinct(type_keys(views(self.types@)))
        &&& indexes(self.type_map@, type_keys(views(self.types@)))
    }

    /// The article type with the key `key`.
    pub fn get_type(&self, key: &str) -> (article_type: Option<&ArticleType>)
        ensures
            match article_type {
                Some(article_type) => find_type(self@, key@) matches Some(i) && article_type@
                    == self@[i],
                None => find_type(self@, key@) is None,
            },
    {
        proof {
            use_type_invariant(self);
            lemma_index_of(type_keys(self@), key@);
        }
        let ghost keys = type_keys(self@);
        match self.type_map.get(key) {
            Some(index) => {
                let index: usize = *index;
                assert(keys[index as int] == key@);
                assert(find_type(self@, key@) == Some(index as int));
                Some(&self.types[index])
            },
            None => {
                assert(find_type(self@, key@) is None) by {
                    if find_type(self@, key@) is Some {
                        let at = find_type(self@, key@)->0;
                        assert(self.type_map@.contains_key(keys[at]));
                    }
                }
                None
            },
        }
    }

    /// The article types of the model, in the order of their declaration.
    pub fn get_types(&self) -> (types: &Vec<ArticleType>)
        ensures
            views(types@) == self@,
    {
        &self.types
    }

    /// The article type at the index `index`.
    pub fn article_type(&self, index: usize) -> (article_type: &ArticleType)
        requires
            index < self@.len(),
        ensures
            article_type@ == self@[index as int],
    {
        &self.types[index]
    }

    /// The link type with the handle `id`.
    pub fn link_type(&self, id: LinkTypeId) -> (link: &LinkType)
        requires
            link_type_in(self@, id),
        ensures
            link@ == self@[id.article_type as int].links[id.link as int],
    {
        &self.types[id.article_type].links[id.link]
    }
}

/// The link type that a model holds for the declaration `read`, as the
/// link at `index` of the article type at `article_type`.
pub open spec fn load_link(read: ReadLinkTypeView, article_type: usize, index: usize) -> LinkTypeView {
    LinkTypeView {
        article_type,
        index,
        key: read.key,
        origin_name: read.origin_name,
        origin_description: read.origin_description,
        target_name: read.target_name,
        target_description: read.target_description,
        target_show: read.target_show,
    }
}

/// The link types that a model holds for the declarations `read`.
pub open spec fn load_links(read: Seq<ReadLinkTypeView>, article_type: usize) -> Seq<LinkTypeView> {
    Seq::new(read.len(), |j: int| load_link(read[j], article_type, j as usize))
}

/// The article type that a model holds for the declaration `read`, as the
/// type at `index`. A type without a description is described by its name.
pub open spec fn load_type(read: ReadArticleTypeView, index: usize) -> ArticleTypeView {
    ArticleTypeView {
        index,
        key: read.key,
        name: read.name,
        description: match read.description {
            Some(description) => description,
            None => read.name,
        },
        colour: Some(read.colour),
        abbreviation: read.abbreviation,
        symbol: None,
        links: load_links(read.links, index),
    }
}

/// The article types that a model holds for the declarations `read`.
pub open spec fn load_types(read: Seq<ReadArticleTypeView>) -> Seq<ArticleTypeView> {
    Seq::new(read.len(), |i: int| load_type(read[i], i as usize))
}

/// The message for an article type whose key is that of an earlier one.
pub open spec fn repeated_type_message(key: Seq<char>) -> Seq<char> {
    "Article type "@ + key + " is declared more than once."@
}

/// The message for a link type whose key is that of an earlier link type
/// of the same article type.
pub open spec fn repeated_link_message(type_key: Seq<char>, key: Seq<char>) -> Seq<char> {
    "Link type "@ + type_key + ":"@ + key + " is declared more than once."@
}

/// What is wrong with the declaration at `i`, if anything: its key is that
/// of an earlier declaration, or two of its link types have one key.
pub open spec fn type_fault(read: Seq<ReadArticleTypeView>, i: int) -> Option<Seq<char>> {
    if occurs_below(read_type_keys(read), read[i].key, i) {
        Some(repeated_type_message(read[i].key))
    } else {
        match first_repeat(read_link_keys(read[i].links)) {
            Some(j) => Some(repeated_link_message(read[i].key, read[i].links[j].key)),
            None => None,
        }
    }
}

/// What is wrong with the first faulty declaration below `n`.
pub open spec fn model_fault_below(read: Seq<ReadArticleTypeView>, n: int) -> Option<Seq<char>>
    decreases n,
{
    if n <= 0 {
        None
    } else {
        match model_fault_below(read, n - 1) {
            Some(e) => Some(e),
            None => type_fault(read, n - 1),
        }
    }
}

/// What is wrong with the first faulty declaration of `read`.
pub open spec fn model_fault(read: Seq<ReadArticleTypeView>) -> Option<Seq<char>> {
    model_fault_below(read, read.len() as int)
}

/// The model that the declarations `read` make, or the message of the
/// first fault.
pub open spec fn load_model(read: Seq<ReadArticleTypeView>) -> Result<
    Seq<ArticleTypeView>,
    Seq<char>,
> {
    match model_fault(read) {
        Some(e) => Err(e),
        None => Ok(load_types(read)),
    }
}

/// What a result of loading a model holds.
pub open spec fn model_result_view(r: Result<Model, String>) -> Result<
    Seq<ArticleTypeView>,
    Seq<char>,
> {
    match r {
        Ok(model) => Ok(model@),
        Err(e) => Err(e@),
    }
}

/// Declarations are without fault below `n` if and only if the keys of the
/// types below `n` are distinct and so are the keys of the links of each.
pub proof fn lemma_model_fault_below(read: Seq<ReadArticleTypeView>, n: int)
    requires
        0 <= n <= read.len(),
    ensures
        model_fault_below(read, n) is None <==> {
            &&& distinct(read_type_keys(read).take(n))
            &&& forall|i: int| 0 <= i < n ==> distinct(read_link_keys(#[trigger] read[i].links))
        },
    decreases n,
{
    let keys = read_type_keys(read);
    if n > 0 {
        lemma_model_fault_below(read, n - 1);
        let links = read_link_keys(read[n - 1].links);
        crate::views::lemma_first_repeat(links);
        let earlier = keys.take(n - 1);
        let now = keys.take(n);
        assert forall|i: int| 0 <= i < n - 1 implies earlier[i] == #[trigger] now[i] by {}
        if model_fault_below(read, n) is None {
            assert(!occurs_below(keys, read[n - 1].key, n - 1));
            assert forall|i: int, j: int| 0 <= i < j < n implies now[i] != now[j] by {
                if j < n - 1 {
                    assert(earlier[i] != earlier[j]);
                } else {
                    assert(keys[i] != read[n - 1].key);
                }
            }
        } else if model_fault_below(read, n - 1) is None {
            if occurs_below(keys, read[n - 1].key, n - 1) {
                let k = choose|k: int| 0 <= k < n - 1 && keys[k] == read[n - 1].key;
                assert(now[k] == now[n - 1]);
            }
        } else {
            if distinct(now) {
                assert forall|i: int, j: int| 0 <= i < j < n - 1 implies earlier[i]
                    != earlier[j] by {
                    assert(now[i] != now[j]);
                }
            }
        }
    }
}

/// Declarations make a model if and only if the keys of the types are
/// distinct and so are the keys of the links of each type; and what they
/// make is a model.
pub proof fn lemma_load_model(read: Seq<ReadArticleTypeView>)
    ensures
        load_model(read) is Ok <==> {
            &&& distinct(read_type_keys(read))
            &&& forall|i: int|
                0 <= i < read.len() ==> distinct(read_link_keys(#[trigger] read[i].links))
        },
        read.len() <= usize::MAX && (forall|i: int|
            0 <= i < read.len() ==> (#[trigger] read[i]).links.len() <= usize::MAX)
            && load_model(read) is Ok ==> model_wf(load_types(read)),
{
    lemma_model_fault_below(read, read.len() as int);
    assert(read_type_keys(read).take(read.len() as int) =~= read_type_keys(read));
    if load_model(read) is Ok && read.len() <= usize::MAX && (forall|i: int|
        0 <= i < read.len() ==> (#[trigger] read[i]).links.len() <= usize::MAX) {
        let types = load_types(read);
        assert(type_keys(types) =~= read_type_keys(read));
        assert forall|i: int| 0 <= i < types.len() implies (#[trigger] types[i]).index == i
            && distinct(link_keys(types[i].links)) by {
            assert(link_keys(types[i].links) =~= read_link_keys(read[i].links));
        }
        assert forall|i: int, j: int|
            0 <= i < types.len() && 0 <= j < types[i].links.len() implies (
        #[trigger] types[i].links[j]).article_type == i && types[i].links[j].index == j by {
            assert(read[i].links.len() <= usize::MAX);
        }
    }
}

/// Whether `links` holds a link type with the key `key`.
fn holds_link_key(links: &Vec<LinkType>, key: &String) -> (b: bool)
    ensures
        b == occurs_below(link_keys(views(links@)), key@, links.len() as int),
{
    let ghost keys = link_keys(views(links@));
    let mut k: usize = 0;
    while k < links.len()
        invariant
            k <= links.len(),
            keys == link_keys(views(links@)),
            !occurs_below(keys, key@, k as int),
        decreases links.len() - k,
    {
        assert(keys[k as int] == links[k as int].key@);
        if links[k].key == *key {
            return true;
        }
        k = k + 1;
    }
    false
}

/// What a result of loading the link types of one article type holds.
pub open spec fn links_result_view(r: Result<Vec<LinkType>, String>) -> Result<
    Seq<LinkTypeView>,
    Seq<char>,
> {
    match r {
        Ok(links) => Ok(views(links@)),
        Err(e) => Err(e@),
    }
}

/// Loads the link types of the article type `read_type`, which is to stand
/// at `index` in its model.
fn process_links(read_type: &ReadArticleType, index: usize) -> (r: Result<Vec<LinkType>, String>)
    ensures
        links_result_view(r) == match first_repeat(read_link_keys(read_type@.links)) {
            Some(j) => Err(repeated_link_message(read_type@.key, read_type@.links[j].key)),
            None => Ok(load_links(read_type@.links, index)),
        },
{
    let ghost read = read_type@.links;
    let ghost keys = read_link_keys(read);
    let mut links: Vec<LinkType> = Vec::new();
    let mut j: usize = 0;
    while j < read_type.links.len()
        invariant
            j <= read_type.links.len(),
            read == read_type@.links,
            read.len() == read_type.links.len(),
            keys == read_link_keys(read),
            links.len() == j,
            repeat_below(keys, j as int) is None,
            views(links@) == load_links(read, index).take(j as int),
        decreases read_type.links.len() - j,
    {
        let read_link = &read_type.links[j];
        assert(read[j as int] == read_link@);
        assert(keys[j as int] == read_link.key@);
        let repeated = holds_link_key(&links, &read_link.key);
        proof {
            let built = link_keys(views(links@));
            assert forall|k: int| 0 <= k < j implies built[k] == keys[k] by {
                assert(views(links@)[k] == load_links(read, index)[k]);
            }
            if repeated {
                let k = choose|k: int| 0 <= k < j && built[k] == read_link.key@;
                assert(keys[k] == keys[j as int]);
                assert(occurs_below(keys, keys[j as int], j as int));
            } else {
                if occurs_below(keys, keys[j as int], j as int) {
                    let k = choose|k: int| 0 <= k < j && keys[k] == keys[j as int];
                    assert(built[k] == read_link.key@);
                }
            }
        }
        if repeated {
            proof {
                lemma_repeat_below(keys, j as int);
                lemma_repeat_below(keys, keys.len() as int);
                assert(repeat_below(keys, j + 1) == Some(j as int));
                lemma_repeat_stays(keys, j + 1, keys.len() as int);
            }
            let mut message = join3("Link type ", read_type.key.as_str(), ":");
            message.append(read_link.key.as_str());
            message.append(" is declared more than once.");
            return Err(message);
        }
        let link = LinkType {
            article_type: index,
            index: j,
            key: read_link.key.clone(),
            origin_name: read_link.origin_name.clone(),
            origin_description: read_link.origin_description.clone(),
            target_name: read_link.target_name.clone(),
            target_description: read_link.target_description.clone(),
            target_show: read_link.target_show,
        };
        assert(link@ == load_link(read[j as int], index, j));
        links.push(link);
        assert(views(links@) =~= load_links(read, index).take(j + 1));
        j = j + 1;
    }
    assert(load_links(read, index).take(j as int) =~= load_links(read, index));
    Ok(links)
}

/// A repeat that is found below `n` is found below every greater bound.
pub proof fn lemma_repeat_stays<T>(s: Seq<T>, n: int, m: int)
    requires
        n <= m,
        repeat_below(s, n) is Some,
    ensures
        repeat_below(s, m) == repeat_below(s, n),
    decreases m - n,
{
    if n < m {
        lemma_repeat_stays(s, n, m - 1);
    }
}

/// A fault that is found below `n` is found below every greater bound.
pub proof fn lemma_fault_stays(read: Seq<ReadArticleTypeView>, n: int, m: int)
    requires
        n <= m,
        model_fault_below(read, n) is Some,
    ensures
        model_fault_below(read, m) == model_fault_below(read, n),
    decreases m - n,
{
    if n < m {
        lemma_fault_stays(read, n, m - 1);
    }
}

/// Loads the model that the declarations `read_model` make.
///
/// The keys of the article types must be distinct, and so must the keys of
/// the link types of each article type: the first declaration that repeats
/// a key is reported.
pub fn process_model(read_model: &Vec<ReadArticleType>) -> (r: Result<Model, String>)
    ensures
        model_result_view(r) == load_model(views(read_model@)),
        r matches Ok(model) ==> model_wf(model@),
{
    let ghost read = views(read_model@);
    let mut types: Vec<ArticleType> = Vec::new();
    let mut type_map: StringHashMap<usize> = StringHashMap::new();
    let mut i: usize = 0;
    while i < read_model.len()
        invariant
            i <= read_model.len(),
            read == views(read_model@),
            types.len() == i,
            indexes(type_map@, type_keys(views(types@))),
            model_fault_below(read, i as int) is None,
            views(types@) == load_types(read).take(i as int),
        decreases read_model.len() - i,
    {
        let read_type = &read_model[i];
        assert(read[i as int] == read_type@);
        let repeated = type_map.contains_key(read_type.key.as_str());
        proof {
            let built = type_keys(views(types@));
            let keys = read_type_keys(read);
            assert forall|k: int| 0 <= k < i implies built[k] == keys[k] by {
                assert(views(types@)[k] == load_types(read)[k]);
            }
            if repeated {
                let k = type_map@[read_type.key@] as int;
                assert(built[k] == read_type.key@);
                assert(keys[k] == read[i as int].key);
            } else {
                if occurs_below(keys, read[i as int].key, i as int) {
                    let k = choose|k: int| 0 <= k < i && keys[k] == read[i as int].key;
                    assert(built[k] == read_type.key@);
                    assert(type_map@.contains_key(built[k]));
                }
            }
        }
        if repeated {
            proof {
                lemma_fault_stays(read, i + 1, read.len() as int);
            }
            return Err(join3("Article type ", read_type.key.as_str(), " is declared more than once."));
        }
        let links = match process_links(read_type, i) {
            Ok(links) => links,
            Err(e) => {
                proof {
                    lemma_fault_stays(read, i + 1, read.len() as int);
                }
                return Err(e);
            },
        };
        let description = match &read_type.description {
            Some(description) => description.clone(),
            None => read_type.name.clone(),
        };
        let article_type = ArticleType {
            index: i,
            key: read_type.key.clone(),
            name: read_type.name.clone(),
            description,
            colour: Some(read_type.colour.clone()),
            abbreviation: clone_optional_text(&read_type.abbreviation),
            symbol: None,
            links,
        };
        assert(article_type@ == load_type(read[i as int], i));
        let ghost built = type_keys(views(types@));
        type_map.insert(read_type.key.clone(), i);
        types.push(article_type);
        assert(views(types@) =~= load_types(read).take(i + 1));
        proof {
            let grown = type_keys(views(types@));
            assert(grown =~= built.push(read_type.key@));
            assert forall|key: Seq<char>| #[trigger] type_map@.contains_key(key) implies type_map@[key]
                < grown.len() && grown[type_map@[key] as int] == key by {
                if key != read_type.key@ {
                    assert(built[type_map@[key] as int] == key);
                }
            }
            assert forall|k: int| 0 <= k < grown.len() implies type_map@.contains_key(
                #[trigger] grown[k],
            ) by {
                if k < i {
                    assert(grown[k] == built[k]);
                }
            }
        }
        i = i + 1;
    }
    assert(load_types(read).take(i as int) =~= load_types(read));
    proof {
        assert forall|k: int| 0 <= k < read.len() implies (#[trigger] read[k]).links.len()
            <= usize::MAX by {
            assert(read[k].links.len() == read_model[k].links.len());
        }
        lemma_load_model(read);
    }
    Ok(Model { types, type_map })
}

} // verus!
