//! The inclusion of another project as a dependency.
//!
//! A dependency is included whole or not at all: its model must fit the
//! model of the project, so that every article type that it declares is an
//! article type of the project, and every link type that it declares for
//! such a type is a link type of that type in the project.

use vstd::prelude::*;
use crate::model::find_link;
use crate::model::find_type;
use crate::model::ArticleTypeView;
use crate::model::LinkTypeView;
use crate::model::Model;
use crate::read::document::ReadFsDocument;
use crate::read::document::ReadFsDocumentView;
use crate::read::model::ReadArticleType;
use crate::read::model::ReadArticleTypeView;
use crate::read::model::ReadLinkTypeView;
use crate::text::join3;
use crate::views::index_below;
use crate::views::index_of;
use crate::views::lemma_index_below;
use crate::views::lemma_index_of;
use crate::views::views;

verus! {

/// How the documents of a dependency are included.
#[derive(Clone, Copy, PartialEq, Eq, Structural, Debug)]
pub enum Include {
    /// The articles join the graph, and the documents are pages of the
    /// project.
    All,
    /// The articles join the graph; the documents are no pages.
    Articles,
    /// As `Articles`, and the keys of the articles are replaced by keys
    /// that hide where the articles come from.
    Obfuscated,
}

/// The documents of a dependency, with the way in which they are included.
pub struct ReadDependency {
    pub inclusion: Include,
    pub documents: Vec<ReadFsDocument>,
}

/// What a `ReadDependency` holds.
pub ghost struct ReadDependencyView {
    pub inclusion: Include,
    pub documents: Seq<ReadFsDocumentView>,
}

impl View for ReadDependency {
    type V = ReadDependencyView;

    open spec fn view(&self) -> ReadDependencyView {
        ReadDependencyView { inclusion: self.inclusion, documents: views(self.documents@) }
    }
}

/// The way of inclusion that `name` names, or the message for a name that
/// names none.
pub open spec fn include_named(name: Seq<char>) -> Result<Include, Seq<char>> {
    if name == "All"@ {
        Ok(Include::All)
    } else if name == "Articles"@ {
        Ok(Include::Articles)
    } else if name == "Obfuscated"@ {
        Ok(Include::Obfuscated)
    } else {
        Err("Include method "@ + name + " is not allowed."@)
    }
}

/// What a result that is a way of inclusion or an error message holds.
pub open spec fn include_view(r: Result<Include, String>) -> Result<Include, Seq<char>> {
    match r {
        Ok(inclusion) => Ok(inclusion),
        Err(e) => Err(e@),
    }
}

/// Reads the way of inclusion that `name` names.
pub fn read_include(name: &str) -> (r: Result<Include, String>)
    ensures
        include_view(r) == include_named(name@),
{
    let wanted = String::from_str(name);
    if wanted == String::from_str("All") {
        Ok(Include::All)
    } else if wanted == String::from_str("Articles") {
        Ok(Include::Articles)
    } else if wanted == String::from_str("Obfuscated") {
        Ok(Include::Obfuscated)
    } else {
        Err(join3("Include method ", name, " is not allowed."))
    }
}

/// The message for an article type of a dependency that the project lacks.
pub open spec fn missing_type_message(key: Seq<char>) -> Seq<char> {
    "Dependency article type "@ + key + " does not exist."@
}

/// The message for a link type of a dependency that the project lacks.
pub open spec fn missing_link_message(key: Seq<char>) -> Seq<char> {
    "Dependency link type "@ + key + " does not exist."@
}

/// For each of the link types `read`, whether `links` lacks a link type
/// with its key.
pub open spec fn missing_links(links: Seq<LinkTypeView>, read: Seq<ReadLinkTypeView>) -> Seq<bool> {
    Seq::new(read.len(), |j: int| find_link(links, read[j].key) is None)
}

/// What the model `model` lacks for the article type `read` of a
/// dependency, if anything: the type itself, or else the first of its link
/// types that the type lacks in `model`.
pub open spec fn type_gap(model: Seq<ArticleTypeView>, read: ReadArticleTypeView) -> Option<
    Seq<char>,
> {
    match find_type(model, read.key) {
        None => Some(missing_type_message(read.key)),
        Some(i) => match index_of(missing_links(model[i].links, read.links), true) {
            Some(j) => Some(missing_link_message(read.links[j].key)),
            None => None,
        },
    }
}

/// For each of the article types `read`, whether `model` lacks something
/// for it.
pub open spec fn gaps(model: Seq<ArticleTypeView>, read: Seq<ReadArticleTypeView>) -> Seq<bool> {
    Seq::new(read.len(), |i: int| type_gap(model, read[i]) is Some)
}

/// What the model `model` lacks for the first article type of the
/// dependency model `read` for which it lacks something.
pub open spec fn model_gap(model: Seq<ArticleTypeView>, read: Seq<ReadArticleTypeView>) -> Option<
    Seq<char>,
> {
    match index_of(gaps(model, read), true) {
        Some(i) => type_gap(model, read[i]),
        None => None,
    }
}

/// Whether the dependency model `read` fits the model `model`: every
/// article type of `read` is one of `model`, and every link type of it is a
/// link type of that type in `model`.
pub open spec fn compatible(model: Seq<ArticleTypeView>, read: Seq<ReadArticleTypeView>) -> bool {
    forall|i: int|
        0 <= i < read.len() ==> {
            &&& find_type(model, (#[trigger] read[i]).key) is Some
            &&& forall|j: int|
                0 <= j < read[i].links.len() ==> find_link(
                    model[find_type(model, read[i].key)->0].links,
                    (#[trigger] read[i].links[j]).key,
                ) is Some
        }
}

/// A model lacks nothing for a dependency model if and only if the
/// dependency model fits it.
pub proof fn lemma_model_gap(model: Seq<ArticleTypeView>, read: Seq<ReadArticleTypeView>)
    ensures
        model_gap(model, read) is None <==> compatible(model, read),
{
    let all = gaps(model, read);
    lemma_index_of(all, true);
    if model_gap(model, read) is None {
        assert forall|i: int| 0 <= i < read.len() implies find_type(
            model,
            (#[trigger] read[i]).key,
        ) is Some && forall|j: int|
            0 <= j < read[i].links.len() ==> find_link(
                model[find_type(model, read[i].key)->0].links,
                (#[trigger] read[i].links[j]).key,
            ) is Some by {
            assert(all[i] == false);
            let t = find_type(model, read[i].key)->0;
            let missing = missing_links(model[t].links, read[i].links);
            lemma_index_of(missing, true);
            assert forall|j: int| 0 <= j < read[i].links.len() implies find_link(
                model[t].links,
                (#[trigger] read[i].links[j]).key,
            ) is Some by {
                assert(missing[j] == false);
            }
        }
    } else {
        let i = index_of(all, true)->0;
        assert(all[i]);
        if find_type(model, read[i].key) is Some {
            let t = find_type(model, read[i].key)->0;
            let missing = missing_links(model[t].links, read[i].links);
            lemma_index_of(missing, true);
            let j = index_of(missing, true)->0;
            assert(missing[j]);
            assert(find_link(model[t].links, read[i].links[j].key) is None);
        }
    }
}

/// Looks for what the model lacks for the article type `read_type`.
fn check_type(model: &Model, read_type: &ReadArticleType) -> (r: Result<(), String>)
    ensures
        match type_gap(model@, read_type@) {
            Some(e) => r matches Err(message) && message@ == e,
            None => r is Ok,
        },
{
    let article_type = match model.get_type(read_type.key.as_str()) {
        Some(article_type) => article_type,
        None => {
            return Err(join3("Dependency article type ", read_type.key.as_str(), " does not exist."));
        },
    };
    let ghost missing = missing_links(article_type@.links, read_type@.links);
    let mut j: usize = 0;
    while j < read_type.links.len()
        invariant
            j <= read_type.links.len(),
            find_type(model@, read_type@.key) matches Some(t) && article_type@ == model@[t],
            missing == missing_links(article_type@.links, read_type@.links),
            index_below(missing, true, j as int) is None,
        decreases read_type.links.len() - j,
    {
        assert(read_type@.links[j as int] == read_type.links[j as int]@);
        if article_type.get_link(read_type.links[j].key.as_str()).is_none() {
            proof {
                assert(missing[j as int]);
                lemma_index_below(missing, true, j as int);
                lemma_index_of(missing, true);
            }
            return Err(
                join3("Dependency link type ", read_type.links[j].key.as_str(), " does not exist."),
            );
        }
        j = j + 1;
    }
    Ok(())
}

/// What a result that is a list of documents or an error message holds.
pub open spec fn documents_view(r: Result<Vec<ReadFsDocument>, String>) -> Result<
    Seq<ReadFsDocumentView>,
    Seq<char>,
> {
    match r {
        Ok(documents) => Ok(views(documents@)),
        Err(e) => Err(e@),
    }
}

/// Checks that the dependency model `dependency_model` fits the model of
/// the project, before anything else of the dependency is read.
///
/// The error names the first article type or link type that the project
/// lacks.
pub fn check_compatibility(model: &Model, dependency_model: &Vec<ReadArticleType>) -> (r: Result<
    (),
    String,
>)
    ensures
        r is Ok <==> compatible(model@, views(dependency_model@)),
        match model_gap(model@, views(dependency_model@)) {
            Some(e) => r matches Err(message) && message@ == e,
            None => r is Ok,
        },
{
    let ghost read = views(dependency_model@);
    let ghost all = gaps(model@, read);
    proof {
        lemma_model_gap(model@, read);
    }
    let mut i: usize = 0;
    while i < dependency_model.len()
        invariant
            i <= dependency_model.len(),
            read == views(dependency_model@),
            all == gaps(model@, read),
            index_below(all, true, i as int) is None,
        decreases dependency_model.len() - i,
    {
        assert(read[i as int] == dependency_model[i as int]@);
        assert(all[i as int] == (type_gap(model@, read[i as int]) is Some));
        match check_type(model, &dependency_model[i]) {
            Err(e) => {
                proof {
                    assert(all[i as int]);
                    lemma_index_below(all, true, i as int);
                    lemma_index_of(all, true);
                    lemma_model_gap(model@, read);
                }
                return Err(e);
            },
            Ok(_) => {},
        }
        i = i + 1;
    }
    proof {
        lemma_index_below(all, true, i as int);
        lemma_model_gap(model@, read);
    }
    Ok(())
}

/// Includes the documents `documents` of a dependency whose model is
/// `dependency_model`, if that model fits the model of the project.
///
/// The documents are handed on as they are where it does. Where it does
/// not, nothing of the dependency is included, and the error names the
/// first article type or link type that the project lacks.
pub fn include_dependency(
    model: &Model,
    dependency_model: &Vec<ReadArticleType>,
    documents: Vec<ReadFsDocument>,
) -> (r: Result<Vec<ReadFsDocument>, String>)
    ensures
        r is Ok <==> compatible(model@, views(dependency_model@)),
        documents_view(r) == match model_gap(model@, views(dependency_model@)) {
            Some(e) => Err(e),
            None => Ok(views(documents@)),
        },
{
    match check_compatibility(model, dependency_model) {
        Err(e) => Err(e),
        Ok(_) => Ok(documents),
    }
}

/// A dependency whose model declares an article type that the project
/// lacks is refused, and so the compilation ends with an error. Where no
/// earlier declaration of the dependency lacks anything in the project,
/// the error names that type.
pub proof fn law_absent_type_refused(
    model: Seq<ArticleTypeView>,
    read: Seq<ReadArticleTypeView>,
    i: int,
)
    requires
        0 <= i < read.len(),
        find_type(model, read[i].key) is None,
    ensures
        !compatible(model, read),
        model_gap(model, read) is Some,
        (forall|k: int| 0 <= k < i ==> type_gap(model, #[trigger] read[k]) is None) ==> model_gap(
            model,
            read,
        ) == Some(missing_type_message(read[i].key)),
{
    let all = gaps(model, read);
    lemma_index_of(all, true);
    lemma_model_gap(model, read);
    assert(all[i]);
    if forall|k: int| 0 <= k < i ==> type_gap(model, #[trigger] read[k]) is None {
        let first = index_of(all, true)->0;
        if first < i {
            assert(type_gap(model, read[first]) is None);
            assert(all[first]);
        }
    }
}

} // verus!
