//! The binding of the links of a document to the articles of the store.

use vstd::prelude::*;
use crate::class::Article;
use crate::class::Classes;
use crate::class::ClassesView;
use crate::compile::link::links_only;
use crate::document::DocumentElement;
use crate::document::DocumentElementView;
use crate::document::FsDocument;
use crate::document::FsDocumentView;
use crate::document::LinksElement;
use crate::document::LinksElementView;
use crate::document::clone_dir_path;
use crate::document::panel_bound;
use crate::document::structure_bound;
use crate::read::document::ReadElement;
use crate::read::document::ReadElementView;
use crate::read::document::ReadFsDocument;
use crate::read::document::ReadFsDocumentView;
use crate::read::document::ReadInlineElement;
use crate::read::document::ReadInlineElementView;
use crate::text::join3;
use crate::views::clone_optional_text;
use crate::views::clone_texts;
use crate::views::index_below;
use crate::views::index_of;
use crate::views::lemma_index_below;
use crate::views::lemma_index_of;
use crate::views::views;

verus! {

/// The message for a link of a document to an article that is not
/// registered.
pub open spec fn missing_article_message(article_key: Seq<char>) -> Seq<char> {
    "Article "@ + article_key + " does not exist."@
}

/// Whether `link` is a link to an article that is not registered in
/// `store`.
pub open spec fn unbound(store: ClassesView, link: ReadInlineElementView) -> bool {
    link matches ReadInlineElementView::Link(key, _) && !store.article_map.contains_key(key)
}

/// The element of a panel that `link` stands for: a link is bound to the
/// article that is registered under its key.
pub open spec fn bind_link(store: ClassesView, link: ReadInlineElementView) -> LinksElementView {
    match link {
        ReadInlineElementView::Heading(level, text, index) => LinksElementView::Heading(
            level,
            text,
            index,
        ),
        ReadInlineElementView::Link(key, index) => LinksElementView::Link(
            store.article_map[key],
            index,
        ),
    }
}

/// For each of `links`, whether it is a link to an article that is not
/// registered.
pub open spec fn unbound_links(store: ClassesView, links: Seq<ReadInlineElementView>) -> Seq<bool> {
    Seq::new(links.len(), |i: int| unbound(store, links[i]))
}

/// The panel that `links` stand for, or the message for the first of them
/// that links to an article that is not registered.
pub open spec fn bind_panel(store: ClassesView, links: Seq<ReadInlineElementView>) -> Result<
    Seq<LinksElementView>,
    Seq<char>,
> {
    match index_of(unbound_links(store, links), true) {
        Some(i) => Err(missing_article_message(links[i]->Link_0)),
        None => Ok(Seq::new(links.len(), |i: int| bind_link(store, links[i]))),
    }
}

/// The element of the structure of a document that `element` stands for,
/// or the message for the first link to an article that is not registered.
pub open spec fn bind_element(store: ClassesView, element: ReadElementView) -> Result<
    DocumentElementView,
    Seq<char>,
> {
    match element {
        ReadElementView::Heading(level, index, text) => Ok(
            DocumentElementView::Heading(level, index, text),
        ),
        ReadElementView::Paragraph(text) => Ok(DocumentElementView::Paragraph(text)),
        ReadElementView::Panel(links) => match bind_panel(store, links) {
            Ok(links) => Ok(DocumentElementView::Links(links)),
            Err(e) => Err(e),
        },
    }
}

/// For each of `elements`, whether it holds a link to an article that is
/// not registered.
pub open spec fn failing_elements(store: ClassesView, elements: Seq<ReadElementView>) -> Seq<bool> {
    Seq::new(elements.len(), |i: int| bind_element(store, elements[i]) is Err)
}

/// The structure that `elements` stand for, or the message for the first
/// link to an article that is not registered.
pub open spec fn bind_structure(store: ClassesView, elements: Seq<ReadElementView>) -> Result<
    Seq<DocumentElementView>,
    Seq<char>,
> {
    match index_of(failing_elements(store, elements), true) {
        Some(i) => Err(bind_element(store, elements[i])->Err_0),
        None => Ok(Seq::new(elements.len(), |i: int| bind_element(store, elements[i])->Ok_0)),
    }
}

/// The document that `read` stands for, or the message for the first link
/// to an article that is not registered. The resolution paths of the
/// document are its own, followed by `project_paths`.
pub open spec fn bind_document(
    store: ClassesView,
    read: ReadFsDocumentView,
    project_paths: Seq<Seq<char>>,
) -> Result<FsDocumentView, Seq<char>> {
    match bind_structure(store, read.document.read_elements) {
        Err(e) => Err(e),
        Ok(structure) => Ok(
            FsDocumentView {
                key: read.document.key,
                dir_path: read.dir_path,
                file_name: read.file_name,
                title: read.document.title,
                description: read.document.description,
                preamble: read.document.preamble,
                resolution_paths: read.document.resolution_paths + project_paths,
                structure,
            },
        ),
    }
}

/// What a result that is a panel or an error message holds.
pub open spec fn panel_view(r: Result<Vec<LinksElement>, String>) -> Result<
    Seq<LinksElementView>,
    Seq<char>,
> {
    match r {
        Ok(panel) => Ok(views(panel@)),
        Err(e) => Err(e@),
    }
}

/// What a result that is a document or an error message holds.
pub open spec fn document_view(r: Result<FsDocument, String>) -> Result<FsDocumentView, Seq<char>> {
    match r {
        Ok(document) => Ok(document@),
        Err(e) => Err(e@),
    }
}

/// Binds the links of a panel to the articles that are registered under
/// their keys.
fn process_panel(classes: &Classes, links: &Vec<ReadInlineElement>) -> (r: Result<
    Vec<LinksElement>,
    String,
>)
    ensures
        panel_view(r) == bind_panel(classes@, views(links@)),
{
    let ghost read = views(links@);
    let ghost faults = unbound_links(classes@, read);
    let mut panel: Vec<LinksElement> = Vec::new();
    let mut i: usize = 0;
    while i < links.len()
        invariant
            i <= links.len(),
            read == views(links@),
            faults == unbound_links(classes@, read),
            panel.len() == i,
            index_below(faults, true, i as int) is None,
            forall|k: int| 0 <= k < i ==> (#[trigger] panel[k])@ == bind_link(classes@, read[k]),
        decreases links.len() - i,
    {
        assert(read[i as int] == links[i as int]@);
        assert(faults[i as int] == unbound(classes@, read[i as int]));
        match &links[i] {
            ReadInlineElement::Heading(level, text, index) => {
                panel.push(LinksElement::Heading(*level, text.clone(), clone_optional_text(index)));
            },
            ReadInlineElement::Link(key, index) => {
                match classes.get_article(key.as_str()) {
                    None => {
                        proof {
                            lemma_index_below(faults, true, i as int);
                            lemma_index_of(faults, true);
                        }
                        return Err(join3("Article ", key.as_str(), " does not exist."));
                    },
                    Some(article) => {
                        panel.push(LinksElement::Link(article, clone_optional_text(index)));
                    },
                }
            },
        }
        i = i + 1;
    }
    assert(views(panel@) =~= Seq::new(read.len(), |k: int| bind_link(classes@, read[k])));
    Ok(panel)
}

/// Makes the document that `read_fs_document` stands for: its links are
/// bound to the articles that are registered under their keys, and its
/// resolution paths are followed by those of the project.
///
/// Fails at the first link to an article that is not registered.
pub fn process_document(
    classes: &Classes,
    read_fs_document: &ReadFsDocument,
    project_resolution_paths: &[String],
) -> (r: Result<FsDocument, String>)
    ensures
        document_view(r) == bind_document(
            classes@,
            read_fs_document@,
            views(project_resolution_paths@),
        ),
{
    let read_document = &read_fs_document.document;
    let ghost read = views(read_document.read_elements@);
    let ghost faults = failing_elements(classes@, read);
    let mut structure: Vec<DocumentElement> = Vec::new();
    let mut i: usize = 0;
    while i < read_document.read_elements.len()
        invariant
            i <= read_document.read_elements.len(),
            *read_document == read_fs_document.document,
            read == views(read_document.read_elements@),
            faults == failing_elements(classes@, read),
            structure.len() == i,
            index_below(faults, true, i as int) is None,
            forall|k: int|
                0 <= k < i ==> Ok::<DocumentElementView, Seq<char>>((#[trigger] structure[k])@)
                    == bind_element(classes@, read[k]),
        decreases read_document.read_elements.len() - i,
    {
        assert(read[i as int] == read_document.read_elements[i as int]@);
        assert(faults[i as int] == (bind_element(classes@, read[i as int]) is Err));
        match &read_document.read_elements[i] {
            ReadElement::Heading(level, index, text) => {
                structure.push(
                    DocumentElement::Heading(*level, clone_optional_text(index), text.clone()),
                );
            },
            ReadElement::Paragraph(text) => {
                structure.push(DocumentElement::Paragraph(text.clone()));
            },
            ReadElement::Panel(links) => {
                match process_panel(classes, links) {
                    Err(e) => {
                        proof {
                            assert(bind_element(classes@, read[i as int]) is Err);
                            assert(faults[i as int]);
                            lemma_index_below(faults, true, i as int);
                            lemma_index_of(faults, true);
                        }
                        return Err(e);
                    },
                    Ok(panel) => {
                        structure.push(DocumentElement::Links(panel));
                    },
                }
            },
        }
        i = i + 1;
    }
    proof {
        lemma_index_below(faults, true, i as int);
        assert(views(structure@) =~= Seq::new(
            read.len(),
            |k: int| bind_element(classes@, read[k])->Ok_0,
        ));
    }
    let mut resolution_paths = clone_texts(&read_document.resolution_paths);
    let mut p: usize = 0;
    while p < project_resolution_paths.len()
        invariant
            p <= project_resolution_paths.len(),
            views(resolution_paths@) == views(read_document.resolution_paths@) + views(
                project_resolution_paths@,
            ).take(p as int),
        decreases project_resolution_paths.len() - p,
    {
        let ghost before = views(resolution_paths@);
        resolution_paths.push(project_resolution_paths[p].clone());
        assert(views(resolution_paths@) =~= before.push(project_resolution_paths[p as int]@));
        assert(views(resolution_paths@) =~= views(read_document.resolution_paths@) + views(
            project_resolution_paths@,
        ).take(p + 1));
        p = p + 1;
    }
    assert(views(project_resolution_paths@).take(p as int) =~= views(project_resolution_paths@));
    Ok(
        FsDocument {
            key: read_document.key.clone(),
            dir_path: clone_dir_path(&read_fs_document.dir_path),
            file_name: read_fs_document.file_name.clone(),
            title: read_document.title.clone(),
            description: clone_optional_text(&read_document.description),
            preamble: clone_optional_text(&read_document.preamble),
            resolution_paths,
            structure,
        },
    )
}

/// The links of a panel that is bound to a store in order are links to
/// articles of the store.
pub proof fn lemma_bind_panel_bound(store: ClassesView, links: Seq<ReadInlineElementView>)
    requires
        store.wf(),
        bind_panel(store, links) is Ok,
    ensures
        panel_bound(store, bind_panel(store, links)->Ok_0),
{
    let faults = unbound_links(store, links);
    lemma_index_of(faults, true);
    let bound = bind_panel(store, links)->Ok_0;
    assert forall|i: int| 0 <= i < bound.len() implies ((#[trigger] bound[i]) matches LinksElementView::Link(
        id,
        _,
    ) ==> store.article_in(id)) by {
        assert(!faults[i]);
        match links[i] {
            ReadInlineElementView::Link(key, _) => {
                assert(store.article_map.contains_key(key));
            },
            _ => {},
        }
    }
}

/// The links of a structure that is bound to a store in order are links to
/// articles of the store.
pub proof fn lemma_bind_structure_bound(store: ClassesView, elements: Seq<ReadElementView>)
    requires
        store.wf(),
        bind_structure(store, elements) is Ok,
    ensures
        structure_bound(store, bind_structure(store, elements)->Ok_0),
{
    let faults = failing_elements(store, elements);
    lemma_index_of(faults, true);
    let bound = bind_structure(store, elements)->Ok_0;
    assert forall|i: int| 0 <= i < bound.len() implies ((#[trigger] bound[i]) matches DocumentElementView::Links(
        links,
    ) ==> panel_bound(store, links)) by {
        assert(!faults[i]);
        match elements[i] {
            ReadElementView::Panel(links) => {
                lemma_bind_panel_bound(store, links);
            },
            _ => {},
        }
    }
}

/// Links to articles of a store are links to articles of the store with
/// more links between its classes.
pub proof fn lemma_bound_links_only(
    before: ClassesView,
    after: ClassesView,
    structure: Seq<DocumentElementView>,
)
    requires
        links_only(before, after),
        structure_bound(before, structure),
    ensures
        structure_bound(after, structure),
{
    assert forall|i: int| 0 <= i < structure.len() implies ((#[trigger] structure[i]) matches DocumentElementView::Links(
        links,
    ) ==> panel_bound(after, links)) by {
        match structure[i] {
            DocumentElementView::Links(links) => {
                assert(panel_bound(before, links));
                assert forall|k: int| 0 <= k < links.len() implies ((#[trigger] links[k]) matches LinksElementView::Link(
                    id,
                    _,
                ) ==> after.article_in(id)) by {
                    match links[k] {
                        LinksElementView::Link(id, _) => {
                            assert(before.article_in(id));
                            assert(after.classes[id.class as int].articles
                                == before.classes[id.class as int].articles);
                        },
                        _ => {},
                    }
                }
            },
            _ => {},
        }
    }
}

} // verus!
