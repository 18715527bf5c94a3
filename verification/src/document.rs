//! Documents as they are compiled: the place of a document among the
//! directories, and its structure of headings, paragraphs and panels of
//! links to articles.

use vstd::prelude::*;
use crate::class::ArticleId;
use crate::views::clone_optional_text;
use crate::views::option_view;
use crate::views::views;

verus! {

/// A directory on the way to a document.
pub struct DirNode {
    pub dir_name: String,
    /// The name under which the directory is shown, where it has one.
    pub crumb: Option<String>,
}

/// What a `DirNode` holds.
pub ghost struct DirNodeView {
    pub dir_name: Seq<char>,
    pub crumb: Option<Seq<char>>,
}

impl View for DirNode {
    type V = DirNodeView;

    open spec fn view(&self) -> DirNodeView {
        DirNodeView { dir_name: self.dir_name@, crumb: option_view(self.crumb) }
    }
}

impl Clone for DirNode {
    fn clone(&self) -> (copy: Self)
        ensures
            copy@ == self@,
    {
        DirNode { dir_name: self.dir_name.clone(), crumb: clone_optional_text(&self.crumb) }
    }
}

/// A copy of the directories `path`.
pub fn clone_dir_path(path: &Vec<DirNode>) -> (copy: Vec<DirNode>)
    ensures
        views(copy@) == views(path@),
{
    let mut copy: Vec<DirNode> = Vec::new();
    let mut i: usize = 0;
    while i < path.len()
        invariant
            i <= path.len(),
            copy.len() == i,
            forall|j: int| 0 <= j < i ==> copy[j]@ == path[j]@,
        decreases path.len() - i,
    {
        copy.push(path[i].clone());
        i = i + 1;
    }
    assert(views(copy@) =~= views(path@));
    copy
}

/// An element of a panel of links.
pub enum LinksElement {
    /// A heading within the panel: its level, its text and its index.
    Heading(u8, String, Option<String>),
    /// A link to an article, with an index where it has one.
    Link(ArticleId, Option<String>),
}

/// What a `LinksElement` holds.
pub ghost enum LinksElementView {
    Heading(u8, Seq<char>, Option<Seq<char>>),
    Link(ArticleId, Option<Seq<char>>),
}

impl View for LinksElement {
    type V = LinksElementView;

    open spec fn view(&self) -> LinksElementView {
        match self {
            LinksElement::Heading(level, text, index) => LinksElementView::Heading(
                *level,
                text@,
                option_view(*index),
            ),
            LinksElement::Link(article, index) => LinksElementView::Link(
                *article,
                option_view(*index),
            ),
        }
    }
}

/// An element of the structure of a document.
pub enum DocumentElement {
    /// A heading: its level, its index and its text.
    Heading(u8, Option<String>, String),
    /// A paragraph of text.
    Paragraph(String),
    /// A panel of links.
    Links(Vec<LinksElement>),
}

/// What a `DocumentElement` holds.
pub ghost enum DocumentElementView {
    Heading(u8, Option<Seq<char>>, Seq<char>),
    Paragraph(Seq<char>),
    Links(Seq<LinksElementView>),
}

impl View for DocumentElement {
    type V = DocumentElementView;

    open spec fn view(&self) -> DocumentElementView {
        match self {
            DocumentElement::Heading(level, index, text) => DocumentElementView::Heading(
                *level,
                option_view(*index),
                text@,
            ),
            DocumentElement::Paragraph(text) => DocumentElementView::Paragraph(text@),
            DocumentElement::Links(links) => DocumentElementView::Links(views(links@)),
        }
    }
}

/// A document, with its place in the file system.
pub struct FsDocument {
    pub key: String,
    pub dir_path: Vec<DirNode>,
    pub file_name: String,
    pub title: String,
    pub description: Option<String>,
    pub preamble: Option<String>,
    /// The resolution paths of the document, followed by those of the
    /// project.
    pub resolution_paths: Vec<String>,
    pub structure: Vec<DocumentElement>,
}

/// What an `FsDocument` holds.
pub ghost struct FsDocumentView {
    pub key: Seq<char>,
    pub dir_path: Seq<DirNodeView>,
    pub file_name: Seq<char>,
    pub title: Seq<char>,
    pub description: Option<Seq<char>>,
    pub preamble: Option<Seq<char>>,
    pub resolution_paths: Seq<Seq<char>>,
    pub structure: Seq<DocumentElementView>,
}

impl View for FsDocument {
    type V = FsDocumentView;

    open spec fn view(&self) -> FsDocumentView {
        FsDocumentView {
            key: self.key@,
            dir_path: views(self.dir_path@),
            file_name: self.file_name@,
            title: self.title@,
            description: option_view(self.description),
            preamble: option_view(self.preamble),
            resolution_paths: views(self.resolution_paths@),
            structure: views(self.structure@),
        }
    }
}

/// Whether every link of the panel `links` is a link to an article of
/// `store`.
pub open spec fn panel_bound(store: crate::class::ClassesView, links: Seq<LinksElementView>) -> bool {
    forall|i: int|
        0 <= i < links.len() ==> ((#[trigger] links[i]) matches LinksElementView::Link(id, _)
            ==> store.article_in(id))
}

/// Whether every link of the structure `structure` is a link to an article
/// of `store`.
pub open spec fn structure_bound(store: crate::class::ClassesView, structure: Seq<DocumentElementView>) -> bool {
    forall|i: int|
        0 <= i < structure.len() ==> ((#[trigger] structure[i]) matches DocumentElementView::Links(
            links,
        ) ==> panel_bound(store, links))
}

/// Whether every link of the documents `documents` is a link to an
/// article of `store`.
pub open spec fn documents_bound(store: crate::class::ClassesView, documents: Seq<FsDocumentView>) -> bool {
    forall|i: int|
        0 <= i < documents.len() ==> structure_bound(store, (#[trigger] documents[i]).structure)
}

} // verus!
