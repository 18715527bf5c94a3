//! The files of the website of a project: the data and the style sheet of
//! the model, the data of each class, and the page of each document.
//!
//! The files are made whole before any of them is written, so that a
//! website is written only where all of it could be made.

use vstd::prelude::*;
use crate::class::Classes;
use crate::class::ClassesView;
use crate::document::documents_bound;
use crate::document::structure_bound;
use crate::document::DirNodeView;
use crate::document::FsDocument;
use crate::document::FsDocumentView;
use crate::model::ArticleTypeView;
use crate::model::Model;
use crate::text::ends_with;
use crate::text::is_suffix;
use crate::text::join2;
use crate::views::views;
use crate::web::class::class_json;
use crate::web::class::generate_class_data;
use crate::web::document::document_page_bytes;
use crate::web::document::generate_document_page;
use crate::web::document::renderable;
use crate::web::document::Templates;
use crate::web::document::TemplatesView;
use crate::web::json::json_text;
use crate::web::json::JsonView;
use crate::web::model::generate_model_css;
use crate::web::model::generate_model_data;
use crate::web::model::model_css;
use crate::web::model::model_json;
use crate::web::template::push_text;
use crate::web::template::utf8;

verus! {

/// A file of the website: its path below the directory of the website,
/// one name for each step, and what it holds.
pub struct WebFile {
    pub path: Vec<String>,
    pub content: Vec<u8>,
}

/// What a `WebFile` holds.
pub ghost struct WebFileView {
    pub path: Seq<Seq<char>>,
    pub content: Seq<u8>,
}

impl View for WebFile {
    type V = WebFileView;

    open spec fn view(&self) -> WebFileView {
        WebFileView { path: views(self.path@), content: self.content@ }
    }
}

/// The text `s` without the text `suffix` at its end, however many times
/// it stands there.
pub open spec fn trim_end(s: Seq<char>, suffix: Seq<char>) -> Seq<char>
    decreases s.len(),
{
    if suffix.len() > 0 && is_suffix(suffix, s) {
        trim_end(s.take(s.len() - suffix.len()), suffix)
    } else {
        s
    }
}

/// The name of the page of the document in the file with the name
/// `file_name`: the name without `.d` at its end, or else without
/// `.d.khi`, and with `.html` in its place.
pub open spec fn page_name(file_name: Seq<char>) -> Seq<char> {
    if is_suffix(".d"@, file_name) {
        trim_end(file_name, ".d"@) + ".html"@
    } else {
        trim_end(file_name, ".d.khi"@) + ".html"@
    }
}

/// The text `s` without the text `suffix` at its end, however many times
/// it stands there.
fn trim_end_matches<'a>(s: &'a str, suffix: &str) -> (trimmed: &'a str)
    ensures
        trimmed@ == trim_end(s@, suffix@),
{
    let m = suffix.unicode_len();
    let mut n = s.unicode_len();
    let mut trimmed = s;
    assert(s@.take(n as int) =~= s@);
    if m == 0 {
        return s;
    }
    while n >= m && ends_with(trimmed, suffix)
        invariant
            m == suffix@.len(),
            m > 0,
            n <= s@.len(),
            trimmed@ == s@.take(n as int),
            trim_end(s@, suffix@) == trim_end(trimmed@, suffix@),
        decreases n,
    {
        n = n - m;
        let ghost before = trimmed@;
        trimmed = s.substring_char(0, n);
        assert(trimmed@ =~= before.take(before.len() - m));
        assert(trimmed@ =~= s@.take(n as int));
    }
    trimmed
}

/// The name of the page of the document in the file with the name
/// `file_name`.
pub fn document_page_name(file_name: &str) -> (name: String)
    ensures
        name@ == page_name(file_name@),
{
    let stem = if ends_with(file_name, ".d") {
        trim_end_matches(file_name, ".d")
    } else {
        trim_end_matches(file_name, ".d.khi")
    };
    join2(stem, ".html")
}

/// The names of the directories `dir_path`, in order.
pub open spec fn dir_names(dir_path: Seq<DirNodeView>) -> Seq<Seq<char>> {
    Seq::new(dir_path.len(), |i: int| dir_path[i].dir_name)
}

/// The file of the data of the model: `model.json`.
pub open spec fn model_file(model: Seq<ArticleTypeView>) -> WebFileView {
    WebFileView {
        path: seq!["model.json"@],
        content: utf8(json_text(JsonView::Object(model_json(model, model.len() as int)))),
    }
}

/// The file of the style sheet of the model: `model.css`.
pub open spec fn css_file(model: Seq<ArticleTypeView>) -> WebFileView {
    WebFileView {
        path: seq!["model.css"@],
        content: utf8(model_css(model, model.len() as int)),
    }
}

/// The file of the data of the class `class`: the file with the key of the
/// class and `.json` as its name, in the directory `classes`.
pub open spec fn class_file(model: Seq<ArticleTypeView>, store: ClassesView, class: int) -> WebFileView {
    WebFileView {
        path: seq!["classes"@, store.classes[class].key + ".json"@],
        content: utf8(json_text(class_json(model, store, class as usize))),
    }
}

/// The files of the data of the classes, in the order of the classes.
pub open spec fn class_files(model: Seq<ArticleTypeView>, store: ClassesView) -> Seq<WebFileView> {
    Seq::new(store.classes.len(), |i: int| class_file(model, store, i))
}

/// The file of the page of the document `document`: in the directory
/// `documents` and the directories on the way of the document.
pub open spec fn document_file(
    templates: TemplatesView,
    model: Seq<ArticleTypeView>,
    store: ClassesView,
    document: FsDocumentView,
) -> WebFileView {
    WebFileView {
        path: seq!["documents"@] + dir_names(document.dir_path) + seq![
            page_name(document.file_name),
        ],
        content: document_page_bytes(templates, model, store, document),
    }
}

/// The files of the pages of the documents `documents`, in order.
pub open spec fn document_files(
    templates: TemplatesView,
    model: Seq<ArticleTypeView>,
    store: ClassesView,
    documents: Seq<FsDocumentView>,
) -> Seq<WebFileView> {
    Seq::new(documents.len(), |i: int| document_file(templates, model, store, documents[i]))
}

/// The files of the website, in the order in which they are made: the
/// data and the style sheet of the model, the data of the classes, and the
/// pages of the documents.
pub open spec fn website_files(
    templates: TemplatesView,
    model: Seq<ArticleTypeView>,
    store: ClassesView,
    documents: Seq<FsDocumentView>,
) -> Seq<WebFileView> {
    seq![model_file(model), css_file(model)] + class_files(model, store) + document_files(
        templates,
        model,
        store,
        documents,
    )
}

/// The bytes of the text `text`.
fn content_of(text: &str) -> (content: Vec<u8>)
    ensures
        content@ == utf8(text@),
{
    let mut content: Vec<u8> = Vec::new();
    push_text(&mut content, text);
    assert(content@ =~= utf8(text@));
    content
}

/// A path of the single step `name`.
fn single_path(name: &str) -> (path: Vec<String>)
    ensures
        views(path@) == seq![name@],
{
    let mut path: Vec<String> = Vec::new();
    path.push(String::from_str(name));
    assert(views(path@) =~= seq![name@]);
    path
}

/// Makes the file of the data of the model.
pub fn write_model_file(model: &Model) -> (r: Result<WebFile, String>)
    ensures
        r matches Ok(file) && file@ == model_file(model@),
{
    match generate_model_data(model) {
        Ok(data) => Ok(WebFile { path: single_path("model.json"), content: content_of(data.as_str()) }),
        Err(e) => Err(e),
    }
}

/// Makes the file of the style sheet of the model.
pub fn write_model_css(model: &Model) -> (r: Result<WebFile, String>)
    ensures
        r matches Ok(file) && file@ == css_file(model@),
{
    match generate_model_css(model) {
        Ok(css) => Ok(WebFile { path: single_path("model.css"), content: content_of(css.as_str()) }),
        Err(e) => Err(e),
    }
}

/// Makes the file of the data of the class `class`.
pub fn write_class_data(model: &Model, classes: &Classes, class: usize) -> (r: Result<
    WebFile,
    String,
>)
    requires
        renderable(model@, classes@),
        classes@.class_in(class),
    ensures
        r matches Ok(file) && file@ == class_file(model@, classes@, class as int),
{
    let data = match generate_class_data(model, classes, class) {
        Ok(data) => data,
        Err(e) => {
            return Err(e);
        },
    };
    let mut path: Vec<String> = Vec::new();
    path.push(String::from_str("classes"));
    path.push(join2(classes.class(class).get_key().as_str(), ".json"));
    assert(views(path@) =~= seq!["classes"@, classes@.classes[class as int].key + ".json"@]);
    Ok(WebFile { path, content: content_of(data.as_str()) })
}

/// Makes the files of the data of the classes.
pub fn write_classes(model: &Model, classes: &Classes) -> (r: Result<Vec<WebFile>, String>)
    requires
        renderable(model@, classes@),
    ensures
        r matches Ok(files) && views(files@) == class_files(model@, classes@),
{
    let count = classes.get_classes().len();
    let mut files: Vec<WebFile> = Vec::new();
    let mut i: usize = 0;
    while i < count
        invariant
            i <= count,
            count == classes@.classes.len(),
            renderable(model@, classes@),
            files.len() == i,
            forall|k: int| 0 <= k < i ==> (#[trigger] files[k])@ == class_file(model@, classes@, k),
        decreases count - i,
    {
        match write_class_data(model, classes, i) {
            Ok(file) => {
                files.push(file);
            },
            Err(e) => {
                return Err(e);
            },
        }
        i = i + 1;
    }
    assert(views(files@) =~= class_files(model@, classes@));
    Ok(files)
}

/// Makes the file of the page of the document `document`.
pub fn write_document(templates: &Templates, model: &Model, classes: &Classes, document: &FsDocument) -> (r:
    Result<WebFile, String>)
    requires
        renderable(model@, classes@),
        structure_bound(classes@, document@.structure),
    ensures
        r matches Ok(file) && file@ == document_file(templates@, model@, classes@, document@),
{
    let content = match generate_document_page(templates, model, classes, document) {
        Ok(content) => content,
        Err(e) => {
            return Err(e);
        },
    };
    let mut path: Vec<String> = Vec::new();
    path.push(String::from_str("documents"));
    let ghost names = dir_names(document@.dir_path);
    assert(views(path@) =~= seq!["documents"@] + names.take(0));
    let mut i: usize = 0;
    while i < document.dir_path.len()
        invariant
            i <= document.dir_path.len(),
            names == dir_names(document@.dir_path),
            views(path@) == seq!["documents"@] + names.take(i as int),
        decreases document.dir_path.len() - i,
    {
        let ghost before = views(path@);
        assert(names[i as int] == document.dir_path[i as int].dir_name@);
        path.push(document.dir_path[i].dir_name.clone());
        assert(views(path@) =~= before.push(names[i as int]));
        assert(views(path@) =~= seq!["documents"@] + names.take(i + 1));
        i = i + 1;
    }
    let ghost before = views(path@);
    let name = document_page_name(document.file_name.as_str());
    path.push(name);
    assert(names.take(i as int) =~= names);
    assert(views(path@) =~= seq!["documents"@] + names + seq![page_name(document@.file_name)]);
    Ok(WebFile { path, content })
}

/// Makes the files of the pages of the documents `documents`.
pub fn write_documents(
    templates: &Templates,
    model: &Model,
    classes: &Classes,
    documents: &[FsDocument],
) -> (r: Result<Vec<WebFile>, String>)
    requires
        renderable(model@, classes@),
        documents_bound(classes@, views(documents@)),
    ensures
        r matches Ok(files) && views(files@) == document_files(
                templates@,
                model@,
                classes@,
                views(documents@),
            ),
{
    let ghost all = views(documents@);
    let mut files: Vec<WebFile> = Vec::new();
    let mut i: usize = 0;
    while i < documents.len()
        invariant
            i <= documents.len(),
            all == views(documents@),
            renderable(model@, classes@),
            documents_bound(classes@, all),
            files.len() == i,
            forall|k: int|
                0 <= k < i ==> (#[trigger] files[k])@ == document_file(
                    templates@,
                    model@,
                    classes@,
                    all[k],
                ),
        decreases documents.len() - i,
    {
        assert(all[i as int] == documents[i as int]@);
        assert(structure_bound(classes@, all[i as int].structure));
        match write_document(templates, model, classes, &documents[i]) {
            Ok(file) => {
                files.push(file);
            },
            Err(e) => {
                return Err(e);
            },
        }
        i = i + 1;
    }
    assert(views(files@) =~= document_files(templates@, model@, classes@, all));
    Ok(files)
}

/// Makes the files of the website: the data and the style sheet of the
/// model, the data of the classes, and the pages of the documents.
pub fn write_website(
    templates: &Templates,
    model: &Model,
    classes: &Classes,
    documents: &[FsDocument],
) -> (r: Result<Vec<WebFile>, String>)
    requires
        renderable(model@, classes@),
        documents_bound(classes@, views(documents@)),
    ensures
        r matches Ok(files) && views(files@) == website_files(
                templates@,
                model@,
                classes@,
                views(documents@),
            ),
{
    let mut files: Vec<WebFile> = Vec::new();
    match write_model_file(model) {
        Ok(file) => {
            files.push(file);
        },
        Err(e) => {
            return Err(e);
        },
    }
    match write_model_css(model) {
        Ok(file) => {
            files.push(file);
        },
        Err(e) => {
            return Err(e);
        },
    }
    assert(views(files@) =~= seq![model_file(model@), css_file(model@)]);
    let mut data = match write_classes(model, classes) {
        Ok(data) => data,
        Err(e) => {
            return Err(e);
        },
    };
    let mut pages = match write_documents(templates, model, classes, documents) {
        Ok(pages) => pages,
        Err(e) => {
            return Err(e);
        },
    };
    let ghost first = views(files@);
    let ghost second = views(data@);
    let ghost third = views(pages@);
    files.append(&mut data);
    files.append(&mut pages);
    assert(views(files@) =~= first + second + third);
    Ok(files)
}

} // verus!
