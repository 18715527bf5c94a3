//! The page of a document: an overview of its headings, paragraphs and
//! panels of links, and the details of the articles that it links to.

use vstd::prelude::*;
use crate::class::resolve_variant;
use crate::class::ArticleId;
use crate::class::Classes;
use crate::class::ClassesView;
use crate::class::LinkBucketView;
use crate::document::DirNode;
use crate::document::DirNodeView;
use crate::document::DocumentElement;
use crate::document::DocumentElementView;
use crate::document::FsDocument;
use crate::document::FsDocumentView;
use crate::document::LinksElement;
use crate::document::panel_bound;
use crate::document::structure_bound;
use crate::document::LinksElementView;
use crate::model::model_link_types;
use crate::model::ArticleTypeView;
use crate::model::Model;
use crate::read::article::ArticleElement;
use crate::read::article::ArticleElementView;
use crate::text::decimal;
use crate::text::decimal_string;
use crate::views::views;
use crate::web::json::json_text;
use crate::web::json::json_text_array;
use crate::web::json::json_to_string;
use crate::web::json::text_array;
use crate::web::template::bytes_of;
use crate::web::template::concat;
use crate::web::template::concat_below;
use crate::web::template::expand;
use crate::web::template::expand_template;
use crate::web::template::push_bytes;
use crate::web::template::push_text;
use crate::web::template::substitute;
use crate::web::template::utf8;
use crate::web::template::Substitution;
use crate::web::template::SubstitutionView;

verus! {

/// The templates of the pages.
pub struct Templates {
    /// The page of a document, with the tokens `{TITLE}`, `{NAV}`,
    /// `{RESOLUTION-PATHS}`, `{OVERVIEW}` and `{DETAILS}`.
    pub document: String,
    /// The link to an article, with the tokens `{TYPE}`, `{ARTICLE}`,
    /// `{ABBREVIATION}`, `{NAME}` and `{INDEX}`.
    pub article_link: String,
    /// The abbreviation of a link, with the token `{TEXT}`.
    pub article_link_abbreviation: String,
    /// The index of a link, with the token `{TEXT}`.
    pub article_link_index: String,
    /// The details of an article, with the tokens `{ARTICLE}`, `{CLASS}`,
    /// `{TYPE}`, `{NAMES}`, `{CONTENT}`, `{CLASS_LINK}` and `{LINKS}`.
    pub article_preload: String,
}

/// What the `Templates` hold.
pub ghost struct TemplatesView {
    pub document: Seq<char>,
    pub article_link: Seq<char>,
    pub article_link_abbreviation: Seq<char>,
    pub article_link_index: Seq<char>,
    pub article_preload: Seq<char>,
}

impl View for Templates {
    type V = TemplatesView;

    open spec fn view(&self) -> TemplatesView {
        TemplatesView {
            document: self.document@,
            article_link: self.article_link@,
            article_link_abbreviation: self.article_link_abbreviation@,
            article_link_index: self.article_link_index@,
            article_preload: self.article_preload@,
        }
    }
}

/// The substitution of `replacement` for the token `token`.
pub open spec fn put(token: Seq<char>, replacement: Seq<u8>) -> SubstitutionView {
    SubstitutionView { token: utf8(token), replacement }
}

/// Whether a graph can be rendered with a model: the store is in order,
/// every class has an article type and every link a link type of the
/// model, every class has an article, and every article has a name.
pub open spec fn renderable(model: Seq<ArticleTypeView>, store: ClassesView) -> bool {
    &&& store.wf()
    &&& store.typed_in(model.len())
    &&& store.links_among(model_link_types(model))
    &&& store.populated()
    &&& store.named()
}

/// The markup of a heading of the level `level` with the text `text`, and
/// with the index `index` where it has one.
pub open spec fn heading_bytes(level: u8, index: Option<Seq<char>>, text: Seq<char>) -> Seq<u8> {
    match index {
        Some(index) => utf8("<h"@) + utf8(decimal(level as nat)) + utf8("><span>"@) + utf8(index)
            + utf8("</span> <span>"@) + utf8(text) + utf8("</span></h"@) + utf8(
            decimal(level as nat),
        ) + utf8(">"@),
        None => utf8("<h"@) + utf8(decimal(level as nat)) + utf8("><span>"@) + utf8(text) + utf8(
            "</span></h"@,
        ) + utf8(decimal(level as nat)) + utf8(">"@),
    }
}

/// Appends the markup of a heading to `html`.
fn generate_heading(html: &mut Vec<u8>, level: u8, index: &Option<String>, text: &str)
    ensures
        final(html)@ == old(html)@ + heading_bytes(level, crate::views::option_view(*index), text@),
{
    let digits = decimal_string(level as usize);
    push_text(html, "<h");
    push_text(html, digits.as_str());
    push_text(html, "><span>");
    match index {
        Some(index) => {
            push_text(html, index.as_str());
            push_text(html, "</span> <span>");
        },
        None => {},
    }
    push_text(html, text);
    push_text(html, "</span></h");
    push_text(html, digits.as_str());
    push_text(html, ">");
    assert(html@ =~= old(html)@ + heading_bytes(
        level,
        crate::views::option_view(*index),
        text@,
    ));
}

/// The markup of the element `element` of the content of an article.
pub open spec fn element_html(element: ArticleElementView) -> Seq<char> {
    match element {
        ArticleElementView::Heading(level, text) => "<h"@ + decimal(level as nat) + ">"@ + text
            + "</h"@ + decimal(level as nat) + ">"@,
        ArticleElementView::Paragraph(text) => "<p>"@ + text + "</p>"@,
        ArticleElementView::Html(text) => text,
    }
}

/// The markup of the first `n` of the elements `content` of an article.
pub open spec fn content_html(content: Seq<ArticleElementView>, n: int) -> Seq<char>
    decreases n,
{
    if n <= 0 {
        Seq::empty()
    } else {
        content_html(content, n - 1) + element_html(content[n - 1])
    }
}

/// Appends the markup of the content `content` of an article to `html`.
pub fn generate_article_content(html: &mut String, content: &Vec<ArticleElement>)
    ensures
        final(html)@ == old(html)@ + content_html(views(content@), content.len() as int),
{
    let ghost all = views(content@);
    let mut i: usize = 0;
    assert(html@ =~= old(html)@ + content_html(all, 0));
    while i < content.len()
        invariant
            i <= content.len(),
            all == views(content@),
            html@ == old(html)@ + content_html(all, i as int),
        decreases content.len() - i,
    {
        let ghost before = html@;
        assert(all[i as int] == content[i as int]@);
        match &content[i] {
            ArticleElement::Heading(level, text) => {
                let digits = decimal_string(*level as usize);
                html.append("<h");
                html.append(digits.as_str());
                html.append(">");
                html.append(text.as_str());
                html.append("</h");
                html.append(digits.as_str());
                html.append(">");
            },
            ArticleElement::Paragraph(text) => {
                html.append("<p>");
                html.append(text.as_str());
                html.append("</p>");
            },
            ArticleElement::Html(text) => {
                html.append(text.as_str());
            },
        }
        assert(html@ =~= before + element_html(all[i as int]));
        assert(html@ =~= old(html)@ + content_html(all, i + 1));
        i = i + 1;
    }
}

/// The markup of a piece of a link, made from the template `template` with
/// the text `text` for the token `{TEXT}`.
pub open spec fn link_piece_bytes(template: Seq<char>, text: Seq<char>) -> Seq<u8> {
    expand_template(utf8(template), seq![put("{TEXT}"@, utf8(text))])
}

/// Appends a piece of a link to `html`: the template `template` with the
/// text `text` for the token `{TEXT}`.
fn generate_link_piece(html: &mut Vec<u8>, template: &str, text: &str)
    ensures
        final(html)@ == old(html)@ + link_piece_bytes(template@, text@),
{
    let mut replacement: Vec<u8> = Vec::new();
    push_text(&mut replacement, text);
    assert(replacement@ =~= utf8(text@));
    let mut substitutions: Vec<Substitution> = Vec::new();
    substitutions.push(substitute("{TEXT}", replacement));
    assert(views(substitutions@) =~= seq![put("{TEXT}"@, utf8(text@))]);
    expand(html, bytes_of(template), &substitutions);
}

/// Appends the abbreviation of a link to `html`.
pub fn generate_article_link_abbreviation(html: &mut Vec<u8>, templates: &Templates, abbreviation: &str)
    ensures
        final(html)@ == old(html)@ + link_piece_bytes(
            templates@.article_link_abbreviation,
            abbreviation@,
        ),
{
    generate_link_piece(html, templates.article_link_abbreviation.as_str(), abbreviation);
}

/// Appends the index of a link to `html`.
pub fn generate_article_link_index(html: &mut Vec<u8>, templates: &Templates, index: &str)
    ensures
        final(html)@ == old(html)@ + link_piece_bytes(templates@.article_link_index, index@),
{
    generate_link_piece(html, templates.article_link_index.as_str(), index);
}

/// The name under which a link shows an article with the names `names`:
/// the first, and `???` where there is none.
pub open spec fn shown_name(names: Seq<Seq<char>>) -> Seq<char> {
    if names.len() > 0 {
        names[0]
    } else {
        "???"@
    }
}

/// What takes the place of the tokens of the template of links for the
/// article `id` with the index `index`: the key of the article type, the
/// key of the article, the abbreviation of the type where it has one, the
/// first name of the article, and the index where there is one.
pub open spec fn article_link_substitutions(
    templates: TemplatesView,
    model: Seq<ArticleTypeView>,
    store: ClassesView,
    id: ArticleId,
    index: Option<Seq<char>>,
) -> Seq<SubstitutionView> {
    let article = store.article(id);
    let article_type = model[store.classes[id.class as int].article_type as int];
    seq![
        put("{TYPE}"@, utf8(article_type.key)),
        put("{ARTICLE}"@, utf8(article.key)),
        put(
            "{ABBREVIATION}"@,
            match article_type.abbreviation {
                Some(abbreviation) => link_piece_bytes(
                    templates.article_link_abbreviation,
                    abbreviation,
                ),
                None => Seq::empty(),
            },
        ),
        put("{NAME}"@, utf8(shown_name(article.names))),
        put(
            "{INDEX}"@,
            match index {
                Some(index) => link_piece_bytes(templates.article_link_index, index),
                None => Seq::empty(),
            },
        ),
    ]
}

/// The markup of the link to the article `id` with the index `index`.
pub open spec fn article_link_bytes(
    templates: TemplatesView,
    model: Seq<ArticleTypeView>,
    store: ClassesView,
    id: ArticleId,
    index: Option<Seq<char>>,
) -> Seq<u8> {
    expand_template(
        utf8(templates.article_link),
        article_link_substitutions(templates, model, store, id, index),
    )
}

/// The bytes of the text `text`.
fn text_bytes(text: &str) -> (bytes: Vec<u8>)
    ensures
        bytes@ == utf8(text@),
{
    let mut bytes: Vec<u8> = Vec::new();
    push_text(&mut bytes, text);
    assert(bytes@ =~= utf8(text@));
    bytes
}

/// Appends the link to the article `id` to `html`.
pub fn generate_article_link(
    html: &mut Vec<u8>,
    templates: &Templates,
    model: &Model,
    classes: &Classes,
    id: ArticleId,
    index: &Option<String>,
)
    requires
        classes@.typed_in(model@.len()),
        classes@.article_in(id),
    ensures
        final(html)@ == old(html)@ + article_link_bytes(
            templates@,
            model@,
            classes@,
            id,
            crate::views::option_view(*index),
        ),
{
    let article = classes.article(id);
    let article_type = model.article_type(classes.class(id.class).get_article_type());
    let mut abbreviation: Vec<u8> = Vec::new();
    match &article_type.abbreviation {
        Some(text) => {
            generate_article_link_abbreviation(&mut abbreviation, templates, text.as_str());
            assert(abbreviation@ =~= link_piece_bytes(templates@.article_link_abbreviation, text@));
        },
        None => {},
    }
    let names = article.get_names();
    let name = if names.len() > 0 {
        assert(views(names@)[0] == names[0]@);
        text_bytes(names[0].as_str())
    } else {
        text_bytes("???")
    };
    let mut shown: Vec<u8> = Vec::new();
    match index {
        Some(text) => {
            generate_article_link_index(&mut shown, templates, text.as_str());
            assert(shown@ =~= link_piece_bytes(templates@.article_link_index, text@));
        },
        None => {},
    }
    let mut substitutions: Vec<Substitution> = Vec::new();
    substitutions.push(substitute("{TYPE}", text_bytes(article_type.key.as_str())));
    substitutions.push(substitute("{ARTICLE}", text_bytes(article.get_key().as_str())));
    substitutions.push(substitute("{ABBREVIATION}", abbreviation));
    substitutions.push(substitute("{NAME}", name));
    substitutions.push(substitute("{INDEX}", shown));
    assert(views(substitutions@) =~= article_link_substitutions(
        templates@,
        model@,
        classes@,
        id,
        crate::views::option_view(*index),
    ));
    expand(html, bytes_of(templates.article_link.as_str()), &substitutions);
}

/// The markup of the element `element` of a panel of links.
pub open spec fn links_element_bytes(
    templates: TemplatesView,
    model: Seq<ArticleTypeView>,
    store: ClassesView,
    element: LinksElementView,
) -> Seq<u8> {
    match element {
        LinksElementView::Heading(level, text, index) => heading_bytes(level, index, text),
        LinksElementView::Link(id, index) => article_link_bytes(templates, model, store, id, index),
    }
}

/// For each of the elements `elements` of a panel, its markup.
pub open spec fn links_elements_bytes(
    templates: TemplatesView,
    model: Seq<ArticleTypeView>,
    store: ClassesView,
    elements: Seq<LinksElementView>,
) -> Seq<Seq<u8>> {
    Seq::new(elements.len(), |i: int| links_element_bytes(templates, model, store, elements[i]))
}

/// The markup of a panel of links: its elements in a division of the
/// class `links`.
pub open spec fn links_panel_bytes(
    templates: TemplatesView,
    model: Seq<ArticleTypeView>,
    store: ClassesView,
    elements: Seq<LinksElementView>,
) -> Seq<u8> {
    utf8("<div class=\"links\">"@) + concat(links_elements_bytes(templates, model, store, elements))
        + utf8("</div>"@)
}

/// Appends a panel of links to `html`.
pub fn generate_links_panel(
    html: &mut Vec<u8>,
    templates: &Templates,
    model: &Model,
    classes: &Classes,
    elements: &Vec<LinksElement>,
)
    requires
        classes@.typed_in(model@.len()),
        panel_bound(classes@, views(elements@)),
    ensures
        final(html)@ == old(html)@ + links_panel_bytes(
            templates@,
            model@,
            classes@,
            views(elements@),
        ),
{
    let ghost all = views(elements@);
    let ghost pieces = links_elements_bytes(templates@, model@, classes@, all);
    push_text(html, "<div class=\"links\">");
    let ghost start = html@;
    assert(html@ =~= start + concat_below(pieces, 0));
    let mut i: usize = 0;
    while i < elements.len()
        invariant
            i <= elements.len(),
            classes@.typed_in(model@.len()),
            all == views(elements@),
            panel_bound(classes@, all),
            pieces == links_elements_bytes(templates@, model@, classes@, all),
            html@ == start + concat_below(pieces, i as int),
        decreases elements.len() - i,
    {
        let ghost before = html@;
        assert(all[i as int] == elements[i as int]@);
        match &elements[i] {
            LinksElement::Heading(level, text, index) => {
                generate_heading(html, *level, index, text.as_str());
            },
            LinksElement::Link(id, index) => {
                generate_article_link(html, templates, model, classes, *id, index);
            },
        }
        assert(html@ =~= before + pieces[i as int]);
        assert(html@ =~= start + concat_below(pieces, i + 1));
        i = i + 1;
    }
    push_text(html, "</div>");
    assert(html@ =~= old(html)@ + links_panel_bytes(templates@, model@, classes@, all));
}

/// The markup of the element `element` of the structure of a document in
/// the overview.
pub open spec fn overview_element_bytes(
    templates: TemplatesView,
    model: Seq<ArticleTypeView>,
    store: ClassesView,
    element: DocumentElementView,
) -> Seq<u8> {
    match element {
        DocumentElementView::Heading(level, index, text) => heading_bytes(level, index, text),
        DocumentElementView::Paragraph(text) => utf8("<p>"@) + utf8(text) + utf8("</p>"@),
        DocumentElementView::Links(elements) => links_panel_bytes(
            templates,
            model,
            store,
            elements,
        ),
    }
}

/// For each of the elements `elements` of a structure, its markup in the
/// overview.
pub open spec fn overview_elements_bytes(
    templates: TemplatesView,
    model: Seq<ArticleTypeView>,
    store: ClassesView,
    elements: Seq<DocumentElementView>,
) -> Seq<Seq<u8>> {
    Seq::new(
        elements.len(),
        |i: int| overview_element_bytes(templates, model, store, elements[i]),
    )
}

/// Appends the overview of the structure `document_elements` to `html`:
/// its headings, paragraphs and panels of links, in order.
pub fn generate_overview_tab(
    html: &mut Vec<u8>,
    templates: &Templates,
    model: &Model,
    classes: &Classes,
    document_elements: &Vec<DocumentElement>,
)
    requires
        classes@.typed_in(model@.len()),
        structure_bound(classes@, views(document_elements@)),
    ensures
        final(html)@ == old(html)@ + concat(
            overview_elements_bytes(templates@, model@, classes@, views(document_elements@)),
        ),
{
    let ghost all = views(document_elements@);
    let ghost pieces = overview_elements_bytes(templates@, model@, classes@, all);
    assert(html@ =~= old(html)@ + concat_below(pieces, 0));
    let mut i: usize = 0;
    while i < document_elements.len()
        invariant
            i <= document_elements.len(),
            classes@.typed_in(model@.len()),
            all == views(document_elements@),
            structure_bound(classes@, all),
            pieces == overview_elements_bytes(templates@, model@, classes@, all),
            html@ == old(html)@ + concat_below(pieces, i as int),
        decreases document_elements.len() - i,
    {
        let ghost before = html@;
        assert(all[i as int] == document_elements[i as int]@);
        match &document_elements[i] {
            DocumentElement::Heading(level, index, text) => {
                generate_heading(html, *level, index, text.as_str());
            },
            DocumentElement::Paragraph(text) => {
                push_text(html, "<p>");
                push_text(html, text.as_str());
                push_text(html, "</p>");
            },
            DocumentElement::Links(elements) => {
                generate_links_panel(html, templates, model, classes, elements);
            },
        }
        assert(html@ =~= before + pieces[i as int]);
        assert(html@ =~= old(html)@ + concat_below(pieces, i + 1));
        i = i + 1;
    }
}

/// The markup of the button that links to the class `linked`: it names
/// the class and the article that the class resolves to under the
/// resolution paths `paths`, and shows the first name of that article.
pub open spec fn button_bytes(store: ClassesView, linked: usize, paths: Seq<Seq<char>>) -> Seq<u8> {
    let class = store.classes[linked as int];
    let article = class.articles[resolve_variant(class.articles, paths)];
    utf8("<button class=\"link\" data-class=\""@) + utf8(class.key) + utf8("\" data-article=\""@)
        + utf8(article.key) + utf8("\">"@) + utf8(article.names[0]) + utf8("</button>"@)
}

/// For each of the classes `linked`, the markup of its button.
pub open spec fn buttons_bytes(store: ClassesView, linked: Seq<usize>, paths: Seq<Seq<char>>) -> Seq<
    Seq<u8>,
> {
    Seq::new(linked.len(), |i: int| button_bytes(store, linked[i], paths))
}

/// The markup of the head of a bucket of links: the text `name` in a span
/// of the class `type` that is marked with the text `key`.
pub open spec fn bucket_head_bytes(key: Seq<u8>, name: Seq<char>) -> Seq<u8> {
    utf8("<span class=\"type\" data-type=\""@) + key + utf8("\">"@) + utf8(name) + utf8(
        "</span>"@,
    )
}

/// The markup of a bucket of links out of a class (or, where `incoming` is
/// set, into it): a head for the link type and a button for each linked
/// class. The head of links out is marked with the key of the link type and
/// shows the name of the link at its origin; the head of links in is marked
/// with the key of the article type of the origin, a colon and the key of
/// the link type, and shows the name of the link at its target.
pub open spec fn bucket_bytes(
    model: Seq<ArticleTypeView>,
    store: ClassesView,
    bucket: LinkBucketView,
    incoming: bool,
    paths: Seq<Seq<char>>,
) -> Seq<u8> {
    let origin = model[bucket.link_type.article_type as int];
    let link = origin.links[bucket.link_type.link as int];
    let head = if incoming {
        bucket_head_bytes(utf8(origin.key) + utf8(":"@) + utf8(link.key), link.target_name)
    } else {
        bucket_head_bytes(utf8(link.key), link.origin_name)
    };
    head + concat(buttons_bytes(store, bucket.classes, paths))
}

/// For each of the buckets `buckets`, its markup.
pub open spec fn buckets_bytes(
    model: Seq<ArticleTypeView>,
    store: ClassesView,
    buckets: Seq<LinkBucketView>,
    incoming: bool,
    paths: Seq<Seq<char>>,
) -> Seq<Seq<u8>> {
    Seq::new(buckets.len(), |j: int| bucket_bytes(model, store, buckets[j], incoming, paths))
}

/// The markup of the links of the class `class`: the buckets of the links
/// out of it, and then those of the links into it.
pub open spec fn article_links_bytes(
    model: Seq<ArticleTypeView>,
    store: ClassesView,
    class: usize,
    paths: Seq<Seq<char>>,
) -> Seq<u8> {
    concat(buckets_bytes(model, store, store.classes[class as int].links_out, false, paths))
        + concat(buckets_bytes(model, store, store.classes[class as int].links_in, true, paths))
}

/// Appends the button that links to the class `linked` to `html`.
fn generate_button(html: &mut Vec<u8>, classes: &Classes, linked: usize, paths: &[String])
    requires
        classes@.class_in(linked),
        classes@.populated(),
        classes@.named(),
    ensures
        final(html)@ == old(html)@ + button_bytes(classes@, linked, views(paths@)),
{
    let class = classes.class(linked);
    assert(classes@.classes[linked as int].articles.len() > 0);
    let variant = class.resolve_index(paths);
    let article = &class.get_articles()[variant];
    assert(article@ == classes@.classes[linked as int].articles[variant as int]);
    let names = article.get_names();
    assert(classes@.classes[linked as int].articles[variant as int].names.len() > 0);
    assert(views(names@)[0] == names[0]@);
    push_text(html, "<button class=\"link\" data-class=\"");
    push_text(html, class.get_key().as_str());
    push_text(html, "\" data-article=\"");
    push_text(html, article.get_key().as_str());
    push_text(html, "\">");
    push_text(html, names[0].as_str());
    push_text(html, "</button>");
    assert(html@ =~= old(html)@ + button_bytes(classes@, linked, views(paths@)));
}

/// Appends the bucket at `j` of the links out of the class `class` (or,
/// where `incoming` is set, of the links into it) to `html`.
fn generate_bucket(
    html: &mut Vec<u8>,
    model: &Model,
    classes: &Classes,
    class: usize,
    j: usize,
    incoming: bool,
    paths: &[String],
)
    requires
        renderable(model@, classes@),
        classes@.class_in(class),
        j < if incoming {
            classes@.classes[class as int].links_in.len()
        } else {
            classes@.classes[class as int].links_out.len()
        },
    ensures
        final(html)@ == old(html)@ + bucket_bytes(
            model@,
            classes@,
            if incoming {
                classes@.classes[class as int].links_in[j as int]
            } else {
                classes@.classes[class as int].links_out[j as int]
            },
            incoming,
            views(paths@),
        ),
{
    let bucket = if incoming {
        &classes.class(class).get_links_in()[j]
    } else {
        &classes.class(class).get_links_out()[j]
    };
    let ghost held = if incoming {
        classes@.classes[class as int].links_in[j as int]
    } else {
        classes@.classes[class as int].links_out[j as int]
    };
    assert(bucket@ == held);
    proof {
        assert(classes@.class_wf(class as int));
        assert(classes@.class_links_among(class as int, model_link_types(model@)));
        assert(model_link_types(model@).contains(held.link_type));
    }
    let id = bucket.get_link_type();
    let link = model.link_type(id);
    let mut key: Vec<u8> = Vec::new();
    if incoming {
        push_text(&mut key, model.article_type(id.article_type).key.as_str());
        push_text(&mut key, ":");
        push_text(&mut key, link.key.as_str());
        assert(key@ =~= utf8(model@[id.article_type as int].key) + utf8(":"@) + utf8(link@.key));
    } else {
        push_text(&mut key, link.key.as_str());
        assert(key@ =~= utf8(link@.key));
    }
    push_text(html, "<span class=\"type\" data-type=\"");
    push_bytes(html, &key);
    push_text(html, "\">");
    push_text(
        html,
        if incoming {
            link.target_name.as_str()
        } else {
            link.origin_name.as_str()
        },
    );
    push_text(html, "</span>");
    let ghost head = bucket_head_bytes(
        key@,
        if incoming {
            link@.target_name
        } else {
            link@.origin_name
        },
    );
    assert(html@ =~= old(html)@ + head);
    let linked = bucket.get_classes();
    let ghost pieces = buttons_bytes(classes@, held.classes, views(paths@));
    let ghost start = html@;
    assert(html@ =~= start + concat_below(pieces, 0));
    let mut i: usize = 0;
    while i < linked.len()
        invariant
            i <= linked.len(),
            renderable(model@, classes@),
            linked@ == held.classes,
            forall|k: int| 0 <= k < held.classes.len() ==> (#[trigger] held.classes[k]) < classes@.classes.len(),
            pieces == buttons_bytes(classes@, held.classes, views(paths@)),
            html@ == start + concat_below(pieces, i as int),
        decreases linked.len() - i,
    {
        let ghost before = html@;
        assert(held.classes[i as int] < classes@.classes.len());
        generate_button(html, classes, linked[i], paths);
        assert(html@ =~= before + pieces[i as int]);
        assert(html@ =~= start + concat_below(pieces, i + 1));
        i = i + 1;
    }
    assert(html@ =~= old(html)@ + (head + concat(pieces)));
}

/// Appends the links of the class `class` to `html`, each linked class
/// shown by the article that it resolves to under `resolution_paths`.
pub fn generate_article_links(
    html: &mut Vec<u8>,
    model: &Model,
    classes: &Classes,
    class: usize,
    resolution_paths: &[String],
)
    requires
        renderable(model@, classes@),
        classes@.class_in(class),
    ensures
        final(html)@ == old(html)@ + article_links_bytes(
            model@,
            classes@,
            class,
            views(resolution_paths@),
        ),
{
    let ghost paths = views(resolution_paths@);
    let ghost forth = buckets_bytes(
        model@,
        classes@,
        classes@.classes[class as int].links_out,
        false,
        paths,
    );
    let ghost back = buckets_bytes(
        model@,
        classes@,
        classes@.classes[class as int].links_in,
        true,
        paths,
    );
    let outgoing = classes.class(class).get_links_out().len();
    assert(html@ =~= old(html)@ + concat_below(forth, 0));
    let mut j: usize = 0;
    while j < outgoing
        invariant
            j <= outgoing,
            outgoing == classes@.classes[class as int].links_out.len(),
            renderable(model@, classes@),
            classes@.class_in(class),
            paths == views(resolution_paths@),
            forth == buckets_bytes(
                model@,
                classes@,
                classes@.classes[class as int].links_out,
                false,
                paths,
            ),
            html@ == old(html)@ + concat_below(forth, j as int),
        decreases outgoing - j,
    {
        let ghost before = html@;
        generate_bucket(html, model, classes, class, j, false, resolution_paths);
        assert(html@ =~= before + forth[j as int]);
        assert(html@ =~= old(html)@ + concat_below(forth, j + 1));
        j = j + 1;
    }
    let incoming = classes.class(class).get_links_in().len();
    let ghost start = html@;
    assert(html@ =~= start + concat_below(back, 0));
    let mut j: usize = 0;
    while j < incoming
        invariant
            j <= incoming,
            incoming == classes@.classes[class as int].links_in.len(),
            renderable(model@, classes@),
            classes@.class_in(class),
            paths == views(resolution_paths@),
            back == buckets_bytes(
                model@,
                classes@,
                classes@.classes[class as int].links_in,
                true,
                paths,
            ),
            html@ == start + concat_below(back, j as int),
        decreases incoming - j,
    {
        let ghost before = html@;
        generate_bucket(html, model, classes, class, j, true, resolution_paths);
        assert(html@ =~= before + back[j as int]);
        assert(html@ =~= start + concat_below(back, j + 1));
        j = j + 1;
    }
    assert(html@ =~= old(html)@ + (concat(forth) + concat(back)));
}

/// For each of the names `names` but the first, its markup as a paragraph.
pub open spec fn other_names_bytes(names: Seq<Seq<char>>) -> Seq<Seq<u8>> {
    Seq::new(
        (names.len() - 1) as nat,
        |i: int| utf8("<p>"@) + utf8(names[i + 1]) + utf8("</p>"@),
    )
}

/// The markup of the names `names` of an article: the first as a heading,
/// the others as paragraphs.
pub open spec fn names_bytes(names: Seq<Seq<char>>) -> Seq<u8> {
    utf8("<h1>"@) + utf8(names[0]) + utf8("</h1>"@) + concat(other_names_bytes(names))
}

/// Appends the names `names` of an article to `html`.
fn generate_names(html: &mut Vec<u8>, names: &Vec<String>)
    requires
        names.len() > 0,
    ensures
        final(html)@ == old(html)@ + names_bytes(views(names@)),
{
    let ghost all = views(names@);
    let ghost pieces = other_names_bytes(all);
    assert(all[0] == names[0]@);
    push_text(html, "<h1>");
    push_text(html, names[0].as_str());
    push_text(html, "</h1>");
    let ghost start = html@;
    assert(html@ =~= start + concat_below(pieces, 0));
    let mut i: usize = 1;
    while i < names.len()
        invariant
            1 <= i <= names.len(),
            all == views(names@),
            pieces == other_names_bytes(all),
            html@ == start + concat_below(pieces, i - 1),
        decreases names.len() - i,
    {
        let ghost before = html@;
        assert(all[i as int] == names[i as int]@);
        push_text(html, "<p>");
        push_text(html, names[i].as_str());
        push_text(html, "</p>");
        assert(html@ =~= before + pieces[i - 1]);
        assert(html@ =~= start + concat_below(pieces, i as int));
        i = i + 1;
    }
    assert(html@ =~= old(html)@ + names_bytes(all));
}

/// What takes the place of the tokens of the template of details for the
/// article `id`: the key of the article, the key of its class, the key of
/// its article type, its names, its content, the address of the page of its
/// class, and the links of its class.
pub open spec fn preload_substitutions(
    model: Seq<ArticleTypeView>,
    store: ClassesView,
    id: ArticleId,
    paths: Seq<Seq<char>>,
) -> Seq<SubstitutionView> {
    let class = store.classes[id.class as int];
    let article = store.article(id);
    seq![
        put("{ARTICLE}"@, utf8(article.key)),
        put("{CLASS}"@, utf8(class.key)),
        put("{TYPE}"@, utf8(model[class.article_type as int].key)),
        put("{NAMES}"@, names_bytes(article.names)),
        put("{CONTENT}"@, utf8(content_html(article.content, article.content.len() as int))),
        put("{CLASS_LINK}"@, utf8("/classes/"@) + utf8(class.key) + utf8(".html"@)),
        put("{LINKS}"@, article_links_bytes(model, store, id.class, paths)),
    ]
}

/// The markup of the details of the article `id`.
pub open spec fn prerendered_article_bytes(
    templates: TemplatesView,
    model: Seq<ArticleTypeView>,
    store: ClassesView,
    id: ArticleId,
    paths: Seq<Seq<char>>,
) -> Seq<u8> {
    expand_template(utf8(templates.article_preload), preload_substitutions(model, store, id, paths))
}

/// Appends the details of the article `id` to `html`: the article as it is
/// put into the page of a document, with the links of its class resolved
/// under `resolution_paths`.
pub fn generate_prerendered_article(
    html: &mut Vec<u8>,
    templates: &Templates,
    model: &Model,
    classes: &Classes,
    id: ArticleId,
    resolution_paths: &[String],
)
    requires
        renderable(model@, classes@),
        classes@.article_in(id),
    ensures
        final(html)@ == old(html)@ + prerendered_article_bytes(
            templates@,
            model@,
            classes@,
            id,
            views(resolution_paths@),
        ),
{
    let class = classes.class(id.class);
    let article = classes.article(id);
    let article_type = model.article_type(class.get_article_type());
    let mut names: Vec<u8> = Vec::new();
    assert(classes@.classes[id.class as int].articles[id.variant as int].names.len() > 0);
    generate_names(&mut names, article.get_names());
    assert(names@ =~= names_bytes(article@.names));
    let mut content = String::new();
    generate_article_content(&mut content, article.get_content());
    assert(content@ =~= content_html(article@.content, article@.content.len() as int));
    let mut class_link: Vec<u8> = Vec::new();
    push_text(&mut class_link, "/classes/");
    push_text(&mut class_link, class.get_key().as_str());
    push_text(&mut class_link, ".html");
    assert(class_link@ =~= utf8("/classes/"@) + utf8(class@.key) + utf8(".html"@));
    let mut links: Vec<u8> = Vec::new();
    generate_article_links(&mut links, model, classes, id.class, resolution_paths);
    assert(links@ =~= article_links_bytes(model@, classes@, id.class, views(resolution_paths@)));
    let mut substitutions: Vec<Substitution> = Vec::new();
    substitutions.push(substitute("{ARTICLE}", text_bytes(article.get_key().as_str())));
    substitutions.push(substitute("{CLASS}", text_bytes(class.get_key().as_str())));
    substitutions.push(substitute("{TYPE}", text_bytes(article_type.key.as_str())));
    substitutions.push(substitute("{NAMES}", names));
    substitutions.push(substitute("{CONTENT}", text_bytes(content.as_str())));
    substitutions.push(substitute("{CLASS_LINK}", class_link));
    substitutions.push(substitute("{LINKS}", links));
    assert(views(substitutions@) =~= preload_substitutions(
        model@,
        classes@,
        id,
        views(resolution_paths@),
    ));
    expand(html, bytes_of(templates.article_preload.as_str()), &substitutions);
}

/// The details of the element `element` of a panel: those of the article
/// of a link, and nothing for a heading.
pub open spec fn details_link_bytes(
    templates: TemplatesView,
    model: Seq<ArticleTypeView>,
    store: ClassesView,
    element: LinksElementView,
    paths: Seq<Seq<char>>,
) -> Seq<u8> {
    match element {
        LinksElementView::Heading(_, _, _) => Seq::empty(),
        LinksElementView::Link(id, _) => prerendered_article_bytes(
            templates,
            model,
            store,
            id,
            paths,
        ),
    }
}

/// For each of the elements `elements` of a panel, its details.
pub open spec fn details_links_bytes(
    templates: TemplatesView,
    model: Seq<ArticleTypeView>,
    store: ClassesView,
    elements: Seq<LinksElementView>,
    paths: Seq<Seq<char>>,
) -> Seq<Seq<u8>> {
    Seq::new(
        elements.len(),
        |i: int| details_link_bytes(templates, model, store, elements[i], paths),
    )
}

/// The details of the element `element` of the structure of a document:
/// those of the links of a panel, and nothing for any other element.
pub open spec fn details_element_bytes(
    templates: TemplatesView,
    model: Seq<ArticleTypeView>,
    store: ClassesView,
    element: DocumentElementView,
    paths: Seq<Seq<char>>,
) -> Seq<u8> {
    match element {
        DocumentElementView::Links(elements) => concat(
            details_links_bytes(templates, model, store, elements, paths),
        ),
        _ => Seq::empty(),
    }
}

/// For each of the elements `elements` of a structure, its details.
pub open spec fn details_elements_bytes(
    templates: TemplatesView,
    model: Seq<ArticleTypeView>,
    store: ClassesView,
    elements: Seq<DocumentElementView>,
    paths: Seq<Seq<char>>,
) -> Seq<Seq<u8>> {
    Seq::new(
        elements.len(),
        |i: int| details_element_bytes(templates, model, store, elements[i], paths),
    )
}

/// Appends the details of the links of the panel `elements` to `html`.
fn generate_panel_details(
    html: &mut Vec<u8>,
    templates: &Templates,
    model: &Model,
    classes: &Classes,
    elements: &Vec<LinksElement>,
    resolution_paths: &[String],
)
    requires
        renderable(model@, classes@),
        panel_bound(classes@, views(elements@)),
    ensures
        final(html)@ == old(html)@ + concat(
            details_links_bytes(
                templates@,
                model@,
                classes@,
                views(elements@),
                views(resolution_paths@),
            ),
        ),
{
    let ghost all = views(elements@);
    let ghost paths = views(resolution_paths@);
    let ghost pieces = details_links_bytes(templates@, model@, classes@, all, paths);
    assert(html@ =~= old(html)@ + concat_below(pieces, 0));
    let mut i: usize = 0;
    while i < elements.len()
        invariant
            i <= elements.len(),
            renderable(model@, classes@),
            all == views(elements@),
            paths == views(resolution_paths@),
            panel_bound(classes@, all),
            pieces == details_links_bytes(templates@, model@, classes@, all, paths),
            html@ == old(html)@ + concat_below(pieces, i as int),
        decreases elements.len() - i,
    {
        let ghost before = html@;
        assert(all[i as int] == elements[i as int]@);
        match &elements[i] {
            LinksElement::Heading(_, _, _) => {},
            LinksElement::Link(id, _) => {
                generate_prerendered_article(html, templates, model, classes, *id, resolution_paths);
            },
        }
        assert(html@ =~= before + pieces[i as int]);
        assert(html@ =~= old(html)@ + concat_below(pieces, i + 1));
        i = i + 1;
    }
}

/// Appends the details of the articles that the structure
/// `document_elements` links to to `html`, in the order of the links.
pub fn generate_details_tab(
    html: &mut Vec<u8>,
    templates: &Templates,
    model: &Model,
    classes: &Classes,
    document_elements: &Vec<DocumentElement>,
    resolution_paths: &[String],
)
    requires
        renderable(model@, classes@),
        structure_bound(classes@, views(document_elements@)),
    ensures
        final(html)@ == old(html)@ + concat(
            details_elements_bytes(
                templates@,
                model@,
                classes@,
                views(document_elements@),
                views(resolution_paths@),
            ),
        ),
{
    let ghost all = views(document_elements@);
    let ghost paths = views(resolution_paths@);
    let ghost pieces = details_elements_bytes(templates@, model@, classes@, all, paths);
    assert(html@ =~= old(html)@ + concat_below(pieces, 0));
    let mut i: usize = 0;
    while i < document_elements.len()
        invariant
            i <= document_elements.len(),
            renderable(model@, classes@),
            all == views(document_elements@),
            paths == views(resolution_paths@),
            structure_bound(classes@, all),
            pieces == details_elements_bytes(templates@, model@, classes@, all, paths),
            html@ == old(html)@ + concat_below(pieces, i as int),
        decreases document_elements.len() - i,
    {
        let ghost before = html@;
        assert(all[i as int] == document_elements[i as int]@);
        match &document_elements[i] {
            DocumentElement::Links(elements) => {
                generate_panel_details(html, templates, model, classes, elements, resolution_paths);
            },
            _ => {},
        }
        assert(html@ =~= before + pieces[i as int]);
        assert(html@ =~= old(html)@ + concat_below(pieces, i + 1));
        i = i + 1;
    }
}

/// The address of the directory at `n` on the way `dir_path`: `/documents`
/// and the names of the directories up to it.
pub open spec fn nav_path(dir_path: Seq<DirNodeView>, n: int) -> Seq<char>
    decreases n,
{
    if n <= 0 {
        "/documents"@
    } else {
        nav_path(dir_path, n - 1) + "/"@ + dir_path[n - 1].dir_name
    }
}

/// For each of the directories of the way `dir_path`, the markup of the
/// link to it, which shows its crumb, or its name where it has no crumb.
pub open spec fn nav_links_bytes(dir_path: Seq<DirNodeView>) -> Seq<Seq<u8>> {
    Seq::new(
        dir_path.len(),
        |i: int|
            utf8("<a href=\""@) + utf8(nav_path(dir_path, i + 1)) + utf8("\">"@) + utf8(
                match dir_path[i].crumb {
                    Some(crumb) => crumb,
                    None => dir_path[i].dir_name,
                },
            ) + utf8("</a>"@),
    )
}

/// Appends the links to the directories of the way `dir_path` to `html`.
fn generate_nav(html: &mut Vec<u8>, dir_path: &Vec<DirNode>)
    ensures
        final(html)@ == old(html)@ + concat(nav_links_bytes(views(dir_path@))),
{
    let ghost all = views(dir_path@);
    let ghost pieces = nav_links_bytes(all);
    let mut path = String::from_str("/documents");
    assert(html@ =~= old(html)@ + concat_below(pieces, 0));
    let mut i: usize = 0;
    while i < dir_path.len()
        invariant
            i <= dir_path.len(),
            all == views(dir_path@),
            pieces == nav_links_bytes(all),
            path@ == nav_path(all, i as int),
            html@ == old(html)@ + concat_below(pieces, i as int),
        decreases dir_path.len() - i,
    {
        let ghost before = html@;
        let node = &dir_path[i];
        assert(all[i as int] == node@);
        path.append("/");
        path.append(node.dir_name.as_str());
        push_text(html, "<a href=\"");
        push_text(html, path.as_str());
        push_text(html, "\">");
        match &node.crumb {
            Some(crumb) => {
                push_text(html, crumb.as_str());
            },
            None => {
                push_text(html, node.dir_name.as_str());
            },
        }
        push_text(html, "</a>");
        assert(html@ =~= before + pieces[i as int]);
        assert(html@ =~= old(html)@ + concat_below(pieces, i + 1));
        i = i + 1;
    }
}

/// What takes the place of the tokens of the template of the page of the
/// document `document`: its title, the links to the directories on its
/// way, its resolution paths as an array of JSON, its overview, and its
/// details.
pub open spec fn document_substitutions(
    templates: TemplatesView,
    model: Seq<ArticleTypeView>,
    store: ClassesView,
    document: FsDocumentView,
) -> Seq<SubstitutionView> {
    seq![
        put("{TITLE}"@, utf8(document.title)),
        put("{NAV}"@, concat(nav_links_bytes(document.dir_path))),
        put("{RESOLUTION-PATHS}"@, utf8(json_text(text_array(document.resolution_paths)))),
        put(
            "{OVERVIEW}"@,
            concat(overview_elements_bytes(templates, model, store, document.structure)),
        ),
        put(
            "{DETAILS}"@,
            concat(
                details_elements_bytes(
                    templates,
                    model,
                    store,
                    document.structure,
                    document.resolution_paths,
                ),
            ),
        ),
    ]
}

/// The page of the document `document`.
pub open spec fn document_page_bytes(
    templates: TemplatesView,
    model: Seq<ArticleTypeView>,
    store: ClassesView,
    document: FsDocumentView,
) -> Seq<u8> {
    expand_template(
        utf8(templates.document),
        document_substitutions(templates, model, store, document),
    )
}

/// Makes the page of the document `document`.
///
/// The page is the template of documents with the title of the document,
/// the links to the directories on its way, its resolution paths, its
/// overview and the details of the articles that it links to.
pub fn generate_document_page(
    templates: &Templates,
    model: &Model,
    classes: &Classes,
    document: &FsDocument,
) -> (r: Result<Vec<u8>, String>)
    requires
        renderable(model@, classes@),
        structure_bound(classes@, document@.structure),
    ensures
        r matches Ok(page) && page@ == document_page_bytes(templates@, model@, classes@, document@),
{
    let paths = json_to_string(&json_text_array(&document.resolution_paths)).unwrap();
    let mut nav: Vec<u8> = Vec::new();
    generate_nav(&mut nav, &document.dir_path);
    assert(nav@ =~= concat(nav_links_bytes(document@.dir_path)));
    let mut overview: Vec<u8> = Vec::new();
    generate_overview_tab(&mut overview, templates, model, classes, &document.structure);
    assert(overview@ =~= concat(
        overview_elements_bytes(templates@, model@, classes@, document@.structure),
    ));
    let mut details: Vec<u8> = Vec::new();
    generate_details_tab(
        &mut details,
        templates,
        model,
        classes,
        &document.structure,
        document.resolution_paths.as_slice(),
    );
    assert(details@ =~= concat(
        details_elements_bytes(
            templates@,
            model@,
            classes@,
            document@.structure,
            document@.resolution_paths,
        ),
    ));
    let mut substitutions: Vec<Substitution> = Vec::new();
    substitutions.push(substitute("{TITLE}", text_bytes(document.title.as_str())));
    substitutions.push(substitute("{NAV}", nav));
    substitutions.push(substitute("{RESOLUTION-PATHS}", text_bytes(paths.as_str())));
    substitutions.push(substitute("{OVERVIEW}", overview));
    substitutions.push(substitute("{DETAILS}", details));
    assert(views(substitutions@) =~= document_substitutions(
        templates@,
        model@,
        classes@,
        document@,
    ));
    let mut page: Vec<u8> = Vec::new();
    expand(&mut page, bytes_of(templates.document.as_str()), &substitutions);
    assert(page@ =~= document_page_bytes(templates@, model@, classes@, document@));
    Ok(page)
}

} // verus!
