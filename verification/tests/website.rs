use notarium::class::Article;
use notarium::class::Class;
use notarium::class::Classes;
use notarium::compile::compile;
use notarium::document::DirNode;
use notarium::document::FsDocument;
use notarium::model::process_model;
use notarium::model::Model;
use notarium::read::article::ArticleElement;
use notarium::read::article::ReadArticle;
use notarium::read::document::ReadDocument;
use notarium::read::document::ReadElement;
use notarium::read::document::ReadFsDocument;
use notarium::read::document::ReadInlineElement;
use notarium::read::model::ReadArticleType;
use notarium::read::model::ReadLinkType;
use notarium::web::class::generate_article_json;
use notarium::web::class::generate_class_data;
use notarium::web::class::generate_class_page;
use notarium::web::document::generate_article_content;
use notarium::web::document::generate_article_link;
use notarium::web::document::generate_article_link_abbreviation;
use notarium::web::document::generate_article_link_index;
use notarium::web::document::generate_article_links;
use notarium::web::document::generate_details_tab;
use notarium::web::document::generate_document_page;
use notarium::web::document::generate_links_panel;
use notarium::web::document::generate_overview_tab;
use notarium::web::document::generate_prerendered_article;
use notarium::web::document::Templates;
use notarium::web::json::json_map_set_string;
use notarium::web::json::json_text_array;
use notarium::web::model::generate_model_css;
use notarium::web::model::generate_model_data;
use notarium::web::template::expand;
use notarium::web::template::push_bytes;
use notarium::web::template::push_text;
use notarium::web::template::substitute;
use notarium::website::document_page_name;
use notarium::website::write_website;

fn expanded(template: &str, substitutions: Vec<(&str, &str)>) -> String {
    let substitutions =
        substitutions.into_iter().map(|(t, r)| substitute(t, r.as_bytes().to_vec())).collect();
    let mut html = Vec::new();
    expand(&mut html, template.as_bytes(), &substitutions);
    String::from_utf8(html).unwrap()
}

#[test]
fn tokens_are_replaced() {
    assert_eq!(expanded("a{X}b{Y}c{X}", vec![("{X}", "1"), ("{Y}", "22")]), "a1b22c1");
    assert_eq!(expanded("", vec![("{X}", "1")]), "");
    assert_eq!(expanded("plain", vec![]), "plain");
    assert_eq!(expanded("{X}", vec![("{X}", "")]), "");
    assert_eq!(expanded("{X", vec![("{X}", "1")]), "{X");
    assert_eq!(expanded("{{X}}", vec![("{X}", "1")]), "{1}");
}

#[test]
fn a_replacement_is_not_read_again() {
    assert_eq!(expanded("{X}", vec![("{X}", "{Y}"), ("{Y}", "no")]), "{Y}");
    assert_eq!(expanded("{X}{Y}", vec![("{X}", "{X}"), ("{Y}", "{X}")]), "{X}{X}");
}

#[test]
fn the_first_substitution_with_a_token_at_a_place_is_taken() {
    assert_eq!(expanded("{CLASS_LINK}{CLASS}", vec![("{CLASS}", "c"), ("{CLASS_LINK}", "l")]), "lc");
    assert_eq!(expanded("abc", vec![("a", "1"), ("ab", "2")]), "1bc");
    assert_eq!(expanded("abc", vec![("ab", "2"), ("a", "1")]), "2c");
    assert_eq!(expanded("abc", vec![("", "x"), ("b", "2")]), "a2c");
}

#[test]
fn templates_may_hold_any_characters() {
    assert_eq!(expanded("é{X}ü€", vec![("{X}", "ß")]), "éßü€");
}

#[test]
fn bytes_are_appended() {
    let mut html = b"a".to_vec();
    push_text(&mut html, "bé");
    push_bytes(&mut html, &b"cd".to_vec());
    assert_eq!(html, "abécd".as_bytes());
}

#[test]
fn page_names() {
    assert_eq!(document_page_name("groups.d"), "groups.html");
    assert_eq!(document_page_name("groups.d.khi"), "groups.html");
    assert_eq!(document_page_name("a.b.d"), "a.b.html");
    assert_eq!(document_page_name("a.d.d"), "a.html");
    assert_eq!(document_page_name("a.d.khi.d.khi"), "a.html");
    assert_eq!(document_page_name("a.d.khi.d"), "a.d.khi.html");
    assert_eq!(document_page_name(".d"), ".html");
    assert_eq!(document_page_name("other"), "other.html");
}

#[test]
fn json_of_texts() {
    let texts = vec![String::from("a"), String::from("b \"c\"")];
    assert_eq!(
        serde_json::to_string(&json_text_array(&texts)).unwrap(),
        "[\"a\",\"b \\\"c\\\"\"]"
    );
    assert_eq!(serde_json::to_string(&json_text_array(&vec![])).unwrap(), "[]");
    let mut object = serde_json::Map::new();
    json_map_set_string(&mut object, "b", "1");
    json_map_set_string(&mut object, "a", "2");
    json_map_set_string(&mut object, "b", "3");
    assert_eq!(serde_json::to_string(&object).unwrap(), "{\"a\":\"2\",\"b\":\"3\"}");
}

#[test]
fn content_of_an_article() {
    let content = vec![
        ArticleElement::Heading(2, String::from("Two")),
        ArticleElement::Paragraph(String::from("Para")),
        ArticleElement::Html(String::from("<hr>")),
        ArticleElement::Heading(6, String::from("Six")),
    ];
    let mut html = String::from(">");
    generate_article_content(&mut html, &content);
    assert_eq!(html, "><h2>Two</h2><p>Para</p><hr><h6>Six</h6>");
    let mut html = String::new();
    generate_article_content(&mut html, &vec![]);
    assert_eq!(html, "");
}

#[test]
fn json_of_an_article() {
    let article = Article::new(
        0,
        String::from("a@d"),
        vec![String::from("A"), String::from("B")],
        vec![ArticleElement::Paragraph(String::from("p"))],
    );
    assert_eq!(
        serde_json::to_string(&generate_article_json(&article)).unwrap(),
        "{\"content\":\"<p>p</p>\",\"names\":[\"A\",\"B\"]}"
    );
}

#[test]
fn the_page_of_a_class_is_empty() {
    assert_eq!(generate_class_page(&Class::new("x", 0)), Ok(String::new()));
}

fn link_type(key: &str, target_name: &str, show: bool) -> ReadLinkType {
    ReadLinkType {
        key: String::from(key),
        origin_name: String::from(key),
        origin_description: String::from("od"),
        target_name: String::from(target_name),
        target_description: String::from("td"),
        target_show: show,
    }
}

fn model() -> Model {
    let theorem = ReadArticleType {
        key: String::from("thm"),
        name: String::from("Theorem"),
        description: Some(String::from("A theorem.")),
        abbreviation: Some(String::from("T")),
        colour: String::from("#ff0000"),
        links: vec![link_type("uses", "used by", true), link_type("proves", "proved by", false)],
    };
    let definition = ReadArticleType {
        key: String::from("def"),
        name: String::from("Definition"),
        description: None,
        abbreviation: None,
        colour: String::from("#00ff00"),
        links: vec![],
    };
    process_model(&vec![theorem, definition]).ok().unwrap()
}

fn read_document() -> ReadFsDocument {
    let group = ReadArticle {
        type_key: String::from("def"),
        class_key: String::from("group"),
        article_key: String::from("group@d"),
        names: vec![String::from("Group"), String::from("Grp")],
        content: vec![ArticleElement::Paragraph(String::from("G."))],
        links: vec![],
    };
    let lagrange = ReadArticle {
        type_key: String::from("thm"),
        class_key: String::from("lagrange"),
        article_key: String::from("lagrange@d"),
        names: vec![String::from("Lagrange")],
        content: vec![],
        links: vec![
            (String::from("uses"), vec![String::from("group")]),
            (String::from("proves"), vec![String::from("group")]),
        ],
    };
    ReadFsDocument {
        file_name: String::from("d.d.khi"),
        dir_path: vec![
            DirNode { dir_name: String::from("algebra"), crumb: Some(String::from("Algebra")) },
            DirNode { dir_name: String::from("deep"), crumb: None },
        ],
        document: ReadDocument {
            key: String::from("d"),
            title: String::from("Title"),
            description: None,
            preamble: None,
            resolution_paths: vec![String::from("d")],
            read_elements: vec![
                ReadElement::Heading(2, Some(String::from("1")), String::from("Intro")),
                ReadElement::Paragraph(String::from("Text")),
                ReadElement::Panel(vec![
                    ReadInlineElement::Link(String::from("group@d"), None),
                    ReadInlineElement::Heading(3, String::from("Sub"), None),
                    ReadInlineElement::Link(String::from("lagrange@d"), Some(String::from("a"))),
                ]),
            ],
            read_articles: vec![group, lagrange],
        },
    }
}

fn graph() -> (Model, Classes, Vec<FsDocument>) {
    let model = model();
    let (classes, documents) = compile(&model, &[String::from("main")], &[read_document()], &[]).ok().unwrap();
    assert!(classes.all_named());
    (model, classes, documents)
}

fn templates() -> Templates {
    Templates {
        document: String::from(
            "<title>{TITLE}</title><nav>{NAV}</nav><script>{RESOLUTION-PATHS}</script><main>{OVERVIEW}</main><aside>{DETAILS}</aside>",
        ),
        article_link: String::from("<a class=\"{TYPE}\" href=\"#{ARTICLE}\">{ABBREVIATION}{NAME}{INDEX}</a>"),
        article_link_abbreviation: String::from("<b>{TEXT}</b>"),
        article_link_index: String::from("<i>{TEXT}</i>"),
        article_preload: String::from(
            "<article id=\"{ARTICLE}\" data-class=\"{CLASS}\" data-type=\"{TYPE}\">{NAMES}{CONTENT}<a href=\"{CLASS_LINK}\">c</a>{LINKS}</article>",
        ),
    }
}

const MODEL_JSON: &str = "{\"def\":{\"colour\":\"#00ff00\",\"description\":\"Definition\",\"name\":\"Definition\"},\"thm\":{\"abbreviation\":\"T\",\"colour\":\"#ff0000\",\"description\":\"A theorem.\",\"links\":{\"proves\":{\"origin.description\":\"od\",\"origin.name\":\"proves\",\"target.description\":\"td\",\"target.name\":\"proved by\",\"target.show\":\"false\"},\"uses\":{\"origin.description\":\"od\",\"origin.name\":\"uses\",\"target.description\":\"td\",\"target.name\":\"used by\",\"target.show\":\"true\"}},\"name\":\"Theorem\"}}";
const MODEL_CSS: &str = ".thm-type{--type-colour:#ff0000;}.def-type{--type-colour:#00ff00;}";
const GROUP_JSON: &str = "{\"articles\":{\"group@d\":{\"content\":\"<p>G.</p>\",\"names\":[\"Group\",\"Grp\"]}},\"links\":{\"thm:uses\":[\"lagrange\"]},\"type\":\"def\"}";
const LAGRANGE_JSON: &str = "{\"articles\":{\"lagrange@d\":{\"content\":\"\",\"names\":[\"Lagrange\"]}},\"links\":{\"proves\":[\"group\"],\"uses\":[\"group\"]},\"type\":\"thm\"}";
const GROUP_LINK: &str = "<a class=\"def\" href=\"#group@d\">Group</a>";
const LAGRANGE_LINK: &str = "<a class=\"thm\" href=\"#lagrange@d\"><b>T</b>Lagrange<i>a</i></a>";
const LAGRANGE_BUTTON: &str = "<button class=\"link\" data-class=\"lagrange\" data-article=\"lagrange@d\">Lagrange</button>";
const GROUP_BUTTON: &str = "<button class=\"link\" data-class=\"group\" data-article=\"group@d\">Group</button>";

fn group_links() -> String {
    format!(
        "<span class=\"type\" data-type=\"thm:uses\">used by</span>{}<span class=\"type\" data-type=\"thm:proves\">proved by</span>{}",
        LAGRANGE_BUTTON, LAGRANGE_BUTTON
    )
}

fn lagrange_links() -> String {
    format!(
        "<span class=\"type\" data-type=\"uses\">uses</span>{}<span class=\"type\" data-type=\"proves\">proves</span>{}",
        GROUP_BUTTON, GROUP_BUTTON
    )
}

fn group_details() -> String {
    format!(
        "<article id=\"group@d\" data-class=\"group\" data-type=\"def\"><h1>Group</h1><p>Grp</p><p>G.</p><a href=\"/classes/group.html\">c</a>{}</article>",
        group_links()
    )
}

fn lagrange_details() -> String {
    format!(
        "<article id=\"lagrange@d\" data-class=\"lagrange\" data-type=\"thm\"><h1>Lagrange</h1><a href=\"/classes/lagrange.html\">c</a>{}</article>",
        lagrange_links()
    )
}

fn overview() -> String {
    format!(
        "<h2><span>1</span> <span>Intro</span></h2><p>Text</p><div class=\"links\">{}<h3><span>Sub</span></h3>{}</div>",
        GROUP_LINK, LAGRANGE_LINK
    )
}

fn page() -> String {
    format!(
        "<title>Title</title><nav><a href=\"/documents/algebra\">Algebra</a><a href=\"/documents/algebra/deep\">deep</a></nav><script>[\"d\",\"main\"]</script><main>{}</main><aside>{}{}</aside>",
        overview(),
        group_details(),
        lagrange_details()
    )
}

#[test]
fn data_of_the_model() {
    assert_eq!(generate_model_data(&model()), Ok(String::from(MODEL_JSON)));
    assert_eq!(generate_model_data(&process_model(&vec![]).ok().unwrap()), Ok(String::from("{}")));
}

#[test]
fn style_sheet_of_the_model() {
    assert_eq!(generate_model_css(&model()), Ok(String::from(MODEL_CSS)));
    assert_eq!(generate_model_css(&process_model(&vec![]).ok().unwrap()), Ok(String::new()));
}

#[test]
fn data_of_a_class() {
    let (model, classes, _) = graph();
    assert_eq!(generate_class_data(&model, &classes, 0), Ok(String::from(GROUP_JSON)));
    assert_eq!(generate_class_data(&model, &classes, 1), Ok(String::from(LAGRANGE_JSON)));
}

#[test]
fn pieces_of_a_link() {
    let templates = templates();
    let mut html = Vec::new();
    generate_article_link_abbreviation(&mut html, &templates, "Thm");
    generate_article_link_index(&mut html, &templates, "1.2");
    assert_eq!(String::from_utf8(html).unwrap(), "<b>Thm</b><i>1.2</i>");
}

#[test]
fn links_to_articles() {
    let (model, classes, _) = graph();
    let templates = templates();
    let group = classes.get_article("group@d").unwrap();
    let lagrange = classes.get_article("lagrange@d").unwrap();
    let mut html = Vec::new();
    generate_article_link(&mut html, &templates, &model, &classes, group, &None);
    assert_eq!(String::from_utf8(html).unwrap(), GROUP_LINK);
    let mut html = Vec::new();
    generate_article_link(&mut html, &templates, &model, &classes, lagrange, &Some(String::from("a")));
    assert_eq!(String::from_utf8(html).unwrap(), LAGRANGE_LINK);
}

#[test]
fn a_link_to_an_article_without_a_name() {
    let model = model();
    let mut classes = Classes::new();
    let class = classes.insert_class(Class::new("x", 1));
    let id = classes.insert_article(Article::new(class, String::from("x@d"), vec![], vec![]));
    assert!(!classes.all_named());
    let mut html = Vec::new();
    generate_article_link(&mut html, &templates(), &model, &classes, id, &None);
    assert_eq!(String::from_utf8(html).unwrap(), "<a class=\"def\" href=\"#x@d\">???</a>");
}

#[test]
fn overview_and_details() {
    let (model, classes, documents) = graph();
    let templates = templates();
    let document = &documents[0];
    let mut html = Vec::new();
    generate_overview_tab(&mut html, &templates, &model, &classes, &document.structure);
    assert_eq!(String::from_utf8(html).unwrap(), overview());
    let mut html = Vec::new();
    generate_details_tab(&mut html, &templates, &model, &classes, &document.structure, &document.resolution_paths);
    assert_eq!(String::from_utf8(html).unwrap(), format!("{}{}", group_details(), lagrange_details()));
    let mut html = Vec::new();
    match &document.structure[2] {
        notarium::document::DocumentElement::Links(links) => {
            generate_links_panel(&mut html, &templates, &model, &classes, links);
        }
        _ => panic!("expected a panel"),
    }
    assert_eq!(
        String::from_utf8(html).unwrap(),
        format!("<div class=\"links\">{}<h3><span>Sub</span></h3>{}</div>", GROUP_LINK, LAGRANGE_LINK)
    );
}

#[test]
fn links_and_details_of_an_article() {
    let (model, classes, _) = graph();
    let templates = templates();
    let paths = [String::from("d")];
    let mut html = Vec::new();
    generate_article_links(&mut html, &model, &classes, 0, &paths);
    assert_eq!(String::from_utf8(html).unwrap(), group_links());
    let mut html = Vec::new();
    generate_article_links(&mut html, &model, &classes, 1, &paths);
    assert_eq!(String::from_utf8(html).unwrap(), lagrange_links());
    let mut html = Vec::new();
    generate_prerendered_article(
        &mut html,
        &templates,
        &model,
        &classes,
        classes.get_article("lagrange@d").unwrap(),
        &paths,
    );
    assert_eq!(String::from_utf8(html).unwrap(), lagrange_details());
}

#[test]
fn a_linked_class_is_shown_by_the_article_that_it_resolves_to() {
    let model = model();
    let first = read_document();
    let mut second = read_document();
    second.document.key = String::from("e");
    second.document.read_elements = vec![];
    second.document.read_articles.remove(1);
    second.document.read_articles[0].article_key = String::from("group@e");
    second.document.read_articles[0].names = vec![String::from("Gruppe")];
    let (classes, _) = compile(&model, &[], &[first, second], &[]).ok().unwrap();
    let lagrange = classes.get_class("lagrange").unwrap();
    let button = |paths: &[String]| {
        let mut html = Vec::new();
        generate_article_links(&mut html, &model, &classes, lagrange, paths);
        String::from_utf8(html).unwrap()
    };
    assert!(button(&[String::from("e"), String::from("d")]).contains("data-article=\"group@e\">Gruppe</button>"));
    assert!(button(&[String::from("d"), String::from("e")]).contains("data-article=\"group@d\">Group</button>"));
    assert!(button(&[String::from("z")]).contains("data-article=\"group@d\">Group</button>"));
    assert!(button(&[]).contains("data-article=\"group@d\">Group</button>"));
}

#[test]
fn page_of_a_document() {
    let (model, classes, documents) = graph();
    let made = generate_document_page(&templates(), &model, &classes, &documents[0]).ok().unwrap();
    assert_eq!(String::from_utf8(made).unwrap(), page());
}

#[test]
fn files_of_the_website() {
    let (model, classes, documents) = graph();
    let files = write_website(&templates(), &model, &classes, &documents).ok().unwrap();
    let found: Vec<(String, String)> =
        files.iter().map(|f| (f.path.join("/"), String::from_utf8(f.content.clone()).unwrap())).collect();
    assert_eq!(
        found,
        vec![
            (String::from("model.json"), String::from(MODEL_JSON)),
            (String::from("model.css"), String::from(MODEL_CSS)),
            (String::from("classes/group.json"), String::from(GROUP_JSON)),
            (String::from("classes/lagrange.json"), String::from(LAGRANGE_JSON)),
            (String::from("documents/algebra/deep/d.html"), page()),
        ]
    );
}

#[test]
fn a_website_of_nothing() {
    let model = process_model(&vec![]).ok().unwrap();
    let (classes, documents) = compile(&model, &[], &[], &[]).ok().unwrap();
    let files = write_website(&templates(), &model, &classes, &documents).ok().unwrap();
    let paths: Vec<String> = files.iter().map(|f| f.path.join("/")).collect();
    assert_eq!(paths, vec![String::from("model.json"), String::from("model.css")]);
    assert_eq!(files[0].content, b"{}");
    assert!(files[1].content.is_empty());
}

#[test]
fn an_obfuscated_article_shows_no_trace_of_its_key() {
    let model = model();
    let dependency = notarium::dependency::ReadDependency {
        inclusion: notarium::dependency::Include::Obfuscated,
        documents: vec![read_document()],
    };
    let (classes, documents) = compile(&model, &[], &[], &[dependency]).ok().unwrap();
    assert!(documents.is_empty());
    let files = write_website(&templates(), &model, &classes, &documents).ok().unwrap();
    for file in &files {
        let content = String::from_utf8(file.content.clone()).unwrap();
        assert!(!content.contains("group@d"), "{}", content);
        assert!(!content.contains("lagrange@d"), "{}", content);
    }
    let data = generate_class_data(&model, &classes, 0).ok().unwrap();
    assert!(data.contains("\"group#"), "{}", data);
    assert!(data.contains("@?\":{"), "{}", data);
}
