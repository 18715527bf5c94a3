use notarium::class::ArticleId;
use notarium::class::Classes;
use notarium::compile::compile;
use notarium::compile::register::obfuscate_key;
use notarium::compile::register::pick_obfuscated_key;
use notarium::compile::bind::process_document;
use notarium::compile::register::process_documents_1;
use notarium::compile::process_documents_2;
use notarium::compile::register::register_article;
use notarium::compile::link::update_class_links;
use notarium::dependency::Include;
use notarium::dependency::ReadDependency;
use notarium::document::DirNode;
use notarium::document::DocumentElement;
use notarium::document::LinksElement;
use notarium::model::process_model;
use notarium::model::LinkTypeId;
use notarium::model::Model;
use notarium::read::article::ArticleElement;
use notarium::read::article::ReadArticle;
use notarium::read::document::ReadDocument;
use notarium::read::document::ReadElement;
use notarium::read::document::ReadFsDocument;
use notarium::read::document::ReadInlineElement;
use notarium::read::model::ReadArticleType;
use notarium::read::model::ReadLinkType;

fn link_type(key: &str) -> ReadLinkType {
    ReadLinkType {
        key: String::from(key),
        origin_name: String::from("o"),
        origin_description: String::from("od"),
        target_name: String::from("t"),
        target_description: String::from("td"),
        target_show: true,
    }
}

fn model() -> Model {
    let theorem = ReadArticleType {
        key: String::from("thm"),
        name: String::from("Theorem"),
        description: None,
        abbreviation: None,
        colour: String::from("#000000"),
        links: vec![link_type("uses"), link_type("proves")],
    };
    let definition = ReadArticleType {
        key: String::from("def"),
        name: String::from("Definition"),
        description: None,
        abbreviation: None,
        colour: String::from("#000000"),
        links: vec![link_type("uses")],
    };
    process_model(&vec![theorem, definition]).ok().unwrap()
}

fn declare(type_key: &str, class: &str, document: &str, links: Vec<(&str, Vec<&str>)>) -> ReadArticle {
    ReadArticle {
        type_key: String::from(type_key),
        class_key: String::from(class),
        article_key: format!("{}@{}", class, document),
        names: vec![format!("{} in {}", class, document)],
        content: vec![ArticleElement::Paragraph(format!("About {}.", class))],
        links: links
            .into_iter()
            .map(|(k, v)| (String::from(k), v.into_iter().map(String::from).collect()))
            .collect(),
    }
}

fn document(key: &str, articles: Vec<ReadArticle>) -> ReadFsDocument {
    let links = articles
        .iter()
        .map(|a| ReadInlineElement::Link(a.article_key.clone(), None))
        .collect();
    ReadFsDocument {
        file_name: format!("{}.d.khi", key),
        dir_path: vec![DirNode { dir_name: String::from("dir"), crumb: Some(String::from("Dir")) }],
        document: ReadDocument {
            key: String::from(key),
            title: format!("Title of {}", key),
            description: Some(String::from("described")),
            preamble: None,
            resolution_paths: vec![String::from(key)],
            read_elements: vec![
                ReadElement::Heading(2, Some(String::from("1")), String::from("Heading")),
                ReadElement::Paragraph(String::from("Text")),
                ReadElement::Panel(links),
            ],
            read_articles: articles,
        },
    }
}

fn out(classes: &Classes, class: &str) -> Vec<(LinkTypeId, Vec<String>)> {
    let id = classes.get_class(class).unwrap();
    classes
        .class(id)
        .get_links_out()
        .iter()
        .map(|b| {
            (
                b.get_link_type(),
                b.get_classes().iter().map(|c| classes.class(*c).get_key().clone()).collect(),
            )
        })
        .collect()
}

fn into(classes: &Classes, class: &str) -> Vec<(LinkTypeId, Vec<String>)> {
    let id = classes.get_class(class).unwrap();
    classes
        .class(id)
        .get_links_in()
        .iter()
        .map(|b| {
            (
                b.get_link_type(),
                b.get_classes().iter().map(|c| classes.class(*c).get_key().clone()).collect(),
            )
        })
        .collect()
}

const THM_USES: LinkTypeId = LinkTypeId { article_type: 0, link: 0 };
const THM_PROVES: LinkTypeId = LinkTypeId { article_type: 0, link: 1 };
const DEF_USES: LinkTypeId = LinkTypeId { article_type: 1, link: 0 };

#[test]
fn registering_makes_the_class_and_the_article() {
    let model = model();
    let mut classes = Classes::new();
    let id = register_article(&model, &mut classes, &declare("def", "group", "algebra", vec![]));
    assert_eq!(id, Ok(ArticleId { class: 0, variant: 0 }));
    assert_eq!(classes.get_class("group"), Some(0));
    assert_eq!(classes.class(0).get_article_type(), 1);
    assert_eq!(classes.get_article("group@algebra"), Some(ArticleId { class: 0, variant: 0 }));
    let article = classes.article(ArticleId { class: 0, variant: 0 });
    assert_eq!(article.get_key(), "group@algebra");
    assert_eq!(article.get_names(), &vec![String::from("group in algebra")]);
    assert!(matches!(&article.get_content()[0], ArticleElement::Paragraph(t) if t == "About group."));
    let id = register_article(&model, &mut classes, &declare("def", "group", "topology", vec![]));
    assert_eq!(id, Ok(ArticleId { class: 0, variant: 1 }));
    assert_eq!(classes.get_classes().len(), 1);
    assert_eq!(classes.class(0).get_articles().len(), 2);
}

#[test]
fn registering_errors() {
    let model = model();
    let mut classes = Classes::new();
    assert_eq!(
        register_article(&model, &mut classes, &declare("lemma", "group", "algebra", vec![])),
        Err(String::from("Found non-declared type lemma."))
    );
    assert!(classes.get_classes().is_empty());
    assert!(register_article(&model, &mut classes, &declare("def", "group", "algebra", vec![])).is_ok());
    assert_eq!(
        register_article(&model, &mut classes, &declare("thm", "group", "topology", vec![])),
        Err(String::from("Article group@topology declared with different type."))
    );
    assert_eq!(classes.get_classes().len(), 1);
    assert_eq!(classes.class(0).get_articles().len(), 1);
    assert_eq!(classes.get_article("group@topology"), None);
}

#[test]
fn a_repeated_article_key_is_registered_and_the_first_stays() {
    let model = model();
    let mut classes = Classes::new();
    let mut first = declare("def", "group", "algebra", vec![]);
    first.names = vec![String::from("the first")];
    let mut second = declare("def", "group", "algebra", vec![]);
    second.names = vec![String::from("the second")];
    assert_eq!(register_article(&model, &mut classes, &first), Ok(ArticleId { class: 0, variant: 0 }));
    assert!(classes.get_warnings().is_empty());
    assert_eq!(register_article(&model, &mut classes, &second), Ok(ArticleId { class: 0, variant: 1 }));
    assert_eq!(classes.get_classes().len(), 1);
    assert_eq!(classes.class(0).get_articles().len(), 2);
    assert_eq!(classes.get_article("group@algebra"), Some(ArticleId { class: 0, variant: 0 }));
    assert_eq!(classes.article(ArticleId { class: 0, variant: 0 }).get_names(), &vec![String::from("the first")]);
    assert_eq!(classes.article(ArticleId { class: 0, variant: 1 }).get_names(), &vec![String::from("the second")]);
    assert_eq!(classes.article(ArticleId { class: 0, variant: 1 }).get_key(), "group@algebra");
    assert_eq!(classes.get_warnings(), &vec![String::from("Article group@algebra was already registered.")]);
    assert!(classes.has_article_key("group@algebra"));
    assert!(!classes.has_article_key("group@topology"));
    assert!(!classes.has_article_key("group"));
}

#[test]
fn compile_goes_on_after_a_repeated_article_key() {
    let model = model();
    let twice = [
        document("one", vec![declare("def", "A", "one", vec![])]),
        document("one", vec![declare("def", "A", "one", vec![]), declare("thm", "B", "one", vec![("uses", vec!["A"])])]),
    ];
    let (classes, documents) = compile(&model, &[], &twice, &[]).ok().unwrap();
    assert_eq!(documents.len(), 2);
    let a = classes.get_class("A").unwrap();
    assert_eq!(classes.class(a).get_articles().len(), 2);
    assert_eq!(classes.get_article("A@one"), Some(ArticleId { class: a, variant: 0 }));
    assert_eq!(classes.get_warnings(), &vec![String::from("Article A@one was already registered.")]);
    assert_eq!(out(&classes, "B"), vec![(THM_USES, vec![String::from("A")])]);
    assert_eq!(into(&classes, "A"), vec![(THM_USES, vec![String::from("B")])]);
}

#[test]
fn links_are_inserted_in_the_order_of_declaration() {
    let model = model();
    let mut classes = Classes::new();
    let lagrange = declare(
        "thm",
        "lagrange",
        "algebra",
        vec![("uses", vec!["group", "coset"]), ("proves", vec!["order"]), ("uses", vec!["order"])],
    );
    for a in [
        &lagrange,
        &declare("def", "group", "algebra", vec![]),
        &declare("def", "coset", "algebra", vec![]),
        &declare("def", "order", "algebra", vec![]),
    ] {
        register_article(&model, &mut classes, a).unwrap();
    }
    assert_eq!(update_class_links(&model, &mut classes, &lagrange), Ok(()));
    assert_eq!(
        out(&classes, "lagrange"),
        vec![
            (THM_USES, vec![String::from("group"), String::from("coset"), String::from("order")]),
            (THM_PROVES, vec![String::from("order")]),
        ]
    );
    assert_eq!(into(&classes, "group"), vec![(THM_USES, vec![String::from("lagrange")])]);
    assert_eq!(
        into(&classes, "order"),
        vec![(THM_PROVES, vec![String::from("lagrange")]), (THM_USES, vec![String::from("lagrange")])]
    );
    assert!(out(&classes, "group").is_empty());
}

#[test]
fn link_errors() {
    let model = model();
    let mut classes = Classes::new();
    let group = declare("def", "group", "algebra", vec![("proves", vec!["group"])]);
    let coset = declare("def", "coset", "algebra", vec![("uses", vec!["group", "subgroup", "coset"])]);
    register_article(&model, &mut classes, &group).unwrap();
    register_article(&model, &mut classes, &coset).unwrap();
    assert_eq!(
        update_class_links(&model, &mut classes, &group),
        Err(String::from("Link type def:proves does not exist."))
    );
    assert_eq!(
        update_class_links(&model, &mut classes, &coset),
        Err(String::from("Linked class subgroup does not exist."))
    );
    assert_eq!(out(&classes, "coset"), vec![(DEF_USES, vec![String::from("group")])]);
}

#[test]
fn document_structure_is_bound_to_the_articles() {
    let model = model();
    let mut classes = Classes::new();
    let read = document("algebra", vec![declare("def", "group", "algebra", vec![]), declare("def", "ring", "algebra", vec![])]);
    process_documents_1(&model, &mut classes, std::slice::from_ref(&read), &[], false).unwrap();
    let made = process_document(&classes, &read, &[String::from("main")]).ok().unwrap();
    assert_eq!(made.key, "algebra");
    assert_eq!(made.file_name, "algebra.d.khi");
    assert_eq!(made.title, "Title of algebra");
    assert_eq!(made.description, Some(String::from("described")));
    assert_eq!(made.preamble, None);
    assert_eq!(made.dir_path.len(), 1);
    assert_eq!(made.dir_path[0].dir_name, "dir");
    assert_eq!(made.dir_path[0].crumb, Some(String::from("Dir")));
    assert_eq!(made.resolution_paths, vec![String::from("algebra"), String::from("main")]);
    assert_eq!(made.structure.len(), 3);
    assert!(matches!(&made.structure[0], DocumentElement::Heading(2, Some(i), t) if i == "1" && t == "Heading"));
    assert!(matches!(&made.structure[1], DocumentElement::Paragraph(t) if t == "Text"));
    match &made.structure[2] {
        DocumentElement::Links(links) => {
            assert_eq!(links.len(), 2);
            assert!(matches!(&links[0], LinksElement::Link(ArticleId { class: 0, variant: 0 }, None)));
            assert!(matches!(&links[1], LinksElement::Link(ArticleId { class: 1, variant: 0 }, None)));
        }
        _ => panic!("expected a panel"),
    }
}

#[test]
fn a_link_of_a_document_to_an_unknown_article_is_an_error() {
    let classes = Classes::new();
    let mut read = document("algebra", vec![]);
    read.document.read_elements = vec![ReadElement::Panel(vec![
        ReadInlineElement::Heading(3, String::from("h"), Some(String::from("i"))),
        ReadInlineElement::Link(String::from("group@algebra"), Some(String::from("1"))),
    ])];
    assert_eq!(
        process_document(&classes, &read, &[]).err(),
        Some(String::from("Article group@algebra does not exist."))
    );
}

#[test]
fn panel_headings_are_kept() {
    let classes = Classes::new();
    let mut read = document("algebra", vec![]);
    read.document.read_elements = vec![ReadElement::Panel(vec![ReadInlineElement::Heading(
        3,
        String::from("h"),
        Some(String::from("i")),
    )])];
    let made = process_document(&classes, &read, &[]).ok().unwrap();
    match &made.structure[0] {
        DocumentElement::Links(links) => {
            assert!(matches!(&links[0], LinksElement::Heading(3, t, Some(i)) if t == "h" && i == "i"));
        }
        _ => panic!("expected a panel"),
    }
}

#[test]
fn a_link_resolves_to_a_class_of_a_later_document() {
    let model = model();
    let first = document("one", vec![declare("thm", "B", "one", vec![("uses", vec!["A"])])]);
    let second = document("two", vec![declare("def", "A", "two", vec![])]);
    let (classes, documents) = compile(&model, &[], &[first, second], &[]).ok().unwrap();
    assert_eq!(out(&classes, "B"), vec![(THM_USES, vec![String::from("A")])]);
    assert_eq!(into(&classes, "A"), vec![(THM_USES, vec![String::from("B")])]);
    assert_eq!(documents.len(), 2);
}

#[test]
fn a_link_resolves_to_a_class_of_a_dependency() {
    let model = model();
    let own = document("one", vec![declare("thm", "B", "one", vec![("uses", vec!["A"])])]);
    for inclusion in [Include::All, Include::Articles, Include::Obfuscated] {
        let dependency = ReadDependency {
            inclusion,
            documents: vec![document("two", vec![declare("def", "A", "two", vec![("uses", vec!["B"])])])],
        };
        let (classes, documents) =
            compile(&model, &[String::from("p")], std::slice::from_ref(&own), &[dependency]).ok().unwrap();
        assert_eq!(out(&classes, "B"), vec![(THM_USES, vec![String::from("A")])]);
        assert_eq!(into(&classes, "A"), vec![(THM_USES, vec![String::from("B")])]);
        assert_eq!(out(&classes, "A"), vec![(DEF_USES, vec![String::from("B")])]);
        assert_eq!(into(&classes, "B"), vec![(DEF_USES, vec![String::from("A")])]);
        assert_eq!(documents.len(), if inclusion == Include::All { 2 } else { 1 });
        assert_eq!(documents[0].key, "one");
        assert_eq!(documents[0].resolution_paths, vec![String::from("one"), String::from("p")]);
    }
}

#[test]
fn collapsing_the_passes_would_fail_on_a_forward_reference() {
    let model = model();
    let mut classes = Classes::new();
    let first = document("one", vec![declare("thm", "B", "one", vec![("uses", vec!["A"])])]);
    let second = document("two", vec![declare("def", "A", "two", vec![])]);
    process_documents_1(&model, &mut classes, std::slice::from_ref(&first), &[], false).unwrap();
    assert_eq!(
        process_documents_2(&model, &mut classes, std::slice::from_ref(&first), &[]).err(),
        Some(String::from("Linked class A does not exist."))
    );
    process_documents_1(&model, &mut classes, std::slice::from_ref(&second), &[], false).unwrap();
    assert!(process_documents_2(&model, &mut classes, &[first, second], &[]).is_ok());
}

#[test]
fn the_first_pass_stops_at_the_first_error() {
    let model = model();
    let mut classes = Classes::new();
    let documents = [
        document("one", vec![declare("def", "A", "one", vec![]), declare("lemma", "B", "one", vec![])]),
        document("two", vec![declare("def", "C", "two", vec![])]),
    ];
    assert_eq!(
        process_documents_1(&model, &mut classes, &documents, &[], false),
        Err(String::from("Found non-declared type lemma."))
    );
    assert_eq!(classes.get_class("A"), Some(0));
    assert_eq!(classes.get_class("B"), None);
    assert_eq!(classes.get_class("C"), None);
}

#[test]
fn compile_errors() {
    let model = model();
    let unknown_type = document("one", vec![declare("lemma", "B", "one", vec![])]);
    assert_eq!(
        compile(&model, &[], &[unknown_type], &[]).err(),
        Some(String::from("Found non-declared type lemma."))
    );
    let unknown_target = document("one", vec![declare("thm", "B", "one", vec![("uses", vec!["A"])])]);
    assert_eq!(
        compile(&model, &[], &[unknown_target], &[]).err(),
        Some(String::from("Linked class A does not exist."))
    );
    let unknown_link = document("one", vec![declare("def", "B", "one", vec![("proves", vec!["B"])])]);
    assert_eq!(
        compile(&model, &[], &[unknown_link], &[]).err(),
        Some(String::from("Link type def:proves does not exist."))
    );
    let mut unknown_article = document("one", vec![]);
    unknown_article.document.read_elements =
        vec![ReadElement::Panel(vec![ReadInlineElement::Link(String::from("A@two"), None)])];
    assert_eq!(
        compile(&model, &[], &[unknown_article], &[]).err(),
        Some(String::from("Article A@two does not exist."))
    );
    let twice = [
        document("one", vec![declare("def", "A", "one", vec![])]),
        document("one", vec![declare("def", "A", "one", vec![])]),
    ];
    assert_eq!(compile(&model, &[], &twice, &[]).err(), None);
    let dependency = ReadDependency {
        inclusion: Include::Articles,
        documents: vec![document("one", vec![declare("thm", "A", "two", vec![])])],
    };
    assert_eq!(
        compile(&model, &[], &[document("one", vec![declare("def", "A", "one", vec![])])], &[dependency]).err(),
        Some(String::from("Article A@two declared with different type."))
    );
}

#[test]
fn compile_of_nothing() {
    let model = model();
    let (classes, documents) = compile(&model, &[], &[], &[]).ok().unwrap();
    assert!(classes.get_classes().is_empty());
    assert!(documents.is_empty());
}

#[test]
fn obfuscated_key_format() {
    assert_eq!(obfuscate_key("group", 0), "group#0@?");
    assert_eq!(obfuscate_key("group", 0x1f), "group#1f@?");
    assert_eq!(obfuscate_key("group", 0xabcd), "group#abcd@?");
    assert_eq!(obfuscate_key("group", 0xffff), "group#ffff@?");
    assert_eq!(obfuscate_key("", 0x100), "#100@?");
    assert_eq!(obfuscate_key("a.b", 10), "a.b#a@?");
}

fn obfuscated_graph() -> Classes {
    let model = model();
    let dependency = ReadDependency {
        inclusion: Include::Obfuscated,
        documents: vec![document(
            "two",
            vec![declare("def", "A", "two", vec![]), declare("def", "A", "(x)two", vec![]), declare("thm", "B", "two", vec![("uses", vec!["A"])])],
        )],
    };
    compile(&model, &[], &[], &[dependency]).ok().unwrap().0
}

#[test]
fn obfuscation_replaces_the_key_and_nothing_else() {
    let classes = obfuscated_graph();
    let a = classes.get_class("A").unwrap();
    let variants = classes.class(a).get_articles();
    assert_eq!(variants.len(), 2);
    for article in variants {
        let key = article.get_key();
        assert!(key.starts_with("A#"), "{}", key);
        assert!(key.ends_with("@?"), "{}", key);
        let digits = &key[2..key.len() - 2];
        assert!(!digits.is_empty() && digits.len() <= 4, "{}", key);
        assert!(digits.chars().all(|c| c.is_ascii_digit() || ('a'..='f').contains(&c)), "{}", key);
        assert!(digits == "0" || !digits.starts_with('0'), "{}", key);
        assert_eq!(article.get_class(), a);
        assert!(matches!(&article.get_content()[0], ArticleElement::Paragraph(t) if t == "About A."));
    }
    assert_eq!(variants[0].get_names(), &vec![String::from("A in two")]);
    assert_eq!(classes.get_article("A@two"), Some(ArticleId { class: a, variant: 0 }));
    assert_eq!(out(&classes, "B"), vec![(THM_USES, vec![String::from("A")])]);
}

#[test]
fn the_obfuscated_key_is_that_of_the_first_free_number() {
    let model = model();
    let mut classes = Classes::new();
    assert_eq!(pick_obfuscated_key(&classes, "A", 5), Some(String::from("A#5@?")));
    assert_eq!(pick_obfuscated_key(&classes, "A", 6), Some(String::from("A#6@?")));
    let first = register_article(&model, &mut classes, &declare("def", "A", "one", vec![])).unwrap();
    classes.set_article_key(first, String::from("A#5@?"));
    let second = register_article(&model, &mut classes, &declare("def", "A", "two", vec![])).unwrap();
    classes.set_article_key(second, String::from("A#6@?"));
    let third = register_article(&model, &mut classes, &declare("def", "B", "two", vec![])).unwrap();
    classes.set_article_key(third, String::from("A#ffff@?"));
    assert_eq!(pick_obfuscated_key(&classes, "A", 4), Some(String::from("A#4@?")));
    assert_eq!(pick_obfuscated_key(&classes, "A", 5), Some(String::from("A#7@?")));
    assert_eq!(pick_obfuscated_key(&classes, "A", 6), Some(String::from("A#7@?")));
    assert_eq!(pick_obfuscated_key(&classes, "A", 0xffff), Some(String::from("A#0@?")));
    assert_eq!(pick_obfuscated_key(&classes, "B", 5), Some(String::from("B#5@?")));
}

#[test]
fn obfuscated_keys_are_pairwise_distinct() {
    let model = model();
    let mut classes = Classes::new();
    let kept = register_article(&model, &mut classes, &declare("def", "A", "zero", vec![])).unwrap();
    let articles: Vec<ReadArticle> =
        (0..400).map(|i| declare("def", "A", &format!("d{}", i), vec![])).collect();
    let documents = [document("one", articles)];
    assert_eq!(process_documents_1(&model, &mut classes, &documents, &[], true), Ok(()));
    let variants = classes.class(0).get_articles();
    assert_eq!(variants.len(), 401);
    assert_eq!(classes.article(kept).get_key(), "A@zero");
    let keys: std::collections::BTreeSet<String> = variants.iter().map(|a| a.get_key().clone()).collect();
    assert_eq!(keys.len(), 401);
    for i in 0..400 {
        let id = classes.get_article(&format!("A@d{}", i)).unwrap();
        assert_eq!(id, ArticleId { class: 0, variant: i + 1 });
        assert!(classes.article(id).get_key().starts_with("A#"));
    }
}

#[test]
fn articles_of_other_inclusions_keep_their_keys() {
    let model = model();
    for inclusion in [Include::All, Include::Articles] {
        let dependency = ReadDependency {
            inclusion,
            documents: vec![document("two", vec![declare("def", "A", "two", vec![])])],
        };
        let (classes, _) = compile(&model, &[], &[], &[dependency]).ok().unwrap();
        assert_eq!(classes.article(ArticleId { class: 0, variant: 0 }).get_key(), "A@two");
    }
}

fn shape(classes: &Classes) -> Vec<(String, usize, Vec<(Vec<String>, usize)>, Vec<(LinkTypeId, Vec<usize>)>)> {
    classes
        .get_classes()
        .iter()
        .map(|class| {
            (
                class.get_key().clone(),
                class.get_article_type(),
                class.get_articles().iter().map(|a| (a.get_names().clone(), a.get_content().len())).collect(),
                class.get_links_out().iter().map(|b| (b.get_link_type(), b.get_classes().clone())).collect(),
            )
        })
        .collect()
}

#[test]
fn two_obfuscated_runs_differ_in_the_article_keys_only() {
    let one = obfuscated_graph();
    let other = obfuscated_graph();
    assert_eq!(shape(&one), shape(&other));
    assert_eq!(one.get_classes().len(), 2);
    for key in ["A@two", "A@(x)two", "B@two"] {
        assert_eq!(one.get_article(key), other.get_article(key));
        assert!(one.get_article(key).is_some());
    }
    assert_eq!(one.get_warnings(), other.get_warnings());
}

#[test]
fn the_second_pass_makes_the_documents_in_order_and_inserts_every_declared_link() {
    let model = model();
    let mut classes = Classes::new();
    let documents = [
        document("one", vec![declare("thm", "B", "one", vec![("uses", vec!["A", "C"]), ("proves", vec!["C"])])]),
        document("two", vec![declare("def", "A", "two", vec![("uses", vec!["C"])])]),
        document("three", vec![declare("def", "C", "three", vec![])]),
    ];
    assert_eq!(process_documents_1(&model, &mut classes, &documents, &[], false), Ok(()));
    let made = process_documents_2(&model, &mut classes, &documents, &[]).ok().unwrap();
    assert_eq!(made.len(), 3);
    assert_eq!(made[0].key, "one");
    assert_eq!(made[1].key, "two");
    assert_eq!(made[2].key, "three");
    assert_eq!(
        out(&classes, "B"),
        vec![(THM_USES, vec![String::from("A"), String::from("C")]), (THM_PROVES, vec![String::from("C")])]
    );
    assert_eq!(out(&classes, "A"), vec![(DEF_USES, vec![String::from("C")])]);
    assert_eq!(
        into(&classes, "C"),
        vec![(THM_USES, vec![String::from("B")]), (THM_PROVES, vec![String::from("B")]), (DEF_USES, vec![String::from("A")])]
    );
}
