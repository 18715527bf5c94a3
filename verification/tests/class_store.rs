use notarium::class::Article;
use notarium::class::ArticleId;
use notarium::class::Class;
use notarium::class::Classes;
use notarium::model::LinkTypeId;
use notarium::read::article::ArticleElement;

fn article(class: usize, key: &str) -> Article {
    Article::new(class, String::from(key), vec![String::from(key)], vec![])
}

fn keys_of(classes: &Classes, class: usize) -> Vec<String> {
    classes.class(class).get_articles().iter().map(|a| a.get_key().clone()).collect()
}

fn out(classes: &Classes, class: usize) -> Vec<(LinkTypeId, Vec<usize>)> {
    classes
        .class(class)
        .get_links_out()
        .iter()
        .map(|b| (b.get_link_type(), b.get_classes().clone()))
        .collect()
}

fn into(classes: &Classes, class: usize) -> Vec<(LinkTypeId, Vec<usize>)> {
    classes
        .class(class)
        .get_links_in()
        .iter()
        .map(|b| (b.get_link_type(), b.get_classes().clone()))
        .collect()
}

const T0: LinkTypeId = LinkTypeId { article_type: 0, link: 0 };
const T1: LinkTypeId = LinkTypeId { article_type: 0, link: 1 };

#[test]
fn new_store_is_empty() {
    let classes = Classes::new();
    assert!(classes.get_classes().is_empty());
    assert_eq!(classes.get_class("x"), None);
    assert_eq!(classes.get_article("x@a"), None);
}

#[test]
fn new_class_has_nothing() {
    let class = Class::new("x", 3);
    assert_eq!(class.get_key(), "x");
    assert_eq!(class.get_article_type(), 3);
    assert!(class.get_articles().is_empty());
    assert!(class.get_links_out().is_empty());
    assert!(class.get_links_in().is_empty());
    assert!(!class.contains_article("x@a"));
    assert!(class.get_article("x@a").is_none());
}

#[test]
fn classes_are_registered_in_order() {
    let mut classes = Classes::new();
    assert_eq!(classes.insert_class(Class::new("x", 0)), 0);
    assert_eq!(classes.insert_class(Class::new("y", 1)), 1);
    assert_eq!(classes.get_class("x"), Some(0));
    assert_eq!(classes.get_class("y"), Some(1));
    assert_eq!(classes.get_class("z"), None);
    assert_eq!(classes.get_classes().len(), 2);
    assert_eq!(classes.class(1).get_key(), "y");
    assert_eq!(classes.class(1).get_article_type(), 1);
}

#[test]
fn a_repeated_class_key_stays_with_the_first_class() {
    let mut classes = Classes::new();
    assert_eq!(classes.insert_class(Class::new("x", 0)), 0);
    assert!(classes.get_warnings().is_empty());
    assert_eq!(classes.insert_class(Class::new("x", 1)), 1);
    assert_eq!(classes.get_warnings(), &vec![String::from("Class x was already registered.")]);
    assert_eq!(classes.get_class("x"), Some(0));
    assert_eq!(classes.get_classes().len(), 2);
    assert_eq!(classes.class(0).get_article_type(), 0);
    assert_eq!(classes.class(1).get_article_type(), 1);
}

#[test]
fn articles_are_variants_in_order_of_registration() {
    let mut classes = Classes::new();
    let x = classes.insert_class(Class::new("x", 0));
    let y = classes.insert_class(Class::new("y", 0));
    assert_eq!(classes.insert_article(article(x, "x@a")), ArticleId { class: x, variant: 0 });
    assert_eq!(classes.insert_article(article(y, "y@a")), ArticleId { class: y, variant: 0 });
    assert_eq!(classes.insert_article(article(x, "x@b")), ArticleId { class: x, variant: 1 });
    assert_eq!(keys_of(&classes, x), vec!["x@a", "x@b"]);
    assert_eq!(keys_of(&classes, y), vec!["y@a"]);
    assert_eq!(classes.get_article("x@b"), Some(ArticleId { class: x, variant: 1 }));
    assert_eq!(classes.get_article("y@a"), Some(ArticleId { class: y, variant: 0 }));
    assert_eq!(classes.get_article("y@b"), None);
    let found = classes.article(ArticleId { class: x, variant: 1 });
    assert_eq!(found.get_key(), "x@b");
    assert_eq!(found.get_class(), x);
    assert!(classes.class(x).contains_article("x@b"));
    assert!(!classes.class(x).contains_article("y@a"));
    assert_eq!(classes.class(x).get_article("x@a").unwrap().get_key(), "x@a");
}

#[test]
fn a_repeated_article_key_stays_with_the_first_article() {
    let mut classes = Classes::new();
    let x = classes.insert_class(Class::new("x", 0));
    let first = Article::new(x, String::from("x@a"), vec![String::from("first")], vec![]);
    let second = Article::new(x, String::from("x@a"), vec![String::from("second")], vec![]);
    assert_eq!(classes.insert_article(first), ArticleId { class: x, variant: 0 });
    assert_eq!(classes.insert_article(second), ArticleId { class: x, variant: 1 });
    assert_eq!(classes.get_article("x@a"), Some(ArticleId { class: x, variant: 0 }));
    assert_eq!(classes.class(x).get_articles().len(), 2);
    assert_eq!(classes.class(x).get_article("x@a").unwrap().get_names()[0], "first");
    assert_eq!(classes.article(ArticleId { class: x, variant: 1 }).get_names()[0], "second");
}

#[test]
fn article_holds_what_it_was_made_with() {
    let content = vec![
        ArticleElement::Heading(2, String::from("h")),
        ArticleElement::Paragraph(String::from("p")),
        ArticleElement::Html(String::from("<i>x</i>")),
    ];
    let made = Article::new(
        4,
        String::from("x@a"),
        vec![String::from("one"), String::from("two")],
        content,
    );
    assert_eq!(made.get_class(), 4);
    assert_eq!(made.get_key(), "x@a");
    assert_eq!(made.get_names(), &vec![String::from("one"), String::from("two")]);
    assert_eq!(made.get_content().len(), 3);
    assert!(matches!(&made.get_content()[0], ArticleElement::Heading(2, t) if t == "h"));
    assert!(matches!(&made.get_content()[1], ArticleElement::Paragraph(t) if t == "p"));
    assert!(matches!(&made.get_content()[2], ArticleElement::Html(t) if t == "<i>x</i>"));
}

#[test]
fn a_link_is_recorded_at_both_ends() {
    let mut classes = Classes::new();
    let a = classes.insert_class(Class::new("a", 0));
    let b = classes.insert_class(Class::new("b", 0));
    let c = classes.insert_class(Class::new("c", 0));
    classes.insert_link(T0, a, b);
    assert_eq!(out(&classes, a), vec![(T0, vec![b])]);
    assert_eq!(into(&classes, b), vec![(T0, vec![a])]);
    assert!(into(&classes, a).is_empty());
    assert!(out(&classes, b).is_empty());
    assert!(out(&classes, c).is_empty());
    assert!(into(&classes, c).is_empty());
}

#[test]
fn links_of_one_type_share_a_bucket() {
    let mut classes = Classes::new();
    let a = classes.insert_class(Class::new("a", 0));
    let b = classes.insert_class(Class::new("b", 0));
    let c = classes.insert_class(Class::new("c", 0));
    classes.insert_link(T0, a, b);
    classes.insert_link(T1, a, c);
    classes.insert_link(T0, a, c);
    classes.insert_link(T1, b, c);
    assert_eq!(out(&classes, a), vec![(T0, vec![b, c]), (T1, vec![c])]);
    assert_eq!(out(&classes, b), vec![(T1, vec![c])]);
    assert_eq!(into(&classes, b), vec![(T0, vec![a])]);
    assert_eq!(into(&classes, c), vec![(T1, vec![a, b]), (T0, vec![a])]);
}

#[test]
fn an_identical_link_is_recorded_twice() {
    let mut classes = Classes::new();
    let a = classes.insert_class(Class::new("a", 0));
    let b = classes.insert_class(Class::new("b", 0));
    classes.insert_link(T0, a, b);
    classes.insert_link(T0, a, b);
    assert_eq!(out(&classes, a), vec![(T0, vec![b, b])]);
    assert_eq!(into(&classes, b), vec![(T0, vec![a, a])]);
}

#[test]
fn a_class_may_link_to_itself() {
    let mut classes = Classes::new();
    let a = classes.insert_class(Class::new("a", 0));
    classes.insert_link(T0, a, a);
    assert_eq!(out(&classes, a), vec![(T0, vec![a])]);
    assert_eq!(into(&classes, a), vec![(T0, vec![a])]);
}

#[test]
fn links_out_and_in_are_mirrors() {
    let mut classes = Classes::new();
    let n = 4;
    for i in 0..n {
        classes.insert_class(Class::new(&format!("c{}", i), 0));
    }
    let links = [(T0, 0, 1), (T1, 0, 1), (T0, 1, 0), (T0, 2, 3), (T0, 0, 1), (T1, 3, 3), (T0, 3, 0)];
    for (t, from, to) in links {
        classes.insert_link(t, from, to);
    }
    for t in [T0, T1] {
        for from in 0..n {
            for to in 0..n {
                let forth: usize = out(&classes, from)
                    .iter()
                    .filter(|(bucket, _)| *bucket == t)
                    .map(|(_, targets)| targets.iter().filter(|x| **x == to).count())
                    .sum();
                let back: usize = into(&classes, to)
                    .iter()
                    .filter(|(bucket, _)| *bucket == t)
                    .map(|(_, sources)| sources.iter().filter(|x| **x == from).count())
                    .sum();
                let expected = links.iter().filter(|l| **l == (t, from, to)).count();
                assert_eq!(forth, expected);
                assert_eq!(back, expected);
            }
        }
    }
}

#[test]
fn the_key_of_an_article_can_be_replaced() {
    let mut classes = Classes::new();
    let x = classes.insert_class(Class::new("x", 0));
    let id = classes.insert_article(article(x, "x@a"));
    classes.set_article_key(id, String::from("x#1f@?"));
    assert_eq!(classes.article(id).get_key(), "x#1f@?");
    assert_eq!(classes.article(id).get_class(), x);
    assert_eq!(classes.get_article("x@a"), Some(id));
    assert_eq!(classes.get_article("x#1f@?"), None);
    assert_eq!(classes.get_class("x"), Some(x));
}

#[test]
fn resolve_takes_the_first_path_that_has_a_variant() {
    let mut classes = Classes::new();
    let x = classes.insert_class(Class::new("X", 0));
    classes.insert_article(article(x, "X@a"));
    classes.insert_article(article(x, "X@b"));
    classes.insert_article(article(x, "X@c"));
    let class = classes.class(x);
    let paths = vec![String::from("b"), String::from("a")];
    assert_eq!(class.resolve(&paths).get_key(), "X@b");
    assert_eq!(class.resolve_index(&paths), 1);
    let paths = vec![String::from("a"), String::from("b")];
    assert_eq!(class.resolve(&paths).get_key(), "X@a");
    let paths = vec![String::from("z"), String::from("c"), String::from("a")];
    assert_eq!(class.resolve(&paths).get_key(), "X@c");
}

#[test]
fn resolve_falls_back_to_the_first_variant() {
    let mut classes = Classes::new();
    let x = classes.insert_class(Class::new("X", 0));
    classes.insert_article(article(x, "X@b"));
    classes.insert_article(article(x, "X@a"));
    classes.insert_article(article(x, "X@c"));
    let class = classes.class(x);
    assert_eq!(class.resolve(&[String::from("z")]).get_key(), "X@b");
    assert_eq!(class.resolve(&[]).get_key(), "X@b");
    assert_eq!(class.resolve_index(&[]), 0);
}

#[test]
fn resolve_matches_the_whole_suffix_after_the_at() {
    let mut classes = Classes::new();
    let x = classes.insert_class(Class::new("X", 0));
    classes.insert_article(article(x, "X@first"));
    classes.insert_article(article(x, "X@ab"));
    classes.insert_article(article(x, "X@b"));
    classes.insert_article(article(x, "Y@b"));
    let class = classes.class(x);
    assert_eq!(class.resolve(&[String::from("b")]).get_key(), "X@b");
    assert_eq!(class.resolve(&[String::from("ab")]).get_key(), "X@ab");
    assert_eq!(class.resolve(&[String::from("")]).get_key(), "X@first");
    assert_eq!(class.resolve(&[String::from("X@b")]).get_key(), "X@first");
}

#[test]
fn resolve_of_a_variant_among_equal_suffixes_takes_the_earliest() {
    let mut classes = Classes::new();
    let x = classes.insert_class(Class::new("X", 0));
    classes.insert_article(article(x, "X@a"));
    classes.insert_article(article(x, "Y@b"));
    classes.insert_article(article(x, "X@b"));
    let class = classes.class(x);
    assert_eq!(class.resolve(&[String::from("b")]).get_key(), "Y@b");
}
