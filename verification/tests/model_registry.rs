use notarium::dependency::check_compatibility;
use notarium::dependency::include_dependency;
use notarium::dependency::read_include;
use notarium::dependency::Include;
use notarium::model::process_model;
use notarium::model::LinkTypeId;
use notarium::model::Model;
use notarium::read::model::ReadArticleType;
use notarium::read::model::ReadLinkType;

fn link(key: &str, show: bool) -> ReadLinkType {
    ReadLinkType {
        key: String::from(key),
        origin_name: format!("{} from", key),
        origin_description: format!("{} from here", key),
        target_name: format!("{} to", key),
        target_description: format!("{} to here", key),
        target_show: show,
    }
}

fn article_type(key: &str, links: Vec<ReadLinkType>) -> ReadArticleType {
    ReadArticleType {
        key: String::from(key),
        name: format!("{} name", key),
        description: None,
        abbreviation: None,
        colour: String::from("#636363"),
        links,
    }
}

fn sample() -> Model {
    let mut theorem = article_type("thm", vec![link("uses", true), link("proves", false)]);
    theorem.description = Some(String::from("A theorem."));
    theorem.abbreviation = Some(String::from("Thm"));
    theorem.colour = String::from("#ff0000");
    process_model(&vec![theorem, article_type("def", vec![link("uses", true)])]).ok().unwrap()
}

#[test]
fn model_holds_the_declared_types() {
    let model = sample();
    assert_eq!(model.get_types().len(), 2);
    let theorem = model.get_type("thm").unwrap();
    assert_eq!(theorem.index, 0);
    assert_eq!(theorem.key, "thm");
    assert_eq!(theorem.name, "thm name");
    assert_eq!(theorem.description, "A theorem.");
    assert_eq!(theorem.colour, Some(String::from("#ff0000")));
    assert_eq!(theorem.abbreviation, Some(String::from("Thm")));
    assert_eq!(theorem.symbol, None);
    assert_eq!(theorem.get_links().len(), 2);
    let definition = model.get_type("def").unwrap();
    assert_eq!(definition.index, 1);
    assert_eq!(definition.description, "def name");
    assert_eq!(definition.colour, Some(String::from("#636363")));
    assert_eq!(definition.abbreviation, None);
    assert!(model.get_type("lemma").is_none());
    assert_eq!(model.article_type(1).key, "def");
}

#[test]
fn link_types_know_their_place() {
    let model = sample();
    let theorem = model.get_type("thm").unwrap();
    let proves = theorem.get_link("proves").unwrap();
    assert_eq!(proves.key, "proves");
    assert_eq!(proves.get_article_type(), 0);
    assert_eq!(proves.index, 1);
    assert_eq!(proves.origin_name, "proves from");
    assert_eq!(proves.origin_description, "proves from here");
    assert_eq!(proves.target_name, "proves to");
    assert_eq!(proves.target_description, "proves to here");
    assert!(!proves.target_show);
    assert!(theorem.get_link("uses").unwrap().target_show);
    assert!(theorem.get_link("cites").is_none());
    let definition = model.get_type("def").unwrap();
    assert_eq!(definition.get_link("uses").unwrap().get_article_type(), 1);
    assert!(definition.get_link("proves").is_none());
    assert_eq!(model.link_type(LinkTypeId { article_type: 0, link: 1 }).key, "proves");
    assert_eq!(model.link_type(LinkTypeId { article_type: 1, link: 0 }).key, "uses");
}

#[test]
fn empty_model() {
    let model = process_model(&vec![]).ok().unwrap();
    assert!(model.get_types().is_empty());
    assert!(model.get_type("thm").is_none());
}

#[test]
fn repeated_type_key_is_an_error() {
    let read = vec![article_type("thm", vec![]), article_type("def", vec![]), article_type("thm", vec![])];
    assert_eq!(
        process_model(&read).err(),
        Some(String::from("Article type thm is declared more than once."))
    );
}

#[test]
fn repeated_link_key_is_an_error() {
    let read = vec![
        article_type("thm", vec![link("uses", true)]),
        article_type("def", vec![link("uses", true), link("cites", true), link("uses", false)]),
    ];
    assert_eq!(
        process_model(&read).err(),
        Some(String::from("Link type def:uses is declared more than once."))
    );
}

#[test]
fn the_first_fault_is_reported() {
    let read = vec![
        article_type("thm", vec![link("a", true), link("a", true)]),
        article_type("thm", vec![]),
    ];
    assert_eq!(
        process_model(&read).err(),
        Some(String::from("Link type thm:a is declared more than once."))
    );
    let read = vec![
        article_type("thm", vec![]),
        article_type("thm", vec![link("a", true), link("a", true)]),
    ];
    assert_eq!(
        process_model(&read).err(),
        Some(String::from("Article type thm is declared more than once."))
    );
}

#[test]
fn include_methods() {
    assert_eq!(read_include("All"), Ok(Include::All));
    assert_eq!(read_include("Articles"), Ok(Include::Articles));
    assert_eq!(read_include("Obfuscated"), Ok(Include::Obfuscated));
    assert_eq!(read_include("all"), Err(String::from("Include method all is not allowed.")));
    assert_eq!(read_include(""), Err(String::from("Include method  is not allowed.")));
}

#[test]
fn a_dependency_with_a_subset_of_the_model_is_included() {
    let model = sample();
    let dependency = vec![article_type("def", vec![link("uses", false)]), article_type("thm", vec![])];
    assert!(include_dependency(&model, &dependency, vec![]).is_ok());
    assert!(include_dependency(&model, &vec![], vec![]).is_ok());
}

#[test]
fn a_dependency_with_an_unknown_type_is_refused() {
    let model = sample();
    let dependency = vec![article_type("thm", vec![]), article_type("lemma", vec![]), article_type("x", vec![])];
    assert_eq!(
        include_dependency(&model, &dependency, vec![]).err(),
        Some(String::from("Dependency article type lemma does not exist."))
    );
}

#[test]
fn a_dependency_with_an_unknown_link_type_is_refused() {
    let model = sample();
    let dependency = vec![
        article_type("thm", vec![link("uses", true)]),
        article_type("def", vec![link("uses", true), link("proves", true), link("cites", true)]),
    ];
    assert_eq!(
        include_dependency(&model, &dependency, vec![]).err(),
        Some(String::from("Dependency link type proves does not exist."))
    );
}

#[test]
fn compatibility_is_checked_without_the_documents() {
    let model = sample();
    let fitting = vec![article_type("def", vec![link("uses", false)]), article_type("thm", vec![])];
    assert_eq!(check_compatibility(&model, &fitting), Ok(()));
    assert_eq!(check_compatibility(&model, &vec![]), Ok(()));
    let unknown_type = vec![article_type("thm", vec![]), article_type("lemma", vec![])];
    assert_eq!(
        check_compatibility(&model, &unknown_type),
        Err(String::from("Dependency article type lemma does not exist."))
    );
    let unknown_link = vec![article_type("def", vec![link("uses", true), link("proves", true)])];
    assert_eq!(
        check_compatibility(&model, &unknown_link),
        Err(String::from("Dependency link type proves does not exist."))
    );
}
