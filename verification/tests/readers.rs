use notarium::read::article::arguments_of;
use notarium::read::article::read_article_content;
use notarium::read::article::read_article_declaration;
use notarium::read::article::read_declaration_names;
use notarium::read::article::read_links;
use notarium::read::article::remove_first;
use notarium::read::article::ArticleElement;
use notarium::read::article::ReadArticle;
use notarium::read::content::read_content_text;
use notarium::read::directory::is_document_file;
use notarium::read::directory::read_document_dir;
use notarium::read::directory::FsNode;
use notarium::read::document::append_inline_element;
use notarium::read::document::read_content_heading;
use notarium::read::document::read_content_include;
use notarium::read::document::read_document;
use notarium::read::document::read_resolution_paths;
use notarium::read::document::ReadElement;
use notarium::read::document::ReadInlineElement;
use notarium::read::model::read_model;
use notarium::read::model::read_text_value_or_err;
use notarium::read::node::get;
use notarium::read::node::Attribute;
use notarium::read::node::Node;
use notarium::read::node::Position;
use notarium::read::project::read_dir_file;
use notarium::read::project::read_project;

fn at(line: usize, column: usize) -> Position {
    Position { index: 0, line, column }
}

fn text(s: &str) -> Node {
    Node::Text(String::from(s), at(1, 2), at(1, 2))
}

fn nil() -> Node {
    Node::Nil(at(1, 3), at(1, 3))
}

fn tuple(values: Vec<Node>) -> Node {
    Node::Tuple(values, at(2, 3), at(2, 3))
}

fn list(values: Vec<Node>) -> Node {
    Node::List(values, at(4, 5), at(4, 5))
}

fn tagged(name: &str, value: Node) -> Node {
    Node::Tagged(String::from(name), vec![], Box::new(value), at(6, 7), at(6, 7))
}

fn tagged_at(name: &str, value: Node, line: usize, column: usize) -> Node {
    Node::Tagged(String::from(name), vec![], Box::new(value), at(line, column), at(line, column))
}

fn inline(name: &str, value: Node) -> Node {
    Node::Tagged(
        String::from(name),
        vec![Attribute { key: String::from("i"), value: None }],
        Box::new(value),
        at(6, 7),
        at(6, 7),
    )
}

fn compound(values: Vec<Node>, whitespace: Vec<bool>) -> Node {
    Node::Compound(values, whitespace, at(8, 9), at(8, 9))
}

fn entries(all: Vec<(&str, Node)>) -> Vec<(String, Node)> {
    all.into_iter().map(|(k, v)| (String::from(k), v)).collect()
}

fn dictionary(all: Vec<(&str, Node)>) -> Node {
    Node::Dictionary(entries(all), at(10, 11), at(10, 11))
}

fn show_inline(element: &ReadInlineElement) -> String {
    match element {
        ReadInlineElement::Heading(level, text, index) => format!("h{}:{}:{:?}", level, text, index),
        ReadInlineElement::Link(key, index) => format!("link:{}:{:?}", key, index),
    }
}

fn show(element: &ReadElement) -> String {
    match element {
        ReadElement::Heading(level, index, text) => format!("H{}:{:?}:{}", level, index, text),
        ReadElement::Paragraph(text) => format!("P:{}", text),
        ReadElement::Panel(links) => {
            format!("[{}]", links.iter().map(show_inline).collect::<Vec<_>>().join(", "))
        }
    }
}

fn show_content(element: &ArticleElement) -> String {
    match element {
        ArticleElement::Heading(level, text) => format!("H{}:{}", level, text),
        ArticleElement::Paragraph(text) => format!("P:{}", text),
        ArticleElement::Html(text) => format!("Html:{}", text),
    }
}

#[test]
fn dictionary_lookup_takes_the_first_entry() {
    let all = entries(vec![("a", text("1")), ("b", text("2")), ("a", text("3"))]);
    assert!(matches!(get(&all, "a"), Some(Node::Text(t, _, _)) if t == "1"));
    assert!(matches!(get(&all, "b"), Some(Node::Text(t, _, _)) if t == "2"));
    assert!(get(&all, "c").is_none());
    assert!(get(&all, "").is_none());
}

#[test]
fn node_places_and_lengths() {
    assert_eq!(text("a").from(), at(1, 2));
    assert_eq!(tuple(vec![]).from(), at(2, 3));
    assert_eq!(list(vec![]).from(), at(4, 5));
    assert_eq!(tagged("a", nil()).from(), at(6, 7));
    assert_eq!(compound(vec![], vec![]).from(), at(8, 9));
    assert_eq!(dictionary(vec![]).from(), at(10, 11));
    assert_eq!(nil().from(), at(1, 3));
    assert_eq!(text("a").len_as_tuple(), 1);
    assert_eq!(tuple(vec![]).len_as_tuple(), 0);
    assert_eq!(tuple(vec![text("a"), text("b")]).len_as_tuple(), 2);
    assert_eq!(list(vec![text("a"), text("b")]).len_as_tuple(), 1);
}

#[test]
fn content_text_of_texts_and_compounds() {
    assert_eq!(read_content_text(&text("Hello")), Ok(String::from("Hello")));
    assert_eq!(read_content_text(&nil()), Ok(String::new()));
    let mixed = compound(vec![text("a"), text("b"), nil(), text("c")], vec![true, false, true]);
    assert_eq!(read_content_text(&mixed), Ok(String::from("a b c")));
    let tight = compound(vec![text("a"), text("b")], vec![false]);
    assert_eq!(read_content_text(&tight), Ok(String::from("ab")));
}

#[test]
fn content_text_of_mathematics() {
    assert_eq!(read_content_text(&tagged("$", text("x^2"))), Ok(String::from("\\(x^2\\)")));
    assert_eq!(read_content_text(&tagged("$$", text("x^2"))), Ok(String::from("\\[x^2\\]")));
    let fraction = tagged("$", tagged("frac", tuple(vec![text("1"), text("2")])));
    assert_eq!(read_content_text(&fraction), Ok(String::from("\\(\\frac{1}{2}\\)")));
    let sentence = compound(vec![text("Let"), tagged("$", text("x")), text("be.")], vec![true, true]);
    assert_eq!(read_content_text(&sentence), Ok(String::from("Let \\(x\\) be.")));
    assert_eq!(
        read_content_text(&tagged("$", dictionary(vec![]))),
        Err(String::from("TeX: Illegal dictionary at 10:11."))
    );
    assert_eq!(
        read_content_text(&tagged("$", tagged("lines!", nil()))),
        Err(String::from("TeX: Malformed value at 6:7."))
    );
}

#[test]
fn content_text_of_line_breaks() {
    assert_eq!(read_content_text(&tagged("n", tuple(vec![]))), Ok(String::from("<br>")));
    assert_eq!(
        read_content_text(&tagged("n", tuple(vec![text("a"), text("b"), text("c")]))),
        Ok(String::from("a<br>b<br>c"))
    );
    assert_eq!(
        read_content_text(&tagged("n", tuple(vec![text("a")]))),
        Err(String::from("<n> command at 6:7 must take 0 or more than 2 arguments. Cannot take just 1."))
    );
    assert_eq!(
        read_content_text(&tagged("n", text("a"))),
        Err(String::from("<n> command at 1:2 must take 0 or more than 2 arguments. Cannot take just 1."))
    );
    assert_eq!(
        read_content_text(&tagged("n", tuple(vec![text("a"), list(vec![])]))),
        Err(String::from("Unexpected list in content text at 4:5."))
    );
}

#[test]
fn content_text_of_links_and_code() {
    let link = tagged("@", tuple(vec![text("https://x.y"), compound(vec![text("the"), text("site")], vec![true])]));
    assert_eq!(read_content_text(&link), Ok(String::from("<a href=\"https://x.y\">the site</a>")));
    assert_eq!(
        read_content_text(&tagged("@", text("x"))),
        Err(String::from("Link at 1:2 must have a href argument and a label argument."))
    );
    assert_eq!(
        read_content_text(&tagged("@", tuple(vec![text("a"), text("b"), text("c")]))),
        Err(String::from("Link at 2:3 must have a href argument and a label argument."))
    );
    assert_eq!(
        read_content_text(&tagged("@", tuple(vec![nil(), text("b")]))),
        Err(String::from("Link at 2:3 must have a text as its href argument."))
    );
    assert_eq!(
        read_content_text(&tagged("code", text("a < b"))),
        Ok(String::from("<pre><code>a < b</code></pre>"))
    );
    assert_eq!(read_content_text(&tagged("icode", text("f(x)"))), Ok(String::from("<code>f(x)</code>")));
    assert_eq!(
        read_content_text(&tagged("code", nil())),
        Err(String::from("Code at 1:3 must be text."))
    );
    assert_eq!(
        read_content_text(&tagged("icode", tuple(vec![]))),
        Err(String::from("Code at 2:3 must be text."))
    );
}

#[test]
fn content_text_errors() {
    assert_eq!(
        read_content_text(&tagged("b", text("x"))),
        Err(String::from("Unexpected command in content text at 6:7."))
    );
    assert_eq!(
        read_content_text(&tuple(vec![])),
        Err(String::from("Unexpected tuple in content text at 2:3."))
    );
    assert_eq!(
        read_content_text(&dictionary(vec![])),
        Err(String::from("Unexpected dictionary in content text at 10:11."))
    );
    assert_eq!(
        read_content_text(&list(vec![])),
        Err(String::from("Unexpected list in content text at 4:5."))
    );
    let nested = compound(vec![text("a"), tagged("b", nil()), list(vec![])], vec![true, true]);
    assert_eq!(
        read_content_text(&nested),
        Err(String::from("Unexpected command in content text at 6:7."))
    );
}

#[test]
fn declaration_names() {
    assert_eq!(read_declaration_names(&text("Group")), Ok(vec![String::from("Group")]));
    assert_eq!(
        read_declaration_names(&list(vec![text("Group"), tagged("$", text("G"))])),
        Ok(vec![String::from("Group"), String::from("\\(G\\)")])
    );
    assert_eq!(read_declaration_names(&list(vec![])), Ok(vec![]));
    assert_eq!(
        read_declaration_names(&list(vec![text("a"), tuple(vec![])])),
        Err(String::from("Unexpected tuple in content text at 2:3."))
    );
    assert_eq!(
        read_declaration_names(&dictionary(vec![])),
        Err(String::from("Unexpected dictionary in content text at 10:11."))
    );
}

#[test]
fn article_content() {
    let content = list(vec![
        tagged("H2", text("Two")),
        tagged("H3", text("Three")),
        tagged("H4", text("Four")),
        tagged("H5", text("Five")),
        tagged("H6", text("Six")),
        tagged("P", text("Para")),
        tagged("$$", text("x")),
        text("loose"),
    ]);
    let read = read_article_content(&content).ok().unwrap();
    assert_eq!(
        read.iter().map(show_content).collect::<Vec<_>>(),
        vec!["H2:Two", "H3:Three", "H4:Four", "H5:Five", "H6:Six", "P:Para", "P:\\[x\\]", "Html:<p>loose</p>"]
    );
    let single = read_article_content(&text("only")).ok().unwrap();
    assert_eq!(single.iter().map(show_content).collect::<Vec<_>>(), vec!["P:only"]);
    assert!(read_article_content(&list(vec![])).ok().unwrap().is_empty());
}

#[test]
fn article_content_errors() {
    assert_eq!(
        read_article_content(&list(vec![tagged("P", text("a")), tagged("H1", text("b"))])).err(),
        Some(String::from("H1 heading not allowed in article at 4:5."))
    );
    assert_eq!(
        read_article_content(&list(vec![tagged_at("H7", text("b"), 9, 9)])).err(),
        Some(String::from("Element of article content list at 9:9 must be a heading or paragraph."))
    );
    assert_eq!(
        read_article_content(&list(vec![tagged("P", list(vec![]))])).err(),
        Some(String::from("Unexpected list in content text at 4:5."))
    );
    assert_eq!(
        read_article_content(&list(vec![tagged("$$", tuple(vec![text("a"), text("b")]))])).err(),
        Some(String::from("TeX: Illegal tuple at 2:3."))
    );
    assert_eq!(
        read_article_content(&tuple(vec![])).err(),
        Some(String::from("Unexpected tuple in content text at 2:3."))
    );
}

#[test]
fn links_of_a_declaration() {
    let links = entries(vec![
        ("uses", list(vec![text("group"), text("coset")])),
        ("proves", list(vec![])),
    ]);
    assert_eq!(
        read_links(&links, at(3, 4)),
        Ok(vec![
            (String::from("uses"), vec![String::from("group"), String::from("coset")]),
            (String::from("proves"), vec![]),
        ])
    );
    assert_eq!(read_links(&vec![], at(3, 4)), Ok(vec![]));
    assert_eq!(
        read_links(&entries(vec![("uses", text("group"))]), at(3, 4)),
        Err(String::from("Linked classes must be a list in article at 3:4."))
    );
    assert_eq!(
        read_links(&entries(vec![("a", list(vec![])), ("uses", list(vec![text("a"), nil()]))]), at(3, 4)),
        Err(String::from("Linked class must be a text in article at 3:4."))
    );
}

#[test]
fn arguments_and_remove_first() {
    let value = tuple(vec![text("a"), text("b")]);
    let mut arguments = arguments_of(&value);
    assert_eq!(arguments.len(), 2);
    assert!(matches!(remove_first(&mut arguments), Some(Node::Text(t, _, _)) if t == "a"));
    assert!(matches!(remove_first(&mut arguments), Some(Node::Text(t, _, _)) if t == "b"));
    assert!(remove_first(&mut arguments).is_none());
    assert!(arguments.is_empty());
    let single = text("x");
    assert_eq!(arguments_of(&single).len(), 1);
    assert_eq!(arguments_of(&tuple(vec![])).len(), 0);
    let mut numbers = vec![1, 2, 3];
    assert_eq!(remove_first(&mut numbers), Some(1));
    assert_eq!(numbers, vec![2, 3]);
}

fn declared(value: Node) -> Result<ReadArticle, String> {
    read_article_declaration("thm", &value, at(7, 8), "doc")
}

#[test]
fn declaration_of_an_article() {
    let read = declared(tuple(vec![
        dictionary(vec![("uses", list(vec![text("group")]))]),
        text("lagrange"),
        list(vec![text("Lagrange"), text("L")]),
        list(vec![tagged("P", text("Proof."))]),
    ]))
    .ok()
    .unwrap();
    assert_eq!(read.type_key, "thm");
    assert_eq!(read.class_key, "lagrange");
    assert_eq!(read.article_key, "lagrange@doc");
    assert_eq!(read.names, vec![String::from("Lagrange"), String::from("L")]);
    assert_eq!(read.content.iter().map(show_content).collect::<Vec<_>>(), vec!["P:Proof."]);
    assert_eq!(read.links, vec![(String::from("uses"), vec![String::from("group")])]);
}

#[test]
fn declaration_key_forms_give_the_keys() {
    let class = declared(tuple(vec![text("foo"), text("Foo")])).ok().unwrap();
    assert_eq!((class.class_key.as_str(), class.article_key.as_str()), ("foo", "foo@doc"));
    assert!(class.links.is_empty());
    assert!(class.content.is_empty());
    let both = declared(tuple(vec![text("foo(local)"), text("Foo")])).ok().unwrap();
    assert_eq!((both.class_key.as_str(), both.article_key.as_str()), ("foo", "local@doc"));
    let local = declared(tuple(vec![text("(local)"), text("Foo")])).ok().unwrap();
    assert_eq!((local.class_key.as_str(), local.article_key.as_str()), ("local@doc", "local@doc"));
}

#[test]
fn declaration_errors() {
    assert_eq!(
        declared(tuple(vec![])).err(),
        Some(String::from("Expected first argument of key in article at 7:8."))
    );
    assert_eq!(
        declared(tuple(vec![dictionary(vec![])])).err(),
        Some(String::from("Expected first argument of key in article at 7:8."))
    );
    assert_eq!(
        declared(tuple(vec![nil(), text("Foo")])).err(),
        Some(String::from("Key in article at 7:8 must be text."))
    );
    assert_eq!(
        declared(tuple(vec![text("foo"), dictionary(vec![])])).err(),
        Some(String::from("Unexpected dictionary in content text at 10:11."))
    );
    assert_eq!(
        declared(text("foo")).err(),
        Some(String::from("Expected second argument of names in article at 7:8."))
    );
    assert_eq!(
        declared(tuple(vec![text("foo@bar"), text("Foo")])).err(),
        Some(String::from("Declaration key cannot be an article key."))
    );
    assert_eq!(
        declared(tuple(vec![text("foo@bar@baz"), text("Foo")])).err(),
        Some(String::from("Cannot have multiple @ characters in key."))
    );
    assert_eq!(
        declared(tuple(vec![dictionary(vec![("uses", nil())]), text("foo"), text("Foo")])).err(),
        Some(String::from("Linked classes must be a list in article at 7:8."))
    );
    assert_eq!(
        declared(tuple(vec![text("foo"), text("Foo"), text("c"), text("extra")])).err(),
        Some(String::from("More arguments than expected in article at 7:8."))
    );
    assert_eq!(
        declared(tuple(vec![text("foo"), text("Foo"), tuple(vec![]), text("extra")])).err(),
        Some(String::from("Unexpected tuple in content text at 2:3."))
    );
}

#[test]
fn appending_to_a_structure() {
    let mut structure = vec![];
    append_inline_element(&mut structure, ReadInlineElement::Link(String::from("a"), None)).unwrap();
    append_inline_element(&mut structure, ReadInlineElement::Heading(3, String::from("h"), None)).unwrap();
    structure.push(ReadElement::Paragraph(String::from("p")));
    append_inline_element(&mut structure, ReadInlineElement::Link(String::from("b"), Some(String::from("1"))))
        .unwrap();
    assert_eq!(
        structure.iter().map(show).collect::<Vec<_>>(),
        vec!["[link:a:None, h3:h:None]", "P:p", "[link:b:Some(\"1\")]"]
    );
}

#[test]
fn headings() {
    assert_eq!(
        read_content_heading("H2", &vec![], &text("Title")),
        Ok((2, String::from("Title"), None, false))
    );
    assert_eq!(
        read_content_heading("H6", &vec![Attribute { key: String::from("i"), value: None }], &tuple(vec![text("1.2"), text("Title")])),
        Ok((6, String::from("Title"), Some(String::from("1.2")), true))
    );
    assert_eq!(
        read_content_heading("H1", &vec![], &text("Title")),
        Err(String::from("Found illegal heading at 1:2. H1 headings are not allowed."))
    );
    assert_eq!(
        read_content_heading("H3", &vec![], &tuple(vec![text("a")])),
        Err(String::from("Heading at 2:3 must be tuple with 1 or 2 elements."))
    );
    assert_eq!(
        read_content_heading("H1", &vec![], &list(vec![])),
        Err(String::from("Unexpected list in content text at 4:5."))
    );
}

#[test]
fn inclusions() {
    let link = |r: Result<ReadInlineElement, String>| r.map(|e| show_inline(&e));
    assert_eq!(link(read_content_include(&text("foo"), at(1, 1), "doc")), Ok(String::from("link:foo:None")));
    assert_eq!(
        link(read_content_include(&text("foo@other"), at(1, 1), "doc")),
        Ok(String::from("link:foo@other:None"))
    );
    assert_eq!(
        link(read_content_include(&text("(local)"), at(1, 1), "doc")),
        Ok(String::from("link:local@doc:None"))
    );
    assert_eq!(
        link(read_content_include(&nil(), at(5, 6), "doc")),
        Err(String::from("Value of @ include command at 5:6 must be text."))
    );
    assert_eq!(
        link(read_content_include(&text("foo(local)"), at(5, 6), "doc")),
        Err(String::from("Expected end in key."))
    );
}

#[test]
fn resolution_paths_of_a_document() {
    assert_eq!(
        read_resolution_paths(&vec![text("a"), text("b")]),
        Ok(vec![String::from("a"), String::from("b")])
    );
    assert_eq!(
        read_resolution_paths(&vec![text("a"), nil()]),
        Err(String::from("An element of Resolve must be text."))
    );
}

fn sample_document() -> Vec<(String, Node)> {
    entries(vec![
        ("Key", text("algebra")),
        ("Title", text("Algebra")),
        ("Description", text("On groups.")),
        ("Resolve", list(vec![text("basics")])),
        (
            "Content",
            list(vec![
                tagged("H2", tuple(vec![text("1"), text("Groups")])),
                tagged("P", text("A paragraph.")),
                tagged("def", tuple(vec![text("group"), text("Group")])),
                tagged("@", text("ring@rings")),
                inline("H3", text("More")),
                tagged("@", text("(unit)")),
                tagged("P", text("Last.")),
                tagged("I", tuple(vec![text("a"), tagged("thm", tuple(vec![text("lagrange"), text("Lagrange")]))])),
                tagged(
                    "I",
                    tuple(vec![
                        text("b"),
                        list(vec![tagged("@", text("group")), tagged("def", tuple(vec![text("(coset)"), text("Coset")]))]),
                    ]),
                ),
            ]),
        ),
    ])
}

#[test]
fn reading_a_document() {
    let read = read_document(&sample_document()).ok().unwrap();
    assert_eq!(read.key, "algebra");
    assert_eq!(read.title, "Algebra");
    assert_eq!(read.description, Some(String::from("On groups.")));
    assert_eq!(read.preamble, None);
    assert_eq!(read.resolution_paths, vec![String::from("basics")]);
    assert_eq!(
        read.read_elements.iter().map(show).collect::<Vec<_>>(),
        vec![
            "H2:Some(\"1\"):Groups",
            "P:A paragraph.",
            "[link:group@algebra:None, link:ring@rings:None, h3:More:None, link:unit@algebra:None]",
            "P:Last.",
            "[link:lagrange@algebra:Some(\"a\"), link:group:Some(\"b\"), link:coset@algebra:Some(\"b\")]",
        ]
    );
    let keys: Vec<(&str, &str, &str)> = read
        .read_articles
        .iter()
        .map(|a| (a.type_key.as_str(), a.class_key.as_str(), a.article_key.as_str()))
        .collect();
    assert_eq!(
        keys,
        vec![
            ("def", "group", "group@algebra"),
            ("thm", "lagrange", "lagrange@algebra"),
            ("def", "coset@algebra", "coset@algebra"),
        ]
    );
}

#[test]
fn a_document_with_the_least() {
    let read = read_document(&entries(vec![("Title", text("T")), ("Key", text("k"))])).ok().unwrap();
    assert_eq!(read.key, "k");
    assert_eq!(read.description, None);
    assert!(read.resolution_paths.is_empty());
    assert!(read.read_elements.is_empty());
    assert!(read.read_articles.is_empty());
}

fn document_error(all: Vec<(&str, Node)>) -> Option<String> {
    read_document(&entries(all)).err()
}

fn content_error(content: Vec<Node>) -> Option<String> {
    document_error(vec![("Key", text("k")), ("Title", text("T")), ("Content", list(content))])
}

#[test]
fn document_errors() {
    assert_eq!(document_error(vec![]), Some(String::from("Document must have a Key entry.")));
    assert_eq!(document_error(vec![("Key", nil())]), Some(String::from("Key in document must be text.")));
    assert_eq!(
        document_error(vec![("Key", text("k"))]),
        Some(String::from("Document must have a Title entry."))
    );
    assert_eq!(
        document_error(vec![("Key", text("k")), ("Title", list(vec![]))]),
        Some(String::from("Title in document must be text."))
    );
    assert_eq!(
        document_error(vec![("Key", text("k")), ("Title", text("T")), ("Description", nil())]),
        Some(String::from("Description in document must be text."))
    );
    assert_eq!(
        document_error(vec![("Key", text("k")), ("Title", text("T")), ("Resolve", text("a"))]),
        Some(String::from("The Resolve section must be a list."))
    );
    assert_eq!(
        document_error(vec![("Key", text("k")), ("Title", text("T")), ("Resolve", list(vec![nil()]))]),
        Some(String::from("An element of Resolve must be text."))
    );
    assert_eq!(
        document_error(vec![("Key", text("k")), ("Title", text("T")), ("Content", text("a"))]),
        Some(String::from("The Content section must be a list."))
    );
}

#[test]
fn content_errors() {
    assert_eq!(content_error(vec![text("loose")]), Some(String::from("Element at 1:2 must be a tagged value")));
    assert_eq!(
        content_error(vec![tagged("H3", text("deep"))]),
        Some(String::from("Heading level jumped by multiple levels at 1:2"))
    );
    assert_eq!(
        content_error(vec![tagged("H2", text("a")), tagged("H3", text("b")), tagged("H2", text("c")), tagged("H4", text("d"))]),
        Some(String::from("Heading level jumped by multiple levels at 1:2"))
    );
    assert_eq!(
        content_error(vec![tagged("H1", text("a"))]),
        Some(String::from("Found illegal heading at 1:2. H1 headings are not allowed."))
    );
    assert_eq!(
        content_error(vec![tagged("@", nil())]),
        Some(String::from("Value of @ include command at 6:7 must be text."))
    );
    assert_eq!(content_error(vec![tagged("I", text("a"))]), Some(String::from("Inline section must have 2 arguments.")));
    assert_eq!(
        content_error(vec![tagged("I", tuple(vec![nil(), tagged("@", text("a"))]))]),
        Some(String::from("Index must be text."))
    );
    assert_eq!(
        content_error(vec![tagged("I", tuple(vec![text("a"), text("b")]))]),
        Some(String::from("Inline section must have a tag or list of tags value."))
    );
    assert_eq!(
        content_error(vec![tagged("I", tuple(vec![text("a"), list(vec![tagged("@", text("x")), text("b")])]))]),
        Some(String::from("Value of inline section list must be tag."))
    );
    assert_eq!(
        content_error(vec![tagged("def", text("group"))]),
        Some(String::from("Expected second argument of names in article at 6:7."))
    );
}

#[test]
fn headings_may_go_down_by_many_levels_and_up_by_one() {
    let read = read_document(&entries(vec![
        ("Key", text("k")),
        ("Title", text("T")),
        (
            "Content",
            list(vec![
                tagged("H2", text("a")),
                tagged("H3", text("b")),
                tagged("H4", text("c")),
                tagged("H2", text("d")),
                tagged("H3", text("e")),
            ]),
        ),
    ]))
    .ok()
    .unwrap();
    assert_eq!(read.read_elements.len(), 5);
}

fn link_fields(show: &str) -> Node {
    dictionary(vec![
        ("OriginName", text("uses")),
        ("OriginDescription", text("Uses.")),
        ("TargetName", text("used by")),
        ("TargetDescription", text("Used by.")),
        ("TargetShow", text(show)),
    ])
}

#[test]
fn reading_a_model() {
    let model = entries(vec![
        (
            "theorem",
            dictionary(vec![
                ("Key", text("thm")),
                ("Name", text("Theorem")),
                ("Description", text("A theorem.")),
                ("Abbreviation", text("Thm")),
                ("Colour", text("#ff0000")),
                ("Links", dictionary(vec![("uses", link_fields("True")), ("proves", link_fields("False"))])),
            ]),
        ),
        ("definition", dictionary(vec![("Name", text("Definition")), ("Key", text("def"))])),
    ]);
    let read = read_model(&model).ok().unwrap();
    assert_eq!(read.len(), 2);
    assert_eq!(read[0].key, "thm");
    assert_eq!(read[0].name, "Theorem");
    assert_eq!(read[0].description, Some(String::from("A theorem.")));
    assert_eq!(read[0].abbreviation, Some(String::from("Thm")));
    assert_eq!(read[0].colour, "#ff0000");
    assert_eq!(read[0].links.len(), 2);
    assert_eq!(read[0].links[0].key, "uses");
    assert_eq!(read[0].links[0].origin_name, "uses");
    assert_eq!(read[0].links[0].origin_description, "Uses.");
    assert_eq!(read[0].links[0].target_name, "used by");
    assert_eq!(read[0].links[0].target_description, "Used by.");
    assert!(read[0].links[0].target_show);
    assert_eq!(read[0].links[1].key, "proves");
    assert!(!read[0].links[1].target_show);
    assert_eq!(read[1].key, "def");
    assert_eq!(read[1].description, None);
    assert_eq!(read[1].abbreviation, None);
    assert_eq!(read[1].colour, "#636363");
    assert!(read[1].links.is_empty());
    assert!(read_model(&vec![]).ok().unwrap().is_empty());
}

fn model_error(fields: Vec<(&str, Node)>) -> Option<String> {
    read_model(&entries(vec![("t", dictionary(fields))])).err()
}

#[test]
fn model_errors() {
    assert_eq!(
        read_model(&entries(vec![("t", text("x"))])).err(),
        Some(String::from("The type \"t\" at 1:2 must be a dictionary."))
    );
    assert_eq!(model_error(vec![]), Some(String::from("The type t at 10:11 must have a Key entry.")));
    assert_eq!(
        model_error(vec![("Key", nil())]),
        Some(String::from("Key in type t at 1:3 must be text."))
    );
    assert_eq!(
        model_error(vec![("Key", text("k"))]),
        Some(String::from("The type t at 10:11 must have a Name entry."))
    );
    assert_eq!(
        model_error(vec![("Key", text("k")), ("Name", list(vec![]))]),
        Some(String::from("Name in type t at 4:5 must be text."))
    );
    let named = |more: Vec<(&'static str, Node)>| {
        let mut fields = vec![("Key", text("k")), ("Name", text("n"))];
        fields.extend(more);
        model_error(fields)
    };
    assert_eq!(
        named(vec![("Description", nil())]),
        Some(String::from("Description in type t at 1:3 must be text."))
    );
    assert_eq!(
        named(vec![("Abbreviation", nil())]),
        Some(String::from("Abbreviation in type t at 1:3 must be text."))
    );
    assert_eq!(named(vec![("Colour", nil())]), Some(String::from("Colour in type t at 1:3 must be text.")));
    assert_eq!(
        named(vec![("Links", list(vec![]))]),
        Some(String::from("Links in type t at 4:5 must be a dictionary."))
    );
    assert_eq!(
        named(vec![("Links", dictionary(vec![("uses", text("x"))]))]),
        Some(String::from("Error: Links value must be a dictionary."))
    );
    assert_eq!(
        named(vec![("Links", dictionary(vec![("uses", dictionary(vec![("OriginName", text("a"))]))]))]),
        Some(String::from("Entry OriginDescription not found."))
    );
    assert_eq!(
        named(vec![("Links", dictionary(vec![("uses", dictionary(vec![("OriginName", nil())]))]))]),
        Some(String::from("Entry OriginName is not text."))
    );
    assert_eq!(
        named(vec![("Links", dictionary(vec![("uses", link_fields("true"))]))]),
        Some(String::from("Invalid TargetShow value: true."))
    );
}

#[test]
fn text_entries() {
    let all = entries(vec![("a", text("1")), ("b", nil())]);
    assert_eq!(read_text_value_or_err(&all, "a"), Ok(String::from("1")));
    assert_eq!(read_text_value_or_err(&all, "b"), Err(String::from("Entry b is not text.")));
    assert_eq!(read_text_value_or_err(&all, "c"), Err(String::from("Entry c not found.")));
}

#[test]
fn reading_a_project() {
    let project = entries(vec![
        ("ModelFile", text("types.khi")),
        ("Resolve", list(vec![text("main"), text("extra")])),
        ("Preamble", tagged("def!", tuple(vec![text("R"), text("0"), text("r")]))),
        (
            "Dependencies",
            dictionary(vec![
                ("one", dictionary(vec![("Path", text("../one")), ("Include", text("Obfuscated"))])),
                ("two", dictionary(vec![("Path", text("../two"))])),
            ]),
        ),
    ]);
    let read = read_project(&project).ok().unwrap();
    assert_eq!(read.model_path, "types.khi");
    assert_eq!(read.resolution_paths, vec![String::from("main"), String::from("extra")]);
    assert_eq!(read.preamble, Some(String::from("\\newcommand\\R[0]{r}")));
    assert_eq!(read.dependencies.len(), 2);
    assert_eq!(read.dependencies[0].path, "../one");
    assert_eq!(read.dependencies[0].inclusion, "Obfuscated");
    assert_eq!(read.dependencies[1].path, "../two");
    assert_eq!(read.dependencies[1].inclusion, "All");
    let empty = read_project(&vec![]).ok().unwrap();
    assert_eq!(empty.model_path, "model.khi");
    assert!(empty.resolution_paths.is_empty());
    assert_eq!(empty.preamble, None);
    assert!(empty.dependencies.is_empty());
}

fn project_error(all: Vec<(&str, Node)>) -> Option<String> {
    read_project(&entries(all)).err()
}

#[test]
fn project_errors() {
    assert_eq!(project_error(vec![("ModelFile", nil())]), Some(String::from("The ModelFile entry must be text.")));
    assert_eq!(project_error(vec![("Resolve", nil())]), Some(String::from("The Resolve section must be a list.")));
    assert_eq!(
        project_error(vec![("Resolve", list(vec![nil()]))]),
        Some(String::from("The elements of Resolve must be text document paths."))
    );
    assert_eq!(
        project_error(vec![("Preamble", dictionary(vec![]))]),
        Some(String::from("TeX: Illegal dictionary at 10:11."))
    );
    assert_eq!(
        project_error(vec![("Dependencies", list(vec![]))]),
        Some(String::from("Dependencies section must be a dictionary."))
    );
    assert_eq!(
        project_error(vec![("Dependencies", dictionary(vec![("a", text("x"))]))]),
        Some(String::from("Dependency must be a dictionary."))
    );
    assert_eq!(
        project_error(vec![("Dependencies", dictionary(vec![("a", dictionary(vec![]))]))]),
        Some(String::from("Dependency must have a Path entry."))
    );
    assert_eq!(
        project_error(vec![("Dependencies", dictionary(vec![("a", dictionary(vec![("Path", nil())]))]))]),
        Some(String::from("Dependency Path entry must be text."))
    );
    assert_eq!(
        project_error(vec![(
            "Dependencies",
            dictionary(vec![("a", dictionary(vec![("Path", text("p")), ("Include", nil())]))])
        )]),
        Some(String::from("Dependency Include entry must be text."))
    );
    assert_eq!(
        project_error(vec![("ModelFile", nil()), ("Resolve", nil())]),
        Some(String::from("The ModelFile entry must be text."))
    );
}

#[test]
fn names_of_directories() {
    assert_eq!(read_dir_file(&entries(vec![("Name", text("Algebra"))]), "a/dir.khi"), Ok(String::from("Algebra")));
    assert_eq!(
        read_dir_file(&entries(vec![("Name", nil())]), "a/dir.khi"),
        Err(String::from("Name in dir file 'a/dir.khi' must be text."))
    );
    assert_eq!(
        read_dir_file(&vec![], "a/dir.khi"),
        Err(String::from("Name not found in dir file 'a/dir.khi'."))
    );
}

#[test]
fn names_of_document_files() {
    for name in ["a.d", "a.d.khi", ".d", "x.y.d", "a.khi.d"] {
        assert!(is_document_file(name), "{}", name);
    }
    for name in ["a", "a.khi", "dir.khi", "a.d.kh", "a.dd", "", "a.D", "a.d "] {
        assert!(!is_document_file(name), "{}", name);
    }
}

fn file(name: &str, key: &str) -> FsNode {
    FsNode::File(String::from(name), Ok(entries(vec![("Key", text(key)), ("Title", text("T"))])))
}

fn directory(name: &str, crumb: Option<&str>, nodes: Vec<FsNode>) -> FsNode {
    FsNode::Directory(
        String::from(name),
        crumb.map(|c| (format!("{}/dir.khi", name), Ok(entries(vec![("Name", text(c))])))),
        nodes,
    )
}

#[test]
fn documents_of_a_directory_tree() {
    let root = directory(
        "documents",
        Some("Root"),
        vec![
            file("top.d", "top"),
            file("notes.txt", "ignored"),
            directory(
                "algebra",
                Some("Algebra"),
                vec![
                    file("groups.d.khi", "groups"),
                    directory("deep", None, vec![file("rings.d", "rings")]),
                    file("fields.d", "fields"),
                ],
            ),
            directory("empty", None, vec![]),
            file("last.d", "last"),
        ],
    );
    let read = read_document_dir(&root).ok().unwrap();
    let found: Vec<(String, String, Vec<(String, Option<String>)>)> = read
        .iter()
        .map(|d| {
            (
                d.file_name.clone(),
                d.document.key.clone(),
                d.dir_path.iter().map(|n| (n.dir_name.clone(), n.crumb.clone())).collect(),
            )
        })
        .collect();
    let algebra = (String::from("algebra"), Some(String::from("Algebra")));
    assert_eq!(
        found,
        vec![
            (String::from("top.d"), String::from("top"), vec![]),
            (String::from("groups.d.khi"), String::from("groups"), vec![algebra.clone()]),
            (
                String::from("rings.d"),
                String::from("rings"),
                vec![algebra.clone(), (String::from("deep"), None)]
            ),
            (String::from("fields.d"), String::from("fields"), vec![algebra.clone()]),
            (String::from("last.d"), String::from("last"), vec![]),
        ]
    );
}

#[test]
fn directory_errors() {
    let bad_document = directory(
        "documents",
        None,
        vec![
            file("a.d", "a"),
            FsNode::File(String::from("skipped.txt"), Err(String::from("never read"))),
            FsNode::File(String::from("b.d"), Ok(vec![])),
            FsNode::File(String::from("c.d"), Err(String::from("Error reading file c.d."))),
        ],
    );
    assert_eq!(read_document_dir(&bad_document).err(), Some(String::from("Document must have a Key entry.")));
    let bad_name = FsNode::Directory(
        String::from("documents"),
        None,
        vec![FsNode::Directory(
            String::from("sub"),
            Some((String::from("documents/sub/dir.khi"), Ok(vec![]))),
            vec![FsNode::File(String::from("b.d"), Ok(vec![]))],
        )],
    );
    assert_eq!(
        read_document_dir(&bad_name).err(),
        Some(String::from("Name not found in dir file 'documents/sub/dir.khi'."))
    );
    assert!(read_document_dir(&file("a.d", "a")).ok().unwrap().is_empty());
    let unread = directory(
        "documents",
        None,
        vec![file("a.d", "a"), FsNode::File(String::from("c.d"), Err(String::from("Error reading file c.d."))), FsNode::File(String::from("b.d"), Ok(vec![]))],
    );
    assert_eq!(read_document_dir(&unread).err(), Some(String::from("Error reading file c.d.")));
    let unparsed = FsNode::Directory(
        String::from("documents"),
        Some((String::from("documents/dir.khi"), Err(String::from("Error parsing dir file 'documents/dir.khi'.")))),
        vec![],
    );
    assert_eq!(
        read_document_dir(&unparsed).err(),
        Some(String::from("Error parsing dir file 'documents/dir.khi'."))
    );
}
