use notarium::read::node::Attribute;
use notarium::read::node::Node;
use notarium::read::node::Position;
use notarium::read::tex::is_tex_safe;
use notarium::read::tex::tex_error_to_text;
use notarium::read::tex::write_tex;
use notarium::read::tex::TexError;

fn at(line: usize, column: usize) -> Position {
    Position { index: 0, line, column }
}

fn text(s: &str) -> Node {
    Node::Text(String::from(s), at(1, 1), at(1, 1))
}

fn nil() -> Node {
    Node::Nil(at(1, 1), at(1, 1))
}

fn tuple(values: Vec<Node>) -> Node {
    Node::Tuple(values, at(2, 3), at(2, 3))
}

fn list(values: Vec<Node>) -> Node {
    Node::List(values, at(4, 5), at(4, 5))
}

fn tagged(name: &str, value: Node) -> Node {
    Node::Tagged(String::from(name), vec![], Box::new(value), at(6, 7), at(6, 7))
}

fn compound(values: Vec<Node>, whitespace: Vec<bool>) -> Node {
    Node::Compound(values, whitespace, at(8, 9), at(8, 9))
}

fn dictionary(entries: Vec<(&str, Node)>) -> Node {
    Node::Dictionary(
        entries.into_iter().map(|(k, v)| (String::from(k), v)).collect(),
        at(10, 11),
        at(10, 11),
    )
}

#[test]
fn text_is_rendered_as_it_stands() {
    assert_eq!(write_tex(&text("x + y")), Ok(String::from("x + y")));
    assert_eq!(write_tex(&text("")), Ok(String::new()));
}

#[test]
fn special_characters_are_escaped() {
    assert_eq!(write_tex(&text("5% of $3 & more")), Ok(String::from("5\\% of \\$3 \\& more")));
}

#[test]
fn space_before_a_script_is_dropped() {
    assert_eq!(write_tex(&text("x ^2 _i")), Ok(String::from("x^2_i")));
}

#[test]
fn nothing_is_an_empty_group() {
    assert_eq!(write_tex(&nil()), Ok(String::from("{}")));
    assert_eq!(write_tex(&tuple(vec![])), Ok(String::from("{}")));
}

#[test]
fn a_command_takes_its_arguments_in_braces() {
    let fraction = tagged("frac", tuple(vec![text("a"), text("b")]));
    assert_eq!(write_tex(&fraction), Ok(String::from("\\frac{a}{b}")));
    assert_eq!(write_tex(&tagged("sqrt", text("2"))), Ok(String::from("\\sqrt{2}")));
    assert_eq!(write_tex(&tagged("alpha", tuple(vec![]))), Ok(String::from("\\alpha")));
    assert_eq!(write_tex(&tagged("x", nil())), Ok(String::from("\\x{}")));
}

#[test]
fn a_command_with_an_apostrophe_takes_an_optional_argument() {
    let root = tagged("sqrt'", tuple(vec![text("3"), text("4")]));
    assert_eq!(write_tex(&root), Ok(String::from("\\sqrt[3]{4}")));
    assert_eq!(
        write_tex(&tagged("sqrt'", tuple(vec![]))),
        Err(String::from("TeX: Missing optional argument at 6:7."))
    );
}

#[test]
fn nested_commands() {
    let inner = tagged("sqrt", text("x"));
    let outer = tagged("frac", tuple(vec![inner, tagged("pi", tuple(vec![]))]));
    assert_eq!(write_tex(&outer), Ok(String::from("\\frac{\\sqrt{x}}\\pi")));
}

#[test]
fn attributes_are_not_rendered() {
    let node = Node::Tagged(
        String::from("sqrt"),
        vec![Attribute { key: String::from("i"), value: Some(String::from("v")) }],
        Box::new(text("2")),
        at(1, 1),
        at(1, 1),
    );
    assert_eq!(write_tex(&node), Ok(String::from("\\sqrt{2}")));
}

#[test]
fn a_compound_puts_its_components_side_by_side() {
    let sum = compound(vec![text("x"), tagged("alpha", tuple(vec![])), text("y")], vec![true, true]);
    assert_eq!(write_tex(&sum), Ok(String::from("x \\alpha{} y")));
    let tight = compound(vec![text("x"), text("y")], vec![false]);
    assert_eq!(write_tex(&tight), Ok(String::from("xy")));
    let spaced = compound(vec![text("x"), text("y")], vec![true]);
    assert_eq!(write_tex(&spaced), Ok(String::from("x y")));
}

#[test]
fn a_list_is_a_tabulation() {
    let table = list(vec![tuple(vec![text("a"), text("b")]), text("c")]);
    assert_eq!(write_tex(&table), Ok(String::from("a&b\\\\c\\\\")));
}

#[test]
fn special_commands() {
    assert_eq!(write_tex(&tagged("$", text("x"))), Ok(String::from("$x$")));
    assert_eq!(write_tex(&tagged("n", tuple(vec![]))), Ok(String::from("\\\\")));
    assert_eq!(write_tex(&tagged("p", tuple(vec![]))), Ok(String::from("\\par")));
    assert_eq!(write_tex(&tagged("raw!", text("a%b"))), Ok(String::from("a%b")));
    assert_eq!(write_tex(&tagged("lines!", text("a"))), Ok(String::from("\na")));
    let definition = tagged("def!", tuple(vec![text("Log"), text("0"), text("L")]));
    assert_eq!(write_tex(&definition), Ok(String::from("\\newcommand\\Log[0]{L}")));
}

#[test]
fn rendering_errors() {
    assert_eq!(
        write_tex(&tuple(vec![text("a"), text("b")])),
        Err(String::from("TeX: Illegal tuple at 2:3."))
    );
    assert_eq!(
        write_tex(&dictionary(vec![("k", text("v"))])),
        Err(String::from("TeX: Illegal dictionary at 10:11."))
    );
    assert_eq!(
        write_tex(&tagged("frac", dictionary(vec![]))),
        Err(String::from("TeX: Illegal dictionary at 10:11."))
    );
    assert_eq!(
        write_tex(&tagged("frac", list(vec![]))),
        Err(String::from("TeX: Illegal list at 4:5."))
    );
    assert_eq!(
        write_tex(&tagged("what!", text("a"))),
        Err(String::from("TeX: Macro error at 6:7:\nUnknown macro what!."))
    );
    assert_eq!(
        write_tex(&tagged("raw!", nil())),
        Err(String::from("TeX: Macro error at 6:7:\nraw! must take 1 text argument."))
    );
    assert_eq!(
        write_tex(&tagged("def!", text("a"))),
        Err(String::from("TeX: Macro error at 6:7:\ndef! must take 3 arguments."))
    );
    assert_eq!(
        write_tex(&tagged("lines!", tuple(vec![text("a"), text("b")]))),
        Err(String::from("TeX: Macro error at 6:7:\nlines! takes 1 text argument."))
    );
}

#[test]
fn values_that_cannot_be_read_are_refused() {
    let cases = vec![
        tagged("def!", tuple(vec![nil(), text("0"), text("L")])),
        tagged("lines!", nil()),
        tagged("lines!", list(vec![])),
        compound(vec![text("x")], vec![]),
        compound(vec![], vec![]),
        compound(vec![text("x"), text("y")], vec![]),
        compound(vec![text("x"), text("y")], vec![true, false]),
        tuple(vec![text("x")]),
        list(vec![tagged("lines!", nil())]),
        tagged("frac", tuple(vec![text("a"), compound(vec![text("x")], vec![])])),
    ];
    for case in &cases {
        assert!(!is_tex_safe(case));
        assert_eq!(write_tex(case), Err(format!("TeX: Malformed value at {}:{}.", case.from().line, case.from().column)));
    }
}

#[test]
fn values_that_can_be_read() {
    let cases = vec![
        nil(),
        text("x"),
        dictionary(vec![("k", compound(vec![], vec![]))]),
        tuple(vec![tuple(vec![])]),
        tuple(vec![text("a"), text("b")]),
        tagged("def!", tuple(vec![text("a"), nil()])),
        tagged("def!", list(vec![])),
        tagged("lines!", tuple(vec![])),
        compound(vec![text("x"), nil(), text("y")], vec![false, true]),
    ];
    for case in &cases {
        assert!(is_tex_safe(case));
    }
}

#[test]
fn error_messages() {
    let p = Position { index: 9, line: 12, column: 340 };
    assert_eq!(tex_error_to_text(&TexError::IllegalTable(p)), "TeX: Illegal list at 12:340.");
    assert_eq!(tex_error_to_text(&TexError::IllegalDictionary(p)), "TeX: Illegal dictionary at 12:340.");
    assert_eq!(tex_error_to_text(&TexError::IllegalTuple(p)), "TeX: Illegal tuple at 12:340.");
    assert_eq!(tex_error_to_text(&TexError::ZeroTable(p)), "TeX: Empty table at 12:340.");
    assert_eq!(
        tex_error_to_text(&TexError::MacroError(p, String::from("bad"))),
        "TeX: Macro error at 12:340:\nbad"
    );
    assert_eq!(
        tex_error_to_text(&TexError::MissingOptionalArgument(Position { index: 0, line: 0, column: 0 })),
        "TeX: Missing optional argument at 0:0."
    );
}
