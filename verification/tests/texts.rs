use notarium::read::node::message_at_string;
use notarium::read::node::position_string;
use notarium::read::node::text_is;
use notarium::read::node::Position;
use notarium::text::decimal_string;
use notarium::text::ends_with;
use notarium::text::hexadecimal_string;
use notarium::text::join2;
use notarium::text::join3;
use notarium::views::clone_optional_text;
use notarium::views::clone_texts;

#[test]
fn decimal_numbers() {
    assert_eq!(decimal_string(0), "0");
    assert_eq!(decimal_string(7), "7");
    assert_eq!(decimal_string(10), "10");
    assert_eq!(decimal_string(1234567890), "1234567890");
    assert_eq!(decimal_string(usize::MAX), usize::MAX.to_string());
}

#[test]
fn hexadecimal_numbers() {
    assert_eq!(hexadecimal_string(0), "0");
    assert_eq!(hexadecimal_string(9), "9");
    assert_eq!(hexadecimal_string(10), "a");
    assert_eq!(hexadecimal_string(15), "f");
    assert_eq!(hexadecimal_string(16), "10");
    assert_eq!(hexadecimal_string(0x0abc), "abc");
    assert_eq!(hexadecimal_string(0xffff), "ffff");
    for n in [1u16, 255, 256, 4095, 4096, 65534] {
        assert_eq!(hexadecimal_string(n), format!("{:x}", n));
    }
}

#[test]
fn joined_texts() {
    assert_eq!(join2("a", "b"), "ab");
    assert_eq!(join2("", ""), "");
    assert_eq!(join3("a", "é", "c"), "aéc");
    assert_eq!(join3("", "x", ""), "x");
}

#[test]
fn ends_of_texts() {
    assert!(ends_with("group@doc", "@doc"));
    assert!(ends_with("group@doc", ""));
    assert!(ends_with("", ""));
    assert!(ends_with("@doc", "@doc"));
    assert!(!ends_with("doc", "@doc"));
    assert!(!ends_with("group@doc", "@do"));
    assert!(!ends_with("", "a"));
    assert!(ends_with("naïve@é", "@é"));
    assert!(!ends_with("naïve@é", "@e"));
}

#[test]
fn equal_texts() {
    assert!(text_is("H1", "H1"));
    assert!(!text_is("H1", "H2"));
    assert!(!text_is("H1", "H"));
    assert!(text_is("", ""));
}

#[test]
fn places_in_messages() {
    let at = Position { index: 5, line: 12, column: 0 };
    assert_eq!(position_string(at), "12:0");
    assert_eq!(message_at_string("Error at ", at, "."), "Error at 12:0.");
    assert_eq!(message_at_string("", at, ""), "12:0");
}

#[test]
fn copies_of_texts() {
    let texts = vec![String::from("a"), String::from("b")];
    assert_eq!(clone_texts(&texts), texts);
    assert_eq!(clone_texts(&vec![]), Vec::<String>::new());
    assert_eq!(clone_optional_text(&Some(String::from("a"))), Some(String::from("a")));
    assert_eq!(clone_optional_text(&None), None);
}
