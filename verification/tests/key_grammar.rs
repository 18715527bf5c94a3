use notarium::key::is_key_character;
use notarium::key::read_article_key_declaration;
use notarium::key::read_include_key;
use notarium::key::DeclarationKey;
use notarium::key::IncludeKey;
use notarium::key::KeyReader;

#[test]
fn key_characters() {
    for c in ['a', 'z', 'A', 'Z', '0', '9', '-', '\'', '&', '.', '#'] {
        assert!(is_key_character(c), "{}", c);
    }
    for c in ['@', '(', ')', ' ', '\t', '_', '/', 'é', '`', '{', '[', ':'] {
        assert!(!is_key_character(c), "{}", c);
    }
}

#[test]
fn plain_key_is_a_class_key() {
    let mut reader = KeyReader::new("foo");
    assert!(reader.is_plain_key());
    assert!(!reader.is_parenthesized());
    assert!(!reader.is_at_end());
    assert_eq!(reader.parse_plain(), Ok((String::from("foo"), false)));
    assert!(reader.is_at_end());
    assert!(!reader.is_plain_key());
}

#[test]
fn plain_key_with_at_is_an_article_key() {
    let mut reader = KeyReader::new("foo@bar");
    assert!(reader.is_plain_key());
    let (key, article) = reader.parse_plain().unwrap();
    assert_eq!(key, "foo@bar");
    assert!(article);
    assert!(key.starts_with("foo@"));
    assert!(reader.is_at_end());
}

#[test]
fn second_at_is_a_syntax_error() {
    let mut reader = KeyReader::new("foo@bar@baz");
    assert_eq!(
        reader.parse_plain(),
        Err(String::from("Cannot have multiple @ characters in key."))
    );
}

#[test]
fn at_without_article_is_a_syntax_error() {
    let mut reader = KeyReader::new("foo@");
    assert_eq!(
        reader.parse_plain(),
        Err(String::from("Article key missing article after @ character."))
    );
    let mut reader = KeyReader::new("foo@(x)");
    assert_eq!(
        reader.parse_plain(),
        Err(String::from("Article key missing article after @ character."))
    );
}

#[test]
fn plain_key_stops_at_other_characters() {
    let mut reader = KeyReader::new("a-b.c#d&e'f rest");
    assert_eq!(reader.parse_plain(), Ok((String::from("a-b.c#d&e'f"), false)));
    assert!(!reader.is_at_end());
    assert!(!reader.is_plain_key());
    assert!(!reader.is_parenthesized());
}

#[test]
fn parenthesized_key() {
    let mut reader = KeyReader::new("(local)");
    assert!(!reader.is_plain_key());
    assert!(reader.is_parenthesized());
    assert_eq!(reader.parse_parenthesized(), Ok(String::from("local")));
    assert!(reader.is_at_end());
}

#[test]
fn parenthesized_key_errors() {
    assert_eq!(
        KeyReader::new("()").parse_parenthesized(),
        Err(String::from("Expected key in parentheses."))
    );
    assert_eq!(
        KeyReader::new("(").parse_parenthesized(),
        Err(String::from("Expected key in parentheses."))
    );
    assert_eq!(
        KeyReader::new("(a@b)").parse_parenthesized(),
        Err(String::from("Character '@' is not allowed in local key."))
    );
    assert_eq!(
        KeyReader::new("(a@)").parse_parenthesized(),
        Err(String::from("Article key missing article after @ character."))
    );
    assert_eq!(
        KeyReader::new("(local").parse_parenthesized(),
        Err(String::from("Expected ')', found end of key."))
    );
    assert_eq!(
        KeyReader::new("(local x)").parse_parenthesized(),
        Err(String::from("Expected ')', found ' '"))
    );
    assert_eq!(
        KeyReader::new("(localé)").parse_parenthesized(),
        Err(String::from("Expected ')', found 'é'"))
    );
}

#[test]
fn reader_reads_one_form_after_another() {
    let mut reader = KeyReader::new("foo(local)tail");
    assert_eq!(reader.parse_plain(), Ok((String::from("foo"), false)));
    assert!(reader.is_parenthesized());
    assert_eq!(reader.parse_parenthesized(), Ok(String::from("local")));
    assert!(reader.is_plain_key());
    assert_eq!(reader.parse_plain(), Ok((String::from("tail"), false)));
    assert!(reader.is_at_end());
}

#[test]
fn skip_whitespace_moves_to_the_next_blank() {
    let mut reader = KeyReader::new("abc def");
    assert_eq!(reader.skip_whitespace(), Ok(()));
    assert!(!reader.is_at_end());
    assert!(!reader.is_plain_key());
    assert_eq!(reader.skip_whitespace(), Ok(()));
    assert!(!reader.is_at_end());
    let mut reader = KeyReader::new("abc\tdef");
    assert_eq!(reader.skip_whitespace(), Ok(()));
    assert!(!reader.is_plain_key());
    assert!(!reader.is_at_end());
    let mut reader = KeyReader::new("abc");
    assert_eq!(reader.skip_whitespace(), Ok(()));
    assert!(reader.is_at_end());
    let mut reader = KeyReader::new("");
    assert_eq!(reader.skip_whitespace(), Ok(()));
    assert!(reader.is_at_end());
}

fn declaration(key: &str) -> Result<(String, String, String), String> {
    match read_article_key_declaration(key)? {
        DeclarationKey::Class(class) => Ok((String::from("class"), class, String::new())),
        DeclarationKey::ClassAndLocal(class, local) => Ok((String::from("both"), class, local)),
        DeclarationKey::Local(local) => Ok((String::from("local"), String::new(), local)),
    }
}

#[test]
fn declaration_key_forms() {
    assert_eq!(
        declaration("foo"),
        Ok((String::from("class"), String::from("foo"), String::new()))
    );
    assert_eq!(
        declaration("(local)"),
        Ok((String::from("local"), String::new(), String::from("local")))
    );
    assert_eq!(
        declaration("foo(local)"),
        Ok((String::from("both"), String::from("foo"), String::from("local")))
    );
}

#[test]
fn declaration_key_errors() {
    assert_eq!(
        declaration("foo@bar"),
        Err(String::from("Declaration key cannot be an article key."))
    );
    assert_eq!(
        declaration("foo@bar@baz"),
        Err(String::from("Cannot have multiple @ characters in key."))
    );
    assert_eq!(declaration(""), Err(String::from("Invalid declaration key.")));
    assert_eq!(declaration("@foo"), Err(String::from("Invalid declaration key.")));
    assert_eq!(declaration(" foo"), Err(String::from("Invalid declaration key.")));
    assert_eq!(declaration("foo bar"), Err(String::from("Expected end in key.")));
    assert_eq!(declaration("foo (local)"), Err(String::from("Expected end in key.")));
    assert_eq!(declaration("foo!"), Err(String::from("Expected end in key.")));
    assert_eq!(declaration("foo(local)x"), Err(String::from("Expected end in key.")));
    assert_eq!(declaration("(local)x"), Err(String::from("Expected end in key.")));
    assert_eq!(declaration("foo(local"), Err(String::from("Expected ')', found end of key.")));
    assert_eq!(declaration("foo()"), Err(String::from("Expected key in parentheses.")));
    assert_eq!(
        declaration("foo(a@b)"),
        Err(String::from("Character '@' is not allowed in local key."))
    );
}

fn inclusion(key: &str) -> Result<(String, String), String> {
    match read_include_key(key)? {
        IncludeKey::Class(class) => Ok((String::from("class"), class)),
        IncludeKey::Article(article) => Ok((String::from("article"), article)),
        IncludeKey::Local(local) => Ok((String::from("local"), local)),
    }
}

#[test]
fn include_key_forms() {
    assert_eq!(inclusion("foo"), Ok((String::from("class"), String::from("foo"))));
    assert_eq!(inclusion("foo@bar"), Ok((String::from("article"), String::from("foo@bar"))));
    assert_eq!(inclusion("(local)"), Ok((String::from("local"), String::from("local"))));
}

#[test]
fn include_key_errors() {
    assert_eq!(
        inclusion("foo@bar@baz"),
        Err(String::from("Cannot have multiple @ characters in key."))
    );
    assert_eq!(inclusion("foo(local)"), Err(String::from("Expected end in key.")));
    assert_eq!(inclusion("foo@bar baz"), Err(String::from("Expected end in key.")));
    assert_eq!(inclusion("(local) "), Err(String::from("Expected end in key.")));
    assert_eq!(inclusion(""), Err(String::from("Invalid declaration key.")));
    assert_eq!(inclusion("?"), Err(String::from("Invalid declaration key.")));
}
