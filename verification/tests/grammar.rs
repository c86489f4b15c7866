use togglebot::commands::{GrammarError, Type};
use togglebot::grammar::Argument;

fn reparse(a: &Argument) -> Argument {
    let d = a.descriptor().expect("a parsed argument renders back");
    Argument::parse(d.as_str()).expect("a rendered descriptor parses back")
}

fn assert_equivalent(a: &Argument, b: &Argument) {
    match (a, b) {
        (Argument::Simple(x), Argument::Simple(y))
        | (Argument::Test(x), Argument::Test(y))
        | (Argument::Format(x), Argument::Format(y)) => match (x, y) {
            (Type::FreeText(n), Type::FreeText(m)) => assert_eq!(n, m),
            (Type::UrlBacked(s1, f1), Type::UrlBacked(s2, f2)) => {
                assert_eq!(s1, s2);
                assert_eq!(f1, f2);
            }
            _ => panic!("argument types differ"),
        },
        _ => panic!("argument roles differ"),
    }
}

#[test]
fn parse_plain_string() {
    let a = Argument::parse("string").unwrap();
    match &a {
        Argument::Simple(Type::FreeText(1)) => {}
        _ => panic!("expected a plain single-token free text"),
    }
    assert_equivalent(&a, &reparse(&a));
}

#[test]
fn parse_counted_string() {
    let a = Argument::parse("string...").unwrap();
    match &a {
        Argument::Simple(Type::FreeText(3)) => {}
        _ => panic!("expected three tokens"),
    }
    assert_equivalent(&a, &reparse(&a));
}

#[test]
fn parse_validated_url() {
    let a = Argument::parse("url?http://example.com/{0}").unwrap();
    match &a {
        Argument::Test(Type::UrlBacked(s, None)) => assert_eq!(s, "http://example.com/{0}"),
        _ => panic!("expected a validated URL type"),
    }
    assert_equivalent(&a, &reparse(&a));
}

#[test]
fn parse_formatted_url_with_error_argument() {
    let a = Argument::parse("url!http://example.com/{0}<!>Sorry, no {0}").unwrap();
    match &a {
        Argument::Format(Type::UrlBacked(s, Some(e))) => {
            assert_eq!(s, "http://example.com/{0}");
            assert_eq!(e, "Sorry, no {0}");
        }
        _ => panic!("expected a formatted URL type with a failure template"),
    }
    assert_equivalent(&a, &reparse(&a));
}

#[test]
fn parse_url_keeps_query_marks_in_argument() {
    let a = Argument::parse("url?http://example.com/{0}?q=1").unwrap();
    match &a {
        Argument::Test(Type::UrlBacked(s, None)) => assert_eq!(s, "http://example.com/{0}?q=1"),
        _ => panic!("expected the separator split at the first mark"),
    }
    assert_equivalent(&a, &reparse(&a));
}

#[test]
fn parse_url_is_case_insensitive() {
    let a = Argument::parse("URL?http://example.com/{0}").unwrap();
    match &a {
        Argument::Test(Type::UrlBacked(_, None)) => {}
        _ => panic!("expected the URL type in any case"),
    }
}

#[test]
fn parse_rejects_unknown_type() {
    assert!(matches!(
        Argument::parse("number"),
        Err(GrammarError::UnknownType)
    ));
}

#[test]
fn parse_rejects_url_without_argument() {
    assert!(matches!(
        Argument::parse("url"),
        Err(GrammarError::MissingUrlArgument)
    ));
}

#[test]
fn parse_rejects_bad_templates() {
    assert!(matches!(
        Argument::parse("url?http://example.com/"),
        Err(GrammarError::BadTemplate)
    ));
    assert!(matches!(
        Argument::parse("url?http://example.com/{0}{0}"),
        Err(GrammarError::BadTemplate)
    ));
    assert!(matches!(
        Argument::parse("url!http://example.com/{0}<!>{1}"),
        Err(GrammarError::BadTemplate)
    ));
}

#[test]
fn parse_rejects_bad_start() {
    assert!(matches!(Argument::parse(""), Err(GrammarError::BadStart)));
    assert!(matches!(Argument::parse("?x"), Err(GrammarError::BadStart)));
    assert!(matches!(
        Argument::parse("9string"),
        Err(GrammarError::BadStart)
    ));
}

#[test]
fn type_parse_counts_dots() {
    let t = Type::parse("string..", None, None).unwrap();
    match t {
        Type::FreeText(2) => {}
        _ => panic!("expected a two-token free text"),
    }
    let t = Type::parse("string", Some("ignored"), None).unwrap();
    match t {
        Type::FreeText(1) => {}
        _ => panic!("expected the one-token default"),
    }
}

#[test]
fn wanted_args_counts_tokens() {
    assert_eq!(Type::FreeText(3).wanted_args(), 3);
    assert_eq!(
        Type::UrlBacked("https://e/{0}".to_owned(), None).wanted_args(),
        1
    );
}

#[test]
fn get_type_reaches_through_roles() {
    let a = Argument::parse("string..?x").unwrap();
    assert_eq!(a.get_type().wanted_args(), 2);
    match &a {
        Argument::Test(Type::FreeText(2)) => {}
        _ => panic!("expected the validate role"),
    }
}
