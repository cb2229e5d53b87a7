use frona_server::slash::{parse, shell_split, ParsedInvocation};

#[test]
fn plain_text_returns_none() {
    assert!(parse("hello").is_none());
    assert!(parse("").is_none());
    assert!(parse(" /clear").is_none());
}

#[test]
fn slash_with_no_args() {
    assert_eq!(
        parse("/clear"),
        Some(ParsedInvocation::Slash {
            name: "clear".to_string(),
            rest: String::new(),
        })
    );
}

#[test]
fn slash_with_args() {
    assert_eq!(
        parse("/weather London"),
        Some(ParsedInvocation::Slash {
            name: "weather".to_string(),
            rest: "London".to_string(),
        })
    );
}

#[test]
fn slash_preserves_internal_whitespace_in_rest() {
    assert_eq!(
        parse("/agent developer  hello  world"),
        Some(ParsedInvocation::Slash {
            name: "agent".to_string(),
            rest: "developer  hello  world".to_string(),
        })
    );
}

#[test]
fn slash_lowercases_name() {
    assert_eq!(
        parse("/Weather LONDON"),
        Some(ParsedInvocation::Slash {
            name: "weather".to_string(),
            rest: "LONDON".to_string(),
        })
    );
}

#[test]
fn at_resolves_to_at_variant() {
    assert_eq!(
        parse("@developer hi"),
        Some(ParsedInvocation::At {
            name: "developer".to_string(),
            rest: "hi".to_string(),
        })
    );
}

#[test]
fn at_lowercases_for_case_insensitive_lookup() {
    assert_eq!(
        parse("@Developer hi"),
        Some(ParsedInvocation::At {
            name: "developer".to_string(),
            rest: "hi".to_string(),
        })
    );
}

#[test]
fn name_with_hyphen_and_underscore() {
    assert_eq!(
        parse("/switch-agent_v2 x"),
        Some(ParsedInvocation::Slash {
            name: "switch-agent_v2".to_string(),
            rest: "x".to_string(),
        })
    );
}

#[test]
fn rejects_path_like_text() {
    assert!(parse("/path/to/file").is_none());
}

#[test]
fn rejects_name_starting_with_hyphen() {
    assert!(parse("/-foo").is_none());
}

#[test]
fn empty_name_returns_none() {
    assert!(parse("/").is_none());
    assert!(parse("@").is_none());
    assert!(parse("/ ").is_none());
}

#[test]
fn slash_rest_keeps_all_but_one_separator() {
    assert_eq!(
        parse("/weather   London  "),
        Some(ParsedInvocation::Slash {
            name: "weather".to_string(),
            rest: "  London  ".to_string(),
        })
    );
}

#[test]
fn shell_split_basic() {
    assert_eq!(shell_split(""), Vec::<String>::new());
    assert_eq!(shell_split("a b c"), vec!["a", "b", "c"]);
    assert_eq!(shell_split("  a   b  "), vec!["a", "b"]);
}

#[test]
fn shell_split_double_quotes() {
    assert_eq!(
        shell_split(r#"fix "the typo" please"#),
        vec!["fix", "the typo", "please"]
    );
}

#[test]
fn shell_split_single_quotes() {
    assert_eq!(
        shell_split("say 'hello world' now"),
        vec!["say", "hello world", "now"]
    );
}

#[test]
fn shell_split_mixed_quotes_preserve_inner() {
    assert_eq!(
        shell_split(r#"a "b 'c' d" e"#),
        vec!["a", "b 'c' d", "e"]
    );
}

#[test]
fn shell_split_backslash_escape_in_double_quotes() {
    assert_eq!(
        shell_split(r#""he said \"hi\"""#),
        vec![r#"he said "hi""#]
    );
}

#[test]
fn shell_split_unbalanced_quote_tolerated() {
    assert_eq!(shell_split(r#"a "b c"#), vec!["a", "b c"]);
}

#[test]
fn shell_split_empty_quotes_make_no_word() {
    assert_eq!(shell_split(r#"a "" b"#), vec!["a", "b"]);
}
