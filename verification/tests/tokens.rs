use fluid::tokens::{Delimiter, Spacing, Token, Tokens};

fn literal_value(text: &str) -> Option<String> {
    match Token::literal(text.to_string()) {
        Token::Literal { string_value, .. } => string_value,
        _ => panic!("literal"),
    }
}

fn is_keyword(name: &str) -> bool {
    match Token::ident(name.to_string()) {
        Token::Ident { keyword, .. } => keyword,
        _ => panic!("ident"),
    }
}

#[test]
fn string_literal_value_is_unescaped() {
    assert_eq!(literal_value("\"a\\nb\""), Some("a\nb".to_string()));
}

#[test]
fn raw_string_literal_has_value() {
    assert_eq!(literal_value("r#\"say \"hi\"\"#"), Some("say \"hi\"".to_string()));
}

#[test]
fn other_literals_have_no_string_value() {
    assert_eq!(literal_value("42"), None);
    assert_eq!(literal_value("'c'"), None);
    assert_eq!(literal_value("b\"bytes\""), None);
}

#[test]
fn keywords_are_marked() {
    assert!(is_keyword("type"));
    assert!(is_keyword("fn"));
    assert!(is_keyword("_"));
    assert!(!is_keyword("div"));
    assert!(!is_keyword("r#type"));
}

#[test]
fn groups_count_their_content() {
    let mut inner = Tokens::new();
    inner.push(Token::Punct('+', Spacing::Alone));
    inner.push(Token::Punct('-', Spacing::Alone));
    let mut tokens = Tokens::new();
    tokens.push(Token::Punct('#', Spacing::Alone));
    tokens.push_group(Delimiter::Bracket, inner);
    assert_eq!(tokens.len(), 4);
    match tokens.token(1) {
        Token::Group { delimiter, len } => {
            assert_eq!(*delimiter, Delimiter::Bracket);
            assert_eq!(*len, 2);
        }
        _ => panic!("group"),
    }
}

#[test]
fn appended_tokens_follow() {
    let mut a = Tokens::new();
    a.push(Token::Punct('a', Spacing::Alone));
    let mut b = Tokens::new();
    b.push(Token::Punct('b', Spacing::Alone));
    a.append(b);
    assert_eq!(a.len(), 2);
    assert!(matches!(a.token(1), Token::Punct('b', Spacing::Alone)));
}

#[test]
fn copied_range_keeps_groups_and_spacing() {
    let mut inner = Tokens::new();
    inner.push(Token::Punct(':', Spacing::Joint));
    inner.push(Token::Punct(':', Spacing::Alone));
    let mut from = Tokens::new();
    from.push(Token::ident("a".to_string()));
    from.push_group(Delimiter::Parenthesis, inner);
    from.push(Token::literal("\"s\"".to_string()));
    let mut to = Tokens::new();
    to.push(Token::ident("b".to_string()));
    to.copy_range(&from, 1, 5);
    assert_eq!(to.len(), 5);
    assert!(matches!(to.token(1), Token::Group { delimiter: Delimiter::Parenthesis, len: 2 }));
    assert!(matches!(to.token(2), Token::Punct(':', Spacing::Joint)));
    match to.token(4) {
        Token::Literal { text, string_value } => {
            assert_eq!(text, "\"s\"");
            assert_eq!(string_value.as_deref(), Some("s"));
        }
        _ => panic!("literal"),
    }
}

#[test]
fn token_copy_is_equal() {
    match Token::ident("fn".to_string()).copy() {
        Token::Ident { name, keyword } => {
            assert_eq!(name, "fn");
            assert!(keyword);
        }
        _ => panic!("ident"),
    }
}
