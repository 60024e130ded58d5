use fluid::ast::{AttributeValue, Node, TokenRange};
use fluid::grammar::{ParseError, ParseErrorKind};
use fluid::parse::parse_document;
use fluid::tokens::{Delimiter, Spacing, Token, Tokens};
use proc_macro2::{TokenStream, TokenTree};

fn convert(stream: TokenStream) -> Tokens {
    let mut out = Tokens::new();
    for tree in stream {
        match tree {
            TokenTree::Ident(i) => out.push(Token::ident(i.to_string())),
            TokenTree::Punct(p) => {
                let spacing = match p.spacing() {
                    proc_macro2::Spacing::Alone => Spacing::Alone,
                    proc_macro2::Spacing::Joint => Spacing::Joint,
                };
                out.push(Token::Punct(p.as_char(), spacing))
            }
            TokenTree::Literal(l) => out.push(Token::literal(l.to_string())),
            TokenTree::Group(g) => {
                let inner = convert(g.stream());
                match g.delimiter() {
                    proc_macro2::Delimiter::Brace => out.push_group(Delimiter::Brace, inner),
                    proc_macro2::Delimiter::Parenthesis => out.push_group(Delimiter::Parenthesis, inner),
                    proc_macro2::Delimiter::Bracket => out.push_group(Delimiter::Bracket, inner),
                    proc_macro2::Delimiter::None => out.append(inner),
                }
            }
        }
    }
    out
}

fn lex(text: &str) -> Tokens {
    convert(text.parse::<TokenStream>().unwrap())
}

/// The tokens of a range, written out with spaces between them.
fn spell(tokens: &Tokens, range: TokenRange) -> String {
    let mut words: Vec<String> = Vec::new();
    let mut closes: Vec<(usize, char)> = Vec::new();
    let mut i = range.start;
    while i < range.end {
        while let Some(&(end, c)) = closes.last() {
            if end == i {
                words.push(c.to_string());
                closes.pop();
            } else {
                break;
            }
        }
        match tokens.token(i) {
            Token::Ident { name, .. } => words.push(name.clone()),
            Token::Punct(c, _) => words.push(c.to_string()),
            Token::Literal { text, .. } => words.push(text.clone()),
            Token::Group { delimiter, len } => {
                let (open, close) = match delimiter {
                    Delimiter::Brace => ('{', '}'),
                    Delimiter::Parenthesis => ('(', ')'),
                    Delimiter::Bracket => ('[', ']'),
                };
                words.push(open.to_string());
                closes.push((i + 1 + len, close));
            }
        }
        i += 1;
    }
    while let Some((_, c)) = closes.pop() {
        words.push(c.to_string());
    }
    words.join(" ")
}

fn element(node: &Node) -> &fluid::ast::Element {
    match node {
        Node::Element(e) => e,
        _ => panic!("not an element"),
    }
}

fn error_at(text: &str) -> ParseError {
    match parse_document(&lex(text)) {
        Err(e) => e,
        Ok(_) => panic!("read without error: {}", text),
    }
}

#[test]
fn readme_example_is_read() {
    let input = lex(r##"
        div {
          style { r#"
                .odd {
                    color: red;
                }
            "#}
          p
          id="test"
          class=#{ |counter| if *counter.get() % 2 == 0 { "even" } else { "odd" } }
          {
            "Counter"
            { " is: " }
            #{ |counter| counter.get().to_string() }
          }
          button
          @click={ move |_| {
            let new_val = *counter.get() + 1;
            counter.set(new_val);
          }}
          { "+" }
        }
    "##);
    let root = parse_document(&input).unwrap();
    let div = element(&root);
    assert_eq!(div.name, "div");
    assert!(div.attributes.is_empty());
    assert_eq!(div.children.len(), 3);

    let style = element(&div.children[0]);
    assert_eq!(style.name, "style");
    assert_eq!(style.children.len(), 1);
    match &*style.children[0] {
        Node::Text(t) => assert!(t.contains("color: red;")),
        _ => panic!("style text"),
    }

    let p = element(&div.children[1]);
    assert_eq!(p.name, "p");
    assert_eq!(p.attributes.len(), 2);
    assert_eq!(p.attributes[0].0, "id");
    match &p.attributes[0].1 {
        AttributeValue::Value(v) => assert_eq!(v, "test"),
        _ => panic!("id value"),
    }
    assert_eq!(p.attributes[1].0, "class");
    match &p.attributes[1].1 {
        AttributeValue::Effect(e) => {
            assert_eq!(e.ctx, "ctx");
            assert_eq!(e.signals, vec!["counter".to_string()]);
            assert_eq!(
                spell(&input, e.expr),
                "if * counter . get ( ) % 2 = = 0 { \"even\" } else { \"odd\" }"
            );
        }
        _ => panic!("class effect"),
    }
    assert_eq!(p.children.len(), 3);
    match &*p.children[0] {
        Node::Text(t) => assert_eq!(t, "Counter"),
        _ => panic!("text child"),
    }
    match &*p.children[1] {
        Node::Expr(r) => assert_eq!(spell(&input, *r), "\" is: \""),
        _ => panic!("expression child"),
    }
    match &*p.children[2] {
        Node::EffectDiv(e) => {
            assert_eq!(e.signals, vec!["counter".to_string()]);
            assert_eq!(spell(&input, e.expr), "counter . get ( ) . to_string ( )");
        }
        _ => panic!("reactive child"),
    }

    let button = element(&div.children[2]);
    assert_eq!(button.name, "button");
    assert_eq!(button.attributes.len(), 1);
    assert_eq!(button.attributes[0].0, "click");
    match &button.attributes[0].1 {
        AttributeValue::Event(r) => {
            assert!(spell(&input, *r).starts_with("move | _ | {"));
        }
        _ => panic!("click handler"),
    }
    match &*button.children[0] {
        Node::Text(t) => assert_eq!(t, "+"),
        _ => panic!("button text"),
    }
}

#[test]
fn single_node_reports_where_it_ends() {
    let input = lex("div {} span {}");
    let (node, next) = Node::parse(&input).unwrap();
    assert_eq!(element(&node).name, "div");
    assert_eq!(next, 2);
}

#[test]
fn expression_node_covers_its_braces_content() {
    let input = lex("{ a + b }");
    match parse_document(&input).unwrap() {
        Node::Expr(r) => assert_eq!(r, TokenRange { start: 1, end: 4 }),
        _ => panic!("expression"),
    }
}

#[test]
fn repeated_attribute_keeps_place_and_takes_later_value() {
    let input = lex(r#"div id="a" class="b" id="c" {}"#);
    let root = parse_document(&input).unwrap();
    let div = element(&root);
    assert_eq!(div.attributes.len(), 2);
    assert_eq!(div.attributes[0].0, "id");
    match &div.attributes[0].1 {
        AttributeValue::Value(v) => assert_eq!(v, "c"),
        _ => panic!("id"),
    }
    assert_eq!(div.attributes[1].0, "class");
}

#[test]
fn attribute_forms_are_told_apart() {
    let input = lex(r#"input value={ x } title=#{ |a| a } @input={ handler } {}"#);
    let root = parse_document(&input).unwrap();
    let el = element(&root);
    assert_eq!(el.attributes.len(), 3);
    match &el.attributes[0].1 {
        AttributeValue::Expr(r) => assert_eq!(spell(&input, *r), "x"),
        _ => panic!("expression attribute"),
    }
    match &el.attributes[1].1 {
        AttributeValue::Effect(e) => assert_eq!(e.signals, vec!["a".to_string()]),
        _ => panic!("effect attribute"),
    }
    match &el.attributes[2].1 {
        AttributeValue::Event(r) => assert_eq!(spell(&input, *r), "handler"),
        _ => panic!("event attribute"),
    }
}

#[test]
fn signal_lists_take_optional_commas() {
    let input = lex("#{ |a, b c,| a + b + c }");
    match parse_document(&input).unwrap() {
        Node::EffectDiv(e) => {
            assert_eq!(e.signals, vec!["a".to_string(), "b".to_string(), "c".to_string()]);
            assert_eq!(spell(&input, e.expr), "a + b + c");
        }
        _ => panic!("reactive block"),
    }
}

#[test]
fn empty_signal_list_is_read() {
    let input = lex("#{ || 1 }");
    match parse_document(&input).unwrap() {
        Node::EffectDiv(e) => {
            assert!(e.signals.is_empty());
            assert_eq!(spell(&input, e.expr), "1");
        }
        _ => panic!("reactive block"),
    }
}

#[test]
fn nested_elements_are_read_in_order() {
    let input = lex(r#"ul { li { "one" } li { "two" } }"#);
    let root = parse_document(&input).unwrap();
    let ul = element(&root);
    assert_eq!(ul.children.len(), 2);
    for (i, expected) in ["one", "two"].iter().enumerate() {
        let li = element(&ul.children[i]);
        assert_eq!(li.name, "li");
        match &*li.children[0] {
            Node::Text(t) => assert_eq!(t, expected),
            _ => panic!("item text"),
        }
    }
}

#[test]
fn non_string_literal_is_no_node() {
    assert_eq!(error_at("42"), ParseError { kind: ParseErrorKind::ExpectedIdent, at: 0 });
}

#[test]
fn keyword_is_no_element_name() {
    assert_eq!(error_at("div { type {} }"), ParseError { kind: ParseErrorKind::Keyword, at: 2 });
}

#[test]
fn keyword_is_no_attribute_name() {
    assert_eq!(error_at(r#"input type="text" {}"#), ParseError { kind: ParseErrorKind::Keyword, at: 1 });
}

#[test]
fn reactive_block_needs_braces() {
    assert_eq!(error_at("# x"), ParseError { kind: ParseErrorKind::ExpectedBraces, at: 1 });
}

#[test]
fn reactive_block_needs_signal_list() {
    assert_eq!(error_at("#{ x }"), ParseError { kind: ParseErrorKind::ExpectedSignalList, at: 2 });
}

#[test]
fn unclosed_signal_list_is_refused() {
    assert_eq!(error_at("#{ |a }"), ParseError { kind: ParseErrorKind::ExpectedIdent, at: 4 });
}

#[test]
fn attribute_needs_equals() {
    assert_eq!(error_at(r#"div id "x" {}"#), ParseError { kind: ParseErrorKind::ExpectedEquals, at: 2 });
}

#[test]
fn event_needs_braced_handler() {
    assert_eq!(
        error_at(r#"button @click="x" {}"#),
        ParseError { kind: ParseErrorKind::ExpectedEventHandler, at: 4 }
    );
}

#[test]
fn attribute_needs_a_value_form() {
    assert_eq!(
        error_at("div id=5 {}"),
        ParseError { kind: ParseErrorKind::ExpectedAttributeValue, at: 3 }
    );
}

#[test]
fn element_without_children_block_is_refused() {
    assert_eq!(error_at(r#"div id="x""#), ParseError { kind: ParseErrorKind::ExpectedIdent, at: 4 });
}

#[test]
fn input_after_root_is_refused() {
    assert_eq!(error_at("div {} span {}"), ParseError { kind: ParseErrorKind::UnexpectedToken, at: 2 });
}

#[test]
fn error_inside_child_is_reported_there() {
    assert_eq!(
        error_at("div { p { } # y }"),
        ParseError { kind: ParseErrorKind::ExpectedBraces, at: 5 }
    );
}

#[test]
fn text_root_is_read_as_text() {
    assert!(matches!(parse_document(&lex(r#""hello""#)), Ok(Node::Text(t)) if t == "hello"));
}

#[test]
fn written_node_is_read_back() {
    // The tokens are put together by hand in the form that the syntax gives.
    let mut inner = Tokens::new();
    inner.push(Token::literal("\"hi\"".to_string()));
    let mut tokens = Tokens::new();
    tokens.push(Token::ident("b".to_string()));
    tokens.push(Token::ident("title".to_string()));
    tokens.push(Token::Punct('=', Spacing::Alone));
    tokens.push(Token::literal("\"t\"".to_string()));
    tokens.push_group(Delimiter::Brace, inner);
    assert_eq!(tokens.len(), 6);
    let root = parse_document(&tokens).unwrap();
    let b = element(&root);
    assert_eq!(b.name, "b");
    assert_eq!(b.attributes.len(), 1);
    match &b.attributes[0].1 {
        AttributeValue::Value(v) => assert_eq!(v, "t"),
        _ => panic!("value"),
    }
    match &*b.children[0] {
        Node::Text(t) => assert_eq!(t, "hi"),
        _ => panic!("text"),
    }
}
