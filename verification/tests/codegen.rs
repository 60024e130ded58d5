use fluid::codegen::{build_node, html};
use fluid::grammar::ParseErrorKind;
use fluid::parse::parse_document;
use fluid::tokens::{Delimiter, Spacing, Token, Tokens};
use proc_macro2::{TokenStream, TokenTree};

fn convert(stream: TokenStream) -> Tokens {
    let mut out = Tokens::new();
    for tree in stream {
        match tree {
            TokenTree::Ident(i) => out.push(Token::ident(i.to_string())),
            TokenTree::Punct(p) => {
                let spacing = match p.spacing() {
                    proc_macro2::Spacing::Alone => Spacing::Alone,
                    proc_macro2::Spacing::Joint => Spacing::Joint,
                };
                out.push(Token::Punct(p.as_char(), spacing))
            }
            TokenTree::Literal(l) => out.push(Token::literal(l.to_string())),
            TokenTree::Group(g) => {
                let inner = convert(g.stream());
                match g.delimiter() {
                    proc_macro2::Delimiter::Brace => out.push_group(Delimiter::Brace, inner),
                    proc_macro2::Delimiter::Parenthesis => out.push_group(Delimiter::Parenthesis, inner),
                    proc_macro2::Delimiter::Bracket => out.push_group(Delimiter::Bracket, inner),
                    proc_macro2::Delimiter::None => out.append(inner),
                }
            }
        }
    }
    out
}

fn lex(text: &str) -> Tokens {
    convert(text.parse::<TokenStream>().unwrap())
}

/// The tokens written out with spaces between them, groups in their
/// delimiters.
fn spell(tokens: &Tokens) -> String {
    let mut words: Vec<String> = Vec::new();
    let mut closes: Vec<(usize, char)> = Vec::new();
    let mut i = 0;
    while i < tokens.len() {
        while let Some(&(end, c)) = closes.last() {
            if end == i {
                words.push(c.to_string());
                closes.pop();
            } else {
                break;
            }
        }
        match tokens.token(i) {
            Token::Ident { name, .. } => words.push(name.clone()),
            Token::Punct(c, _) => words.push(c.to_string()),
            Token::Literal { text, .. } => words.push(text.clone()),
            Token::Group { delimiter, len } => {
                let (open, close) = match delimiter {
                    Delimiter::Brace => ('{', '}'),
                    Delimiter::Parenthesis => ('(', ')'),
                    Delimiter::Bracket => ('[', ']'),
                };
                words.push(open.to_string());
                closes.push((i + 1 + len, close));
            }
        }
        i += 1;
    }
    while let Some((_, c)) = closes.pop() {
        words.push(c.to_string());
    }
    words.join(" ")
}

fn expansion(markup: &str) -> String {
    spell(&html(&lex(markup)).unwrap())
}

fn same_code(markup: &str, expected: &str) {
    assert_eq!(expansion(markup), spell(&lex(expected)));
}

#[test]
fn static_expression_becomes_text_node() {
    same_code(
        r#"div { { " is: " } }"#,
        r#"{
            let el = gloo_utils::document().create_element("div")?;
            let child = { gloo_utils::document().create_text_node(" is: ") };
            el.append_child(&child)?;
            el
        }"#,
    );
}

#[test]
fn string_literal_becomes_text_node() {
    same_code(
        r#"p { "Counter" "+" }"#,
        r#"{
            let el = gloo_utils::document().create_element("p")?;
            let child = { gloo_utils::document().create_text_node("Counter") };
            el.append_child(&child)?;
            let child = { gloo_utils::document().create_text_node("+") };
            el.append_child(&child)?;
            el
        }"#,
    );
}

#[test]
fn reactive_block_clones_each_signal() {
    same_code(
        r#"p { #{ |a, b| a.get().to_string() } }"#,
        r#"{
            let el = gloo_utils::document().create_element("p")?;
            let child = {
                let node = gloo_utils::document().create_element("span")?;
                let n = node.clone();
                let a = a.clone();
                let b = b.clone();
                ctx.create_effect(move || {
                    let inner_html = { a.get().to_string() };
                    n.set_inner_html(&inner_html);
                });
                node
            };
            el.append_child(&child)?;
            el
        }"#,
    );
}

#[test]
fn attributes_follow_their_templates() {
    same_code(
        r#"p id="test" title={ name } class=#{ |counter| "odd" } @click={ move |_| {} } { }"#,
        r#"{
            let el = gloo_utils::document().create_element("p")?;
            el.set_attribute("id", "test")?;
            el.set_attribute("title", name)?;
            {
                let el = el.clone();
                let counter = counter.clone();
                ctx.create_effect(move || {
                    let value = { "odd" };
                    el.set_attribute("class", value.as_ref())
                        .expect("Cannot setup attributes inside the effect");
                });
            }
            let cl = Closure::wrap(Box::new(move |_| {}) as Box<dyn FnMut(web_sys::Event)>);
            el.add_event_listener_with_callback("click", cl.as_ref().unchecked_ref())?;
            cl.forget();
            el
        }"#,
    );
}

#[test]
fn readme_example_expands_as_documented() {
    same_code(
        r##"
        div {
          p
          id="test"
          class=#{ |counter| if *counter.get() % 2 == 0 { "even" } else { "odd" } }
          {
            "Counter"
            { " is: " }
            #{ |counter| counter.get().to_string() }
          }
          button
          @click={ move |_| {
            let new_val = *counter.get() + 1;
            counter.set(new_val);
          }}
          { "+" }
        }
        "##,
        r#"{
            let el = gloo_utils::document().create_element("div")?;
            let child = {
                let el = gloo_utils::document().create_element("p")?;
                el.set_attribute("id", "test")?;
                {
                    let el = el.clone();
                    let counter = counter.clone();
                    ctx.create_effect(move || {
                        let value = { if *counter.get() % 2 == 0 { "even" } else { "odd" } };
                        el.set_attribute("class", value.as_ref())
                            .expect("Cannot setup attributes inside the effect");
                    });
                }
                let child = { gloo_utils::document().create_text_node("Counter") };
                el.append_child(&child)?;
                let child = { gloo_utils::document().create_text_node(" is: ") };
                el.append_child(&child)?;
                let child = {
                    let node = gloo_utils::document().create_element("span")?;
                    let n = node.clone();
                    let counter = counter.clone();
                    ctx.create_effect(move || {
                        let inner_html = { counter.get().to_string() };
                        n.set_inner_html(&inner_html);
                    });
                    node
                };
                el.append_child(&child)?;
                el
            };
            el.append_child(&child)?;
            let child = {
                let el = gloo_utils::document().create_element("button")?;
                let cl = Closure::wrap(Box::new(move |_| {
                    let new_val = *counter.get() + 1;
                    counter.set(new_val);
                }) as Box<dyn FnMut(web_sys::Event)>);
                el.add_event_listener_with_callback("click", cl.as_ref().unchecked_ref())?;
                cl.forget();
                let child = { gloo_utils::document().create_text_node("+") };
                el.append_child(&child)?;
                el
            };
            el.append_child(&child)?;
            el
        }"#,
    );
}

#[test]
fn text_is_escaped_into_a_string_literal() {
    let code = html(&lex(r#"pre { "a\n\"b\"" }"#)).unwrap();
    let mut found = None;
    for i in 0..code.len() {
        if let Token::Literal { text, string_value } = code.token(i) {
            if text != "\"pre\"" {
                found = Some((text.clone(), string_value.clone()));
            }
        }
    }
    let (text, value) = found.unwrap();
    assert_eq!(text, "\"a\\n\\\"b\\\"\"");
    assert_eq!(value, Some("a\n\"b\"".to_string()));
}

#[test]
fn path_separators_are_joint() {
    let code = html(&lex("div { }")).unwrap();
    let mut joint = 0;
    for i in 0..code.len() {
        if let Token::Punct(':', Spacing::Joint) = code.token(i) {
            joint += 1;
            assert!(matches!(code.token(i + 1), Token::Punct(':', Spacing::Alone)));
        }
    }
    assert_eq!(joint, 1);
}

#[test]
fn build_node_of_a_read_tree() {
    let input = lex(r#"ul { li { "one" } li { "two" } }"#);
    let node = parse_document(&input).unwrap();
    let code = build_node(&node, &input);
    assert_eq!(spell(&code), expansion(r#"ul { li { "one" } li { "two" } }"#));
    assert!(spell(&code).contains("create_text_node ( \"two\" )"));
}

#[test]
fn copied_code_keeps_its_groups() {
    same_code(
        r#"div { { f(a, [b]) } }"#,
        r#"{
            let el = gloo_utils::document().create_element("div")?;
            let child = { gloo_utils::document().create_text_node(f(a, [b])) };
            el.append_child(&child)?;
            el
        }"#,
    );
}

#[test]
fn html_passes_parse_errors_on() {
    match html(&lex("div title { }")) {
        Err(e) => assert_eq!((e.kind, e.at), (ParseErrorKind::ExpectedEquals, 2)),
        Ok(_) => panic!("expected a parse error"),
    }
    match html(&lex("div")) {
        Err(e) => assert_eq!((e.kind, e.at), (ParseErrorKind::ExpectedIdent, 1)),
        Ok(_) => panic!("expected a parse error"),
    }
}
