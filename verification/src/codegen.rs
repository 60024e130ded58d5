//! The code that `html!` expands to: a block that builds the DOM tree of the
//! markup with `gloo_utils` and `web_sys`.
//!
//! Each construct has its template. Spec functions state them over the
//! token model; most take the code written so far and give it with the
//! template's tokens appended. The Rust code of the markup (static
//! expressions, effect bodies, event handlers) is copied from the input.
//! A template leaves the text of its string literals open; the code written
//! from it has there a literal that `syn` reads back as the template's value.
use crate::ast::{attributes_view, AttributeValue, Effect, Node, SpecAttributeValue, SpecAttributes, SpecEffect, SpecElement, SpecNode};
use crate::grammar::{document_spec, ParseError};
use crate::parse::parse_document;
use crate::scope::{lemma_document_in_scope, node_in_scope, value_in_scope};
use crate::tokens::{scoped, syn_accepts_ident, syn_string_literal, Delimiter, Spacing, SpecToken, Token, Tokens};
use vstd::prelude::*;

verus! {

/// Calls `proc_macro2::Literal::string` on the value and writes the literal
/// out with `to_string`. The contract claims only that `syn` reads the text
/// back as a string literal of the value; which escapes the text uses is
/// left open.
#[verifier::external_body]
fn write_string_literal(value: &str) -> (text: String)
    ensures
        syn_string_literal(text@) == Some(value@),
{
    proc_macro2::Literal::string(value).to_string()
}

/// The identifier `name`.
pub open spec fn word(name: Seq<char>) -> SpecToken {
    SpecToken::Ident { name, keyword: !syn_accepts_ident(name) }
}

/// The punctuation `c`, apart from what follows.
pub open spec fn alone(c: char) -> SpecToken {
    SpecToken::Punct(c, Spacing::Alone)
}

/// The punctuation `c`, joined to the punctuation that follows.
pub open spec fn joint(c: char) -> SpecToken {
    SpecToken::Punct(c, Spacing::Joint)
}

/// In a template, the string literal of `value`. Its text is left empty:
/// the code in which the template is written has some literal there that
/// reads back as `value` (see `written_as`).
pub open spec fn string_token(value: Seq<char>) -> SpecToken {
    SpecToken::Literal { text: Seq::empty(), string_value: Some(value) }
}

/// The template token `t` stands for a string literal whose text is still to
/// be written.
pub open spec fn literal_to_write(t: SpecToken) -> bool {
    &&& t matches SpecToken::Literal { text, string_value: Some(_) }
    &&& t->text.len() == 0
}

/// The token `c` is written as the template token `t` says: a string
/// literal that `syn` reads back as the template's value, or `t` itself.
pub open spec fn token_written(c: SpecToken, t: SpecToken) -> bool {
    if literal_to_write(t) {
        &&& c matches SpecToken::Literal { text, string_value }
        &&& c->string_value == t->string_value
        &&& syn_string_literal(c->text) == t->string_value
    } else {
        c == t
    }
}

/// The code is the template written out: token by token, as
/// `token_written` says.
pub open spec fn written_as(code: Seq<SpecToken>, template: Seq<SpecToken>) -> bool {
    &&& code.len() == template.len()
    &&& forall|k: int| 0 <= k < code.len() ==> token_written(#[trigger] code[k], template[k])
}

/// `code` followed by a group with the given delimiter around `inner`.
pub open spec fn group(code: Seq<SpecToken>, delimiter: Delimiter, inner: Seq<SpecToken>) -> Seq<SpecToken> {
    code.push(SpecToken::Group { delimiter, len: inner.len() }) + inner
}

/// `code` followed by `()`.
pub open spec fn unit(code: Seq<SpecToken>) -> Seq<SpecToken> {
    group(code, Delimiter::Parenthesis, Seq::empty())
}

/// `code` followed by `?;`.
pub open spec fn try_end(code: Seq<SpecToken>) -> Seq<SpecToken> {
    code.push(alone('?')).push(alone(';'))
}

/// `code` followed by `let name =`.
pub open spec fn let_binding(code: Seq<SpecToken>, name: Seq<char>) -> Seq<SpecToken> {
    code.push(word("let"@)).push(word(name)).push(alone('='))
}

/// `code` followed by `receiver.method()`.
pub open spec fn call0(code: Seq<SpecToken>, receiver: Seq<char>, method: Seq<char>) -> Seq<SpecToken> {
    unit(code.push(word(receiver)).push(alone('.')).push(word(method)))
}

/// `code` followed by `gloo_utils::document().method(argument)`.
pub open spec fn document_call(code: Seq<SpecToken>, method: Seq<char>, argument: Seq<SpecToken>) -> Seq<SpecToken> {
    let c = code.push(word("gloo_utils"@)).push(joint(':')).push(alone(':')).push(word("document"@));
    group(unit(c).push(alone('.')).push(word(method)), Delimiter::Parenthesis, argument)
}

/// The one token `t`.
pub open spec fn one(t: SpecToken) -> Seq<SpecToken> {
    Seq::empty().push(t)
}

/// `code` followed by `let s = s.clone();` for each signal `s`, in order.
pub open spec fn clones(code: Seq<SpecToken>, signals: Seq<Seq<char>>) -> Seq<SpecToken>
    decreases signals.len(),
{
    if signals.len() == 0 {
        code
    } else {
        let before = clones(code, signals.drop_last());
        call0(let_binding(before, signals.last()), signals.last(), "clone"@).push(alone(';'))
    }
}

/// The statement `let s = s.clone();` for the signal `s`.
pub open spec fn clone_statement(signal: Seq<char>) -> Seq<SpecToken> {
    call0(let_binding(Seq::empty(), signal), signal, "clone"@).push(alone(';'))
}

/// The clone of the signal `s` is `let s = s.clone();`.
pub proof fn law_clone_statement(signal: Seq<char>)
    ensures
        clone_statement(signal) == seq![
            word("let"@),
            word(signal),
            alone('='),
            word(signal),
            alone('.'),
            word("clone"@),
            SpecToken::Group { delimiter: Delimiter::Parenthesis, len: 0 },
            alone(';'),
        ],
{
    assert(clone_statement(signal) =~= seq![
        word("let"@),
        word(signal),
        alone('='),
        word(signal),
        alone('.'),
        word("clone"@),
        SpecToken::Group { delimiter: Delimiter::Parenthesis, len: 0 },
        alone(';'),
    ]);
}

/// A reactive block clones each listed signal once, in the order of the
/// list: its clones are the code before them followed by one statement
/// `let s = s.clone();` of eight tokens per signal.
#[verifier::spinoff_prover]
#[verifier::rlimit(40)]
pub proof fn law_one_clone_per_signal(code: Seq<SpecToken>, signals: Seq<Seq<char>>)
    ensures
        clones(code, signals).len() == code.len() + 8 * signals.len(),
        clones(code, signals).subrange(0, code.len() as int) == code,
        forall|k: int|
            0 <= k < signals.len() ==> clones(code, signals).subrange(
                code.len() + 8 * k,
                code.len() + 8 * k + 8,
            ) == clone_statement(#[trigger] signals[k]),
    decreases signals.len(),
{
    if signals.len() > 0 {
        let rest = signals.drop_last();
        let before = clones(code, rest);
        let last = signals.last();
        law_one_clone_per_signal(code, rest);
        let all = clones(code, signals);
        assert(all =~= before + clone_statement(last));
        assert(all.subrange(0, code.len() as int) =~= before.subrange(0, code.len() as int));
        assert forall|k: int| 0 <= k < signals.len() implies all.subrange(code.len() + 8 * k, code.len() + 8 * k + 8)
            == clone_statement(#[trigger] signals[k]) by {
            if k < rest.len() {
                assert(rest[k] == signals[k]);
                assert(all.subrange(code.len() + 8 * k, code.len() + 8 * k + 8) =~= before.subrange(
                    code.len() + 8 * k,
                    code.len() + 8 * k + 8,
                ));
            } else {
                assert(all.subrange(code.len() + 8 * k, code.len() + 8 * k + 8) =~= clone_statement(last));
            }
        }
    }
}

/// `code` followed by `ctx.create_effect(move || { body });`.
pub open spec fn create_effect(code: Seq<SpecToken>, ctx: Seq<char>, body: Seq<SpecToken>) -> Seq<SpecToken> {
    let closure = group(one(word("move"@)).push(joint('|')).push(alone('|')), Delimiter::Brace, body);
    group(code.push(word(ctx)).push(alone('.')).push(word("create_effect"@)), Delimiter::Parenthesis, closure).push(
        alone(';'),
    )
}

/// The body of the effect of a reactive node:
/// `let inner_html = { expr }; n.set_inner_html(&inner_html);`.
pub open spec fn inner_html_body(expr: Seq<SpecToken>) -> Seq<SpecToken> {
    let c = group(let_binding(Seq::empty(), "inner_html"@), Delimiter::Brace, expr).push(alone(';'));
    let c = c.push(word("n"@)).push(alone('.')).push(word("set_inner_html"@));
    group(c, Delimiter::Parenthesis, one(alone('&')).push(word("inner_html"@))).push(alone(';'))
}

/// The block of a reactive node: a `span` whose inner HTML an effect keeps
/// up to date, after one clone of each listed signal.
pub open spec fn effect_div_block(e: SpecEffect, input: Seq<SpecToken>) -> Seq<SpecToken> {
    let c = let_binding(Seq::empty(), "node"@);
    let c = try_end(document_call(c, "create_element"@, one(string_token("span"@))));
    let c = call0(let_binding(c, "n"@), "node"@, "clone"@).push(alone(';'));
    let c = clones(c, e.signals);
    create_effect(c, e.ctx, inner_html_body(input.subrange(e.expr.0, e.expr.1))).push(word("node"@))
}

/// `code` followed by `el.set_attribute(arguments)`.
pub open spec fn set_attribute(code: Seq<SpecToken>, arguments: Seq<SpecToken>) -> Seq<SpecToken> {
    group(code.push(word("el"@)).push(alone('.')).push(word("set_attribute"@)), Delimiter::Parenthesis, arguments)
}

/// The first argument `"key",` of a call about an attribute.
pub open spec fn key_argument(key: Seq<char>) -> Seq<SpecToken> {
    one(string_token(key)).push(alone(','))
}

/// The body of the effect of a reactive attribute:
/// `let value = { expr }; el.set_attribute("key", value.as_ref()).expect("...");`.
pub open spec fn attribute_effect_body(key: Seq<char>, expr: Seq<SpecToken>) -> Seq<SpecToken> {
    let c = group(let_binding(Seq::empty(), "value"@), Delimiter::Brace, expr).push(alone(';'));
    let c = set_attribute(c, call0(key_argument(key), "value"@, "as_ref"@)).push(alone('.')).push(word("expect"@));
    group(c, Delimiter::Parenthesis, one(string_token("Cannot setup attributes inside the effect"@))).push(alone(';'))
}

/// The block of a reactive attribute: a clone of the element and of each
/// listed signal, and the effect that sets the attribute.
pub open spec fn attribute_effect_block(key: Seq<char>, e: SpecEffect, input: Seq<SpecToken>) -> Seq<SpecToken> {
    let c = call0(let_binding(Seq::empty(), "el"@), "el"@, "clone"@).push(alone(';'));
    create_effect(clones(c, e.signals), e.ctx, attribute_effect_body(key, input.subrange(e.expr.0, e.expr.1)))
}

/// `Box::new(handler) as Box<dyn FnMut(web_sys::Event)>`.
pub open spec fn boxed_handler(handler: Seq<SpecToken>) -> Seq<SpecToken> {
    let c = one(word("Box"@)).push(joint(':')).push(alone(':')).push(word("new"@));
    let c = group(c, Delimiter::Parenthesis, handler);
    let c = c.push(word("as"@)).push(word("Box"@)).push(alone('<')).push(word("dyn"@)).push(word("FnMut"@));
    let event = one(word("web_sys"@)).push(joint(':')).push(alone(':')).push(word("Event"@));
    group(c, Delimiter::Parenthesis, event).push(alone('>'))
}

/// `code` followed by the listener of event `key`:
/// `let cl = Closure::wrap(..); el.add_event_listener_with_callback("key", cl.as_ref().unchecked_ref())?; cl.forget();`.
pub open spec fn event_listener(code: Seq<SpecToken>, key: Seq<char>, handler: Seq<SpecToken>) -> Seq<SpecToken> {
    let c = let_binding(code, "cl"@).push(word("Closure"@)).push(joint(':')).push(alone(':')).push(word("wrap"@));
    let c = group(c, Delimiter::Parenthesis, boxed_handler(handler)).push(alone(';'));
    let arguments = unit(call0(key_argument(key), "cl"@, "as_ref"@).push(alone('.')).push(word("unchecked_ref"@)));
    let c = c.push(word("el"@)).push(alone('.')).push(word("add_event_listener_with_callback"@));
    let c = try_end(group(c, Delimiter::Parenthesis, arguments));
    call0(c, "cl"@, "forget"@).push(alone(';'))
}

/// `code` followed by the code of the attribute `key` with the given value.
pub open spec fn attribute_code(
    code: Seq<SpecToken>,
    key: Seq<char>,
    value: SpecAttributeValue,
    input: Seq<SpecToken>,
) -> Seq<SpecToken> {
    match value {
        SpecAttributeValue::Value(v) => try_end(set_attribute(code, key_argument(key).push(string_token(v)))),
        SpecAttributeValue::Expr(a, b) => try_end(set_attribute(code, key_argument(key) + input.subrange(a, b))),
        SpecAttributeValue::Effect(e) => group(code, Delimiter::Brace, attribute_effect_block(key, e, input)),
        SpecAttributeValue::Event(a, b) => event_listener(code, key, input.subrange(a, b)),
    }
}

/// `code` followed by the code of each attribute, in order.
pub open spec fn attributes_code(code: Seq<SpecToken>, attributes: SpecAttributes, input: Seq<SpecToken>) -> Seq<
    SpecToken,
>
    decreases attributes.len(),
{
    if attributes.len() == 0 {
        code
    } else {
        let before = attributes_code(code, attributes.drop_last(), input);
        attribute_code(before, attributes.last().0, attributes.last().1, input)
    }
}

/// The statements of the block that builds the DOM node of `n`; the last
/// one gives the node.
pub open spec fn node_block(n: SpecNode, input: Seq<SpecToken>) -> Seq<SpecToken>
    decreases n,
{
    match n {
        SpecNode::Expr(a, b) => document_call(Seq::empty(), "create_text_node"@, input.subrange(a, b)),
        SpecNode::Text(t) => document_call(Seq::empty(), "create_text_node"@, one(string_token(t))),
        SpecNode::EffectDiv(e) => effect_div_block(e, input),
        SpecNode::Element(el) => {
            let c = let_binding(Seq::empty(), "el"@);
            let c = try_end(document_call(c, "create_element"@, one(string_token(el.name))));
            let c = attributes_code(c, el.attributes, input);
            children_code(c, el.children, input).push(word("el"@))
        },
    }
}

/// `code` followed by, for each child in order, `let child = { .. };
/// el.append_child(&child)?;`.
pub open spec fn children_code(code: Seq<SpecToken>, children: Seq<SpecNode>, input: Seq<SpecToken>) -> Seq<
    SpecToken,
>
    decreases children,
{
    if children.len() == 0 {
        code
    } else {
        let before = children_code(code, children.subrange(0, children.len() - 1), input);
        let c = group(let_binding(before, "child"@), Delimiter::Brace, node_block(children[children.len() - 1], input));
        let c = c.push(alone(';')).push(word("el"@)).push(alone('.')).push(word("append_child"@));
        try_end(group(c, Delimiter::Parenthesis, one(alone('&')).push(word("child"@))))
    }
}

/// The code that builds the DOM node of `n`: a block.
pub open spec fn node_code(n: SpecNode, input: Seq<SpecToken>) -> Seq<SpecToken> {
    group(Seq::empty(), Delimiter::Brace, node_block(n, input))
}

/// The statement that builds one child and appends it to the element:
/// `let child = { .. }; el.append_child(&child)?;`, the block being the
/// child's own code.
pub open spec fn child_statement(n: SpecNode, input: Seq<SpecToken>) -> Seq<SpecToken> {
    let append = one(alone(';')).push(word("el"@)).push(alone('.')).push(word("append_child"@));
    let argument = group(Seq::empty(), Delimiter::Parenthesis, one(alone('&')).push(word("child"@)));
    let_binding(Seq::empty(), "child"@) + node_code(n, input) + append + argument + one(alone('?')).push(alone(';'))
}

/// The code of one child is its statement after the code before it.
pub proof fn law_code_of_one_child(code: Seq<SpecToken>, n: SpecNode, input: Seq<SpecToken>)
    ensures
        children_code(code, seq![n], input) == code + child_statement(n, input),
{
    let children = seq![n];
    assert(children.subrange(0, 0) =~= Seq::<SpecNode>::empty());
    assert(children[0] == n);
    let block = node_block(n, input);
    let named = let_binding(Seq::empty(), "child"@);
    let append = one(alone(';')).push(word("el"@)).push(alone('.')).push(word("append_child"@));
    let inner = one(alone('&')).push(word("child"@));
    let argument = group(Seq::empty(), Delimiter::Parenthesis, inner);
    let a = group(let_binding(code, "child"@), Delimiter::Brace, block);
    assert(let_binding(code, "child"@) =~= code + named);
    assert(a =~= code + (named + node_code(n, input)));
    let b = a.push(alone(';')).push(word("el"@)).push(alone('.')).push(word("append_child"@));
    assert(b =~= code + (named + node_code(n, input) + append));
    let c = group(b, Delimiter::Parenthesis, inner);
    assert(c =~= code + (named + node_code(n, input) + append + argument));
    assert(try_end(c) =~= code + child_statement(n, input));
    assert(children_code(code, Seq::<SpecNode>::empty(), input) == code);
    assert(children_code(code, children, input) == try_end(c));
}

/// The children are written in order, each once: the code of `first`
/// followed by `second` is the code of `first`, then that of `second`.
pub proof fn law_children_in_order(
    code: Seq<SpecToken>,
    first: Seq<SpecNode>,
    second: Seq<SpecNode>,
    input: Seq<SpecToken>,
)
    ensures
        children_code(code, first + second, input) == children_code(
            children_code(code, first, input),
            second,
            input,
        ),
    decreases second.len(),
{
    if second.len() == 0 {
        assert(first + second =~= first);
    } else {
        let rest = second.subrange(0, second.len() - 1);
        let all = first + second;
        law_children_in_order(code, first, rest, input);
        assert(all.subrange(0, all.len() - 1) =~= first + rest);
        assert(all[all.len() - 1] == second[second.len() - 1]);
    }
}

/// The empty parentheses `()`.
pub open spec fn empty_parens() -> SpecToken {
    SpecToken::Group { delimiter: Delimiter::Parenthesis, len: 0 }
}

/// A static expression `{ e }` becomes `gloo_utils::document().create_text_node(e)`
/// with every token of the braces' content, in order, as the argument.
pub proof fn law_static_expression_is_copied_whole(a: int, b: int, input: Seq<SpecToken>)
    requires
        0 <= a <= b <= input.len(),
    ensures
        node_block(SpecNode::Expr(a, b), input) == seq![
            word("gloo_utils"@),
            joint(':'),
            alone(':'),
            word("document"@),
            empty_parens(),
            alone('.'),
            word("create_text_node"@),
            SpecToken::Group { delimiter: Delimiter::Parenthesis, len: (b - a) as nat },
        ] + input.subrange(a, b),
{
    assert(node_block(SpecNode::Expr(a, b), input) =~= seq![
        word("gloo_utils"@),
        joint(':'),
        alone(':'),
        word("document"@),
        empty_parens(),
        alone('.'),
        word("create_text_node"@),
        SpecToken::Group { delimiter: Delimiter::Parenthesis, len: (b - a) as nat },
    ] + input.subrange(a, b));
}

/// A string literal child `"t"` becomes
/// `gloo_utils::document().create_text_node("t")`.
pub proof fn law_text_becomes_text_node(t: Seq<char>, input: Seq<SpecToken>)
    ensures
        node_block(SpecNode::Text(t), input) == seq![
            word("gloo_utils"@),
            joint(':'),
            alone(':'),
            word("document"@),
            empty_parens(),
            alone('.'),
            word("create_text_node"@),
            SpecToken::Group { delimiter: Delimiter::Parenthesis, len: 1 },
            string_token(t),
        ],
{
    assert(node_block(SpecNode::Text(t), input) =~= seq![
        word("gloo_utils"@),
        joint(':'),
        alone(':'),
        word("document"@),
        empty_parens(),
        alone('.'),
        word("create_text_node"@),
        SpecToken::Group { delimiter: Delimiter::Parenthesis, len: 1 },
        string_token(t),
    ]);
}

/// An attribute `key="v"` becomes `el.set_attribute("key", "v")?;` after
/// the code before it.
pub proof fn law_value_attribute(code: Seq<SpecToken>, key: Seq<char>, v: Seq<char>, input: Seq<SpecToken>)
    ensures
        attribute_code(code, key, SpecAttributeValue::Value(v), input) == code + seq![
            word("el"@),
            alone('.'),
            word("set_attribute"@),
            SpecToken::Group { delimiter: Delimiter::Parenthesis, len: 3 },
            string_token(key),
            alone(','),
            string_token(v),
            alone('?'),
            alone(';'),
        ],
{
    assert(attribute_code(code, key, SpecAttributeValue::Value(v), input) =~= code + seq![
        word("el"@),
        alone('.'),
        word("set_attribute"@),
        SpecToken::Group { delimiter: Delimiter::Parenthesis, len: 3 },
        string_token(key),
        alone(','),
        string_token(v),
        alone('?'),
        alone(';'),
    ]);
}

/// An attribute `key={ e }` becomes `el.set_attribute("key", e)?;` after the
/// code before it, with every token of the braces' content, in order, as
/// the second argument.
pub proof fn law_expression_attribute_is_copied_whole(
    code: Seq<SpecToken>,
    key: Seq<char>,
    a: int,
    b: int,
    input: Seq<SpecToken>,
)
    requires
        0 <= a <= b <= input.len(),
    ensures
        attribute_code(code, key, SpecAttributeValue::Expr(a, b), input) == code + seq![
            word("el"@),
            alone('.'),
            word("set_attribute"@),
            SpecToken::Group { delimiter: Delimiter::Parenthesis, len: (b - a + 2) as nat },
            string_token(key),
            alone(','),
        ] + input.subrange(a, b) + seq![alone('?'), alone(';')],
{
    assert(attribute_code(code, key, SpecAttributeValue::Expr(a, b), input) =~= code + seq![
        word("el"@),
        alone('.'),
        word("set_attribute"@),
        SpecToken::Group { delimiter: Delimiter::Parenthesis, len: (b - a + 2) as nat },
        string_token(key),
        alone(','),
    ] + input.subrange(a, b) + seq![alone('?'), alone(';')]);
}

/// A reactive attribute `key=#{ |s1, .., sn| e }` becomes a block that
/// starts with `let el = el.clone();`, then holds `let si = si.clone();` for
/// every listed signal, in order, and nothing else before
/// `ctx.create_effect(move || { let value = { e }; .. });`, whose braces hold
/// every token of `e`, in order.
pub proof fn law_reactive_attribute_clones_every_signal(key: Seq<char>, e: SpecEffect, input: Seq<SpecToken>)
    requires
        0 <= e.expr.0 <= e.expr.1 <= input.len(),
    ensures
        ({
            let block = attribute_effect_block(key, e, input);
            let n = e.signals.len() as int;
            let expr = input.subrange(e.expr.0, e.expr.1);
            &&& block.subrange(0, 8) == clone_statement("el"@)
            &&& forall|k: int|
                0 <= k < n ==> block.subrange(8 + 8 * k, 16 + 8 * k) == clone_statement(#[trigger] e.signals[k])
            &&& block[8 + 8 * n] == word(e.ctx)
            &&& block[9 + 8 * n] == alone('.')
            &&& block[10 + 8 * n] == word("create_effect"@)
            &&& block[19 + 8 * n] == (SpecToken::Group { delimiter: Delimiter::Brace, len: expr.len() })
            &&& block.subrange(20 + 8 * n, 20 + 8 * n + expr.len() as int) == expr
            &&& block.subrange(11 + 8 * n, 16 + 8 * n) == seq![
                SpecToken::Group {
                    delimiter: Delimiter::Parenthesis,
                    len: 4 + attribute_effect_body(key, expr).len(),
                },
                word("move"@),
                joint('|'),
                alone('|'),
                SpecToken::Group { delimiter: Delimiter::Brace, len: attribute_effect_body(key, expr).len() },
            ]
            &&& block.subrange(16 + 8 * n, 16 + 8 * n + attribute_effect_body(key, expr).len()) == attribute_effect_body(key, expr)
            &&& block.len() == 17 + 8 * n + attribute_effect_body(key, expr).len()
            &&& block.last() == alone(';')
        }),
{
    let n = e.signals.len() as int;
    let expr = input.subrange(e.expr.0, e.expr.1);
    let start = clone_statement("el"@);
    let clones_code = clones(start, e.signals);
    law_one_clone_per_signal(start, e.signals);
    let block = attribute_effect_block(key, e, input);
    let body = attribute_effect_body(key, expr);
    assert(body.subrange(4, 4 + expr.len() as int) =~= expr);
    let closure = group(one(word("move"@)).push(joint('|')).push(alone('|')), Delimiter::Brace, body);
    assert(closure.subrange(4, 4 + body.len() as int) =~= body);
    let head = clones_code.push(word(e.ctx)).push(alone('.')).push(word("create_effect"@));
    assert(block == group(head, Delimiter::Parenthesis, closure).push(alone(';')));
    assert(block.subrange(0, clones_code.len() as int) =~= clones_code);
    assert(block.subrange(12 + 8 * n, 12 + 8 * n + closure.len() as int) =~= closure);
    assert(block.subrange(20 + 8 * n, 20 + 8 * n + expr.len() as int) =~= expr) by {
        assert(block.subrange(20 + 8 * n, 20 + 8 * n + expr.len() as int) =~= closure.subrange(8, 8 + expr.len() as int));
        assert(closure.subrange(8, 8 + expr.len() as int) =~= body.subrange(4, 4 + expr.len() as int));
    }
    assert(block[19 + 8 * n] == closure[7]);
    assert(closure[7] == body[3]);
    assert(block.subrange(0, 8) =~= clones_code.subrange(0, 8));
    assert(block.subrange(16 + 8 * n, 16 + 8 * n + body.len()) =~= body) by {
        assert(block.subrange(16 + 8 * n, 16 + 8 * n + body.len()) =~= closure.subrange(4, 4 + body.len() as int));
    }
    assert(block.subrange(11 + 8 * n, 16 + 8 * n) =~= seq![
        SpecToken::Group { delimiter: Delimiter::Parenthesis, len: 4 + body.len() },
        word("move"@),
        joint('|'),
        alone('|'),
        SpecToken::Group { delimiter: Delimiter::Brace, len: body.len() },
    ]);
    assert forall|k: int| 0 <= k < n implies block.subrange(8 + 8 * k, 16 + 8 * k) == clone_statement(
        #[trigger] e.signals[k],
    ) by {
        assert(block.subrange(8 + 8 * k, 16 + 8 * k) =~= clones_code.subrange(8 + 8 * k, 16 + 8 * k));
    }
}

/// The tokens that open the block of a reactive node:
/// `let node = gloo_utils::document().create_element("span")?; let n = node.clone();`.
pub open spec fn span_start() -> Seq<SpecToken> {
    seq![
        word("let"@),
        word("node"@),
        alone('='),
        word("gloo_utils"@),
        joint(':'),
        alone(':'),
        word("document"@),
        empty_parens(),
        alone('.'),
        word("create_element"@),
        SpecToken::Group { delimiter: Delimiter::Parenthesis, len: 1 },
        string_token("span"@),
        alone('?'),
        alone(';'),
        word("let"@),
        word("n"@),
        alone('='),
        word("node"@),
        alone('.'),
        word("clone"@),
        empty_parens(),
        alone(';'),
    ]
}

/// A reactive node `#{ |s1, .., sn| e }` becomes a block that starts with
/// `span_start()`, then holds `let si = si.clone();` for every listed
/// signal, in order, and nothing else before
/// `ctx.create_effect(move || { let inner_html = { e }; .. });`, whose braces
/// hold every token of `e`, in order; the block ends with `node`.
pub proof fn law_reactive_node_clones_every_signal(e: SpecEffect, input: Seq<SpecToken>)
    requires
        0 <= e.expr.0 <= e.expr.1 <= input.len(),
    ensures
        ({
            let block = effect_div_block(e, input);
            let n = e.signals.len() as int;
            let expr = input.subrange(e.expr.0, e.expr.1);
            &&& block.subrange(0, 22) == span_start()
            &&& forall|k: int|
                0 <= k < n ==> block.subrange(22 + 8 * k, 30 + 8 * k) == clone_statement(#[trigger] e.signals[k])
            &&& block[22 + 8 * n] == word(e.ctx)
            &&& block[23 + 8 * n] == alone('.')
            &&& block[24 + 8 * n] == word("create_effect"@)
            &&& block[33 + 8 * n] == (SpecToken::Group { delimiter: Delimiter::Brace, len: expr.len() })
            &&& block.subrange(34 + 8 * n, 34 + 8 * n + expr.len() as int) == expr
            &&& block.subrange(25 + 8 * n, 30 + 8 * n) == seq![
                SpecToken::Group { delimiter: Delimiter::Parenthesis, len: 4 + inner_html_body(expr).len() },
                word("move"@),
                joint('|'),
                alone('|'),
                SpecToken::Group { delimiter: Delimiter::Brace, len: inner_html_body(expr).len() },
            ]
            &&& block.subrange(30 + 8 * n, 30 + 8 * n + inner_html_body(expr).len()) == inner_html_body(expr)
            &&& block.len() == 32 + 8 * n + inner_html_body(expr).len()
            &&& block[block.len() - 2] == alone(';')
            &&& block.last() == word("node"@)
        }),
{
    let n = e.signals.len() as int;
    let expr = input.subrange(e.expr.0, e.expr.1);
    let c = let_binding(Seq::empty(), "node"@);
    let c = try_end(document_call(c, "create_element"@, one(string_token("span"@))));
    let start = call0(let_binding(c, "n"@), "node"@, "clone"@).push(alone(';'));
    assert(start =~= span_start());
    let clones_code = clones(start, e.signals);
    law_one_clone_per_signal(start, e.signals);
    let body = inner_html_body(expr);
    assert(body.subrange(4, 4 + expr.len() as int) =~= expr);
    let closure = group(one(word("move"@)).push(joint('|')).push(alone('|')), Delimiter::Brace, body);
    assert(closure.subrange(4, 4 + body.len() as int) =~= body);
    let head = clones_code.push(word(e.ctx)).push(alone('.')).push(word("create_effect"@));
    let effect = group(head, Delimiter::Parenthesis, closure).push(alone(';'));
    let block = effect_div_block(e, input);
    assert(block == effect.push(word("node"@)));
    assert(block.subrange(0, clones_code.len() as int) =~= clones_code);
    assert(block.subrange(26 + 8 * n, 26 + 8 * n + closure.len() as int) =~= closure);
    assert(block.subrange(34 + 8 * n, 34 + 8 * n + expr.len() as int) =~= expr) by {
        assert(block.subrange(34 + 8 * n, 34 + 8 * n + expr.len() as int) =~= closure.subrange(8, 8 + expr.len() as int));
        assert(closure.subrange(8, 8 + expr.len() as int) =~= body.subrange(4, 4 + expr.len() as int));
    }
    assert(block[33 + 8 * n] == closure[7]);
    assert(closure[7] == body[3]);
    assert(block.subrange(0, 22) =~= clones_code.subrange(0, 22));
    assert(block.subrange(30 + 8 * n, 30 + 8 * n + body.len()) =~= body) by {
        assert(block.subrange(30 + 8 * n, 30 + 8 * n + body.len()) =~= closure.subrange(4, 4 + body.len() as int));
    }
    assert(block.subrange(25 + 8 * n, 30 + 8 * n) =~= seq![
        SpecToken::Group { delimiter: Delimiter::Parenthesis, len: 4 + body.len() },
        word("move"@),
        joint('|'),
        alone('|'),
        SpecToken::Group { delimiter: Delimiter::Brace, len: body.len() },
    ]);
    assert forall|k: int| 0 <= k < n implies block.subrange(22 + 8 * k, 30 + 8 * k) == clone_statement(
        #[trigger] e.signals[k],
    ) by {
        assert(block.subrange(22 + 8 * k, 30 + 8 * k) =~= clones_code.subrange(22 + 8 * k, 30 + 8 * k));
    }
}

/// The body of the effect of a reactive node is
/// `let inner_html = { e }; n.set_inner_html(&inner_html);` with every token
/// of `e`, in order.
pub proof fn law_inner_html_body(expr: Seq<SpecToken>)
    ensures
        inner_html_body(expr) == seq![
            word("let"@),
            word("inner_html"@),
            alone('='),
            SpecToken::Group { delimiter: Delimiter::Brace, len: expr.len() },
        ] + expr + seq![
            alone(';'),
            word("n"@),
            alone('.'),
            word("set_inner_html"@),
            SpecToken::Group { delimiter: Delimiter::Parenthesis, len: 2 },
            alone('&'),
            word("inner_html"@),
            alone(';'),
        ],
{
    assert(inner_html_body(expr) =~= seq![
        word("let"@),
        word("inner_html"@),
        alone('='),
        SpecToken::Group { delimiter: Delimiter::Brace, len: expr.len() },
    ] + expr + seq![
        alone(';'),
        word("n"@),
        alone('.'),
        word("set_inner_html"@),
        SpecToken::Group { delimiter: Delimiter::Parenthesis, len: 2 },
        alone('&'),
        word("inner_html"@),
        alone(';'),
    ]);
}

/// The body of the effect of a reactive attribute `key` is
/// `let value = { e }; el.set_attribute("key", value.as_ref()).expect("Cannot setup attributes inside the effect");`
/// with every token of `e`, in order.
pub proof fn law_attribute_effect_body(key: Seq<char>, expr: Seq<SpecToken>)
    ensures
        attribute_effect_body(key, expr) == seq![
            word("let"@),
            word("value"@),
            alone('='),
            SpecToken::Group { delimiter: Delimiter::Brace, len: expr.len() },
        ] + expr + seq![
            alone(';'),
            word("el"@),
            alone('.'),
            word("set_attribute"@),
            SpecToken::Group { delimiter: Delimiter::Parenthesis, len: 6 },
            string_token(key),
            alone(','),
            word("value"@),
            alone('.'),
            word("as_ref"@),
            empty_parens(),
            alone('.'),
            word("expect"@),
            SpecToken::Group { delimiter: Delimiter::Parenthesis, len: 1 },
            string_token("Cannot setup attributes inside the effect"@),
            alone(';'),
        ],
{
    assert(attribute_effect_body(key, expr) =~= seq![
        word("let"@),
        word("value"@),
        alone('='),
        SpecToken::Group { delimiter: Delimiter::Brace, len: expr.len() },
    ] + expr + seq![
        alone(';'),
        word("el"@),
        alone('.'),
        word("set_attribute"@),
        SpecToken::Group { delimiter: Delimiter::Parenthesis, len: 6 },
        string_token(key),
        alone(','),
        word("value"@),
        alone('.'),
        word("as_ref"@),
        empty_parens(),
        alone('.'),
        word("expect"@),
        SpecToken::Group { delimiter: Delimiter::Parenthesis, len: 1 },
        string_token("Cannot setup attributes inside the effect"@),
        alone(';'),
    ]);
}

/// An event attribute `@key={ h }` becomes
/// `let cl = Closure::wrap(Box::new(h) as Box<dyn FnMut(web_sys::Event)>);
/// el.add_event_listener_with_callback("key", cl.as_ref().unchecked_ref())?; cl.forget();`
/// after the code before it, with every token of `h`, in order.
pub proof fn law_event_attribute_is_copied_whole(
    code: Seq<SpecToken>,
    key: Seq<char>,
    a: int,
    b: int,
    input: Seq<SpecToken>,
)
    requires
        0 <= a <= b <= input.len(),
    ensures
        attribute_code(code, key, SpecAttributeValue::Event(a, b), input) == code + seq![
            word("let"@),
            word("cl"@),
            alone('='),
            word("Closure"@),
            joint(':'),
            alone(':'),
            word("wrap"@),
            SpecToken::Group { delimiter: Delimiter::Parenthesis, len: (b - a + 16) as nat },
            word("Box"@),
            joint(':'),
            alone(':'),
            word("new"@),
            SpecToken::Group { delimiter: Delimiter::Parenthesis, len: (b - a) as nat },
        ] + input.subrange(a, b) + seq![
            word("as"@),
            word("Box"@),
            alone('<'),
            word("dyn"@),
            word("FnMut"@),
            SpecToken::Group { delimiter: Delimiter::Parenthesis, len: 4 },
            word("web_sys"@),
            joint(':'),
            alone(':'),
            word("Event"@),
            alone('>'),
            alone(';'),
            word("el"@),
            alone('.'),
            word("add_event_listener_with_callback"@),
            SpecToken::Group { delimiter: Delimiter::Parenthesis, len: 9 },
            string_token(key),
            alone(','),
            word("cl"@),
            alone('.'),
            word("as_ref"@),
            empty_parens(),
            alone('.'),
            word("unchecked_ref"@),
            empty_parens(),
            alone('?'),
            alone(';'),
            word("cl"@),
            alone('.'),
            word("forget"@),
            empty_parens(),
            alone(';'),
        ],
{
    assert(attribute_code(code, key, SpecAttributeValue::Event(a, b), input) =~= code + seq![
        word("let"@),
        word("cl"@),
        alone('='),
        word("Closure"@),
        joint(':'),
        alone(':'),
        word("wrap"@),
        SpecToken::Group { delimiter: Delimiter::Parenthesis, len: (b - a + 16) as nat },
        word("Box"@),
        joint(':'),
        alone(':'),
        word("new"@),
        SpecToken::Group { delimiter: Delimiter::Parenthesis, len: (b - a) as nat },
    ] + input.subrange(a, b) + seq![
        word("as"@),
        word("Box"@),
        alone('<'),
        word("dyn"@),
        word("FnMut"@),
        SpecToken::Group { delimiter: Delimiter::Parenthesis, len: 4 },
        word("web_sys"@),
        joint(':'),
        alone(':'),
        word("Event"@),
        alone('>'),
        alone(';'),
        word("el"@),
        alone('.'),
        word("add_event_listener_with_callback"@),
        SpecToken::Group { delimiter: Delimiter::Parenthesis, len: 9 },
        string_token(key),
        alone(','),
        word("cl"@),
        alone('.'),
        word("as_ref"@),
        empty_parens(),
        alone('.'),
        word("unchecked_ref"@),
        empty_parens(),
        alone('?'),
        alone(';'),
        word("cl"@),
        alone('.'),
        word("forget"@),
        empty_parens(),
        alone(';'),
    ]);
}

/// A reactive attribute becomes its block, in braces, after the code
/// before it.
pub proof fn law_reactive_attribute_is_a_block(
    code: Seq<SpecToken>,
    key: Seq<char>,
    e: SpecEffect,
    input: Seq<SpecToken>,
)
    ensures
        attribute_code(code, key, SpecAttributeValue::Effect(e), input) == code + seq![
            SpecToken::Group { delimiter: Delimiter::Brace, len: attribute_effect_block(key, e, input).len() },
        ] + attribute_effect_block(key, e, input),
{
    assert(attribute_code(code, key, SpecAttributeValue::Effect(e), input) =~= code + seq![
        SpecToken::Group { delimiter: Delimiter::Brace, len: attribute_effect_block(key, e, input).len() },
    ] + attribute_effect_block(key, e, input));
}

/// The attributes are written in order, each once: the code of the list
/// `first + second` is the code of `first`, then that of `second`; the code
/// of one attribute is that attribute's code.
pub proof fn law_attributes_in_order(
    code: Seq<SpecToken>,
    first: SpecAttributes,
    second: SpecAttributes,
    input: Seq<SpecToken>,
)
    ensures
        attributes_code(code, first + second, input) == attributes_code(
            attributes_code(code, first, input),
            second,
            input,
        ),
        first.len() == 1 ==> attributes_code(code, first, input) == attribute_code(code, first[0].0, first[0].1, input),
    decreases second.len(),
{
    if first.len() == 1 {
        assert(first.drop_last() =~= Seq::<(Seq<char>, SpecAttributeValue)>::empty());
        assert(attributes_code(code, first.drop_last(), input) == code);
        assert(first.last() == first[0]);
    }
    if second.len() == 0 {
        assert(first + second =~= first);
    } else {
        let rest = second.drop_last();
        let all = first + second;
        law_attributes_in_order(code, first, rest, input);
        assert(all.drop_last() =~= first + rest);
        assert(all.last() == second.last());
    }
}

/// The block of an element `name attributes { children }` starts with
/// `let el = gloo_utils::document().create_element("name")?;`, goes on with
/// the code of its attributes, then of its children, and ends with `el`.
pub proof fn law_element_block(el: SpecElement, input: Seq<SpecToken>)
    ensures
        ({
            let start = seq![
                word("let"@),
                word("el"@),
                alone('='),
                word("gloo_utils"@),
                joint(':'),
                alone(':'),
                word("document"@),
                empty_parens(),
                alone('.'),
                word("create_element"@),
                SpecToken::Group { delimiter: Delimiter::Parenthesis, len: 1 },
                string_token(el.name),
                alone('?'),
                alone(';'),
            ];
            node_block(SpecNode::Element(el), input) == children_code(
                attributes_code(start, el.attributes, input),
                el.children,
                input,
            ).push(word("el"@))
        }),
{
    let c = let_binding(Seq::empty(), "el"@);
    let c = try_end(document_call(c, "create_element"@, one(string_token(el.name))));
    assert(c =~= seq![
        word("let"@),
        word("el"@),
        alone('='),
        word("gloo_utils"@),
        joint(':'),
        alone(':'),
        word("document"@),
        empty_parens(),
        alone('.'),
        word("create_element"@),
        SpecToken::Group { delimiter: Delimiter::Parenthesis, len: 1 },
        string_token(el.name),
        alone('?'),
        alone(';'),
    ]);
}

/// The code of a node is its block in braces.
pub proof fn law_node_code_is_a_block(n: SpecNode, input: Seq<SpecToken>)
    ensures
        node_code(n, input) == seq![
            SpecToken::Group { delimiter: Delimiter::Brace, len: node_block(n, input).len() },
        ] + node_block(n, input),
{
    assert(node_code(n, input) =~= seq![
        SpecToken::Group { delimiter: Delimiter::Brace, len: node_block(n, input).len() },
    ] + node_block(n, input));
}

fn push_word(out: &mut Tokens, name: &str)
    ensures
        final(out)@ == old(out)@.push(word(name@)),
{
    out.push(Token::ident(name.to_owned()));
}

fn push_alone(out: &mut Tokens, c: char)
    ensures
        final(out)@ == old(out)@.push(alone(c)),
{
    out.push(Token::Punct(c, Spacing::Alone));
}

fn push_joint(out: &mut Tokens, c: char)
    ensures
        final(out)@ == old(out)@.push(joint(c)),
{
    out.push(Token::Punct(c, Spacing::Joint));
}

fn push_string(out: &mut Tokens, value: &str)
    ensures
        final(out)@ == old(out)@.push(string_token(value@)),
{
    out.push(Token::Literal { text: String::new(), string_value: Some(value.to_owned()) });
}

/// Writes each string literal that the template `code` leaves to write.
fn write_literals(code: &mut Tokens)
    ensures
        written_as(final(code)@, old(code)@),
{
    let ghost template = code@;
    let mut i: usize = 0;
    while i < code.len()
        invariant
            code@.len() == template.len(),
            i <= template.len(),
            forall|k: int| 0 <= k < i ==> token_written(#[trigger] code@[k], template[k]),
            forall|k: int| i <= k < template.len() ==> code@[k] == template[k],
        decreases template.len() - i,
    {
        let value = match code.token(i) {
            Token::Literal { text, string_value: Some(v) } => {
                if text.as_str().is_empty() {
                    Some(v.clone())
                } else {
                    None
                }
            },
            _ => None,
        };
        if let Some(v) = value {
            let t = Token::literal(write_string_literal(v.as_str()));
            code.set(i, t);
        }
        i = i + 1;
    }
}

fn push_unit(out: &mut Tokens)
    ensures
        final(out)@ == unit(old(out)@),
{
    out.push_group(Delimiter::Parenthesis, Tokens::new());
}

fn push_try_end(out: &mut Tokens)
    ensures
        final(out)@ == try_end(old(out)@),
{
    push_alone(out, '?');
    push_alone(out, ';');
}

fn push_let(out: &mut Tokens, name: &str)
    ensures
        final(out)@ == let_binding(old(out)@, name@),
{
    push_word(out, "let");
    push_word(out, name);
    push_alone(out, '=');
}

fn push_call0(out: &mut Tokens, receiver: &str, method: &str)
    ensures
        final(out)@ == call0(old(out)@, receiver@, method@),
{
    push_word(out, receiver);
    push_alone(out, '.');
    push_word(out, method);
    push_unit(out);
}

fn push_document_call(out: &mut Tokens, method: &str, argument: Tokens)
    ensures
        final(out)@ == document_call(old(out)@, method@, argument@),
{
    push_word(out, "gloo_utils");
    push_joint(out, ':');
    push_alone(out, ':');
    push_word(out, "document");
    push_unit(out);
    push_alone(out, '.');
    push_word(out, method);
    out.push_group(Delimiter::Parenthesis, argument);
}

/// The one string literal of `value`.
fn string_argument(value: &str) -> (r: Tokens)
    ensures
        r@ == one(string_token(value@)),
{
    let mut r = Tokens::new();
    push_string(&mut r, value);
    r
}

/// The tokens of the scope `[start, stop)` of the input.
fn input_range(input: &Tokens, start: usize, stop: usize) -> (r: Tokens)
    requires
        scoped(input@, start as int, stop as int),
    ensures
        r@ == input@.subrange(start as int, stop as int),
{
    let mut r = Tokens::new();
    r.copy_range(input, start, stop);
    proof {
        assert(r@ =~= input@.subrange(start as int, stop as int));
    }
    r
}

fn push_clones(out: &mut Tokens, signals: &Vec<String>)
    ensures
        final(out)@ == clones(old(out)@, signals@.map_values(|s: String| s@)),
{
    let ghost start = out@;
    let ghost names = signals@.map_values(|s: String| s@);
    let mut i: usize = 0;
    while i < signals.len()
        invariant
            i <= signals@.len(),
            names == signals@.map_values(|s: String| s@),
            out@ == clones(start, names.subrange(0, i as int)),
        decreases signals@.len() - i,
    {
        let name = signals[i].as_str();
        proof {
            let next = names.subrange(0, i + 1);
            assert(next.drop_last() =~= names.subrange(0, i as int));
            assert(next.last() == name@);
        }
        push_let(out, name);
        push_call0(out, name, "clone");
        push_alone(out, ';');
        i = i + 1;
    }
    proof {
        assert(names.subrange(0, signals@.len() as int) =~= names);
    }
}

fn push_create_effect(out: &mut Tokens, ctx: &str, body: Tokens)
    ensures
        final(out)@ == create_effect(old(out)@, ctx@, body@),
{
    let mut closure = Tokens::new();
    push_word(&mut closure, "move");
    push_joint(&mut closure, '|');
    push_alone(&mut closure, '|');
    closure.push_group(Delimiter::Brace, body);
    push_word(out, ctx);
    push_alone(out, '.');
    push_word(out, "create_effect");
    out.push_group(Delimiter::Parenthesis, closure);
    push_alone(out, ';');
}

fn build_inner_html_body(expr: Tokens) -> (r: Tokens)
    ensures
        r@ == inner_html_body(expr@),
{
    let mut r = Tokens::new();
    push_let(&mut r, "inner_html");
    r.push_group(Delimiter::Brace, expr);
    push_alone(&mut r, ';');
    push_word(&mut r, "n");
    push_alone(&mut r, '.');
    push_word(&mut r, "set_inner_html");
    let mut argument = Tokens::new();
    push_alone(&mut argument, '&');
    push_word(&mut argument, "inner_html");
    r.push_group(Delimiter::Parenthesis, argument);
    push_alone(&mut r, ';');
    r
}

fn build_effect_div_block(e: &Effect, input: &Tokens) -> (r: Tokens)
    requires
        scoped(input@, e@.expr.0, e@.expr.1),
    ensures
        r@ == effect_div_block(e@, input@),
{
    let mut r = Tokens::new();
    push_let(&mut r, "node");
    push_document_call(&mut r, "create_element", string_argument("span"));
    push_try_end(&mut r);
    push_let(&mut r, "n");
    push_call0(&mut r, "node", "clone");
    push_alone(&mut r, ';');
    push_clones(&mut r, &e.signals);
    let body = build_inner_html_body(input_range(input, e.expr.start, e.expr.end));
    push_create_effect(&mut r, e.ctx.as_str(), body);
    push_word(&mut r, "node");
    r
}

fn push_set_attribute(out: &mut Tokens, arguments: Tokens)
    ensures
        final(out)@ == set_attribute(old(out)@, arguments@),
{
    push_word(out, "el");
    push_alone(out, '.');
    push_word(out, "set_attribute");
    out.push_group(Delimiter::Parenthesis, arguments);
}

fn key_tokens(key: &str) -> (r: Tokens)
    ensures
        r@ == key_argument(key@),
{
    let mut r = string_argument(key);
    push_alone(&mut r, ',');
    r
}

fn build_attribute_effect_body(key: &str, expr: Tokens) -> (r: Tokens)
    ensures
        r@ == attribute_effect_body(key@, expr@),
{
    let mut r = Tokens::new();
    push_let(&mut r, "value");
    r.push_group(Delimiter::Brace, expr);
    push_alone(&mut r, ';');
    let mut arguments = key_tokens(key);
    push_call0(&mut arguments, "value", "as_ref");
    push_set_attribute(&mut r, arguments);
    push_alone(&mut r, '.');
    push_word(&mut r, "expect");
    r.push_group(Delimiter::Parenthesis, string_argument("Cannot setup attributes inside the effect"));
    push_alone(&mut r, ';');
    r
}

fn build_attribute_effect_block(key: &str, e: &Effect, input: &Tokens) -> (r: Tokens)
    requires
        scoped(input@, e@.expr.0, e@.expr.1),
    ensures
        r@ == attribute_effect_block(key@, e@, input@),
{
    let mut r = Tokens::new();
    push_let(&mut r, "el");
    push_call0(&mut r, "el", "clone");
    push_alone(&mut r, ';');
    push_clones(&mut r, &e.signals);
    let body = build_attribute_effect_body(key, input_range(input, e.expr.start, e.expr.end));
    push_create_effect(&mut r, e.ctx.as_str(), body);
    r
}

fn build_boxed_handler(handler: Tokens) -> (r: Tokens)
    ensures
        r@ == boxed_handler(handler@),
{
    let mut r = Tokens::new();
    push_word(&mut r, "Box");
    push_joint(&mut r, ':');
    push_alone(&mut r, ':');
    push_word(&mut r, "new");
    r.push_group(Delimiter::Parenthesis, handler);
    push_word(&mut r, "as");
    push_word(&mut r, "Box");
    push_alone(&mut r, '<');
    push_word(&mut r, "dyn");
    push_word(&mut r, "FnMut");
    let mut event = Tokens::new();
    push_word(&mut event, "web_sys");
    push_joint(&mut event, ':');
    push_alone(&mut event, ':');
    push_word(&mut event, "Event");
    r.push_group(Delimiter::Parenthesis, event);
    push_alone(&mut r, '>');
    r
}

fn push_event_listener(out: &mut Tokens, key: &str, handler: Tokens)
    ensures
        final(out)@ == event_listener(old(out)@, key@, handler@),
{
    push_let(out, "cl");
    push_word(out, "Closure");
    push_joint(out, ':');
    push_alone(out, ':');
    push_word(out, "wrap");
    out.push_group(Delimiter::Parenthesis, build_boxed_handler(handler));
    push_alone(out, ';');
    let mut arguments = key_tokens(key);
    push_call0(&mut arguments, "cl", "as_ref");
    push_alone(&mut arguments, '.');
    push_word(&mut arguments, "unchecked_ref");
    push_unit(&mut arguments);
    push_word(out, "el");
    push_alone(out, '.');
    push_word(out, "add_event_listener_with_callback");
    out.push_group(Delimiter::Parenthesis, arguments);
    push_try_end(out);
    push_call0(out, "cl", "forget");
    push_alone(out, ';');
}

fn push_attribute(out: &mut Tokens, key: &String, value: &AttributeValue, input: &Tokens)
    requires
        value_in_scope(value@, input@),
    ensures
        final(out)@ == attribute_code(old(out)@, key@, value@, input@),
{
    match value {
        AttributeValue::Value(v) => {
            let mut arguments = key_tokens(key.as_str());
            push_string(&mut arguments, v.as_str());
            push_set_attribute(out, arguments);
            push_try_end(out);
        },
        AttributeValue::Expr(range) => {
            let mut arguments = key_tokens(key.as_str());
            arguments.copy_range(input, range.start, range.end);
            push_set_attribute(out, arguments);
            push_try_end(out);
        },
        AttributeValue::Effect(e) => {
            let block = build_attribute_effect_block(key.as_str(), e, input);
            out.push_group(Delimiter::Brace, block);
        },
        AttributeValue::Event(range) => {
            push_event_listener(out, key.as_str(), input_range(input, range.start, range.end));
        },
    }
}

/// The statements of the block that builds the DOM node of `node`.
fn build_block(node: &Node, input: &Tokens) -> (r: Tokens)
    requires
        node_in_scope(node@, input@),
    ensures
        r@ == node_block(node@, input@),
    decreases node@,
{
    match node {
        Node::Expr(range) => {
            let mut r = Tokens::new();
            push_document_call(&mut r, "create_text_node", input_range(input, range.start, range.end));
            r
        },
        Node::Text(text) => {
            let mut r = Tokens::new();
            push_document_call(&mut r, "create_text_node", string_argument(text.as_str()));
            r
        },
        Node::EffectDiv(e) => build_effect_div_block(e, input),
        Node::Element(el) => {
            let ghost n = node@;
            let ghost attributes = attributes_view(el.attributes@);
            let ghost children = n->Element_0.children;
            let mut r = Tokens::new();
            push_let(&mut r, "el");
            push_document_call(&mut r, "create_element", string_argument(el.name.as_str()));
            push_try_end(&mut r);
            let ghost start = r@;
            let mut i: usize = 0;
            while i < el.attributes.len()
                invariant
                    i <= el.attributes@.len(),
                    attributes == attributes_view(el.attributes@),
                    attributes == n->Element_0.attributes,
                    node_in_scope(n, input@),
                    n is Element,
                    r@ == attributes_code(start, attributes.subrange(0, i as int), input@),
                decreases el.attributes@.len() - i,
            {
                let (key, value) = &el.attributes[i];
                proof {
                    let next = attributes.subrange(0, i + 1);
                    assert(next.drop_last() =~= attributes.subrange(0, i as int));
                    assert(next.last() == attributes[i as int]);
                    assert(value_in_scope(attributes[i as int].1, input@));
                }
                push_attribute(&mut r, key, value, input);
                i = i + 1;
            }
            proof {
                assert(attributes.subrange(0, el.attributes@.len() as int) =~= attributes);
            }
            let ghost middle = r@;
            let mut j: usize = 0;
            while j < el.children.len()
                invariant
                    j <= el.children@.len(),
                    n == node@,
                    n is Element,
                    children == n->Element_0.children,
                    children.len() == el.children@.len(),
                    forall|k: int| 0 <= k < children.len() ==> children[k] == (*el.children@[k])@,
                    forall|k: int| 0 <= k < children.len() ==> node_in_scope(#[trigger] children[k], input@),
                    r@ == children_code(middle, children.subrange(0, j as int), input@),
                decreases el.children@.len() - j,
            {
                let child = &el.children[j];
                proof {
                    let next = children.subrange(0, j + 1);
                    assert(next.subrange(0, next.len() - 1) =~= children.subrange(0, j as int));
                    assert(next[next.len() - 1] == children[j as int]);
                }
                let block = build_block(child, input);
                push_let(&mut r, "child");
                r.push_group(Delimiter::Brace, block);
                push_alone(&mut r, ';');
                push_word(&mut r, "el");
                push_alone(&mut r, '.');
                push_word(&mut r, "append_child");
                let mut argument = Tokens::new();
                push_alone(&mut argument, '&');
                push_word(&mut argument, "child");
                r.push_group(Delimiter::Parenthesis, argument);
                push_try_end(&mut r);
                j = j + 1;
            }
            proof {
                assert(children.subrange(0, el.children@.len() as int) =~= children);
            }
            push_word(&mut r, "el");
            r
        },
    }
}

/// The code that builds the DOM node of `node`: a block whose value is the
/// node, written as the template `node_code` says. The Rust code that the
/// tree records is copied from `input`.
pub fn build_node(node: &Node, input: &Tokens) -> (code: Tokens)
    requires
        node_in_scope(node@, input@),
    ensures
        written_as(code@, node_code(node@, input@)),
{
    let block = build_block(node, input);
    let mut code = Tokens::new();
    code.push_group(Delimiter::Brace, block);
    write_literals(&mut code);
    code
}

/// What the `html!` markup `input` expands to: the code that builds the DOM
/// tree it stands for, or the error where it cannot be read. The root must
/// not be a string literal: there is no DOM tree with a text node at the
/// root.
pub fn html(input: &Tokens) -> (r: Result<Tokens, ParseError>)
    requires
        !(document_spec(input@) matches Ok(SpecNode::Text(_))),
    ensures
        match document_spec(input@) {
            Err(e) => r == Err::<Tokens, ParseError>(e),
            Ok(n) => r matches Ok(code) && written_as(code@, node_code(n, input@)),
        },
{
    proof {
        use_type_invariant(input);
        lemma_document_in_scope(input@);
    }
    match parse_document(input) {
        Err(e) => Err(e),
        Ok(node) => Ok(build_node(&node, input)),
    }
}

} // verus!
