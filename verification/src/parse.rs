//! The parser of the html element syntax, proved to read what `grammar`
//! states.
use crate::ast::{
    attributes_view, distinct_names, insert_attribute, AttributeValue, Effect, Element, Node,
    SpecNode, TokenRange,
};
use crate::grammar::{
    attribute_spec, brace_at, children_spec, content_stop, document_spec, effect_spec,
    element_spec, ident_spec, node_spec, punct_at, signals_spec, string_at, string_value,
    ParseError, ParseErrorKind,
};
use crate::tokens::{
    group_stop, lemma_group_scope, lemma_whole_scope, nested, scoped, Delimiter,
    Token, Tokens,
};
use vstd::prelude::*;

verus! {

/// The model of the result of reading one node.
pub open spec fn node_result_view(r: Result<(Node, usize), ParseError>) -> Result<
    (SpecNode, int),
    ParseError,
> {
    match r {
        Ok((n, q)) => Ok((n@, q as int)),
        Err(e) => Err(e),
    }
}

/// The model of the result of reading a whole input.
pub open spec fn document_result_view(r: Result<Node, ParseError>) -> Result<SpecNode, ParseError> {
    match r {
        Ok(n) => Ok(n@),
        Err(e) => Err(e),
    }
}

/// The models of a list of children.
pub open spec fn children_view(children: Seq<Box<Node>>) -> Seq<SpecNode> {
    Seq::new(children.len(), |i: int| (*children[i])@)
}

/// The models of a list of names.
pub open spec fn names_view(names: Seq<String>) -> Seq<Seq<char>> {
    names.map_values(|n: String| n@)
}

/// `acc` followed by what `r` read, or the error of `r`.
pub open spec fn after_signals(acc: Seq<Seq<char>>, r: Result<(Seq<Seq<char>>, int), ParseError>) -> Result<
    (Seq<Seq<char>>, int),
    ParseError,
> {
    match r {
        Ok((rest, close)) => Ok((acc + rest, close)),
        Err(e) => Err(e),
    }
}

/// `acc` followed by the nodes that `r` read, or the error of `r`.
pub open spec fn after_children(acc: Seq<SpecNode>, r: Result<Seq<SpecNode>, ParseError>) -> Result<
    Seq<SpecNode>,
    ParseError,
> {
    match r {
        Ok(rest) => Ok(acc + rest),
        Err(e) => Err(e),
    }
}

fn is_punct(tokens: &Tokens, p: usize, stop: usize, c: char) -> (b: bool)
    requires
        stop <= tokens@.len(),
    ensures
        b == punct_at(tokens@, p as int, stop as int, c),
{
    if p < stop {
        match tokens.token(p) {
            Token::Punct(d, _) => *d == c,
            _ => false,
        }
    } else {
        false
    }
}

fn is_brace(tokens: &Tokens, p: usize, stop: usize) -> (b: bool)
    requires
        stop <= tokens@.len(),
    ensures
        b == brace_at(tokens@, p as int, stop as int),
{
    if p < stop {
        match tokens.token(p) {
            Token::Group { delimiter, .. } => *delimiter == Delimiter::Brace,
            _ => false,
        }
    } else {
        false
    }
}

/// The value of the string literal at `p`, if there is one.
fn string_literal(tokens: &Tokens, p: usize, stop: usize) -> (r: Option<String>)
    requires
        stop <= tokens@.len(),
    ensures
        r is Some == string_at(tokens@, p as int, stop as int),
        r matches Some(v) ==> v@ == string_value(tokens@, p as int),
{
    if p < stop {
        match tokens.token(p) {
            Token::Literal { string_value: Some(v), .. } => Some(v.clone()),
            _ => None,
        }
    } else {
        None
    }
}

/// The end of the content of the group at `g`.
fn group_end(tokens: &Tokens, start: usize, stop: usize, g: usize) -> (c: usize)
    requires
        nested(tokens@),
        scoped(tokens@, start as int, stop as int),
        start <= g < stop,
        tokens@[g as int] is Group,
    ensures
        c as int == group_stop(tokens@, g as int),
        c as int == content_stop(tokens@, g as int, stop as int),
        g < c <= stop,
        scoped(tokens@, g + 1, c as int),
{
    proof {
        lemma_group_scope(tokens@, start as int, stop as int, g as int);
    }
    match tokens.token(g) {
        Token::Group { len, .. } => g + 1 + *len,
        _ => g,
    }
}

fn ident(tokens: &Tokens, p: usize, stop: usize) -> (r: Result<String, ParseError>)
    requires
        stop <= tokens@.len(),
    ensures
        match r {
            Ok(name) => ident_spec(tokens@, p as int, stop as int) == Ok::<Seq<char>, ParseError>(name@),
            Err(e) => ident_spec(tokens@, p as int, stop as int) == Err::<Seq<char>, ParseError>(e),
        },
{
    if p < stop {
        match tokens.token(p) {
            Token::Ident { name, keyword } => {
                if *keyword {
                    Err(ParseError { kind: ParseErrorKind::Keyword, at: p })
                } else {
                    Ok(name.clone())
                }
            },
            _ => Err(ParseError { kind: ParseErrorKind::ExpectedIdent, at: p }),
        }
    } else {
        Err(ParseError { kind: ParseErrorKind::ExpectedIdent, at: p })
    }
}

/// The signal names from `p` up to the closing `|`, and its position.
fn signals(tokens: &Tokens, p: usize, stop: usize) -> (r: Result<(Vec<String>, usize), ParseError>)
    requires
        p <= stop <= tokens@.len(),
    ensures
        match r {
            Ok((names, close)) => signals_spec(tokens@, p as int, stop as int) == Ok::<
                (Seq<Seq<char>>, int),
                ParseError,
            >((names_view(names@), close as int)) && p <= close < stop,
            Err(e) => signals_spec(tokens@, p as int, stop as int) == Err::<
                (Seq<Seq<char>>, int),
                ParseError,
            >(e),
        },
{
    let ghost s = tokens@;
    let mut names: Vec<String> = Vec::new();
    let mut q = p;
    while !is_punct(tokens, q, stop, '|')
        invariant
            s == tokens@,
            p <= q <= stop <= s.len(),
            signals_spec(s, p as int, stop as int) == after_signals(
                names_view(names@),
                signals_spec(s, q as int, stop as int),
            ),
        decreases stop - q,
    {
        let name = match ident(tokens, q, stop) {
            Ok(name) => name,
            Err(e) => {
                return Err(e);
            },
        };
        let next = if is_punct(tokens, q + 1, stop, ',') {
            q + 2
        } else {
            q + 1
        };
        proof {
            let acc = names_view(names@);
            let rest = signals_spec(s, next as int, stop as int);
            assert(names_view(names@.push(name)) =~= acc.push(name@));
            match rest {
                Ok((more, close)) => {
                    assert(acc + (seq![name@] + more) =~= acc.push(name@) + more);
                },
                Err(e) => {},
            }
        }
        names.push(name);
        q = next;
    }
    proof {
        assert(names_view(names@) + Seq::<Seq<char>>::empty() =~= names_view(names@));
    }
    Ok((names, q))
}

/// The reactive block whose braces are at `p`; on success the block ends at
/// the end of that group.
fn effect(tokens: &Tokens, start: usize, p: usize, stop: usize) -> (r: Result<Effect, ParseError>)
    requires
        nested(tokens@),
        scoped(tokens@, start as int, stop as int),
        start <= p <= stop,
    ensures
        match r {
            Ok(e) => effect_spec(tokens@, p as int, stop as int) == Ok::<_, ParseError>(e@)
                && brace_at(tokens@, p as int, stop as int),
            Err(e) => effect_spec(tokens@, p as int, stop as int) == Err::<crate::ast::SpecEffect, _>(e),
        },
{
    if !is_brace(tokens, p, stop) {
        return Err(ParseError { kind: ParseErrorKind::ExpectedBraces, at: p });
    }
    let c = group_end(tokens, start, stop, p);
    if !is_punct(tokens, p + 1, c, '|') {
        return Err(ParseError { kind: ParseErrorKind::ExpectedSignalList, at: p + 1 });
    }
    match signals(tokens, p + 2, c) {
        Err(e) => Err(e),
        Ok((names, close)) => {
            let ctx = "ctx".to_owned();
            let e = Effect { ctx, signals: names, expr: TokenRange { start: close + 1, end: c } };
            proof {
                assert(e@.signals =~= names_view(names@));
            }
            Ok(e)
        },
    }
}

/// The attribute at `p`: its name, its value and the position after it.
fn attribute(tokens: &Tokens, start: usize, p: usize, stop: usize) -> (r: Result<
    (String, AttributeValue, usize),
    ParseError,
>)
    requires
        nested(tokens@),
        scoped(tokens@, start as int, stop as int),
        start <= p <= stop,
    ensures
        match r {
            Ok((name, value, next)) => attribute_spec(tokens@, p as int, stop as int) == Ok::<
                _,
                ParseError,
            >((name@, value@, next as int)) && p < next <= stop,
            Err(e) => attribute_spec(tokens@, p as int, stop as int) == Err::<
                (Seq<char>, crate::ast::SpecAttributeValue, int),
                _,
            >(e),
        },
{
    let event = is_punct(tokens, p, stop, '@');
    let n = if event {
        p + 1
    } else {
        p
    };
    let name = match ident(tokens, n, stop) {
        Ok(name) => name,
        Err(e) => {
            return Err(e);
        },
    };
    if !is_punct(tokens, n + 1, stop, '=') {
        return Err(ParseError { kind: ParseErrorKind::ExpectedEquals, at: n + 1 });
    }
    let v = n + 2;
    if event {
        if is_brace(tokens, v, stop) {
            let c = group_end(tokens, start, stop, v);
            Ok((name, AttributeValue::Event(TokenRange { start: v + 1, end: c }), c))
        } else {
            Err(ParseError { kind: ParseErrorKind::ExpectedEventHandler, at: v })
        }
    } else if let Some(text) = string_literal(tokens, v, stop) {
        Ok((name, AttributeValue::Value(text), v + 1))
    } else if is_punct(tokens, v, stop, '#') {
        match effect(tokens, start, v + 1, stop) {
            Ok(e) => {
                let c = group_end(tokens, start, stop, v + 1);
                Ok((name, AttributeValue::Effect(e), c))
            },
            Err(e) => Err(e),
        }
    } else if is_brace(tokens, v, stop) {
        let c = group_end(tokens, start, stop, v);
        Ok((name, AttributeValue::Expr(TokenRange { start: v + 1, end: c }), c))
    } else {
        Err(ParseError { kind: ParseErrorKind::ExpectedAttributeValue, at: v })
    }
}

/// Sets the attribute `name` to `value`: an attribute of that name takes the
/// new value in its place; otherwise the attribute is added at the end.
fn set_attribute(attributes: &mut Vec<(String, AttributeValue)>, name: String, value: AttributeValue)
    requires
        distinct_names(attributes_view(old(attributes)@)),
    ensures
        attributes_view(final(attributes)@) == insert_attribute(
            attributes_view(old(attributes)@),
            name@,
            value@,
        ),
        distinct_names(attributes_view(final(attributes)@)),
{
    let ghost before = attributes_view(attributes@);
    let ghost new_value = value@;
    proof {
        crate::ast::lemma_insert_keeps_distinct(before, name@, value@);
    }
    let mut i: usize = 0;
    while i < attributes.len()
        invariant
            attributes_view(attributes@) == before,
            before == attributes_view(old(attributes)@),
            new_value == value@,
            distinct_names(before),
            i <= attributes@.len(),
            forall|j: int| 0 <= j < i ==> (#[trigger] before[j]).0 != name@,
        decreases attributes@.len() - i,
    {
        if attributes[i].0 == name {
            let ghost k = i as int;
            proof {
                assert(before[k].0 == name@);
                assert(crate::ast::has_attribute(before, name@));
                let c = choose|j: int| 0 <= j < before.len() && (#[trigger] before[j]).0 == name@;
                assert(c == k);
            }
            let ghost old_attrs = attributes@;
            let ghost entry = (name, value);
            attributes.set(i, (name, value));
            proof {
                assert(attributes@ == old_attrs.update(k, entry));
                assert(entry.0@ == name@);
                assert(entry.1@ == new_value);
                assert(attributes_view(attributes@)[k] == (name@, new_value));
                assert(attributes_view(attributes@) =~= before.update(k, (name@, new_value)));
                assert(insert_attribute(before, name@, new_value) == before.update(k, (name@, new_value)));
                assert(attributes_view(attributes@) == insert_attribute(before, name@, new_value));
            }
            return;
        }
        i = i + 1;
    }
    proof {
        assert(!crate::ast::has_attribute(before, name@));
    }
    attributes.push((name, value));
    proof {
        assert(attributes_view(attributes@) =~= before.push((name@, new_value)));
    }
}

/// The node at `p`, and the position after it.
fn node(tokens: &Tokens, p: usize, stop: usize) -> (r: Result<(Node, usize), ParseError>)
    requires
        nested(tokens@),
        scoped(tokens@, p as int, stop as int),
    ensures
        node_result_view(r) == node_spec(tokens@, p as int, stop as int),
        r matches Ok((_, next)) ==> p < next <= stop,
    decreases stop - p, 2int,
{
    if let Some(text) = string_literal(tokens, p, stop) {
        return Ok((Node::Text(text), p + 1));
    }
    if is_punct(tokens, p, stop, '#') {
        return match effect(tokens, p, p + 1, stop) {
            Ok(e) => {
                let c = group_end(tokens, p, stop, p + 1);
                Ok((Node::EffectDiv(e), c))
            },
            Err(e) => Err(e),
        };
    }
    if is_brace(tokens, p, stop) {
        let c = group_end(tokens, p, stop, p);
        return Ok((Node::Expr(TokenRange { start: p + 1, end: c }), c));
    }
    match ident(tokens, p, stop) {
        Err(e) => Err(e),
        Ok(name) => element(tokens, p + 1, stop, name),
    }
}

/// The element `name` whose attributes start at `p`.
fn element(tokens: &Tokens, p: usize, stop: usize, name: String) -> (r: Result<(Node, usize), ParseError>)
    requires
        nested(tokens@),
        scoped(tokens@, p as int, stop as int),
    ensures
        node_result_view(r) == element_spec(tokens@, p as int, stop as int, name@, Seq::empty()),
        r matches Ok((_, next)) ==> p < next <= stop,
    decreases stop - p, 1int,
{
    let ghost s = tokens@;
    let mut attributes: Vec<(String, AttributeValue)> = Vec::new();
    let mut q = p;
    proof {
        assert(attributes_view(attributes@) =~= Seq::<(Seq<char>, crate::ast::SpecAttributeValue)>::empty());
    }
    while !is_brace(tokens, q, stop)
        invariant
            s == tokens@,
            nested(s),
            scoped(s, p as int, stop as int),
            p <= q <= stop,
            distinct_names(attributes_view(attributes@)),
            element_spec(s, p as int, stop as int, name@, Seq::empty()) == element_spec(
                s,
                q as int,
                stop as int,
                name@,
                attributes_view(attributes@),
            ),
        decreases stop - q,
    {
        match attribute(tokens, p, q, stop) {
            Err(e) => {
                return Err(e);
            },
            Ok((attribute, value, next)) => {
                set_attribute(&mut attributes, attribute, value);
                q = next;
            },
        }
    }
    let c = group_end(tokens, p, stop, q);
    match children(tokens, q + 1, c) {
        Err(e) => Err(e),
        Ok(children) => {
            let ghost kids = children_view(children@);
            let el = Element { name, attributes, children };
            let ghost model_children = Seq::new(
                el.children@.len(),
                |i: int|
                    if 0 <= i < el.children@.len() {
                        (*el.children@[i]).model()
                    } else {
                        SpecNode::Text(Seq::empty())
                    },
            );
            let n = Node::Element(el);
            proof {
                assert(kids =~= model_children);
                assert(n@ is Element);
                assert(n@->Element_0.name == el.name@);
                assert(n@->Element_0.attributes == attributes_view(el.attributes@));
                assert(n@->Element_0.children == model_children);
                assert(n@ == SpecNode::Element(
                    crate::ast::SpecElement {
                        name: el.name@,
                        attributes: attributes_view(el.attributes@),
                        children: model_children,
                    },
                ));
            }
            Ok((n, c))
        },
    }
}

/// The nodes from `p` to the end of the scope.
fn children(tokens: &Tokens, p: usize, stop: usize) -> (r: Result<Vec<Box<Node>>, ParseError>)
    requires
        nested(tokens@),
        scoped(tokens@, p as int, stop as int),
    ensures
        match r {
            Ok(nodes) => children_spec(tokens@, p as int, stop as int) == Ok::<_, ParseError>(
                children_view(nodes@),
            ),
            Err(e) => children_spec(tokens@, p as int, stop as int) == Err::<Seq<SpecNode>, _>(e),
        },
    decreases stop - p, 3int,
{
    let ghost s = tokens@;
    let mut nodes: Vec<Box<Node>> = Vec::new();
    let mut q = p;
    proof {
        assert(children_view(nodes@) =~= Seq::<SpecNode>::empty());
    }
    while q < stop
        invariant
            s == tokens@,
            nested(s),
            scoped(s, p as int, stop as int),
            p <= q <= stop,
            children_spec(s, p as int, stop as int) == after_children(
                children_view(nodes@),
                children_spec(s, q as int, stop as int),
            ),
        decreases stop - q,
    {
        match node(tokens, q, stop) {
            Err(e) => {
                return Err(e);
            },
            Ok((n, next)) => {
                proof {
                    let acc = children_view(nodes@);
                    assert(children_view(nodes@.push(Box::new(n))) =~= acc.push(n@));
                    match children_spec(s, next as int, stop as int) {
                        Ok(more) => {
                            assert(acc + (seq![n@] + more) =~= acc.push(n@) + more);
                        },
                        Err(e) => {},
                    }
                }
                nodes.push(Box::new(n));
                q = next;
            },
        }
    }
    proof {
        assert(children_view(nodes@) + Seq::<SpecNode>::empty() =~= children_view(nodes@));
    }
    Ok(nodes)
}

impl Node {
    /// Reads one node at the start of `input`, and gives it with the position
    /// just after it; the tokens after that position are not read.
    pub fn parse(input: &Tokens) -> (r: Result<(Node, usize), ParseError>)
        ensures
            node_result_view(r) == node_spec(input@, 0, input@.len() as int),
            r matches Ok((n, _)) ==> crate::ast::node_well_formed(n@),
            r matches Ok((_, next)) ==> 0 < next <= input@.len(),
    {
        proof {
            use_type_invariant(input);
            lemma_whole_scope(input@);
            crate::markup::law_read_nodes_are_well_formed(input@, 0, input@.len() as int);
        }
        node(input, 0, input.len())
    }
}

/// Reads the whole input as one node; input left after that node is an
/// `UnexpectedToken` error at its first token.
pub fn parse_document(input: &Tokens) -> (r: Result<Node, ParseError>)
    ensures
        document_result_view(r) == document_spec(input@),
        r matches Ok(n) ==> crate::ast::node_well_formed(n@),
{
    match Node::parse(input) {
        Err(e) => Err(e),
        Ok((n, next)) => {
            if next == input.len() {
                Ok(n)
            } else {
                Err(ParseError { kind: ParseErrorKind::UnexpectedToken, at: next })
            }
        },
    }
}

} // verus!
