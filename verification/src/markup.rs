//! How each construct of the html syntax is written out as tokens, and the
//! law that the parser reads back exactly what is written.
//!
//! `node_written(s, p, n)` checks that the tokens of `s` from `p` on spell
//! the node `n` in the syntax of the `grammar` module, and gives the position
//! after it. Signal lists may or may not have commas; an element's
//! attributes are written once each, in the order of its attribute list.
use crate::ast::{children_well_formed, node_well_formed, distinct_names, insert_attribute, SpecAttributeValue, SpecAttributes, SpecEffect, SpecNode};
use crate::grammar::{
    attribute_spec, children_spec, content_stop, document_spec, effect_spec, element_spec,
    ident_spec, node_spec, punct_at, signals_spec, string_value,
};
use crate::tokens::{group_stop, lemma_group_scope, nested, scoped, Delimiter, SpecToken};
use vstd::prelude::*;

verus! {

/// The token at `p` is `t`.
pub open spec fn token_is(s: Seq<SpecToken>, p: int, t: SpecToken) -> bool {
    0 <= p < s.len() && s[p] == t
}

/// The token at `p` is the punctuation `c`, whatever its spacing.
pub open spec fn punct_is(s: Seq<SpecToken>, p: int, c: char) -> bool {
    &&& 0 <= p < s.len()
    &&& s[p] matches SpecToken::Punct(d, _) && d == c
}

/// The token at `p` is the identifier `name`, which is not a keyword.
pub open spec fn ident_is(s: Seq<SpecToken>, p: int, name: Seq<char>) -> bool {
    token_is(s, p, SpecToken::Ident { name, keyword: false })
}

/// The token at `p` is a group in braces.
pub open spec fn brace_is(s: Seq<SpecToken>, p: int) -> bool {
    0 <= p < s.len() && s[p] matches SpecToken::Group { delimiter: Delimiter::Brace, .. }
}

/// The token at `p` is a string literal whose value is `value`.
pub open spec fn string_is(s: Seq<SpecToken>, p: int, value: Seq<char>) -> bool {
    &&& 0 <= p < s.len()
    &&& s[p] matches SpecToken::Literal { string_value: Some(v), .. } && v == value
}

/// The signal names `names` written from `p`, each followed by a comma or
/// not, up to a closing `|`: gives the position of the `|`.
pub open spec fn signals_written(s: Seq<SpecToken>, p: int, names: Seq<Seq<char>>) -> Option<int>
    decreases names.len(),
{
    if names.len() == 0 {
        if punct_is(s, p, '|') {
            Some(p)
        } else {
            None
        }
    } else if ident_is(s, p, names[0]) {
        let next = if punct_is(s, p + 1, ',') {
            p + 2
        } else {
            p + 1
        };
        signals_written(s, next, names.drop_first())
    } else {
        None
    }
}

/// The reactive block `e` written as a group in braces at `p`: gives the
/// position after the group.
pub open spec fn effect_written(s: Seq<SpecToken>, p: int, e: SpecEffect) -> Option<int> {
    if brace_is(s, p) && punct_is(s, p + 1, '|') {
        let c = group_stop(s, p);
        match signals_written(s, p + 2, e.signals) {
            Some(close) => if close < c && e.expr == (close + 1, c) && e.ctx == "ctx"@ {
                Some(c)
            } else {
                None
            },
            None => None,
        }
    } else {
        None
    }
}

/// The attribute `name` with the value `value` written at `p`: gives the
/// position after it.
pub open spec fn attribute_written(
    s: Seq<SpecToken>,
    p: int,
    name: Seq<char>,
    value: SpecAttributeValue,
) -> Option<int> {
    match value {
        SpecAttributeValue::Event(a, b) => {
            if punct_is(s, p, '@') && ident_is(s, p + 1, name) && punct_is(s, p + 2, '=') && brace_is(s, p + 3) && a == p + 4 && b == group_stop(s, p + 3) {
                Some(b)
            } else {
                None
            }
        },
        _ => {
            if ident_is(s, p, name) && punct_is(s, p + 1, '=') {
                match value {
                    SpecAttributeValue::Value(v) => if string_is(s, p + 2, v) {
                        Some(p + 3)
                    } else {
                        None
                    },
                    SpecAttributeValue::Expr(a, b) => if brace_is(s, p + 2) && a == p + 3 && b
                        == group_stop(s, p + 2) {
                        Some(b)
                    } else {
                        None
                    },
                    SpecAttributeValue::Effect(e) => if punct_is(s, p + 2, '#') {
                        effect_written(s, p + 3, e)
                    } else {
                        None
                    },
                    SpecAttributeValue::Event(..) => None,
                }
            } else {
                None
            }
        },
    }
}

/// The attributes `attributes` written one after another from `p`: gives
/// the position after them.
pub open spec fn attributes_written(s: Seq<SpecToken>, p: int, attributes: SpecAttributes) -> Option<int>
    decreases attributes.len(),
{
    if attributes.len() == 0 {
        Some(p)
    } else {
        match attribute_written(s, p, attributes[0].0, attributes[0].1) {
            Some(next) => attributes_written(s, next, attributes.drop_first()),
            None => None,
        }
    }
}

/// The node `n` written at `p`: gives the position after it.
pub open spec fn node_written(s: Seq<SpecToken>, p: int, n: SpecNode) -> Option<int>
    decreases n,
{
    match n {
        SpecNode::Text(t) => if string_is(s, p, t) {
            Some(p + 1)
        } else {
            None
        },
        SpecNode::Expr(a, b) => if brace_is(s, p) && a == p + 1 && b == group_stop(s, p) {
            Some(b)
        } else {
            None
        },
        SpecNode::EffectDiv(e) => if punct_is(s, p, '#') {
            effect_written(s, p + 1, e)
        } else {
            None
        },
        SpecNode::Element(el) => {
            if ident_is(s, p, el.name) && distinct_names(el.attributes) {
                match attributes_written(s, p + 1, el.attributes) {
                    Some(r) => if brace_is(s, r) && children_written(s, r + 1, el.children) == Some(
                        group_stop(s, r),
                    ) {
                        Some(group_stop(s, r))
                    } else {
                        None
                    },
                    None => None,
                }
            } else {
                None
            }
        },
    }
}

/// The nodes `children` written one after another from `p`: gives the
/// position after them.
pub open spec fn children_written(s: Seq<SpecToken>, p: int, children: Seq<SpecNode>) -> Option<int>
    decreases children,
{
    if children.len() == 0 {
        Some(p)
    } else {
        match node_written(s, p, children[0]) {
            Some(next) => children_written(s, next, children.subrange(1, children.len() as int)),
            None => None,
        }
    }
}

proof fn lemma_signals_read(s: Seq<SpecToken>, p: int, stop: int, names: Seq<Seq<char>>)
    requires
        0 <= p,
        signals_written(s, p, names) matches Some(close) && close < stop <= s.len(),
    ensures
        signals_written(s, p, names) matches Some(close) && p <= close && signals_spec(s, p, stop) == Ok::<
            (Seq<Seq<char>>, int),
            crate::grammar::ParseError,
        >((names, close)),
    decreases names.len(),
{
    if names.len() > 0 {
        let next = if punct_is(s, p + 1, ',') {
            p + 2
        } else {
            p + 1
        };
        let close = signals_written(s, p, names)->0;
        assert(signals_written(s, next, names.drop_first()) == Some(close));
        lemma_signals_read(s, next, stop, names.drop_first());
        assert(p < stop);
        assert(punct_at(s, p + 1, stop, ',') == punct_is(s, p + 1, ','));
        assert(ident_spec(s, p, stop) == Ok::<Seq<char>, crate::grammar::ParseError>(names[0]));
        assert(!punct_at(s, p, stop, '|'));
        assert(seq![names[0]] + names.drop_first() =~= names);
    } else {
        assert(names =~= Seq::<Seq<char>>::empty());
    }
}

proof fn lemma_effect_read(s: Seq<SpecToken>, start: int, stop: int, p: int, e: SpecEffect)
    requires
        nested(s),
        scoped(s, start, stop),
        start <= p,
        effect_written(s, p, e) matches Some(c) && c <= stop,
    ensures
        effect_written(s, p, e) matches Some(c) && p < c && c == content_stop(s, p, stop),
        effect_spec(s, p, stop) == Ok::<SpecEffect, crate::grammar::ParseError>(e),
{
    let c = group_stop(s, p);
    lemma_group_scope(s, start, stop, p);
    lemma_signals_read(s, p + 2, c, e.signals);
}

proof fn lemma_attribute_read(
    s: Seq<SpecToken>,
    start: int,
    stop: int,
    p: int,
    name: Seq<char>,
    value: SpecAttributeValue,
)
    requires
        nested(s),
        scoped(s, start, stop),
        start <= p,
        attribute_written(s, p, name, value) matches Some(next) && next <= stop,
    ensures
        attribute_written(s, p, name, value) matches Some(next) && p < next && attribute_spec(
            s,
            p,
            stop,
        ) == Ok::<_, crate::grammar::ParseError>((name, value, next)),
{
    match value {
        SpecAttributeValue::Event(a, b) => {
            lemma_group_scope(s, start, stop, p + 3);
        },
        SpecAttributeValue::Value(v) => {},
        SpecAttributeValue::Expr(a, b) => {
            lemma_group_scope(s, start, stop, p + 2);
        },
        SpecAttributeValue::Effect(e) => {
            lemma_effect_read(s, start, stop, p + 3, e);
        },
    }
}

/// Attributes written one after another are read one after another, each
/// added at the end of those before it.
proof fn lemma_attributes_read(
    s: Seq<SpecToken>,
    start: int,
    stop: int,
    p: int,
    name: Seq<char>,
    before: SpecAttributes,
    attributes: SpecAttributes,
)
    requires
        nested(s),
        scoped(s, start, stop),
        start <= p,
        distinct_names(before + attributes),
        attributes_written(s, p, attributes) matches Some(r) && r < stop && s[r] is Group,
    ensures
        attributes_written(s, p, attributes) matches Some(r) && p <= r && element_spec(
            s,
            p,
            stop,
            name,
            before,
        ) == element_spec(s, r, stop, name, before + attributes),
    decreases attributes.len(),
{
    if attributes.len() == 0 {
        assert(before + attributes =~= before);
    } else {
        let first = attributes[0];
        let rest = attributes.drop_first();
        let next = attribute_written(s, p, first.0, first.1)->0;
        lemma_attributes_read_advances(s, next, rest);
        lemma_attribute_read(s, start, stop, p, first.0, first.1);
        assert(before.push(first) + rest =~= before + attributes);
        assert(distinct_names(before.push(first) + rest));
        assert(!crate::ast::has_attribute(before, first.0)) by {
            if crate::ast::has_attribute(before, first.0) {
                let i = choose|i: int| 0 <= i < before.len() && (#[trigger] before[i]).0 == first.0;
                assert((before + attributes)[i].0 == (before + attributes)[before.len() as int].0);
            }
        }
        assert(insert_attribute(before, first.0, first.1) == before.push(first));
        lemma_attributes_read(s, start, stop, next, name, before.push(first), rest);
    }
}

proof fn lemma_attributes_read_advances(s: Seq<SpecToken>, p: int, attributes: SpecAttributes)
    ensures
        attributes_written(s, p, attributes) matches Some(r) ==> p <= r,
    decreases attributes.len(),
{
    if attributes.len() > 0 {
        let first = attributes[0];
        match attribute_written(s, p, first.0, first.1) {
            Some(next) => {
                lemma_attributes_read_advances(s, next, attributes.drop_first());
                match first.1 {
                    SpecAttributeValue::Effect(e) => {
                        if let Some(c) = effect_written(s, p + 3, e) {
                            assert(c == group_stop(s, p + 3));
                        }
                    },
                    _ => {},
                }
            },
            None => {},
        }
    }
}

/// A written node spans at least one token, and written nodes end no
/// earlier than they start.
proof fn lemma_written_advances(s: Seq<SpecToken>, p: int, n: SpecNode)
    ensures
        node_written(s, p, n) matches Some(q) ==> p < q,
    decreases n,
{
    match n {
        SpecNode::Element(el) => {
            lemma_attributes_read_advances(s, p + 1, el.attributes);
        },
        _ => {},
    }
}

proof fn lemma_children_written_advances(s: Seq<SpecToken>, p: int, children: Seq<SpecNode>)
    ensures
        children_written(s, p, children) matches Some(q) ==> p <= q,
    decreases children.len(),
{
    if children.len() > 0 {
        lemma_written_advances(s, p, children[0]);
        if let Some(next) = node_written(s, p, children[0]) {
            lemma_children_written_advances(s, next, children.subrange(1, children.len() as int));
        }
    }
}

proof fn lemma_node_read(s: Seq<SpecToken>, p: int, stop: int, n: SpecNode)
    requires
        nested(s),
        scoped(s, p, stop),
        node_written(s, p, n) matches Some(q) && q <= stop,
    ensures
        node_written(s, p, n) matches Some(q) && node_spec(s, p, stop) == Ok::<
            _,
            crate::grammar::ParseError,
        >((n, q)),
    decreases n,
{
    lemma_written_advances(s, p, n);
    match n {
        SpecNode::Text(t) => {},
        SpecNode::Expr(a, b) => {
            lemma_group_scope(s, p, stop, p);
        },
        SpecNode::EffectDiv(e) => {
            lemma_effect_read(s, p, stop, p + 1, e);
        },
        SpecNode::Element(el) => {
            let r = attributes_written(s, p + 1, el.attributes)->0;
            let c = group_stop(s, r);
            lemma_children_written_advances(s, r + 1, el.children);
            assert(Seq::<(Seq<char>, SpecAttributeValue)>::empty() + el.attributes =~= el.attributes);
            lemma_attributes_read(s, p, stop, p + 1, el.name, Seq::empty(), el.attributes);
            lemma_group_scope(s, p, stop, r);
            lemma_children_read(s, r + 1, c, el.children);
            assert(ident_spec(s, p, stop) == Ok::<Seq<char>, crate::grammar::ParseError>(el.name));
        },
    }
}

proof fn lemma_children_read(s: Seq<SpecToken>, p: int, stop: int, children: Seq<SpecNode>)
    requires
        nested(s),
        scoped(s, p, stop),
        children_written(s, p, children) == Some(stop),
    ensures
        children_spec(s, p, stop) == Ok::<_, crate::grammar::ParseError>(children),
    decreases children,
{
    if children.len() > 0 {
        let first = children[0];
        let rest = children.subrange(1, children.len() as int);
        let next = node_written(s, p, first)->0;
        assert(children_written(s, next, rest) == Some(stop));
        lemma_children_written_advances(s, next, rest);
        lemma_written_advances(s, p, first);
        assert(scoped(s, next, stop));
        lemma_node_read(s, p, stop, first);
        lemma_children_read(s, next, stop, rest);
        assert(seq![first] + rest =~= children);
    } else {
        assert(children =~= Seq::<SpecNode>::empty());
    }
}

/// The parser reads back what is written: where the tokens of a scope of
/// a well-nested sequence spell the node `n` from `p` on, the parser reads
/// exactly `n` there and stops just after it.
pub proof fn law_written_node_is_read(s: Seq<SpecToken>, p: int, stop: int, n: SpecNode)
    requires
        nested(s),
        scoped(s, p, stop),
        node_written(s, p, n) matches Some(q) && q <= stop,
    ensures
        node_written(s, p, n) matches Some(q) && node_spec(s, p, stop) == Ok::<
            _,
            crate::grammar::ParseError,
        >((n, q)),
{
    lemma_node_read(s, p, stop, n);
}

/// A whole input that spells the node `n` is read as `n`.
pub proof fn law_written_document_is_read(s: Seq<SpecToken>, n: SpecNode)
    requires
        nested(s),
        node_written(s, 0, n) == Some(s.len() as int),
    ensures
        document_spec(s) == Ok::<_, crate::grammar::ParseError>(n),
{
    crate::tokens::lemma_whole_scope(s);
    lemma_node_read(s, 0, s.len() as int, n);
}

proof fn lemma_node_read_well_formed(s: Seq<SpecToken>, p: int, stop: int)
    ensures
        node_spec(s, p, stop) matches Ok((n, _)) ==> node_well_formed(n),
    decreases stop - p, 2int,
{
    if !crate::grammar::string_at(s, p, stop) && !punct_at(s, p, stop, '#')
        && !crate::grammar::brace_at(s, p, stop) {
        if let Ok(name) = ident_spec(s, p, stop) {
            lemma_element_read_well_formed(s, p + 1, stop, name, Seq::empty());
        }
    }
}

proof fn lemma_element_read_well_formed(
    s: Seq<SpecToken>,
    p: int,
    stop: int,
    name: Seq<char>,
    attributes: SpecAttributes,
)
    requires
        distinct_names(attributes),
    ensures
        element_spec(s, p, stop, name, attributes) matches Ok((n, _)) ==> node_well_formed(n),
    decreases stop - p, 1int,
{
    if crate::grammar::brace_at(s, p, stop) {
        let c = content_stop(s, p, stop);
        lemma_children_read_well_formed(s, p + 1, c);
    } else {
        if let Ok((attribute, value, next)) = attribute_spec(s, p, stop) {
            crate::ast::lemma_insert_keeps_distinct(attributes, attribute, value);
            lemma_element_read_well_formed(
                s,
                next,
                stop,
                name,
                insert_attribute(attributes, attribute, value),
            );
        }
    }
}

proof fn lemma_children_read_well_formed(s: Seq<SpecToken>, p: int, stop: int)
    ensures
        children_spec(s, p, stop) matches Ok(children) ==> children_well_formed(children),
    decreases stop - p, 3int,
{
    if p < stop {
        lemma_node_read_well_formed(s, p, stop);
        if let Ok((n, next)) = node_spec(s, p, stop) {
            if p < next <= stop {
                lemma_children_read_well_formed(s, next, stop);
                if let Ok(rest) = children_spec(s, next, stop) {
                    assert((seq![n] + rest).subrange(1, (seq![n] + rest).len() as int) =~= rest);
                    assert((seq![n] + rest)[0] == n);
                }
            } else {
                assert(seq![n].subrange(1, 1) =~= Seq::<SpecNode>::empty());
                assert(children_well_formed(Seq::<SpecNode>::empty()));
            }
        }
    }
}

/// Whatever the parser reads is a tree whose elements each name an
/// attribute at most once: a name written again replaces the earlier value.
pub proof fn law_read_nodes_are_well_formed(s: Seq<SpecToken>, p: int, stop: int)
    ensures
        node_spec(s, p, stop) matches Ok((n, _)) ==> node_well_formed(n),
        document_spec(s) matches Ok(n) ==> node_well_formed(n),
{
    lemma_node_read_well_formed(s, p, stop);
    lemma_node_read_well_formed(s, 0, s.len() as int);
}

} // verus!
