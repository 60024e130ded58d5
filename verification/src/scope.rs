//! Where the Rust code of a tree lies in its input: every range that a
//! node records is a scope of the input, so the code can be copied out with
//! its groups whole. The trees the grammar reads have this property.
use crate::ast::{has_attribute, insert_attribute, SpecAttributeValue, SpecAttributes, SpecNode};
use crate::grammar::{
    attribute_spec, children_spec, content_stop, document_spec, effect_spec, element_spec,
    node_spec, punct_at, signals_spec,
};
use crate::tokens::{lemma_group_scope, lemma_whole_scope, nested, scoped, SpecToken};
use vstd::prelude::*;

verus! {

/// The range that an attribute value records, if any, is a scope of `s`.
pub open spec fn value_in_scope(v: SpecAttributeValue, s: Seq<SpecToken>) -> bool {
    match v {
        SpecAttributeValue::Value(_) => true,
        SpecAttributeValue::Expr(a, b) => scoped(s, a, b),
        SpecAttributeValue::Effect(e) => scoped(s, e.expr.0, e.expr.1),
        SpecAttributeValue::Event(a, b) => scoped(s, a, b),
    }
}

/// The ranges of an attribute list are scopes of `s`.
pub open spec fn attributes_in_scope(attributes: SpecAttributes, s: Seq<SpecToken>) -> bool {
    forall|i: int| 0 <= i < attributes.len() ==> value_in_scope(#[trigger] attributes[i].1, s)
}

/// Every range that the tree records is a scope of `s`.
pub open spec fn node_in_scope(n: SpecNode, s: Seq<SpecToken>) -> bool
    decreases n,
{
    match n {
        SpecNode::Expr(a, b) => scoped(s, a, b),
        SpecNode::EffectDiv(e) => scoped(s, e.expr.0, e.expr.1),
        SpecNode::Text(_) => true,
        SpecNode::Element(el) => {
            &&& attributes_in_scope(el.attributes, s)
            &&& forall|i: int| 0 <= i < el.children.len() ==> node_in_scope(#[trigger] el.children[i], s)
        },
    }
}

/// A scope ends wherever it may start later.
proof fn lemma_suffix_scope(s: Seq<SpecToken>, start: int, later: int, stop: int)
    requires
        scoped(s, start, stop),
        start <= later <= stop,
    ensures
        scoped(s, later, stop),
{
}

/// The closing `|` of a signal list lies inside the scope.
proof fn lemma_signals_close(s: Seq<SpecToken>, p: int, stop: int)
    ensures
        signals_spec(s, p, stop) matches Ok((_, close)) ==> p <= close < stop,
    decreases stop - p,
{
    if !punct_at(s, p, stop, '|') && 0 <= p < stop {
        let next = if punct_at(s, p + 1, stop, ',') {
            p + 2
        } else {
            p + 1
        };
        lemma_signals_close(s, next, stop);
    }
}

/// The expression of a reactive block read at `p` is a scope.
proof fn lemma_effect_in_scope(s: Seq<SpecToken>, p: int, stop: int)
    requires
        nested(s),
        scoped(s, p, stop),
    ensures
        effect_spec(s, p, stop) matches Ok(e) ==> scoped(s, e.expr.0, e.expr.1),
        effect_spec(s, p, stop) is Ok ==> p < content_stop(s, p, stop) <= stop,
{
    if effect_spec(s, p, stop) is Ok {
        lemma_group_scope(s, p, stop, p);
        let c = content_stop(s, p, stop);
        lemma_signals_close(s, p + 2, c);
        let close = signals_spec(s, p + 2, c)->Ok_0.1;
        lemma_suffix_scope(s, p + 1, close + 1, c);
    }
}

/// The value of an attribute read at `p` records scopes, and the attribute
/// ends inside the scope.
proof fn lemma_attribute_in_scope(s: Seq<SpecToken>, p: int, stop: int)
    requires
        nested(s),
        scoped(s, p, stop),
    ensures
        attribute_spec(s, p, stop) matches Ok((_, v, next)) ==> value_in_scope(v, s) && p < next <= stop,
{
    if attribute_spec(s, p, stop) is Ok {
        let event = punct_at(s, p, stop, '@');
        let n = if event {
            p + 1
        } else {
            p
        };
        let v = n + 2;
        if event || !(s[v] matches SpecToken::Literal { string_value: Some(_), .. }) {
            if punct_at(s, v, stop, '#') && !event {
                lemma_suffix_scope(s, p, v + 1, stop);
                lemma_effect_in_scope(s, v + 1, stop);
            } else {
                lemma_group_scope(s, p, stop, v);
            }
        }
    }
}

/// Setting an attribute to a value that records scopes keeps the list's
/// ranges scopes.
proof fn lemma_insert_in_scope(
    attributes: SpecAttributes,
    name: Seq<char>,
    value: SpecAttributeValue,
    s: Seq<SpecToken>,
)
    requires
        attributes_in_scope(attributes, s),
        value_in_scope(value, s),
    ensures
        attributes_in_scope(insert_attribute(attributes, name, value), s),
{
    let r = insert_attribute(attributes, name, value);
    if has_attribute(attributes, name) {
        assert forall|j: int| 0 <= j < r.len() implies value_in_scope(#[trigger] r[j].1, s) by {
            assert(r[j] == attributes[j] || r[j] == (name, value));
        }
    } else {
        assert forall|j: int| 0 <= j < r.len() implies value_in_scope(#[trigger] r[j].1, s) by {
            if j < attributes.len() {
                assert(r[j] == attributes[j]);
            }
        }
    }
}

/// A node read at `p` records scopes.
pub proof fn lemma_node_in_scope(s: Seq<SpecToken>, p: int, stop: int)
    requires
        nested(s),
        scoped(s, p, stop),
    ensures
        node_spec(s, p, stop) matches Ok((n, _)) ==> node_in_scope(n, s),
    decreases stop - p, 2int,
{
    if node_spec(s, p, stop) is Ok {
        if s[p] matches SpecToken::Literal { string_value: Some(_), .. } {
        } else if punct_at(s, p, stop, '#') {
            lemma_suffix_scope(s, p, p + 1, stop);
            lemma_effect_in_scope(s, p + 1, stop);
        } else if s[p] matches SpecToken::Group { delimiter: crate::tokens::Delimiter::Brace, .. } {
            lemma_group_scope(s, p, stop, p);
        } else {
            lemma_suffix_scope(s, p, p + 1, stop);
            lemma_element_in_scope(s, p + 1, stop, s[p]->name, Seq::empty());
        }
    }
}

/// The rest of an element read at `p`, after attributes that record scopes,
/// records scopes.
pub proof fn lemma_element_in_scope(
    s: Seq<SpecToken>,
    p: int,
    stop: int,
    name: Seq<char>,
    attributes: SpecAttributes,
)
    requires
        nested(s),
        scoped(s, p, stop),
        attributes_in_scope(attributes, s),
    ensures
        element_spec(s, p, stop, name, attributes) matches Ok((n, _)) ==> node_in_scope(n, s),
    decreases stop - p, 1int,
{
    if s[p] matches SpecToken::Group { delimiter: crate::tokens::Delimiter::Brace, .. } && 0 <= p < stop {
        lemma_group_scope(s, p, stop, p);
        let c = content_stop(s, p, stop);
        lemma_children_in_scope(s, p + 1, c);
    } else {
        lemma_attribute_in_scope(s, p, stop);
        if let Ok((attribute, value, next)) = attribute_spec(s, p, stop) {
            lemma_insert_in_scope(attributes, attribute, value, s);
            lemma_suffix_scope(s, p, next, stop);
            lemma_element_in_scope(s, next, stop, name, insert_attribute(attributes, attribute, value));
        }
    }
}

/// The nodes read from `p` to the end of the scope record scopes.
pub proof fn lemma_children_in_scope(s: Seq<SpecToken>, p: int, stop: int)
    requires
        nested(s),
        scoped(s, p, stop),
    ensures
        children_spec(s, p, stop) matches Ok(children) ==> forall|i: int|
            0 <= i < children.len() ==> node_in_scope(#[trigger] children[i], s),
    decreases stop - p, 3int,
{
    if p < stop {
        lemma_node_in_scope(s, p, stop);
        if let Ok((node, next)) = node_spec(s, p, stop) {
            if p < next <= stop {
                lemma_suffix_scope(s, p, next, stop);
                lemma_children_in_scope(s, next, stop);
                if let Ok(rest) = children_spec(s, next, stop) {
                    let all = seq![node] + rest;
                    assert forall|i: int| 0 <= i < all.len() implies node_in_scope(#[trigger] all[i], s) by {
                        if i > 0 {
                            assert(all[i] == rest[i - 1]);
                        }
                    }
                }
            }
        }
    }
}

/// The tree read from a whole nested input records scopes of it.
pub proof fn lemma_document_in_scope(s: Seq<SpecToken>)
    requires
        nested(s),
    ensures
        document_spec(s) matches Ok(n) ==> node_in_scope(n, s),
{
    lemma_whole_scope(s);
    lemma_node_in_scope(s, 0, s.len() as int);
}

} // verus!
