//! The tree that the html grammar builds, and its mathematical model.
//!
//! Rust code inside the markup (static expressions, effect bodies, event
//! handlers) is not interpreted: a node records the range of input tokens
//! that holds it.
use vstd::prelude::*;

verus! {

/// A range `[start, end)` of positions in the input token sequence.
#[derive(Clone, Copy, PartialEq, Eq, Debug, Structural)]
pub struct TokenRange {
    pub start: usize,
    pub end: usize,
}

/// A reactive block `#{ |signals| expression }`.
pub struct Effect {
    /// The name of the context that runs the effect; always `ctx`.
    pub ctx: String,
    /// The signals that the effect clones and tracks, in order.
    pub signals: Vec<String>,
    /// The expression that the effect evaluates.
    pub expr: TokenRange,
}

/// The value of an attribute.
pub enum AttributeValue {
    /// `name="literal"`: the string's value.
    Value(String),
    /// `name={ expression }`
    Expr(TokenRange),
    /// `name=#{ |signals| expression }`
    Effect(Effect),
    /// `@name={ handler }`
    Event(TokenRange),
}

/// An element `name attributes... { children... }`.
pub struct Element {
    pub name: String,
    /// The attributes by name; no name occurs twice. A name that the markup
    /// gives again keeps its place and takes the later value.
    pub attributes: Vec<(String, AttributeValue)>,
    pub children: Vec<Box<Node>>,
}

/// A node of the markup.
pub enum Node {
    /// A static expression `{ ... }`.
    Expr(TokenRange),
    /// A reactive block `#{ |signals| expression }`, rendered in a `span`.
    EffectDiv(Effect),
    /// A string literal.
    Text(String),
    /// An element.
    Element(Element),
}

/// The model of an `Effect`.
pub struct SpecEffect {
    pub ctx: Seq<char>,
    pub signals: Seq<Seq<char>>,
    pub expr: (int, int),
}

/// The model of an `AttributeValue`.
pub enum SpecAttributeValue {
    Value(Seq<char>),
    Expr(int, int),
    Effect(SpecEffect),
    Event(int, int),
}

/// The model of an attribute list.
pub type SpecAttributes = Seq<(Seq<char>, SpecAttributeValue)>;

/// The model of an `Element`.
pub struct SpecElement {
    pub name: Seq<char>,
    pub attributes: SpecAttributes,
    pub children: Seq<SpecNode>,
}

/// The model of a `Node`.
pub enum SpecNode {
    Expr(int, int),
    EffectDiv(SpecEffect),
    Text(Seq<char>),
    Element(SpecElement),
}

impl View for TokenRange {
    type V = (int, int);

    open spec fn view(&self) -> (int, int) {
        (self.start as int, self.end as int)
    }
}

impl View for Effect {
    type V = SpecEffect;

    open spec fn view(&self) -> SpecEffect {
        SpecEffect {
            ctx: self.ctx@,
            signals: self.signals@.map_values(|s: String| s@),
            expr: self.expr@,
        }
    }
}

impl View for AttributeValue {
    type V = SpecAttributeValue;

    open spec fn view(&self) -> SpecAttributeValue {
        match self {
            AttributeValue::Value(v) => SpecAttributeValue::Value(v@),
            AttributeValue::Expr(r) => SpecAttributeValue::Expr(r.start as int, r.end as int),
            AttributeValue::Effect(e) => SpecAttributeValue::Effect(e@),
            AttributeValue::Event(r) => SpecAttributeValue::Event(r.start as int, r.end as int),
        }
    }
}

/// The model of an attribute list.
pub open spec fn attributes_view(attributes: Seq<(String, AttributeValue)>) -> SpecAttributes {
    attributes.map_values(|a: (String, AttributeValue)| (a.0@, a.1@))
}

impl Node {
    /// The model of a node.
    pub open spec fn model(self) -> SpecNode
        decreases self,
    {
        match self {
            Node::Expr(r) => SpecNode::Expr(r.start as int, r.end as int),
            Node::EffectDiv(e) => SpecNode::EffectDiv(e@),
            Node::Text(t) => SpecNode::Text(t@),
            Node::Element(el) => SpecNode::Element(
                SpecElement {
                    name: el.name@,
                    attributes: attributes_view(el.attributes@),
                    children: Seq::new(
                        el.children@.len(),
                        |i: int|
                            if 0 <= i < el.children@.len() {
                                (*el.children@[i]).model()
                            } else {
                                SpecNode::Text(Seq::empty())
                            },
                    ),
                },
            ),
        }
    }
}

impl View for Node {
    type V = SpecNode;

    open spec fn view(&self) -> SpecNode {
        self.model()
    }
}

/// The attribute list `attributes` has the name `name`.
pub open spec fn has_attribute(attributes: SpecAttributes, name: Seq<char>) -> bool {
    exists|i: int| 0 <= i < attributes.len() && (#[trigger] attributes[i]).0 == name
}

/// No name occurs twice in the attribute list.
pub open spec fn distinct_names(attributes: SpecAttributes) -> bool {
    forall|i: int, j: int|
        0 <= i < j < attributes.len() ==> (#[trigger] attributes[i]).0 != (#[trigger] attributes[j]).0
}

/// The attribute list after setting `name` to `value`: an attribute of that
/// name takes the new value in its place; otherwise the attribute is added
/// at the end.
pub open spec fn insert_attribute(
    attributes: SpecAttributes,
    name: Seq<char>,
    value: SpecAttributeValue,
) -> SpecAttributes {
    if has_attribute(attributes, name) {
        let i = choose|i: int| 0 <= i < attributes.len() && (#[trigger] attributes[i]).0 == name;
        attributes.update(i, (name, value))
    } else {
        attributes.push((name, value))
    }
}

/// Every element of the tree has distinct attribute names.
pub open spec fn node_well_formed(n: SpecNode) -> bool
    decreases n,
{
    match n {
        SpecNode::Element(el) => distinct_names(el.attributes) && children_well_formed(el.children),
        _ => true,
    }
}

/// Every element of every tree of the list has distinct attribute names.
pub open spec fn children_well_formed(children: Seq<SpecNode>) -> bool
    decreases children,
{
    children.len() > 0 ==> node_well_formed(children[0]) && children_well_formed(
        children.subrange(1, children.len() as int),
    )
}

/// Setting an attribute keeps the names distinct.
pub proof fn lemma_insert_keeps_distinct(
    attributes: SpecAttributes,
    name: Seq<char>,
    value: SpecAttributeValue,
)
    requires
        distinct_names(attributes),
    ensures
        distinct_names(insert_attribute(attributes, name, value)),
        has_attribute(insert_attribute(attributes, name, value), name),
{
    let r = insert_attribute(attributes, name, value);
    if has_attribute(attributes, name) {
        let i = choose|i: int| 0 <= i < attributes.len() && (#[trigger] attributes[i]).0 == name;
        assert(r[i].0 == name);
    } else {
        assert(r[attributes.len() as int].0 == name);
    }
}

} // verus!
