//! The html element syntax, stated over token sequences.
//!
//! ```text
//! node      := string-literal                      Text
//!            | '#' reactive                        EffectDiv
//!            | '{' tokens '}'                      Expr
//!            | ident attribute* '{' node* '}'      Element
//! reactive  := '{' '|' (ident ','?)* '|' tokens '}'
//! attribute := '@' ident '=' '{' tokens '}'        Event
//!            | ident '=' string-literal            Value
//!            | ident '=' '#' reactive              Effect
//!            | ident '=' '{' tokens '}'            Expr
//! ```
//!
//! Each function below reads one construct at a position `p` of a scope that
//! ends at `stop`, and says what is read or which error is reported where.
//! The alternatives are tried in the order shown, each decided by the next
//! token alone.
use crate::ast::{insert_attribute, SpecAttributeValue, SpecAttributes, SpecEffect, SpecElement, SpecNode};
use crate::tokens::{group_stop, Delimiter, SpecToken};
use vstd::prelude::*;

verus! {

/// Why the markup could not be read.
#[derive(Clone, Copy, PartialEq, Eq, Debug, Structural)]
pub enum ParseErrorKind {
    /// `expected identifier`
    ExpectedIdent,
    /// `expected identifier, found keyword`
    Keyword,
    /// `expected curly braces`
    ExpectedBraces,
    /// `Expected '|' to start signal list in reactive block`
    ExpectedSignalList,
    /// `Expected '=' after attribute name`
    ExpectedEquals,
    /// `Expected braced expression for event attribute value`
    ExpectedEventHandler,
    /// `Expected string literal, reactive block, or braced expression for attribute value`
    ExpectedAttributeValue,
    /// `unexpected token`: input is left after the root node
    UnexpectedToken,
}

/// An error, with the position of the token where it was found (the end
/// of the scope where the input ran out).
#[derive(Clone, Copy, PartialEq, Eq, Debug, Structural)]
pub struct ParseError {
    pub kind: ParseErrorKind,
    pub at: usize,
}

/// The error of the given kind at position `at`.
pub open spec fn error(kind: ParseErrorKind, at: int) -> ParseError {
    ParseError { kind, at: at as usize }
}

/// The token at `p`, inside the scope, is the punctuation `c`.
pub open spec fn punct_at(s: Seq<SpecToken>, p: int, stop: int, c: char) -> bool {
    &&& 0 <= p < stop
    &&& s[p] matches SpecToken::Punct(d, _) && d == c
}

/// The token at `p`, inside the scope, is a group in braces.
pub open spec fn brace_at(s: Seq<SpecToken>, p: int, stop: int) -> bool {
    0 <= p < stop && s[p] matches SpecToken::Group { delimiter: Delimiter::Brace, .. }
}

/// The token at `p`, inside the scope, is a string literal.
pub open spec fn string_at(s: Seq<SpecToken>, p: int, stop: int) -> bool {
    0 <= p < stop && s[p] matches SpecToken::Literal { string_value: Some(_), .. }
}

/// The value of the string literal at `p`.
pub open spec fn string_value(s: Seq<SpecToken>, p: int) -> Seq<char> {
    match s[p] {
        SpecToken::Literal { string_value: Some(v), .. } => v,
        _ => Seq::empty(),
    }
}

/// The end of the content of the group at `g`, which lies inside the scope.
pub open spec fn content_stop(s: Seq<SpecToken>, g: int, stop: int) -> int {
    if group_stop(s, g) <= stop {
        group_stop(s, g)
    } else {
        stop
    }
}

/// An identifier at `p`: its name, or why there is none.
pub open spec fn ident_spec(s: Seq<SpecToken>, p: int, stop: int) -> Result<Seq<char>, ParseError> {
    if 0 <= p < stop && s[p] is Ident {
        if s[p]->keyword {
            Err(error(ParseErrorKind::Keyword, p))
        } else {
            Ok(s[p]->name)
        }
    } else {
        Err(error(ParseErrorKind::ExpectedIdent, p))
    }
}

/// The signal names of a reactive block from `p` up to the closing `|`:
/// identifiers, each optionally followed by a comma. Gives the names and the
/// position of the closing `|`.
pub open spec fn signals_spec(s: Seq<SpecToken>, p: int, stop: int) -> Result<
    (Seq<Seq<char>>, int),
    ParseError,
>
    decreases stop - p,
{
    if punct_at(s, p, stop, '|') {
        Ok((Seq::empty(), p))
    } else {
        match ident_spec(s, p, stop) {
            Err(e) => Err(e),
            Ok(name) => {
                let next = if punct_at(s, p + 1, stop, ',') {
                    p + 2
                } else {
                    p + 1
                };
                match signals_spec(s, next, stop) {
                    Ok((rest, close)) => Ok((seq![name] + rest, close)),
                    Err(e) => Err(e),
                }
            },
        }
    }
}

/// The reactive block whose braces are at `p`.
pub open spec fn effect_spec(s: Seq<SpecToken>, p: int, stop: int) -> Result<SpecEffect, ParseError> {
    if !brace_at(s, p, stop) {
        Err(error(ParseErrorKind::ExpectedBraces, p))
    } else {
        let c = content_stop(s, p, stop);
        if !punct_at(s, p + 1, c, '|') {
            Err(error(ParseErrorKind::ExpectedSignalList, p + 1))
        } else {
            match signals_spec(s, p + 2, c) {
                Err(e) => Err(e),
                Ok((signals, close)) => Ok(SpecEffect { ctx: "ctx"@, signals, expr: (close + 1, c) }),
            }
        }
    }
}

/// The attribute at `p`: its name, its value and the position after it.
pub open spec fn attribute_spec(s: Seq<SpecToken>, p: int, stop: int) -> Result<
    (Seq<char>, SpecAttributeValue, int),
    ParseError,
> {
    let event = punct_at(s, p, stop, '@');
    let n = if event {
        p + 1
    } else {
        p
    };
    match ident_spec(s, n, stop) {
        Err(e) => Err(e),
        Ok(name) => {
            let v = n + 2;
            if !punct_at(s, n + 1, stop, '=') {
                Err(error(ParseErrorKind::ExpectedEquals, n + 1))
            } else if event {
                if brace_at(s, v, stop) {
                    let c = content_stop(s, v, stop);
                    Ok((name, SpecAttributeValue::Event(v + 1, c), c))
                } else {
                    Err(error(ParseErrorKind::ExpectedEventHandler, v))
                }
            } else if string_at(s, v, stop) {
                Ok((name, SpecAttributeValue::Value(string_value(s, v)), v + 1))
            } else if punct_at(s, v, stop, '#') {
                match effect_spec(s, v + 1, stop) {
                    Ok(e) => Ok((name, SpecAttributeValue::Effect(e), content_stop(s, v + 1, stop))),
                    Err(e) => Err(e),
                }
            } else if brace_at(s, v, stop) {
                let c = content_stop(s, v, stop);
                Ok((name, SpecAttributeValue::Expr(v + 1, c), c))
            } else {
                Err(error(ParseErrorKind::ExpectedAttributeValue, v))
            }
        },
    }
}

/// The node at `p`, and the position after it.
pub open spec fn node_spec(s: Seq<SpecToken>, p: int, stop: int) -> Result<(SpecNode, int), ParseError>
    decreases stop - p, 2int,
{
    if string_at(s, p, stop) {
        Ok((SpecNode::Text(string_value(s, p)), p + 1))
    } else if punct_at(s, p, stop, '#') {
        match effect_spec(s, p + 1, stop) {
            Ok(e) => Ok((SpecNode::EffectDiv(e), content_stop(s, p + 1, stop))),
            Err(e) => Err(e),
        }
    } else if brace_at(s, p, stop) {
        let c = content_stop(s, p, stop);
        Ok((SpecNode::Expr(p + 1, c), c))
    } else {
        match ident_spec(s, p, stop) {
            Err(e) => Err(e),
            Ok(name) => element_spec(s, p + 1, stop, name, Seq::empty()),
        }
    }
}

/// The rest of the element `name` from `p`, after the attributes
/// `attributes`: more attributes, then the children in braces.
pub open spec fn element_spec(
    s: Seq<SpecToken>,
    p: int,
    stop: int,
    name: Seq<char>,
    attributes: SpecAttributes,
) -> Result<(SpecNode, int), ParseError>
    decreases stop - p, 1int,
{
    if brace_at(s, p, stop) {
        let c = content_stop(s, p, stop);
        match children_spec(s, p + 1, c) {
            Ok(children) => Ok((SpecNode::Element(SpecElement { name, attributes, children }), c)),
            Err(e) => Err(e),
        }
    } else {
        match attribute_spec(s, p, stop) {
            Err(e) => Err(e),
            Ok((attribute, value, next)) => element_spec(
                s,
                next,
                stop,
                name,
                insert_attribute(attributes, attribute, value),
            ),
        }
    }
}

/// The nodes from `p` to the end of the scope.
pub open spec fn children_spec(s: Seq<SpecToken>, p: int, stop: int) -> Result<Seq<SpecNode>, ParseError>
    decreases stop - p, 3int,
{
    if p >= stop {
        Ok(Seq::empty())
    } else {
        match node_spec(s, p, stop) {
            Err(e) => Err(e),
            Ok((node, next)) => {
                // A node spans at least one token of the scope, so `next` always lies
                // past `p` and inside the scope.
                if p < next <= stop {
                    match children_spec(s, next, stop) {
                        Ok(rest) => Ok(seq![node] + rest),
                        Err(e) => Err(e),
                    }
                } else {
                    Ok(seq![node])
                }
            },
        }
    }
}

/// The whole input as one node.
pub open spec fn document_spec(s: Seq<SpecToken>) -> Result<SpecNode, ParseError> {
    match node_spec(s, 0, s.len() as int) {
        Err(e) => Err(e),
        Ok((node, next)) => if next == s.len() {
            Ok(node)
        } else {
            Err(error(ParseErrorKind::UnexpectedToken, next))
        },
    }
}

} // verus!
