//! The token model that the html grammar reads.
//!
//! A macro's input is a tree of token trees. Here it is laid out flat: a
//! group is one `Group` token that records how many tokens of the sequence
//! form its content, and those tokens follow it directly. `Tokens` keeps the
//! groups properly nested, so the content of every group lies inside the
//! content of every group that encloses it.
use vstd::prelude::*;

verus! {

/// The delimiter of a group of tokens.
#[derive(Clone, Copy, PartialEq, Eq, Debug, Structural)]
pub enum Delimiter {
    /// `( ... )`
    Parenthesis,
    /// `{ ... }`
    Brace,
    /// `[ ... ]`
    Bracket,
}

/// Whether a punctuation character is joined to the one that follows it,
/// as the first `:` of `::` is.
#[derive(Clone, Copy, PartialEq, Eq, Debug, Structural)]
pub enum Spacing {
    Alone,
    Joint,
}

/// One token of a flat token sequence.
pub enum Token {
    /// An identifier, with whether `syn` refuses it as an identifier (a keyword).
    Ident { name: String, keyword: bool },
    /// A punctuation character.
    Punct(char, Spacing),
    /// A literal as written, with its value where it is a string literal.
    Literal { text: String, string_value: Option<String> },
    /// A group whose content is the `len` tokens that follow.
    Group { delimiter: Delimiter, len: usize },
}

/// The mathematical value of a `Token`.
pub enum SpecToken {
    Ident { name: Seq<char>, keyword: bool },
    Punct(char, Spacing),
    Literal { text: Seq<char>, string_value: Option<Seq<char>> },
    Group { delimiter: Delimiter, len: nat },
}

/// The view of an optional string.
pub open spec fn option_string_view(o: Option<String>) -> Option<Seq<char>> {
    match o {
        Some(s) => Some(s@),
        None => None,
    }
}

impl View for Token {
    type V = SpecToken;

    open spec fn view(&self) -> SpecToken {
        match self {
            Token::Ident { name, keyword } => SpecToken::Ident { name: name@, keyword: *keyword },
            Token::Punct(c, spacing) => SpecToken::Punct(*c, *spacing),
            Token::Literal { text, string_value } => SpecToken::Literal {
                text: text@,
                string_value: option_string_view(*string_value),
            },
            Token::Group { delimiter, len } => SpecToken::Group {
                delimiter: *delimiter,
                len: *len as nat,
            },
        }
    }
}

/// What `syn` makes of the text of a literal token read as a string
/// literal (`syn::LitStr`): the string's value, or `None` where the literal
/// is not a string literal.
pub uninterp spec fn syn_string_literal(text: Seq<char>) -> Option<Seq<char>>;

/// Whether `syn` accepts the text as one identifier (`syn::Ident`).
pub uninterp spec fn syn_accepts_ident(text: Seq<char>) -> bool;

/// The words that `syn` refuses to parse as identifiers.
pub open spec fn reserved_word(text: Seq<char>) -> bool {
    ||| text == "_"@ || text == "abstract"@ || text == "as"@ || text == "async"@
    ||| text == "await"@ || text == "become"@ || text == "box"@ || text == "break"@
    ||| text == "const"@ || text == "continue"@ || text == "crate"@ || text == "do"@
    ||| text == "dyn"@ || text == "else"@ || text == "enum"@ || text == "extern"@
    ||| text == "false"@ || text == "final"@ || text == "fn"@ || text == "for"@
    ||| text == "if"@ || text == "impl"@ || text == "in"@ || text == "let"@
    ||| text == "loop"@ || text == "macro"@ || text == "match"@ || text == "mod"@
    ||| text == "move"@ || text == "mut"@ || text == "override"@ || text == "priv"@
    ||| text == "pub"@ || text == "ref"@ || text == "return"@ || text == "Self"@
    ||| text == "self"@ || text == "static"@ || text == "struct"@ || text == "super"@
    ||| text == "trait"@ || text == "true"@ || text == "try"@ || text == "type"@
    ||| text == "typeof"@ || text == "unsafe"@ || text == "unsized"@ || text == "use"@
    ||| text == "virtual"@ || text == "where"@ || text == "while"@ || text == "yield"@
}

/// Calls `syn::parse_str::<syn::LitStr>` on the text and, where it succeeds,
/// `syn::LitStr::value`. The contract claims only that the result is the
/// named value `syn_string_literal` of the text.
#[verifier::external_body]
fn parse_string_literal(text: &str) -> (r: Option<String>)
    ensures
        option_string_view(r) == syn_string_literal(text@),
{
    match syn::parse_str::<syn::LitStr>(text) {
        Ok(lit) => Some(lit.value()),
        Err(_) => None,
    }
}

/// Calls `syn::parse_str::<syn::Ident>` on the text and tells whether it
/// succeeded. The contract claims that the result is the named value
/// `syn_accepts_ident` of the text, and that the words of `reserved_word`
/// are refused, as `syn`'s identifier parser refuses them.
#[verifier::external_body]
fn parse_ident(text: &str) -> (r: bool)
    ensures
        r == syn_accepts_ident(text@),
        reserved_word(text@) ==> !r,
{
    syn::parse_str::<syn::Ident>(text).is_ok()
}

impl Token {
    /// The identifier token with the given name; it is marked a keyword where
    /// `syn` refuses the name as an identifier.
    pub fn ident(name: String) -> (t: Token)
        ensures
            t@ == (SpecToken::Ident { name: name@, keyword: !syn_accepts_ident(name@) }),
            reserved_word(name@) ==> t@->keyword,
    {
        let accepted = parse_ident(name.as_str());
        Token::Ident { name, keyword: !accepted }
    }

    /// The literal token with the given text; it carries the string's value
    /// where `syn` reads the text as a string literal.
    pub fn literal(text: String) -> (t: Token)
        ensures
            t@ == (SpecToken::Literal { text: text@, string_value: syn_string_literal(text@) }),
    {
        let value = parse_string_literal(text.as_str());
        Token::Literal { text, string_value: value }
    }

    /// A copy of the token.
    pub fn copy(&self) -> (t: Token)
        ensures
            t@ == self@,
    {
        match self {
            Token::Ident { name, keyword } => Token::Ident { name: name.clone(), keyword: *keyword },
            Token::Punct(c, spacing) => Token::Punct(*c, *spacing),
            Token::Literal { text, string_value } => {
                let value = match string_value {
                    Some(v) => Some(v.clone()),
                    None => None,
                };
                Token::Literal { text: text.clone(), string_value: value }
            },
            Token::Group { delimiter, len } => Token::Group { delimiter: *delimiter, len: *len },
        }
    }
}

/// The position just past the content of the group at `g`.
pub open spec fn group_stop(s: Seq<SpecToken>, g: int) -> int {
    g + 1 + s[g]->len
}

/// The groups of `s` are properly nested: each group's content lies inside
/// `s`, and a group that starts inside another group's content also ends
/// inside it.
pub open spec fn nested(s: Seq<SpecToken>) -> bool {
    &&& forall|g: int| 0 <= g < s.len() && #[trigger] s[g] is Group ==> group_stop(s, g) <= s.len()
    &&& forall|g: int, h: int|
        #![trigger s[g], s[h]]
        0 <= g < h < s.len() && s[g] is Group && s[h] is Group && h < group_stop(s, g)
            ==> group_stop(s, h) <= group_stop(s, g)
}

/// `[start, stop)` is a range of `s` that every group starting in it ends in.
pub open spec fn scoped(s: Seq<SpecToken>, start: int, stop: int) -> bool {
    &&& 0 <= start <= stop <= s.len()
    &&& forall|g: int| start <= g < stop && #[trigger] s[g] is Group ==> group_stop(s, g) <= stop
}

/// The whole of a nested sequence is a scope.
pub proof fn lemma_whole_scope(s: Seq<SpecToken>)
    requires
        nested(s),
    ensures
        scoped(s, 0, s.len() as int),
{
}

/// The content of a group of a scope is a scope inside it.
pub proof fn lemma_group_scope(s: Seq<SpecToken>, start: int, stop: int, g: int)
    requires
        nested(s),
        scoped(s, start, stop),
        start <= g < stop,
        s[g] is Group,
    ensures
        group_stop(s, g) <= stop,
        scoped(s, g + 1, group_stop(s, g)),
{
    assert forall|h: int| g + 1 <= h < group_stop(s, g) && #[trigger] s[h] is Group implies group_stop(s, h)
        <= group_stop(s, g) by {
        assert(s[g] is Group && s[h] is Group);
    }
}

/// The tokens of a scope of a nested sequence form a nested sequence.
pub proof fn lemma_scope_nested(s: Seq<SpecToken>, start: int, stop: int)
    requires
        nested(s),
        scoped(s, start, stop),
    ensures
        nested(s.subrange(start, stop)),
{
    let t = s.subrange(start, stop);
    assert forall|g: int| 0 <= g < t.len() && #[trigger] t[g] is Group implies group_stop(t, g) <= t.len() by {
        assert(s[start + g] is Group);
    }
    assert forall|g: int, h: int|
        0 <= g < h < t.len() && #[trigger] t[g] is Group && #[trigger] t[h] is Group && h < group_stop(t, g)
            implies group_stop(t, h) <= group_stop(t, g) by {
        assert(s[start + g] is Group && s[start + h] is Group);
    }
}

/// A sequence of tokens whose groups are properly nested.
pub struct Tokens {
    tokens: Vec<Token>,
}

impl View for Tokens {
    type V = Seq<SpecToken>;

    closed spec fn view(&self) -> Seq<SpecToken> {
        self.tokens@.map_values(|t: Token| t@)
    }
}

/// Appending a group token and its content to a nested sequence keeps it nested.
proof fn lemma_append_group(old: Seq<SpecToken>, delimiter: Delimiter, inner: Seq<SpecToken>)
    requires
        nested(old),
        nested(inner),
    ensures
        nested(old.push(SpecToken::Group { delimiter, len: inner.len() }) + inner),
{
    let l = old.len() as int;
    let s = old.push(SpecToken::Group { delimiter, len: inner.len() }) + inner;
    assert forall|i: int| l < i < s.len() implies s[i] == inner[i - l - 1] by {}
    assert forall|g: int| 0 <= g < s.len() && #[trigger] s[g] is Group implies group_stop(s, g)
        <= s.len() by {
        if g > l {
            assert(inner[g - l - 1] is Group);
        }
    }
    assert forall|g: int, h: int|
        0 <= g < h < s.len() && #[trigger] s[g] is Group && #[trigger] s[h] is Group && h
            < group_stop(s, g) implies group_stop(s, h) <= group_stop(s, g) by {
        if g < l {
            assert(old[g] is Group);
            if h < l {
                assert(old[h] is Group);
            }
        } else if g == l {
            assert(inner[h - l - 1] is Group);
        } else {
            assert(inner[g - l - 1] is Group && inner[h - l - 1] is Group);
        }
    }
}

/// Two nested sequences one after the other form a nested sequence.
proof fn lemma_append(first: Seq<SpecToken>, second: Seq<SpecToken>)
    requires
        nested(first),
        nested(second),
    ensures
        nested(first + second),
{
    let l = first.len() as int;
    let s = first + second;
    assert forall|g: int| 0 <= g < s.len() && #[trigger] s[g] is Group implies group_stop(s, g)
        <= s.len() by {
        if g >= l {
            assert(second[g - l] is Group);
        } else {
            assert(first[g] is Group);
        }
    }
    assert forall|g: int, h: int|
        0 <= g < h < s.len() && #[trigger] s[g] is Group && #[trigger] s[h] is Group && h
            < group_stop(s, g) implies group_stop(s, h) <= group_stop(s, g) by {
        if g < l {
            assert(first[g] is Group);
            if h < l {
                assert(first[h] is Group);
            }
        } else {
            assert(second[g - l] is Group && second[h - l] is Group);
        }
    }
}

impl Tokens {
    /// Every token sequence keeps its groups properly nested.
    #[verifier::type_invariant]
    pub open spec fn well_nested(self) -> bool {
        nested(self@)
    }

    /// An empty sequence.
    pub fn new() -> (r: Tokens)
        ensures
            r@ == Seq::<SpecToken>::empty(),
    {
        let r = Tokens { tokens: Vec::new() };
        assert(r@ =~= Seq::<SpecToken>::empty());
        r
    }

    /// The number of tokens, counting each group token and its content.
    pub fn len(&self) -> (n: usize)
        ensures
            n == self@.len(),
    {
        self.tokens.len()
    }

    /// The token at position `i`.
    pub fn token(&self, i: usize) -> (t: &Token)
        requires
            i < self@.len(),
        ensures
            t@ == self@[i as int],
    {
        &self.tokens[i]
    }

    /// Appends a token that is not a group.
    pub fn push(&mut self, token: Token)
        requires
            !(token@ is Group),
        ensures
            final(self)@ == old(self)@.push(token@),
    {
        proof {
            use_type_invariant(&*self);
        }
        let ghost before = self@;
        let mut all = Vec::new();
        std::mem::swap(&mut all, &mut self.tokens);
        all.push(token);
        proof {
            assert(all@.map_values(|t: Token| t@) =~= before.push(token@));
        }
        self.tokens = all;
        proof {
            assert(self@ =~= before.push(token@));
            assert(nested(self@)) by {
                let s = self@;
                assert forall|g: int| 0 <= g < s.len() && #[trigger] s[g] is Group implies group_stop(s, g) <= s.len() by {
                    assert(before[g] is Group);
                }
                assert forall|g: int, h: int|
                    0 <= g < h < s.len() && #[trigger] s[g] is Group && #[trigger] s[h] is Group
                        && h < group_stop(s, g) implies group_stop(s, h) <= group_stop(s, g) by {
                    assert(before[g] is Group);
                    if h < before.len() {
                        assert(before[h] is Group);
                    }
                }
            }
        }
    }

    /// Replaces the token at `i`, which is not a group, by another token
    /// that is not a group.
    pub fn set(&mut self, i: usize, token: Token)
        requires
            i < old(self)@.len(),
            !(old(self)@[i as int] is Group),
            !(token@ is Group),
        ensures
            final(self)@ == old(self)@.update(i as int, token@),
    {
        proof {
            use_type_invariant(&*self);
        }
        let ghost before = self@;
        let ghost t = token@;
        let mut all = Vec::new();
        std::mem::swap(&mut all, &mut self.tokens);
        all.set(i, token);
        proof {
            assert(all@.map_values(|t: Token| t@) =~= before.update(i as int, t));
            let s = before.update(i as int, t);
            assert forall|g: int| 0 <= g < s.len() && #[trigger] s[g] is Group implies group_stop(s, g) <= s.len() by {
                assert(before[g] is Group);
            }
            assert forall|g: int, h: int|
                0 <= g < h < s.len() && #[trigger] s[g] is Group && #[trigger] s[h] is Group && h < group_stop(s, g)
                    implies group_stop(s, h) <= group_stop(s, g) by {
                assert(before[g] is Group && before[h] is Group);
            }
        }
        self.tokens = all;
    }

    /// Appends the tokens of `other`, which stand outside any group.
    pub fn append(&mut self, other: Tokens)
        ensures
            final(self)@ == old(self)@ + other@,
    {
        proof {
            use_type_invariant(&*self);
            use_type_invariant(&other);
            lemma_append(self@, other@);
        }
        let ghost before = self@;
        let ghost other_view = other@;
        let mut rest = other.tokens;
        let mut all = Vec::new();
        std::mem::swap(&mut all, &mut self.tokens);
        all.append(&mut rest);
        proof {
            assert(all@.map_values(|t: Token| t@) =~= before + other_view);
        }
        self.tokens = all;
    }

    /// Appends a copy of the tokens of the scope `[start, stop)` of `from`.
    pub fn copy_range(&mut self, from: &Tokens, start: usize, stop: usize)
        requires
            scoped(from@, start as int, stop as int),
        ensures
            final(self)@ == old(self)@ + from@.subrange(start as int, stop as int),
    {
        proof {
            use_type_invariant(&*self);
            use_type_invariant(from);
            lemma_scope_nested(from@, start as int, stop as int);
            lemma_append(self@, from@.subrange(start as int, stop as int));
        }
        let ghost before = self@;
        let ghost part = from@.subrange(start as int, stop as int);
        let mut all = Vec::new();
        std::mem::swap(&mut all, &mut self.tokens);
        let mut i = start;
        while i < stop
            invariant
                start <= i <= stop,
                stop <= from@.len(),
                from@ == from.tokens@.map_values(|t: Token| t@),
                part == from@.subrange(start as int, stop as int),
                all@.map_values(|t: Token| t@) =~= before + from@.subrange(start as int, i as int),
            decreases stop - i,
        {
            let t = from.tokens[i].copy();
            let ghost seen = all@;
            all.push(t);
            proof {
                assert(all@ == seen.push(t));
                assert(from@.subrange(start as int, i + 1) =~= from@.subrange(start as int, i as int).push(from@[i as int]));
                assert(all@.map_values(|t: Token| t@) =~= seen.map_values(|t: Token| t@).push(t@));
            }
            i = i + 1;
        }
        self.tokens = all;
        proof {
            assert(self@ =~= before + part);
        }
    }

    /// Appends a group with the given delimiter whose content is `inner`.
    pub fn push_group(&mut self, delimiter: Delimiter, inner: Tokens)
        ensures
            final(self)@ == old(self)@.push(SpecToken::Group { delimiter, len: inner@.len() }) + inner@,
    {
        proof {
            use_type_invariant(&*self);
            use_type_invariant(&inner);
            lemma_append_group(self@, delimiter, inner@);
        }
        let ghost before = self@;
        let ghost inner_view = inner@;
        let mut rest = inner.tokens;
        let len = rest.len();
        let mut all = Vec::new();
        std::mem::swap(&mut all, &mut self.tokens);
        all.push(Token::Group { delimiter, len });
        all.append(&mut rest);
        proof {
            assert(all@.map_values(|t: Token| t@) =~= before.push(
                SpecToken::Group { delimiter, len: inner_view.len() },
            ) + inner_view);
        }
        self.tokens = all;
    }
}

} // verus!
