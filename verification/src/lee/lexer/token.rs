//! Tokens of the filter language and a cursor over them.

use vstd::prelude::*;

verus! {

/// The kinds of tokens.
#[derive(Debug, Clone, Copy, PartialEq, Eq, Structural)]
pub enum TokenKind {
    Illegal,
    EOF,
    Ident,
    Integer,
    Float,
    String,
    NotEquals,
    Equals,
    Matches,
    NotMatches,
    Less,
    Greater,
    LessOrEqual,
    GreaterOrEqual,
    LeftBrace,
    RightBrace,
    Or,
    And,
}

impl TokenKind {
    /// The name of the kind as it appears in messages.
    pub open spec fn spec_name(self) -> Seq<char> {
        match self {
            TokenKind::Illegal => "Illegal"@,
            TokenKind::EOF => "EOF"@,
            TokenKind::Ident => "Ident"@,
            TokenKind::Integer => "Integer"@,
            TokenKind::Float => "Float"@,
            TokenKind::String => "String"@,
            TokenKind::NotEquals => "NotEquals"@,
            TokenKind::Equals => "Equals"@,
            TokenKind::Matches => "Matches"@,
            TokenKind::NotMatches => "NotMatches"@,
            TokenKind::Less => "Less"@,
            TokenKind::Greater => "Greater"@,
            TokenKind::LessOrEqual => "LessOrEqual"@,
            TokenKind::GreaterOrEqual => "GreaterOrEqual"@,
            TokenKind::LeftBrace => "LeftBrace"@,
            TokenKind::RightBrace => "RightBrace"@,
            TokenKind::Or => "Or"@,
            TokenKind::And => "And"@,
        }
    }

    pub fn to_string(&self) -> (s: String)
        ensures
            s@ == self.spec_name(),
    {
        match self {
            TokenKind::Illegal => "Illegal".to_owned(),
            TokenKind::EOF => "EOF".to_owned(),
            TokenKind::Ident => "Ident".to_owned(),
            TokenKind::Integer => "Integer".to_owned(),
            TokenKind::Float => "Float".to_owned(),
            TokenKind::String => "String".to_owned(),
            TokenKind::NotEquals => "NotEquals".to_owned(),
            TokenKind::Equals => "Equals".to_owned(),
            TokenKind::Matches => "Matches".to_owned(),
            TokenKind::NotMatches => "NotMatches".to_owned(),
            TokenKind::Less => "Less".to_owned(),
            TokenKind::Greater => "Greater".to_owned(),
            TokenKind::LessOrEqual => "LessOrEqual".to_owned(),
            TokenKind::GreaterOrEqual => "GreaterOrEqual".to_owned(),
            TokenKind::LeftBrace => "LeftBrace".to_owned(),
            TokenKind::RightBrace => "RightBrace".to_owned(),
            TokenKind::Or => "Or".to_owned(),
            TokenKind::And => "And".to_owned(),
        }
    }
}

/// What a token is, with its text as a sequence of characters.
pub struct TokenView {
    pub src: Seq<char>,
    pub kind: TokenKind,
    pub line: usize,
    pub pos: usize,
}

/// A token: its text, its kind, and the line and column where it starts,
/// both counted from 1.
#[derive(Debug)]
pub struct Token {
    pub src: String,
    pub kind: TokenKind,
    pub line: usize,
    pub pos: usize,
}

impl View for Token {
    type V = TokenView;

    open spec fn view(&self) -> TokenView {
        TokenView { src: self.src@, kind: self.kind, line: self.line, pos: self.pos }
    }
}

impl Clone for Token {
    fn clone(&self) -> (r: Self)
        ensures
            r@ == self@,
    {
        Token { src: self.src.clone(), kind: self.kind, line: self.line, pos: self.pos }
    }
}

/// The views of a list of tokens, in order.
pub open spec fn token_views(tokens: Seq<Token>) -> Seq<TokenView> {
    tokens.map_values(|t: Token| t@)
}

/// A cursor over a list of tokens.
pub struct TokenFlow<'a> {
    tokens: &'a Vec<Token>,
    idx: usize,
}

impl<'a> TokenFlow<'a> {
    /// The tokens the cursor runs over.
    pub closed spec fn tokens(&self) -> Seq<TokenView> {
        token_views(self.tokens@)
    }

    /// The index of the current token; at most `tokens().len()`.
    pub closed spec fn index(&self) -> int {
        self.idx as int
    }

    pub closed spec fn wf(&self) -> bool {
        self.idx <= self.tokens@.len()
    }

    /// The cursor stands at a token, or right behind the last one.
    pub proof fn lemma_index_in_bounds(&self)
        requires
            self.wf(),
        ensures
            0 <= self.index() <= self.tokens().len(),
    {
    }

    pub fn new(tokens: &'a Vec<Token>) -> (r: Self)
        ensures
            r.wf(),
            r.tokens() == token_views(tokens@),
            r.index() == 0,
    {
        TokenFlow { tokens, idx: 0 }
    }

    fn get(&self, idx: usize) -> (r: Option<&'a Token>)
        ensures
            idx < self.tokens().len() ==> r is Some && r->0@ == self.tokens()[idx as int],
            idx >= self.tokens().len() ==> r is None,
    {
        if idx < self.tokens.len() {
            Some(&self.tokens[idx])
        } else {
            None
        }
    }

    /// The token under the cursor, if the cursor is not past the end.
    pub fn current(&self) -> (r: Option<&'a Token>)
        ensures
            self.index() < self.tokens().len() ==> r is Some && r->0@ == self.tokens()[
                self.index()
            ],
            self.index() >= self.tokens().len() ==> r is None,
    {
        self.get(self.idx)
    }

    /// The token after the one under the cursor, if there is one.
    pub fn next(&self) -> (r: Option<&'a Token>)
        ensures
            self.index() + 1 < self.tokens().len() ==> r is Some && r->0@ == self.tokens()[
                self.index() + 1
            ],
            self.index() + 1 >= self.tokens().len() ==> r is None,
    {
        if self.idx < self.tokens.len() {
            self.get(self.idx + 1)
        } else {
            None
        }
    }

    /// Moves the cursor one token on, unless it is already past the end.
    pub fn advance(&mut self)
        requires
            old(self).wf(),
        ensures
            final(self).wf(),
            final(self).tokens() == old(self).tokens(),
            final(self).index() == if old(self).index() < old(self).tokens().len() {
                old(self).index() + 1
            } else {
                old(self).index()
            },
    {
        if self.idx < self.tokens.len() {
            self.idx += 1
        }
    }

    /// Moves the cursor back to the first token.
    pub fn reset(&mut self)
        ensures
            final(self).wf(),
            final(self).tokens() == old(self).tokens(),
            final(self).index() == 0,
    {
        self.idx = 0
    }
}

} // verus!
