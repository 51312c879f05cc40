//! Lexer of the filter language.
//!
//! `lex` says, as a function of the query text, which tokens the lexer
//! produces; [`Lexer::parse`] computes exactly those.

pub mod string_reader;
pub mod token;

use crate::text::{digit, is_digit, is_space, space};
use string_reader::{col_at, line_at, StringReader};
use token::{token_views, Token, TokenFlow, TokenKind, TokenView};
use vstd::prelude::*;

verus! {

/// First character of an identifier: an ASCII letter or `_`.
pub open spec fn is_ident_start(c: char) -> bool {
    ('A' <= c <= 'Z') || ('a' <= c <= 'z') || c == '_'
}

/// Any further character of an identifier: a letter, a digit, `_` or `.`.
pub open spec fn is_ident_part(c: char) -> bool {
    is_ident_start(c) || is_digit(c) || c == '.'
}

pub fn ident_start(c: char) -> (b: bool)
    ensures
        b == is_ident_start(c),
{
    ('A' <= c && c <= 'Z') || ('a' <= c && c <= 'z') || c == '_'
}

pub fn ident_part(c: char) -> (b: bool)
    ensures
        b == is_ident_part(c),
{
    ident_start(c) || digit(c) || c == '.'
}

/// Where the number that runs through `i` ends, and whether it holds a dot.
/// A number is a run of digits with at most one dot in it.
pub open spec fn scan_number(s: Seq<char>, i: int, dot_met: bool) -> (int, bool)
    decreases s.len() - i,
{
    if i < 0 || i >= s.len() {
        (i, dot_met)
    } else if is_digit(s[i]) {
        scan_number(s, i + 1, dot_met)
    } else if s[i] == '.' && !dot_met {
        scan_number(s, i + 1, true)
    } else {
        (i, dot_met)
    }
}

/// Where the identifier that runs through `i` ends.
pub open spec fn ident_end(s: Seq<char>, i: int) -> int
    decreases s.len() - i,
{
    if i < 0 || i >= s.len() {
        i
    } else if is_ident_part(s[i]) {
        ident_end(s, i + 1)
    } else {
        i
    }
}

/// `and`, in any mix of upper and lower case.
pub open spec fn is_and(w: Seq<char>) -> bool {
    &&& w.len() == 3
    &&& (w[0] == 'a' || w[0] == 'A')
    &&& (w[1] == 'n' || w[1] == 'N')
    &&& (w[2] == 'd' || w[2] == 'D')
}

/// `or`, in any mix of upper and lower case.
pub open spec fn is_or(w: Seq<char>) -> bool {
    &&& w.len() == 2
    &&& (w[0] == 'o' || w[0] == 'O')
    &&& (w[1] == 'r' || w[1] == 'R')
}

pub open spec fn word_kind(w: Seq<char>) -> TokenKind {
    if is_and(w) {
        TokenKind::And
    } else if is_or(w) {
        TokenKind::Or
    } else {
        TokenKind::Ident
    }
}

/// The character a backslash escape stands for.
pub open spec fn unescape(c: char) -> char {
    if c == 'n' {
        '\n'
    } else if c == 't' {
        '\t'
    } else if c == 'r' {
        '\r'
    } else {
        c
    }
}

/// The outcome of reading a string literal.
pub struct StringScan {
    /// The characters read so far, escapes resolved.
    pub literal: Seq<char>,
    /// Whether the closing quote was found.
    pub closed: bool,
    /// The index behind the last character consumed.
    pub end: int,
}

/// Reads the body of a string literal from `i` on. `escape` tells whether the
/// character before `i` was an unescaped backslash, `acc` holds what was read
/// before `i`. A raw line feed, tab or carriage return ends the literal
/// unclosed, and so does the end of the text.
pub open spec fn scan_string(s: Seq<char>, i: int, escape: bool, acc: Seq<char>) -> StringScan
    decreases s.len() - i,
{
    if i < 0 || i >= s.len() {
        StringScan { literal: acc, closed: false, end: s.len() as int }
    } else if s[i] == '\n' || s[i] == '\t' || s[i] == '\r' {
        StringScan { literal: acc, closed: false, end: i + 1 }
    } else if escape {
        scan_string(s, i + 1, false, acc.push(unescape(s[i])))
    } else if s[i] == '\\' {
        scan_string(s, i + 1, true, acc)
    } else if s[i] == '"' {
        StringScan { literal: acc, closed: true, end: i + 1 }
    } else {
        scan_string(s, i + 1, false, acc.push(s[i]))
    }
}

pub open spec fn followed_by(s: Seq<char>, i: int, c: char) -> bool {
    i + 1 < s.len() && s[i + 1] == c
}

/// Kind, text and end of the token that starts at `i`, which must hold a
/// character that is no white space.
pub open spec fn token_parts(s: Seq<char>, i: int) -> (TokenKind, Seq<char>, int) {
    let c = s[i];
    if is_digit(c) {
        let (end, dot) = scan_number(s, i, false);
        (if dot { TokenKind::Float } else { TokenKind::Integer }, s.subrange(i, end), end)
    } else if is_ident_start(c) {
        let end = ident_end(s, i);
        (word_kind(s.subrange(i, end)), s.subrange(i, end), end)
    } else if c == '=' {
        if followed_by(s, i, '=') {
            (TokenKind::Equals, "=="@, i + 2)
        } else if followed_by(s, i, '~') {
            (TokenKind::Matches, "=~"@, i + 2)
        } else {
            (TokenKind::Equals, "="@, i + 1)
        }
    } else if c == '!' {
        if followed_by(s, i, '=') {
            (TokenKind::NotEquals, "!="@, i + 2)
        } else if followed_by(s, i, '~') {
            (TokenKind::NotMatches, "!~"@, i + 2)
        } else {
            (TokenKind::Illegal, "!"@, i + 1)
        }
    } else if c == '<' {
        if followed_by(s, i, '=') {
            (TokenKind::LessOrEqual, "<="@, i + 2)
        } else {
            (TokenKind::Less, "<"@, i + 1)
        }
    } else if c == '>' {
        if followed_by(s, i, '=') {
            (TokenKind::GreaterOrEqual, ">="@, i + 2)
        } else {
            (TokenKind::Greater, ">"@, i + 1)
        }
    } else if c == '"' {
        let scan = scan_string(s, i + 1, false, Seq::empty());
        (if scan.closed { TokenKind::String } else { TokenKind::Illegal }, scan.literal, scan.end)
    } else if c == '(' {
        (TokenKind::LeftBrace, "("@, i + 1)
    } else if c == ')' {
        (TokenKind::RightBrace, ")"@, i + 1)
    } else {
        (TokenKind::Illegal, seq![c], i + 1)
    }
}

/// The token that starts at `i`, placed at the line and column of `i`.
pub open spec fn token_at(s: Seq<char>, i: int) -> TokenView {
    let (kind, src, _end) = token_parts(s, i);
    TokenView { src, kind, line: line_at(s, i), pos: col_at(s, i) }
}

/// The index behind the token that starts at `i`.
pub open spec fn token_end(s: Seq<char>, i: int) -> int {
    token_parts(s, i).2
}

/// The end-of-input token, placed where reading stopped.
pub open spec fn eof_at(s: Seq<char>, i: int) -> TokenView {
    TokenView { src: Seq::empty(), kind: TokenKind::EOF, line: line_at(s, i), pos: col_at(s, i) }
}

/// The tokens of `s` from index `i` on. Lexing stops behind the first
/// illegal token; an end-of-input token always closes the list.
pub open spec fn lex_from(s: Seq<char>, i: int) -> Seq<TokenView>
    decreases s.len() - i,
{
    if i < 0 || i >= s.len() {
        seq![eof_at(s, s.len() as int)]
    } else if is_space(s[i]) {
        lex_from(s, i + 1)
    } else if token_at(s, i).kind == TokenKind::Illegal || !(i < token_end(s, i) <= s.len()) {
        seq![token_at(s, i), eof_at(s, token_end(s, i))]
    } else {
        seq![token_at(s, i)] + lex_from(s, token_end(s, i))
    }
}

/// The tokens of a query.
pub open spec fn lex(s: Seq<char>) -> Seq<TokenView> {
    lex_from(s, 0)
}

/// A number ends behind its start and within the text.
pub proof fn lemma_scan_number_bounds(s: Seq<char>, i: int, dot_met: bool)
    requires
        0 <= i <= s.len(),
    ensures
        i <= scan_number(s, i, dot_met).0 <= s.len(),
    decreases s.len() - i,
{
    if i < s.len() {
        if is_digit(s[i]) {
            lemma_scan_number_bounds(s, i + 1, dot_met);
        } else if s[i] == '.' && !dot_met {
            lemma_scan_number_bounds(s, i + 1, true);
        }
    }
}

/// A word ends behind its start and within the text.
pub proof fn lemma_ident_end_bounds(s: Seq<char>, i: int)
    requires
        0 <= i <= s.len(),
    ensures
        i <= ident_end(s, i) <= s.len(),
    decreases s.len() - i,
{
    if i < s.len() && is_ident_part(s[i]) {
        lemma_ident_end_bounds(s, i + 1);
    }
}

/// Reading a string ends behind its start and within the text.
pub proof fn lemma_scan_string_bounds(s: Seq<char>, i: int, escape: bool, acc: Seq<char>)
    requires
        0 <= i <= s.len(),
    ensures
        i <= scan_string(s, i, escape, acc).end <= s.len(),
    decreases s.len() - i,
{
    if i < s.len() {
        if s[i] == '\n' || s[i] == '\t' || s[i] == '\r' {
        } else if escape {
            lemma_scan_string_bounds(s, i + 1, false, acc.push(unescape(s[i])));
        } else if s[i] == '\\' {
            lemma_scan_string_bounds(s, i + 1, true, acc);
        } else if s[i] == '"' {
        } else {
            lemma_scan_string_bounds(s, i + 1, false, acc.push(s[i]));
        }
    }
}

/// Every token is at least one character long and ends within the text.
pub proof fn lemma_token_end_bounds(s: Seq<char>, i: int)
    requires
        0 <= i < s.len(),
    ensures
        i < token_end(s, i) <= s.len(),
{
    let c = s[i];
    if is_digit(c) {
        lemma_scan_number_bounds(s, i + 1, false);
    } else if is_ident_start(c) {
        lemma_ident_end_bounds(s, i + 1);
    } else if c == '"' {
        lemma_scan_string_bounds(s, i + 1, false, Seq::empty());
    }
}

/// The list of tokens of any text ends with the end-of-input token, and no
/// token before the last but one is illegal.
pub proof fn lemma_lex_ends_with_eof(s: Seq<char>, i: int)
    requires
        0 <= i <= s.len(),
    ensures
        lex_from(s, i).len() >= 1,
        lex_from(s, i).last().kind == TokenKind::EOF,
        forall|k: int|
            0 <= k < lex_from(s, i).len() - 2 ==> (#[trigger] lex_from(s, i)[k]).kind
                != TokenKind::Illegal,
        forall|k: int|
            0 <= k < lex_from(s, i).len() - 1 ==> (#[trigger] lex_from(s, i)[k]).kind
                != TokenKind::EOF,
    decreases s.len() - i,
{
    if i >= s.len() {
    } else if is_space(s[i]) {
        lemma_lex_ends_with_eof(s, i + 1);
    } else if token_at(s, i).kind == TokenKind::Illegal || !(i < token_end(s, i) <= s.len()) {
        lemma_token_end_bounds(s, i);
        assert(token_at(s, i).kind != TokenKind::EOF);
    } else {
        lemma_token_end_bounds(s, i);
        lemma_lex_ends_with_eof(s, token_end(s, i));
        let rest = lex_from(s, token_end(s, i));
        let all = lex_from(s, i);
        assert(all =~= seq![token_at(s, i)] + rest);
        assert(token_at(s, i).kind != TokenKind::EOF);
        assert forall|k: int| 0 <= k < all.len() - 2 implies (#[trigger] all[k]).kind
            != TokenKind::Illegal by {
            if k > 0 {
                assert(all[k] == rest[k - 1]);
            }
        }
        assert forall|k: int| 0 <= k < all.len() - 1 implies (#[trigger] all[k]).kind
            != TokenKind::EOF by {
            if k > 0 {
                assert(all[k] == rest[k - 1]);
            }
        }
    }
}


/// Reads a query token by token.
#[derive(Debug)]
pub struct Lexer {
    src: StringReader,
    tokens: Vec<Token>,
}

impl Lexer {
    /// The query being read.
    pub closed spec fn source(&self) -> Seq<char> {
        self.src.source()
    }

    /// How many characters of the query have been consumed.
    pub closed spec fn offset(&self) -> int {
        self.src.offset()
    }

    /// The tokens produced so far.
    pub closed spec fn emitted(&self) -> Seq<TokenView> {
        token_views(self.tokens@)
    }

    pub closed spec fn wf(&self) -> bool {
        self.src.wf()
    }

    pub fn new(src: &str) -> (r: Self)
        ensures
            r.wf(),
            r.source() == src@,
            r.offset() == 0,
            r.emitted() == Seq::<TokenView>::empty(),
    {
        let r = Lexer { src: StringReader::new(src), tokens: Vec::new() };
        assert(r.emitted() =~= Seq::<TokenView>::empty());
        r
    }

    /// Gives up the lexer for the tokens it has produced.
    pub fn into_tokens(self) -> (tokens: Vec<Token>)
        ensures
            token_views(tokens@) == self.emitted(),
    {
        self.tokens
    }

    /// Reads a run of digits with at most one dot from the cursor on.
    fn read_number(&mut self) -> (t: Token)
        requires
            old(self).wf(),
        ensures
            final(self).wf(),
            final(self).source() == old(self).source(),
            final(self).emitted() == old(self).emitted(),
            0 <= old(self).offset() <= final(self).offset() <= old(self).source().len(),
            final(self).offset() == scan_number(old(self).source(), old(self).offset(), false).0,
            t@.src == old(self).source().subrange(old(self).offset(), final(self).offset()),
            t@.kind == if scan_number(old(self).source(), old(self).offset(), false).1 {
                TokenKind::Float
            } else {
                TokenKind::Integer
            },
            t@.line == line_at(old(self).source(), old(self).offset()),
            t@.pos == col_at(old(self).source(), old(self).offset()),
    {
        let (line, pos) = self.src.position();
        let ghost s = self.src.source();
        let ghost start = self.src.offset();
        proof {
            self.src.lemma_offset_in_bounds();
        }
        let mut dot_met = false;
        let mut literal = String::new();
        assert(literal@ =~= s.subrange(start, start));
        loop
            invariant_except_break
                self.src.wf(),
                self.src.source() == s,
                self.tokens == old(self).tokens,
                0 <= start <= self.src.offset() <= s.len(),
                literal@ == s.subrange(start, self.src.offset()),
                scan_number(s, start, false) == scan_number(s, self.src.offset(), dot_met),
            ensures
                self.src.wf(),
                self.src.source() == s,
                self.tokens == old(self).tokens,
                0 <= start <= self.src.offset() <= s.len(),
                literal@ == s.subrange(start, self.src.offset()),
                scan_number(s, start, false) == (self.src.offset(), dot_met),
            decreases s.len() - self.src.offset(),
        {
            let ghost at = self.src.offset();
            let sym = self.src.peek();
            match sym {
                Some(c) => {
                    if digit(c) {
                        literal.push(c);
                    } else if c == '.' && !dot_met {
                        dot_met = true;
                        literal.push(c);
                    } else {
                        break ;
                    }
                },
                None => {
                    break ;
                },
            }
            self.src.advance();
            assert(literal@ =~= s.subrange(start, at + 1));
        }
        Token { src: literal, kind: if dot_met { TokenKind::Float } else { TokenKind::Integer }, line, pos }
    }

    /// Reads the longest run of identifier characters from the cursor on.
    /// The words `and` and `or`, in any case, are the logical connectives.
    pub fn read_identifier(&mut self) -> (t: Token)
        requires
            old(self).wf(),
        ensures
            final(self).wf(),
            final(self).source() == old(self).source(),
            final(self).emitted() == old(self).emitted(),
            0 <= old(self).offset() <= final(self).offset() <= old(self).source().len(),
            final(self).offset() == ident_end(old(self).source(), old(self).offset()),
            t@.src == old(self).source().subrange(old(self).offset(), final(self).offset()),
            t@.kind == word_kind(t@.src),
            t@.line == line_at(old(self).source(), old(self).offset()),
            t@.pos == col_at(old(self).source(), old(self).offset()),
    {
        let (line, pos) = self.src.position();
        let ghost s = self.src.source();
        let ghost start = self.src.offset();
        proof {
            self.src.lemma_offset_in_bounds();
        }
        let mut word: Vec<char> = Vec::new();
        assert(word@ =~= s.subrange(start, start));
        loop
            invariant_except_break
                self.src.wf(),
                self.src.source() == s,
                self.tokens == old(self).tokens,
                0 <= start <= self.src.offset() <= s.len(),
                word@ == s.subrange(start, self.src.offset()),
                ident_end(s, start) == ident_end(s, self.src.offset()),
            ensures
                self.src.wf(),
                self.src.source() == s,
                self.tokens == old(self).tokens,
                0 <= start <= self.src.offset() <= s.len(),
                word@ == s.subrange(start, self.src.offset()),
                ident_end(s, start) == self.src.offset(),
            decreases s.len() - self.src.offset(),
        {
            let ghost at = self.src.offset();
            let sym = self.src.peek();
            match sym {
                Some(c) => {
                    if ident_part(c) {
                        word.push(c);
                    } else {
                        break ;
                    }
                },
                None => {
                    break ;
                },
            }
            self.src.advance();
            assert(word@ =~= s.subrange(start, at + 1));
        }
        let n: usize = word.len();
        let kind = if n == 3 && (word[0] == 'a' || word[0] == 'A') && (word[1] == 'n' || word[1]
            == 'N') && (word[2] == 'd' || word[2] == 'D') {
            TokenKind::And
        } else if n == 2 && (word[0] == 'o' || word[0] == 'O') && (word[1] == 'r' || word[1]
            == 'R') {
            TokenKind::Or
        } else {
            TokenKind::Ident
        };
        Token { src: crate::text::string_of(&word), kind, line, pos }
    }

    /// Builds a token from fixed text and steps over `len` characters.
    fn fixed(&mut self, text: &str, kind: TokenKind, len: usize) -> (t: Token)
        requires
            old(self).wf(),
            old(self).offset() + len <= old(self).source().len(),
            len <= 2,
        ensures
            final(self).wf(),
            final(self).source() == old(self).source(),
            final(self).emitted() == old(self).emitted(),
            final(self).offset() == old(self).offset() + len,
            t@.src == text@,
            t@.kind == kind,
            t@.line == line_at(old(self).source(), old(self).offset()),
            t@.pos == col_at(old(self).source(), old(self).offset()),
    {
        let (line, pos) = self.src.position();
        proof {
            self.src.lemma_offset_in_bounds();
        }
        if len >= 1 {
            self.src.advance();
        }
        if len >= 2 {
            self.src.advance();
        }
        Token { src: text.to_owned(), kind, line, pos }
    }

    /// Whether the character after the one under the cursor is `c`.
    fn next_is(&self, c: char) -> (b: bool)
        requires
            self.wf(),
        ensures
            b == followed_by(self.source(), self.offset(), c),
    {
        proof {
            self.src.lemma_offset_in_bounds();
        }
        self.src.peek_next() == Some(c)
    }

    fn read_equals_or_matches(&mut self) -> (t: Token)
        requires
            old(self).wf(),
            old(self).offset() < old(self).source().len(),
            old(self).source()[old(self).offset()] == '=',
        ensures
            final(self).wf(),
            final(self).source() == old(self).source(),
            final(self).emitted() == old(self).emitted(),
            t@ == token_at(old(self).source(), old(self).offset()),
            final(self).offset() == token_end(old(self).source(), old(self).offset()),
    {
        if self.next_is('=') {
            self.fixed("==", TokenKind::Equals, 2)
        } else if self.next_is('~') {
            self.fixed("=~", TokenKind::Matches, 2)
        } else {
            self.fixed("=", TokenKind::Equals, 1)
        }
    }

    fn read_not_equals_or_not_matches(&mut self) -> (t: Token)
        requires
            old(self).wf(),
            old(self).offset() < old(self).source().len(),
            old(self).source()[old(self).offset()] == '!',
        ensures
            final(self).wf(),
            final(self).source() == old(self).source(),
            final(self).emitted() == old(self).emitted(),
            t@ == token_at(old(self).source(), old(self).offset()),
            final(self).offset() == token_end(old(self).source(), old(self).offset()),
    {
        if self.next_is('=') {
            self.fixed("!=", TokenKind::NotEquals, 2)
        } else if self.next_is('~') {
            self.fixed("!~", TokenKind::NotMatches, 2)
        } else {
            self.fixed("!", TokenKind::Illegal, 1)
        }
    }

    fn read_less(&mut self) -> (t: Token)
        requires
            old(self).wf(),
            old(self).offset() < old(self).source().len(),
            old(self).source()[old(self).offset()] == '<',
        ensures
            final(self).wf(),
            final(self).source() == old(self).source(),
            final(self).emitted() == old(self).emitted(),
            t@ == token_at(old(self).source(), old(self).offset()),
            final(self).offset() == token_end(old(self).source(), old(self).offset()),
    {
        if self.next_is('=') {
            self.fixed("<=", TokenKind::LessOrEqual, 2)
        } else {
            self.fixed("<", TokenKind::Less, 1)
        }
    }

    fn read_greater(&mut self) -> (t: Token)
        requires
            old(self).wf(),
            old(self).offset() < old(self).source().len(),
            old(self).source()[old(self).offset()] == '>',
        ensures
            final(self).wf(),
            final(self).source() == old(self).source(),
            final(self).emitted() == old(self).emitted(),
            t@ == token_at(old(self).source(), old(self).offset()),
            final(self).offset() == token_end(old(self).source(), old(self).offset()),
    {
        if self.next_is('=') {
            self.fixed(">=", TokenKind::GreaterOrEqual, 2)
        } else {
            self.fixed(">", TokenKind::Greater, 1)
        }
    }

    fn read_string(&mut self) -> (t: Token)
        requires
            old(self).wf(),
            old(self).offset() < old(self).source().len(),
            old(self).source()[old(self).offset()] == '"',
        ensures
            final(self).wf(),
            final(self).source() == old(self).source(),
            final(self).emitted() == old(self).emitted(),
            t@ == token_at(old(self).source(), old(self).offset()),
            final(self).offset() == token_end(old(self).source(), old(self).offset()),
    {
        let (line, pos) = self.src.position();
        let ghost s = self.src.source();
        let ghost start = self.src.offset();
        proof {
            self.src.lemma_offset_in_bounds();
        }
        let mut literal = String::new();
        let mut escape = false;
        self.src.advance();
        let mut kind = TokenKind::Illegal;
        loop
            invariant_except_break
                self.src.wf(),
                self.src.source() == s,
                self.tokens == old(self).tokens,
                0 <= self.src.offset() <= s.len(),
                scan_string(s, start + 1, false, Seq::empty()) == scan_string(
                    s,
                    self.src.offset(),
                    escape,
                    literal@,
                ),
            ensures
                self.src.wf(),
                self.src.source() == s,
                self.tokens == old(self).tokens,
                scan_string(s, start + 1, false, Seq::empty()) == (StringScan {
                    literal: literal@,
                    closed: kind == TokenKind::String,
                    end: self.src.offset(),
                }),
                kind == TokenKind::String || kind == TokenKind::Illegal,
            decreases s.len() - self.src.offset(),
        {
            let sym = self.src.peek();
            self.src.advance();
            match sym {
                Some(c) => {
                    if c == '\n' || c == '\t' || c == '\r' {
                        kind = TokenKind::Illegal;
                        break ;
                    } else if escape {
                        if c == 'n' {
                            literal.push('\n');
                        } else if c == 't' {
                            literal.push('\t');
                        } else if c == 'r' {
                            literal.push('\r');
                        } else {
                            literal.push(c);
                        }
                        escape = false;
                    } else if c == '\\' {
                        escape = true;
                    } else if c == '"' {
                        kind = TokenKind::String;
                        break ;
                    } else {
                        literal.push(c);
                    }
                },
                None => {
                    kind = TokenKind::Illegal;
                    break ;
                },
            }
        }
        Token { src: literal, kind, line, pos }
    }

    /// Reads the token under the cursor, which must hold a character that is
    /// no white space.
    fn read_token(&mut self, sym: char) -> (t: Token)
        requires
            old(self).wf(),
            old(self).offset() < old(self).source().len(),
            old(self).source()[old(self).offset()] == sym,
        ensures
            final(self).wf(),
            final(self).source() == old(self).source(),
            final(self).emitted() == old(self).emitted(),
            t@ == token_at(old(self).source(), old(self).offset()),
            final(self).offset() == token_end(old(self).source(), old(self).offset()),
    {
        if digit(sym) {
            self.read_number()
        } else if ident_start(sym) {
            self.read_identifier()
        } else if sym == '=' {
            self.read_equals_or_matches()
        } else if sym == '!' {
            self.read_not_equals_or_not_matches()
        } else if sym == '<' {
            self.read_less()
        } else if sym == '>' {
            self.read_greater()
        } else if sym == '"' {
            self.read_string()
        } else if sym == '(' {
            self.fixed("(", TokenKind::LeftBrace, 1)
        } else if sym == ')' {
            self.fixed(")", TokenKind::RightBrace, 1)
        } else {
            let (line, pos) = self.src.position();
            self.src.advance();
            let mut text = String::new();
            text.push(sym);
            assert(text@ =~= seq![sym]);
            Token { src: text, kind: TokenKind::Illegal, line, pos }
        }
    }

    /// Reads the rest of the query and hands out a cursor over all tokens
    /// produced so far. Reading stops behind the first illegal token; the
    /// end-of-input token is appended in any case.
    pub fn parse(&mut self) -> (tf: TokenFlow<'_>)
        requires
            old(self).wf(),
        ensures
            final(self).wf(),
            final(self).source() == old(self).source(),
            final(self).emitted() == old(self).emitted() + lex_from(
                old(self).source(),
                old(self).offset(),
            ),
            tf.wf(),
            tf.tokens() == final(self).emitted(),
            tf.index() == 0,
    {
        let ghost s = self.src.source();
        let ghost start = self.src.offset();
        let ghost before = token_views(self.tokens@);
        proof {
            self.src.lemma_offset_in_bounds();
        }
        loop
            invariant_except_break
                self.src.wf(),
                self.src.source() == s,
                0 <= self.src.offset() <= s.len(),
                before + lex_from(s, start) == token_views(self.tokens@) + lex_from(
                    s,
                    self.src.offset(),
                ),
            ensures
                self.src.wf(),
                self.src.source() == s,
                0 <= self.src.offset() <= s.len(),
                before + lex_from(s, start) == token_views(self.tokens@).push(
                    eof_at(s, self.src.offset()),
                ),
            decreases s.len() - self.src.offset(),
        {
            let ghost at = self.src.offset();
            let ghost sofar = token_views(self.tokens@);
            let sym = self.src.peek();
            match sym {
                Some(c) => {
                    if space(c) {
                        self.src.advance();
                    } else {
                        let token = self.read_token(c);
                        proof {
                            lemma_token_end_bounds(s, at);
                        }
                        let illegal = token.kind == TokenKind::Illegal;
                        self.tokens.push(token);
                        assert(token_views(self.tokens@) =~= sofar.push(token_at(s, at)));
                        if illegal {
                            assert(sofar + lex_from(s, at) =~= sofar.push(token_at(s, at)).push(
                                eof_at(s, token_end(s, at)),
                            ));
                            break ;
                        }
                        assert(sofar + lex_from(s, at) =~= sofar.push(token_at(s, at)) + lex_from(
                            s,
                            token_end(s, at),
                        ));
                    }
                },
                None => {
                    assert(sofar + lex_from(s, at) =~= sofar.push(eof_at(s, at)));
                    break ;
                },
            }
        }
        let ghost sofar = token_views(self.tokens@);
        let (line, pos) = self.src.position();
        self.tokens.push(Token { src: String::new(), kind: TokenKind::EOF, line, pos });
        assert(token_views(self.tokens@) =~= sofar.push(eof_at(s, self.src.offset())));
        TokenFlow::new(&self.tokens)
    }
}

/// The tokens of `query`, closed by the end-of-input token.
pub fn tokenize(query: &str) -> (tokens: Vec<Token>)
    ensures
        token_views(tokens@) == lex(query@),
{
    let mut lexer = Lexer::new(query);
    lexer.parse();
    assert(lexer.emitted() =~= lex(query@));
    lexer.into_tokens()
}

} // verus!
