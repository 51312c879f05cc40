//! What can go wrong while a query is parsed or compiled.

use crate::lee::lexer::token::{Token, TokenKind, TokenView};
use crate::text::{join, joined, nat_digits, push_str, push_u64, string_views};
use vstd::prelude::*;

verus! {

/// Why a query cannot be read.
#[derive(Debug)]
pub enum ParseError {
    UnexpectedToken(Token),
    UnexpectedTokenType(Token, Vec<TokenKind>),
    UnexpectedEOF(Token),
    UnexpectedEOS(Vec<TokenKind>),
    ConvertError(Token),
    InvalidValueType(Token, Vec<String>),
}

pub enum ParseErrorView {
    UnexpectedToken(TokenView),
    UnexpectedTokenType(TokenView, Seq<TokenKind>),
    UnexpectedEOF(TokenView),
    UnexpectedEOS(Seq<TokenKind>),
    ConvertError(TokenView),
    InvalidValueType(TokenView, Seq<Seq<char>>),
}

impl View for ParseError {
    type V = ParseErrorView;

    open spec fn view(&self) -> ParseErrorView {
        match self {
            ParseError::UnexpectedToken(t) => ParseErrorView::UnexpectedToken(t@),
            ParseError::UnexpectedTokenType(t, exp) => ParseErrorView::UnexpectedTokenType(
                t@,
                exp@,
            ),
            ParseError::UnexpectedEOF(t) => ParseErrorView::UnexpectedEOF(t@),
            ParseError::UnexpectedEOS(exp) => ParseErrorView::UnexpectedEOS(exp@),
            ParseError::ConvertError(t) => ParseErrorView::ConvertError(t@),
            ParseError::InvalidValueType(t, exp) => ParseErrorView::InvalidValueType(
                t@,
                string_views(exp@),
            ),
        }
    }
}

/// The names of `kinds`, in order.
pub open spec fn kind_names(kinds: Seq<TokenKind>) -> Seq<Seq<char>> {
    kinds.map_values(|k: TokenKind| k.spec_name())
}

/// ` at line=L pos=P` for the place of a token.
pub open spec fn place(t: TokenView) -> Seq<char> {
    " at line="@ + nat_digits(t.line as nat) + " pos="@ + nat_digits(t.pos as nat)
}

impl ParseErrorView {
    pub open spec fn message(self) -> Seq<char> {
        match self {
            ParseErrorView::UnexpectedToken(t) => "unexpected token "@ + t.kind.spec_name() + "("@
                + t.src + ")"@ + place(t),
            ParseErrorView::UnexpectedTokenType(t, exp) => "unexpected token type "@
                + t.kind.spec_name() + "("@ + t.src + ")"@ + place(t) + ", expected one of ["@
                + joined(kind_names(exp), ", "@) + "]"@,
            ParseErrorView::UnexpectedEOF(t) => "unexpected EOF"@ + place(t),
            ParseErrorView::UnexpectedEOS(exp) =>
                "unexpected end of stream while waiting for one of ["@ + joined(
                    kind_names(exp),
                    ", "@,
                ) + "]"@,
            ParseErrorView::ConvertError(t) => "error while converting "@ + t.kind.spec_name()
                + ": no number of that type"@,
            ParseErrorView::InvalidValueType(t, exp) => "invalid value type"@ + place(t)
                + ", expected one of ["@ + joined(exp, ", "@) + "]"@,
        }
    }
}

fn names_of(kinds: &Vec<TokenKind>) -> (names: Vec<String>)
    ensures
        string_views(names@) == kind_names(kinds@),
{
    let mut names: Vec<String> = Vec::new();
    let mut i: usize = 0;
    while i < kinds.len()
        invariant
            i <= kinds.len(),
            names@.len() == i,
            forall|k: int| 0 <= k < i ==> (#[trigger] names@[k])@ == kinds@[k].spec_name(),
        decreases kinds.len() - i,
    {
        names.push(kinds[i].to_string());
        i += 1;
    }
    assert(string_views(names@) =~= kind_names(kinds@));
    names
}

fn push_place(out: &mut String, t: &Token)
    ensures
        final(out)@ == old(out)@ + place(t@),
{
    push_str(out, " at line=");
    push_u64(out, t.line as u64);
    push_str(out, " pos=");
    push_u64(out, t.pos as u64);
    assert(final(out)@ =~= old(out)@ + place(t@));
}

fn push_token(out: &mut String, t: &Token)
    ensures
        final(out)@ == old(out)@ + t@.kind.spec_name() + "("@ + t@.src + ")"@ + place(t@),
{
    let name = t.kind.to_string();
    push_str(out, name.as_str());
    push_str(out, "(");
    push_str(out, t.src.as_str());
    push_str(out, ")");
    push_place(out, t);
    assert(final(out)@ =~= old(out)@ + t@.kind.spec_name() + "("@ + t@.src + ")"@ + place(t@));
}

impl ParseError {
    pub fn to_string(&self) -> (s: String)
        ensures
            s@ == self@.message(),
    {
        let mut s = String::new();
        match self {
            ParseError::UnexpectedToken(t) => {
                push_str(&mut s, "unexpected token ");
                push_token(&mut s, t);
                assert(s@ =~= self@.message());
            },
            ParseError::UnexpectedTokenType(t, exp) => {
                push_str(&mut s, "unexpected token type ");
                push_token(&mut s, t);
                push_str(&mut s, ", expected one of [");
                let names = names_of(exp);
                let list = join(&names, ", ");
                push_str(&mut s, list.as_str());
                push_str(&mut s, "]");
                assert(s@ =~= self@.message());
            },
            ParseError::UnexpectedEOF(t) => {
                push_str(&mut s, "unexpected EOF");
                push_place(&mut s, t);
                assert(s@ =~= self@.message());
            },
            ParseError::UnexpectedEOS(exp) => {
                push_str(&mut s, "unexpected end of stream while waiting for one of [");
                let names = names_of(exp);
                let list = join(&names, ", ");
                push_str(&mut s, list.as_str());
                push_str(&mut s, "]");
                assert(s@ =~= self@.message());
            },
            ParseError::ConvertError(t) => {
                push_str(&mut s, "error while converting ");
                let name = t.kind.to_string();
                push_str(&mut s, name.as_str());
                push_str(&mut s, ": no number of that type");
                assert(s@ =~= self@.message());
            },
            ParseError::InvalidValueType(t, exp) => {
                push_str(&mut s, "invalid value type");
                push_place(&mut s, t);
                push_str(&mut s, ", expected one of [");
                let list = join(exp, ", ");
                push_str(&mut s, list.as_str());
                push_str(&mut s, "]");
                assert(s@ =~= self@.message());
            },
        }
        s
    }
}

/// Why a condition cannot be compiled.
#[derive(Debug)]
pub struct CompileError {
    pub msg: String,
}

impl CompileError {
    pub open spec fn spec_message(&self) -> Seq<char> {
        "compilation error: "@ + self.msg@
    }

    pub fn to_string(&self) -> (s: String)
        ensures
            s@ == self.spec_message(),
    {
        let mut s = String::new();
        push_str(&mut s, "compilation error: ");
        push_str(&mut s, self.msg.as_str());
        assert(s@ =~= self.spec_message());
        s
    }
}

} // verus!
