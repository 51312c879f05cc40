//! A small language of logical expressions over the attributes of a model.

pub mod lexer;
pub mod parser;

use self::lexer::{lex, Lexer};
use self::parser::error::ParseError;
use self::parser::expression::{Expression, Filter};
use self::parser::{parse, spec_parse};
use vstd::prelude::*;

verus! {

/// Reads `query` as an expression over the models of the domain `F`. Nothing
/// is compiled yet.
pub fn make_expr<F: Filter>(query: &str) -> (r: Result<Expression<F>, ParseError>)
    ensures
        r is Ok <==> spec_parse(lex(query@), 0) is Ok,
        r is Ok ==> r->Ok_0.tree() == spec_parse(lex(query@), 0)->Ok_0,
        r is Ok ==> r->Ok_0.tree().well_formed(),
        r is Err ==> r->Err_0@ == spec_parse(lex(query@), 0)->Err_0,
{
    let mut l = Lexer::new(query);
    let mut tf = l.parse();
    parse(&mut tf)
}

} // verus!
