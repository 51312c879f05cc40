//! Parser of the filter language.
//!
//! ```text
//! expr      := term (("AND" | "OR") expr)?
//! term      := condition | "(" expr ")"
//! condition := IDENT OP value
//! value     := INT | FLOAT | STRING
//! ```
//!
//! The connectives associate to the right and have the same rank, so
//! `a AND b OR c` reads `a AND (b OR c)`.

pub mod condition;
pub mod error;
pub mod expression;

use self::condition::{Condition, ConditionView, Operator, Value, ValueView};
use self::error::{ParseError, ParseErrorView};
use self::expression::{CombineOperator, ExprTree, Expression, Filter, LeftExpression, LeftTree};
use super::lexer::token::{TokenFlow, TokenKind, TokenView};
use crate::text::{decimal_text_within, int_text_within, parse_decimal_within, parse_int_within};
use vstd::prelude::*;

verus! {

/// The kinds of token that stand for an operator.
pub open spec fn operator_kinds() -> Seq<TokenKind> {
    seq![
        TokenKind::Equals,
        TokenKind::NotEquals,
        TokenKind::Matches,
        TokenKind::NotMatches,
        TokenKind::Less,
        TokenKind::Greater,
        TokenKind::LessOrEqual,
        TokenKind::GreaterOrEqual,
    ]
}

/// The kinds of token that stand for a value.
pub open spec fn value_kinds() -> Seq<TokenKind> {
    seq![TokenKind::Integer, TokenKind::Float, TokenKind::String]
}

/// The operator that a kind of token stands for.
pub open spec fn operator_of(kind: TokenKind) -> Option<Operator> {
    match kind {
        TokenKind::Equals => Some(Operator::Equals),
        TokenKind::NotEquals => Some(Operator::NotEquals),
        TokenKind::Matches => Some(Operator::Matches),
        TokenKind::NotMatches => Some(Operator::NotMatches),
        TokenKind::Less => Some(Operator::Less),
        TokenKind::Greater => Some(Operator::Greater),
        TokenKind::LessOrEqual => Some(Operator::LessOrEqual),
        TokenKind::GreaterOrEqual => Some(Operator::GreaterOrEqual),
        _ => None,
    }
}

/// The connective that a kind of token stands for.
pub open spec fn connective_of(kind: TokenKind) -> Option<CombineOperator> {
    match kind {
        TokenKind::And => Some(CombineOperator::And),
        TokenKind::Or => Some(CombineOperator::Or),
        _ => None,
    }
}

/// The operator at index `i`.
pub open spec fn spec_operator(tokens: Seq<TokenView>, i: int) -> Result<Operator, ParseErrorView> {
    if !(0 <= i < tokens.len()) {
        Err(ParseErrorView::UnexpectedEOS(operator_kinds()))
    } else {
        match operator_of(tokens[i].kind) {
            Some(op) => Ok(op),
            None => Err(ParseErrorView::UnexpectedTokenType(tokens[i], operator_kinds())),
        }
    }
}

/// The value at index `i`. An integer must fit 64 bits, and so must a
/// fixed-point number.
pub open spec fn spec_value(tokens: Seq<TokenView>, i: int) -> Result<ValueView, ParseErrorView> {
    if !(0 <= i < tokens.len()) {
        Err(ParseErrorView::UnexpectedEOS(value_kinds()))
    } else {
        let t = tokens[i];
        match t.kind {
            TokenKind::Integer => match int_text_within(t.src, i64::MIN as int, i64::MAX as int) {
                Some(v) => Ok(ValueView::Integer(v)),
                None => Err(ParseErrorView::ConvertError(t)),
            },
            TokenKind::Float => match decimal_text_within(
                t.src,
                i64::MIN as int,
                i64::MAX as int,
            ) {
                Some(v) => Ok(ValueView::Float(v)),
                None => Err(ParseErrorView::ConvertError(t)),
            },
            TokenKind::String => Ok(ValueView::String(t.src)),
            _ => Err(ParseErrorView::UnexpectedEOS(value_kinds())),
        }
    }
}

/// The types of value that `op` asks for, where `value` is of none of them:
/// the pattern operators ask for a text, the ordering operators for a
/// number; equality takes any value.
pub open spec fn expected_types(op: Operator, value: ValueView) -> Option<Seq<Seq<char>>> {
    match op {
        Operator::Matches | Operator::NotMatches => if value is String {
            None
        } else {
            Some(seq!["string"@])
        },
        Operator::Equals | Operator::NotEquals => None,
        _ => if value is String {
            Some(seq!["int"@, "float"@])
        } else {
            None
        },
    }
}

/// The condition that starts at index `i`, and the index where parsing
/// stops: behind the condition, or at the token that is in the way.
pub open spec fn spec_condition(tokens: Seq<TokenView>, i: int) -> (
    Result<ConditionView, ParseErrorView>,
    int,
) {
    if !(0 <= i < tokens.len()) {
        (Err(ParseErrorView::UnexpectedEOS(seq![TokenKind::Ident])), i)
    } else if tokens[i].kind != TokenKind::Ident {
        (Err(ParseErrorView::UnexpectedTokenType(tokens[i], seq![TokenKind::Ident])), i)
    } else {
        match spec_operator(tokens, i + 1) {
            Err(e) => (Err(e), i + 1),
            Ok(operator) => match spec_value(tokens, i + 2) {
                Err(e) => (Err(e), i + 2),
                Ok(value) => match expected_types(operator, value) {
                    Some(expected) => (
                        Err(ParseErrorView::InvalidValueType(tokens[i + 1], expected)),
                        i + 3,
                    ),
                    None => (
                        Ok(ConditionView { ident: tokens[i].src, operator, value }),
                        i + 3,
                    ),
                },
            },
        }
    }
}

/// The left operand that starts at index `i`, and the index where parsing
/// stops.
pub open spec fn spec_left(tokens: Seq<TokenView>, i: int) -> (
    Result<LeftTree, ParseErrorView>,
    int,
)
    decreases tokens.len() - i, 0int,
{
    if !(0 <= i < tokens.len()) {
        (Err(ParseErrorView::UnexpectedEOS(seq![TokenKind::Ident, TokenKind::LeftBrace])), i)
    } else if tokens[i].kind == TokenKind::LeftBrace {
        let (inner, j) = spec_expression(tokens, i + 1);
        match inner {
            Err(e) => (Err(e), j),
            Ok(e) => if !(0 <= j < tokens.len()) {
                (Err(ParseErrorView::UnexpectedEOS(seq![TokenKind::RightBrace])), j)
            } else if tokens[j].kind == TokenKind::RightBrace {
                (Ok(LeftTree::Group(Box::new(e))), j + 1)
            } else {
                (
                    Err(
                        ParseErrorView::UnexpectedTokenType(tokens[j], seq![TokenKind::RightBrace]),
                    ),
                    j,
                )
            },
        }
    } else if tokens[i].kind == TokenKind::Ident {
        match spec_condition(tokens, i).0 {
            Ok(c) => (Ok(LeftTree::Condition(c)), spec_condition(tokens, i).1),
            Err(e) => (Err(e), spec_condition(tokens, i).1),
        }
    } else {
        (
            Err(
                ParseErrorView::UnexpectedTokenType(
                    tokens[i],
                    seq![TokenKind::Ident, TokenKind::LeftBrace],
                ),
            ),
            i,
        )
    }
}

/// The expression that starts at index `i`, and the index where parsing
/// stops: behind the expression, or at the token that is in the way.
pub open spec fn spec_expression(tokens: Seq<TokenView>, i: int) -> (
    Result<ExprTree, ParseErrorView>,
    int,
)
    decreases tokens.len() - i, 1int,
{
    let (left, k) = spec_left(tokens, i);
    match left {
        Err(e) => (Err(e), k),
        Ok(left) => if i < k < tokens.len() && connective_of(tokens[k].kind) is Some {
            let (right, m) = spec_expression(tokens, k + 1);
            match right {
                Err(e) => (Err(e), m),
                Ok(right) => (
                    Ok(
                        ExprTree {
                            left,
                            operator: connective_of(tokens[k].kind),
                            right: Some(Box::new(right)),
                        },
                    ),
                    m,
                ),
            }
        } else {
            (Ok(ExprTree { left, operator: None, right: None }), k)
        },
    }
}

/// The expression that the tokens from index `i` on spell out. Behind it
/// only the end-of-input token may stand.
pub open spec fn spec_parse(tokens: Seq<TokenView>, i: int) -> Result<ExprTree, ParseErrorView> {
    let (exp, k) = spec_expression(tokens, i);
    match exp {
        Err(e) => Err(e),
        Ok(exp) => if !(0 <= k < tokens.len()) {
            Err(ParseErrorView::UnexpectedEOS(seq![TokenKind::EOF]))
        } else if tokens[k].kind == TokenKind::EOF {
            Ok(exp)
        } else {
            Err(ParseErrorView::UnexpectedTokenType(tokens[k], seq![TokenKind::EOF]))
        },
    }
}

/// Parsing never moves backwards, stays within the tokens, consumes at least
/// one token where it succeeds, and yields well-formed expressions in which
/// nothing is compiled yet.
pub proof fn lemma_spec_expression(tokens: Seq<TokenView>, i: int)
    requires
        0 <= i <= tokens.len(),
    ensures
        i <= spec_expression(tokens, i).1 <= tokens.len(),
        i <= spec_left(tokens, i).1 <= tokens.len(),
        spec_expression(tokens, i).0 is Ok ==> i < spec_expression(tokens, i).1
            && spec_expression(tokens, i).0->Ok_0.well_formed(),
        spec_left(tokens, i).0 is Ok ==> i < spec_left(tokens, i).1 && spec_left(
            tokens,
            i,
        ).0->Ok_0.well_formed(),
    decreases tokens.len() - i,
{
    reveal_with_fuel(spec_expression, 2);
    reveal_with_fuel(spec_left, 2);
    reveal_with_fuel(ExprTree::well_formed, 2);
    reveal_with_fuel(LeftTree::well_formed, 2);
    if i < tokens.len() {
        if tokens[i].kind == TokenKind::LeftBrace {
            lemma_spec_expression(tokens, i + 1);
        }
        let (left, k) = spec_left(tokens, i);
        if left is Ok && i < k < tokens.len() && connective_of(tokens[k].kind) is Some {
            lemma_spec_expression(tokens, k + 1);
        }
    }
}

fn operator_kind_list() -> (v: Vec<TokenKind>)
    ensures
        v@ == operator_kinds(),
{
    let v = vec![
        TokenKind::Equals,
        TokenKind::NotEquals,
        TokenKind::Matches,
        TokenKind::NotMatches,
        TokenKind::Less,
        TokenKind::Greater,
        TokenKind::LessOrEqual,
        TokenKind::GreaterOrEqual,
    ];
    assert(v@ =~= operator_kinds());
    v
}

fn value_kind_list() -> (v: Vec<TokenKind>)
    ensures
        v@ == value_kinds(),
{
    let v = vec![TokenKind::Integer, TokenKind::Float, TokenKind::String];
    assert(v@ =~= value_kinds());
    v
}

fn kind_list1(a: TokenKind) -> (v: Vec<TokenKind>)
    ensures
        v@ == seq![a],
{
    let v = vec![a];
    assert(v@ =~= seq![a]);
    v
}

fn kind_list2(a: TokenKind, b: TokenKind) -> (v: Vec<TokenKind>)
    ensures
        v@ == seq![a, b],
{
    let v = vec![a, b];
    assert(v@ =~= seq![a, b]);
    v
}

/// Reads the operator under the cursor and steps over it.
pub fn parse_operator(tf: &mut TokenFlow) -> (r: Result<Operator, ParseError>)
    requires
        old(tf).wf(),
    ensures
        final(tf).wf(),
        final(tf).tokens() == old(tf).tokens(),
        r is Ok <==> spec_operator(old(tf).tokens(), old(tf).index()) is Ok,
        r is Ok ==> r->Ok_0 == spec_operator(old(tf).tokens(), old(tf).index())->Ok_0,
        r is Err ==> r->Err_0@ == spec_operator(old(tf).tokens(), old(tf).index())->Err_0,
        final(tf).index() == if r is Ok {
            old(tf).index() + 1
        } else {
            old(tf).index()
        },
{
    proof {
        tf.lemma_index_in_bounds();
    }
    let token = match tf.current() {
        Some(t) => t,
        None => {
            return Err(ParseError::UnexpectedEOS(operator_kind_list()));
        },
    };
    let operator = match token.kind {
        TokenKind::Equals => Operator::Equals,
        TokenKind::NotEquals => Operator::NotEquals,
        TokenKind::Matches => Operator::Matches,
        TokenKind::NotMatches => Operator::NotMatches,
        TokenKind::Less => Operator::Less,
        TokenKind::Greater => Operator::Greater,
        TokenKind::LessOrEqual => Operator::LessOrEqual,
        TokenKind::GreaterOrEqual => Operator::GreaterOrEqual,
        _ => {
            return Err(ParseError::UnexpectedTokenType(token.clone(), operator_kind_list()));
        },
    };
    tf.advance();
    Ok(operator)
}

/// Reads the value under the cursor and steps over it.
pub fn parse_value(tf: &mut TokenFlow) -> (r: Result<Value, ParseError>)
    requires
        old(tf).wf(),
    ensures
        final(tf).wf(),
        final(tf).tokens() == old(tf).tokens(),
        r is Ok <==> spec_value(old(tf).tokens(), old(tf).index()) is Ok,
        r is Ok ==> r->Ok_0@ == spec_value(old(tf).tokens(), old(tf).index())->Ok_0,
        r is Err ==> r->Err_0@ == spec_value(old(tf).tokens(), old(tf).index())->Err_0,
        final(tf).index() == if r is Ok {
            old(tf).index() + 1
        } else {
            old(tf).index()
        },
{
    proof {
        tf.lemma_index_in_bounds();
    }
    let token = match tf.current() {
        Some(t) => t,
        None => {
            return Err(ParseError::UnexpectedEOS(value_kind_list()));
        },
    };
    let value = match token.kind {
        TokenKind::Integer => {
            match parse_int_within(token.src.as_str(), i64::MIN, i64::MAX) {
                Some(v) => Value::Integer(v),
                None => {
                    return Err(ParseError::ConvertError(token.clone()));
                },
            }
        },
        TokenKind::Float => {
            match parse_decimal_within(token.src.as_str(), i64::MIN, i64::MAX) {
                Some(v) => Value::Float(v),
                None => {
                    return Err(ParseError::ConvertError(token.clone()));
                },
            }
        },
        TokenKind::String => Value::String(token.src.clone()),
        _ => {
            return Err(ParseError::UnexpectedEOS(value_kind_list()));
        },
    };
    tf.advance();
    Ok(value)
}

fn expected_list(op: Operator, value: &Value) -> (r: Option<Vec<String>>)
    ensures
        r is Some <==> expected_types(op, value@) is Some,
        r is Some ==> crate::text::string_views(r->0@) == expected_types(op, value@)->0,
{
    let is_text = match value {
        Value::String(_) => true,
        _ => false,
    };
    match op {
        Operator::Matches | Operator::NotMatches => {
            if is_text {
                None
            } else {
                let v = vec!["string".to_owned()];
                assert(crate::text::string_views(v@) =~= seq!["string"@]);
                Some(v)
            }
        },
        Operator::Equals | Operator::NotEquals => None,
        _ => {
            if is_text {
                let v = vec!["int".to_owned(), "float".to_owned()];
                assert(crate::text::string_views(v@) =~= seq!["int"@, "float"@]);
                Some(v)
            } else {
                None
            }
        },
    }
}

/// Reads a condition from the cursor on: an identifier, an operator and a
/// value of a type that the operator takes.
pub fn parse_condition(tf: &mut TokenFlow) -> (r: Result<Condition, ParseError>)
    requires
        old(tf).wf(),
    ensures
        final(tf).wf(),
        final(tf).tokens() == old(tf).tokens(),
        r is Ok <==> spec_condition(old(tf).tokens(), old(tf).index()).0 is Ok,
        r is Ok ==> r->Ok_0@ == spec_condition(old(tf).tokens(), old(tf).index()).0->Ok_0,
        r is Err ==> r->Err_0@ == spec_condition(old(tf).tokens(), old(tf).index()).0->Err_0,
        final(tf).index() == spec_condition(old(tf).tokens(), old(tf).index()).1,
{
    proof {
        tf.lemma_index_in_bounds();
    }
    let token = match tf.current() {
        Some(t) => t,
        None => {
            return Err(ParseError::UnexpectedEOS(kind_list1(TokenKind::Ident)));
        },
    };
    let ident = match token.kind {
        TokenKind::Ident => token.src.clone(),
        _ => {
            return Err(
                ParseError::UnexpectedTokenType(token.clone(), kind_list1(TokenKind::Ident)),
            );
        },
    };
    tf.advance();
    let op_t = tf.current();
    let operator = match parse_operator(tf) {
        Ok(op) => op,
        Err(e) => {
            return Err(e);
        },
    };
    let value = match parse_value(tf) {
        Ok(v) => v,
        Err(e) => {
            return Err(e);
        },
    };
    let op_t = op_t.unwrap();
    match expected_list(operator, &value) {
        Some(expected) => Err(ParseError::InvalidValueType(op_t.clone(), expected)),
        None => Ok(Condition { ident, operator, value }),
    }
}

/// Reads an expression from the cursor on. Behind the expression anything
/// may follow: the cursor stops at the first token that is no part of it.
pub fn parse_expression<F: Filter>(tf: &mut TokenFlow) -> (r: Result<Expression<F>, ParseError>)
    requires
        old(tf).wf(),
    ensures
        final(tf).wf(),
        final(tf).tokens() == old(tf).tokens(),
        r is Ok <==> spec_expression(old(tf).tokens(), old(tf).index()).0 is Ok,
        r is Ok ==> r->Ok_0.tree() == spec_expression(old(tf).tokens(), old(tf).index()).0->Ok_0,
        r is Err ==> r->Err_0@ == spec_expression(old(tf).tokens(), old(tf).index()).0->Err_0,
        final(tf).index() == spec_expression(old(tf).tokens(), old(tf).index()).1,
    decreases old(tf).tokens().len() - old(tf).index(),
{
    proof {
        tf.lemma_index_in_bounds();
        reveal_with_fuel(spec_expression, 2);
        reveal_with_fuel(spec_left, 2);
        reveal_with_fuel(Expression::tree, 2);
        reveal_with_fuel(LeftExpression::tree, 2);
    }
    let ghost tokens = tf.tokens();
    let ghost start = tf.index();
    let token = match tf.current() {
        Some(t) => t,
        None => {
            return Err(
                ParseError::UnexpectedEOS(kind_list2(TokenKind::Ident, TokenKind::LeftBrace)),
            );
        },
    };
    let left: LeftExpression<F> = match token.kind {
        TokenKind::LeftBrace => {
            tf.advance();
            let exp = match parse_expression::<F>(tf) {
                Ok(e) => e,
                Err(e) => {
                    return Err(e);
                },
            };
            proof {
                tf.lemma_index_in_bounds();
            }
            let token = match tf.current() {
                Some(t) => t,
                None => {
                    return Err(ParseError::UnexpectedEOS(kind_list1(TokenKind::RightBrace)));
                },
            };
            if token.kind == TokenKind::RightBrace {
                tf.advance();
                LeftExpression::Expression(exp)
            } else {
                return Err(
                    ParseError::UnexpectedTokenType(
                        token.clone(),
                        kind_list1(TokenKind::RightBrace),
                    ),
                );
            }
        },
        TokenKind::Ident => {
            match parse_condition(tf) {
                Ok(cond) => LeftExpression::Condition(cond),
                Err(e) => {
                    return Err(e);
                },
            }
        },
        _ => {
            return Err(
                ParseError::UnexpectedTokenType(
                    token.clone(),
                    kind_list2(TokenKind::Ident, TokenKind::LeftBrace),
                ),
            );
        },
    };
    proof {
        tf.lemma_index_in_bounds();
        lemma_spec_expression(tokens, start);
    }
    let operator = match tf.current() {
        Some(t) => match t.kind {
            TokenKind::And => Some(CombineOperator::And),
            TokenKind::Or => Some(CombineOperator::Or),
            _ => None,
        },
        None => None,
    };
    match operator {
        None => Ok(Expression { left: Box::new(left), operator: None, right: None }),
        Some(op) => {
            tf.advance();
            match parse_expression::<F>(tf) {
                Ok(right) => Ok(
                    Expression { left: Box::new(left), operator, right: Some(Box::new(right)) },
                ),
                Err(e) => Err(e),
            }
        },
    }
}

/// Reads an expression from the cursor on, behind which the input must end.
pub fn parse<F: Filter>(tf: &mut TokenFlow) -> (r: Result<Expression<F>, ParseError>)
    requires
        old(tf).wf(),
    ensures
        final(tf).wf(),
        final(tf).tokens() == old(tf).tokens(),
        r is Ok <==> spec_parse(old(tf).tokens(), old(tf).index()) is Ok,
        r is Ok ==> r->Ok_0.tree() == spec_parse(old(tf).tokens(), old(tf).index())->Ok_0,
        r is Ok ==> r->Ok_0.tree().well_formed(),
        r is Err ==> r->Err_0@ == spec_parse(old(tf).tokens(), old(tf).index())->Err_0,
        final(tf).index() == spec_expression(old(tf).tokens(), old(tf).index()).1,
{
    proof {
        tf.lemma_index_in_bounds();
        lemma_spec_expression(tf.tokens(), tf.index());
    }
    let exp = match parse_expression::<F>(tf) {
        Ok(e) => e,
        Err(e) => {
            return Err(e);
        },
    };
    proof {
        tf.lemma_index_in_bounds();
    }
    match tf.current() {
        Some(token) => {
            if token.kind == TokenKind::EOF {
                Ok(exp)
            } else {
                Err(ParseError::UnexpectedTokenType(token.clone(), kind_list1(TokenKind::EOF)))
            }
        },
        None => Err(ParseError::UnexpectedEOS(kind_list1(TokenKind::EOF))),
    }
}

} // verus!
