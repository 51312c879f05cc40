use simwatch::lee::lexer::string_reader::StringReader;
use simwatch::lee::lexer::token::TokenKind;
use simwatch::lee::lexer::token::{Token, TokenFlow};
use simwatch::lee::lexer::{tokenize, Lexer};
use simwatch::lee::make_expr;
use simwatch::lee::parser::condition::Condition;
use simwatch::lee::parser::condition::{Operator, Value};
use simwatch::lee::parser::error::CompileError;
use simwatch::lee::parser::error::ParseError;
use simwatch::lee::parser::expression::Filter;
use simwatch::lee::parser::expression::{CombineOperator, LeftExpression};
use simwatch::lee::parser::parse_expression;
use simwatch::lee::parser::{parse, parse_condition, parse_operator, parse_value};
use simwatch::service::filter::{compile_filter, PilotFilter};

#[test]
fn test_reader() {
    let mut s = StringReader::new("hello");
    assert!(s.peek() == Some('h'));
    assert!(s.peek() == Some('h'));
    s.advance();
    assert!(s.peek() == Some('e'));
    s.advance();
    assert!(s.peek() == Some('l'));
    s.advance();
    assert!(s.peek() == Some('l'));
    s.advance();
    assert!(s.peek() == Some('o'));
    s.advance();
    assert!(s.peek() == None);
    s.advance();
    assert!(s.peek() == None);
}

struct Model {
    x: i64,
    y: i64,
    callsign: String,
}

enum ModelFilter {
    X(Condition),
    Y(Condition),
    Callsign(Condition),
}

impl Filter for ModelFilter {
    type Model = Model;

    fn compile(cond: Condition) -> Result<Self, CompileError> {
        match cond.ident.as_str() {
            "x" => Ok(ModelFilter::X(cond)),
            "y" => Ok(ModelFilter::Y(cond)),
            "callsign" => Ok(ModelFilter::Callsign(cond)),
            _ => Err(CompileError {
                msg: "failed to compile, invalid identifier met".into(),
            }),
        }
    }

    fn evaluate(&self, model: &Model) -> bool {
        match self {
            ModelFilter::X(cond) => cond.value.eval_i64(model.x, cond.operator),
            ModelFilter::Y(cond) => cond.value.eval_i64(model.y, cond.operator),
            ModelFilter::Callsign(cond) => cond.value.eval_str(&model.callsign, cond.operator),
        }
    }
}

#[test]
fn test_condition() {
    let mut l = Lexer::new("x > 5 AND y <= 7 && callsign =~ \"^AER\"");
    let mut tf = l.parse();
    let exp = parse_expression::<ModelFilter>(&mut tf);

    assert!(exp.is_ok());
    let mut exp = exp.unwrap();
    let res = exp.compile();
    assert!(res.is_ok());

    let res = exp.evaluate(&Model {
        x: 9,
        y: 5,
        callsign: "AER384".into(),
    });
    assert!(res);

    let res = exp.evaluate(&Model {
        x: 3,
        y: 5,
        callsign: "AER391".into(),
    });
    assert!(!res);
}

#[test]
fn filter_with_pattern_decides_by_all_three_conditions() {
    let mut exp =
        make_expr::<ModelFilter>("x > 5 AND y <= 7 AND callsign =~ \"^AER\"").unwrap();
    assert!(exp.compile().is_ok());
    assert!(exp.evaluate(&Model { x: 9, y: 5, callsign: "AER384".into() }));
    assert!(!exp.evaluate(&Model { x: 3, y: 5, callsign: "AER391".into() }));
    assert!(!exp.evaluate(&Model { x: 9, y: 5, callsign: "BAW12".into() }));
}

#[test]
fn tokens_of_a_query() {
    let tokens = tokenize("alt >= 10.5 or name !~ \"a\\\"b\"");
    let kinds: Vec<TokenKind> = tokens.iter().map(|t| t.kind).collect();
    assert_eq!(
        kinds,
        vec![
            TokenKind::Ident,
            TokenKind::GreaterOrEqual,
            TokenKind::Float,
            TokenKind::Or,
            TokenKind::Ident,
            TokenKind::NotMatches,
            TokenKind::String,
            TokenKind::EOF
        ]
    );
    assert_eq!(tokens[2].src, "10.5");
    assert_eq!(tokens[6].src, "a\"b");
    assert_eq!((tokens[4].line, tokens[4].pos), (1, 16));
}

fn kinds(query: &str) -> Vec<TokenKind> {
    tokenize(query).iter().map(|t| t.kind).collect()
}

#[test]
fn every_operator_has_its_token() {
    assert_eq!(
        kinds("== != =~ !~ < <= > >= = ( )"),
        vec![
            TokenKind::Equals,
            TokenKind::NotEquals,
            TokenKind::Matches,
            TokenKind::NotMatches,
            TokenKind::Less,
            TokenKind::LessOrEqual,
            TokenKind::Greater,
            TokenKind::GreaterOrEqual,
            TokenKind::Equals,
            TokenKind::LeftBrace,
            TokenKind::RightBrace,
            TokenKind::EOF,
        ]
    );
    let texts: Vec<String> = tokenize("a<=1").into_iter().map(|t| t.src).collect();
    assert_eq!(texts, vec!["a", "<=", "1", ""]);
    assert_eq!(tokenize("<")[0].src, "<");
    assert_eq!(tokenize("=")[0].src, "=");
}

#[test]
fn words_and_numbers_are_told_apart() {
    assert_eq!(
        kinds("and AND Or oR andy _a.b9 12 1.5 1. 1.2.3"),
        vec![
            TokenKind::And,
            TokenKind::And,
            TokenKind::Or,
            TokenKind::Or,
            TokenKind::Ident,
            TokenKind::Ident,
            TokenKind::Integer,
            TokenKind::Float,
            TokenKind::Float,
            TokenKind::Float,
            TokenKind::Illegal,
            TokenKind::EOF,
        ]
    );
    let tokens = tokenize("1.2.3");
    assert_eq!(tokens[0].src, "1.2");
    assert_eq!(tokens[1].src, ".");
}

#[test]
fn lexing_stops_behind_what_is_illegal() {
    assert_eq!(kinds("a ! b"), vec![TokenKind::Ident, TokenKind::Illegal, TokenKind::EOF]);
    assert_eq!(kinds("a # b"), vec![TokenKind::Ident, TokenKind::Illegal, TokenKind::EOF]);
    assert_eq!(kinds("\"open"), vec![TokenKind::Illegal, TokenKind::EOF]);
    assert_eq!(kinds("\"a\tb\" c"), vec![TokenKind::Illegal, TokenKind::EOF]);
    assert_eq!(kinds("\"a\\\nb\""), vec![TokenKind::Illegal, TokenKind::EOF]);
    assert_eq!(kinds(""), vec![TokenKind::EOF]);
    assert_eq!(kinds(" \t\n\u{a0}\u{3000} "), vec![TokenKind::EOF]);
    assert_eq!(tokenize("a #")[1].src, "#");
}

#[test]
fn strings_resolve_their_escapes() {
    let tokens = tokenize("\"a\\nb\\t\\r\\\\\\\"\\q\" x");
    assert_eq!(tokens[0].kind, TokenKind::String);
    assert_eq!(tokens[0].src, "a\nb\t\r\\\"q");
    assert_eq!(tokens[1].kind, TokenKind::Ident);
}

#[test]
fn tokens_know_their_place() {
    let tokens = tokenize("a ==\n  \"x\"\n\nalt");
    let places: Vec<(usize, usize)> = tokens.iter().map(|t| (t.line, t.pos)).collect();
    assert_eq!(places, vec![(1, 1), (1, 3), (2, 3), (4, 1), (4, 4)]);
    let mut reader = StringReader::new("a\nb");
    assert_eq!(reader.position(), (1, 1));
    reader.advance();
    assert_eq!(reader.position(), (1, 2));
    assert_eq!(reader.peek_next(), Some('b'));
    reader.advance();
    assert_eq!(reader.position(), (2, 1));
    reader.advance();
    reader.advance();
    assert_eq!(reader.position(), (2, 2));
    assert_eq!(reader.peek_next(), None);
}

#[test]
fn token_flow_walks_and_resets() {
    let tokens: Vec<Token> = tokenize("a b");
    let mut tf = TokenFlow::new(&tokens);
    assert_eq!(tf.current().unwrap().src, "a");
    assert_eq!(tf.next().unwrap().src, "b");
    tf.advance();
    tf.advance();
    assert_eq!(tf.current().unwrap().kind, TokenKind::EOF);
    assert!(tf.next().is_none());
    tf.advance();
    assert!(tf.current().is_none());
    tf.advance();
    assert!(tf.current().is_none());
    tf.reset();
    assert_eq!(tf.current().unwrap().src, "a");
    let mut lexer = Lexer::new("x y");
    assert_eq!(lexer.read_identifier().src, "x");
    assert_eq!(lexer.read_identifier().src, "");
    assert_eq!(TokenKind::GreaterOrEqual.to_string(), "GreaterOrEqual");
}

fn parse_error(query: &str) -> String {
    match make_expr::<PilotFilter>(query) {
        Err(e) => e.to_string(),
        Ok(_) => panic!("{} parses", query),
    }
}

#[test]
fn parse_errors_name_what_is_wrong() {
    assert_eq!(
        parse_error(""),
        "unexpected token type EOF() at line=1 pos=1, expected one of [Ident, LeftBrace]"
    );
    assert_eq!(
        parse_error("alt"),
        "unexpected token type EOF() at line=1 pos=4, expected one of [Equals, NotEquals, Matches, NotMatches, Less, Greater, LessOrEqual, GreaterOrEqual]"
    );
    assert_eq!(
        parse_error("alt > \"x\""),
        "invalid value type at line=1 pos=5, expected one of [int, float]"
    );
    assert_eq!(
        parse_error("name !~ 1.5"),
        "invalid value type at line=1 pos=6, expected one of [string]"
    );
    assert_eq!(
        parse_error("alt > 99999999999999999999"),
        "error while converting Integer: no number of that type"
    );
    assert_eq!(
        parse_error("lat > 99999999999999.5"),
        "error while converting Float: no number of that type"
    );
    assert_eq!(
        parse_error("(alt > 1"),
        "unexpected token type EOF() at line=1 pos=9, expected one of [RightBrace]"
    );
    assert_eq!(
        parse_error("alt > 1 alt"),
        "unexpected token type Ident(alt) at line=1 pos=9, expected one of [EOF]"
    );
    assert_eq!(
        parse_error("alt > 1 and"),
        "unexpected token type EOF() at line=1 pos=12, expected one of [Ident, LeftBrace]"
    );
    assert_eq!(
        parse_error("alt > alt"),
        "unexpected end of stream while waiting for one of [Integer, Float, String]"
    );
    assert_eq!(
        parse_error("alt ! 1"),
        "unexpected token type Illegal(!) at line=1 pos=5, expected one of [Equals, NotEquals, Matches, NotMatches, Less, Greater, LessOrEqual, GreaterOrEqual]"
    );
    let token = tokenize("x").remove(0);
    assert_eq!(
        ParseError::UnexpectedToken(token.clone()).to_string(),
        "unexpected token Ident(x) at line=1 pos=1"
    );
    assert_eq!(ParseError::UnexpectedEOF(token).to_string(), "unexpected EOF at line=1 pos=1");

    let empty: Vec<Token> = Vec::new();
    let mut tf = TokenFlow::new(&empty);
    assert!(matches!(parse_operator(&mut tf), Err(ParseError::UnexpectedEOS(_))));
    assert!(matches!(parse_value(&mut tf), Err(ParseError::UnexpectedEOS(_))));
    assert!(matches!(parse_condition(&mut tf), Err(ParseError::UnexpectedEOS(_))));
    assert!(matches!(parse::<PilotFilter>(&mut tf), Err(ParseError::UnexpectedEOS(_))));
    let only: Vec<Token> = tokenize("a == 1").into_iter().take(3).collect();
    let mut tf = TokenFlow::new(&only);
    assert_eq!(
        parse::<PilotFilter>(&mut tf).err().unwrap().to_string(),
        "unexpected end of stream while waiting for one of [EOF]"
    );
}

#[test]
fn connectives_associate_to_the_right() {
    let expr = make_expr::<ModelFilter>("x == 1 AND y == 1 OR callsign == \"c\"").unwrap();
    assert!(matches!(expr.operator, Some(CombineOperator::And)));
    let right = expr.right.as_ref().unwrap();
    assert!(matches!(right.operator, Some(CombineOperator::Or)));
    assert!(right.right.as_ref().unwrap().right.is_none());
    match &*expr.left {
        LeftExpression::Condition(c) => {
            assert_eq!(c.ident, "x");
            assert_eq!(c.to_string(), "Condition<(x == int(1))>");
        }
        _ => panic!(),
    }
    let mut expr = expr;
    expr.compile().unwrap();
    let holds = |x: i64, y: i64, c: &str| expr.evaluate(&Model { x, y, callsign: c.into() });
    assert!(holds(1, 1, ""));
    assert!(holds(1, 0, "c"));
    assert!(!holds(0, 1, "c"));
    assert!(!holds(1, 0, ""));

    let mut grouped = make_expr::<ModelFilter>("(x == 1 AND y == 1) OR callsign == \"c\"").unwrap();
    assert!(matches!(&*grouped.left, LeftExpression::Expression(_)));
    grouped.compile().unwrap();
    assert!(grouped.evaluate(&Model { x: 0, y: 1, callsign: "c".into() }));
}

#[test]
fn uncompiled_conditions_hold_of_nothing() {
    let expr = make_expr::<ModelFilter>("x == 1 or y == 2").unwrap();
    assert!(!expr.evaluate(&Model { x: 1, y: 2, callsign: "".into() }));
    let mut bad = make_expr::<ModelFilter>("x == 1 and z == 2 and y == 2").unwrap();
    let err = bad.compile().err().unwrap();
    assert_eq!(err.to_string(), "compilation error: failed to compile, invalid identifier met");
    assert!(matches!(&*bad.left, LeftExpression::CompiledFilter(_)));
    assert!(matches!(&*bad.right.as_ref().unwrap().left, LeftExpression::Condition(_)));
    assert!(!bad.evaluate(&Model { x: 1, y: 2, callsign: "".into() }));
}

#[test]
fn values_are_held_against_numbers_and_texts() {
    let int = Value::Integer(5);
    let fixed = Value::Float(5_500_000);
    let text = Value::String("^AER".into());
    assert_eq!(int.value_type(), "integer");
    assert_eq!(fixed.value_type(), "float");
    assert_eq!(text.value_type(), "string");
    assert_eq!(int.as_string(), "int(5)");
    assert_eq!(Value::Integer(-12).as_string(), "int(-12)");
    assert_eq!(fixed.as_string(), "float(5.5)");
    assert_eq!(Value::Float(-2_000_000).as_string(), "float(-2)");
    assert_eq!(Value::Float(1).as_string(), "float(0.000001)");
    assert_eq!(Value::Float(120_030_000).as_string(), "float(120.03)");
    assert_eq!(text.as_string(), "string(^AER)");

    assert!(int.eval_i64(5, Operator::Equals) && int.eval_i64(5, Operator::LessOrEqual));
    assert!(int.eval_i64(4, Operator::Less) && !int.eval_i64(5, Operator::Less));
    assert!(int.eval_i64(6, Operator::Greater) && int.eval_i64(6, Operator::NotEquals));
    assert!(int.eval_i64(5, Operator::GreaterOrEqual));
    assert!(!int.eval_i64(5, Operator::Matches) && !int.eval_i64(5, Operator::NotMatches));
    assert!(fixed.eval_i64(6, Operator::Greater) && fixed.eval_i64(5, Operator::Less));
    assert!(!fixed.eval_i64(5, Operator::Equals));
    assert!(Value::Float(5_000_000).eval_i64(5, Operator::Equals));
    assert!(!text.eval_i64(5, Operator::Equals) && !text.eval_i64(5, Operator::NotEquals));
    assert!(Value::Integer(i64::MAX).eval_f64(i64::MIN, Operator::Less));
    assert!(Value::Float(i64::MIN).eval_i64(i64::MAX, Operator::Greater));

    assert!(int.eval_f64(5_000_000, Operator::Equals));
    assert!(int.eval_f64(5_000_001, Operator::Greater));
    assert!(fixed.eval_f64(5_500_000, Operator::GreaterOrEqual));
    assert!(!text.eval_f64(0, Operator::Equals));

    assert!(text.eval_str("AER384", Operator::Matches));
    assert!(!text.eval_str("BAER", Operator::Matches));
    assert!(text.eval_str("BAER", Operator::NotMatches));
    assert!(!text.eval_str("^AER", Operator::NotEquals) && text.eval_str("^AER", Operator::Equals));
    assert!(!text.eval_str("AER", Operator::Less));
    assert!(!int.eval_str("5", Operator::Equals) && !fixed.eval_str("5.5", Operator::Equals));
    let broken = Value::String("(".into());
    assert!(!broken.eval_str("(", Operator::Matches));
    assert!(broken.eval_str("(", Operator::NotMatches));
    assert_eq!(Operator::NotMatches.literal(), "!~");
    assert_eq!(Operator::GreaterOrEqual.literal(), ">=");
}

#[test]
fn pilot_conditions_compile_or_say_why_not() {
    let cond = |query: &str| {
        let tokens = tokenize(query);
        let mut tf = TokenFlow::new(&tokens);
        parse_condition(&mut tf).unwrap()
    };
    for field in
        ["callsign", "name", "aircraft", "arrival", "departure"]
    {
        assert!(compile_filter(cond(&format!("{} == \"x\"", field))).is_ok());
    }
    for field in ["alt", "gs", "lat", "lng"] {
        assert!(compile_filter(cond(&format!("{} >= 1.5", field))).is_ok());
    }
    for rules in ["i", "IFR", "v", "Vfr"] {
        assert!(compile_filter(cond(&format!("rules != \"{}\"", rules))).is_ok());
    }
    assert_eq!(
        compile_filter(cond("rules == \"ifrx\"")).err().unwrap().msg,
        "invalid rules value, valid ones are ['v', 'i', 'vfr', 'ifr']"
    );
    assert_eq!(
        compile_filter(cond("rules == 1.5")).err().unwrap().msg,
        "invalid rules value type float"
    );
    assert!(compile_filter(cond("Callsign == \"x\"")).is_err());
}

#[test]
fn right_operand_without_a_connective_is_not_looked_at() {
    let mut expr = make_expr::<ModelFilter>("x == 1").unwrap();
    let other = make_expr::<ModelFilter>("y == 1 and").ok();
    assert!(other.is_none());
    let mut loose = make_expr::<ModelFilter>("y == 2").unwrap();
    loose.operator = Some(CombineOperator::And);
    expr.right = Some(Box::new(loose));
    expr.compile().unwrap();
    assert!(expr.operator.is_none());
    assert!(expr.evaluate(&Model { x: 1, y: 0, callsign: "".into() }));
    assert!(!expr.evaluate(&Model { x: 0, y: 2, callsign: "".into() }));
}
