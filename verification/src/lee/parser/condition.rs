//! Conditions: an attribute, an operator and a value to hold it against.

use crate::re::{is_match, regex_search};
use crate::text::{digit_of, int_digits, nat_digits, push_i64, push_str, push_u64, FRACTION_UNIT};
use vstd::prelude::*;

verus! {

/// The comparisons.
#[derive(Debug, Clone, Copy, PartialEq, Eq, Structural)]
pub enum Operator {
    Matches,
    NotMatches,
    Equals,
    NotEquals,
    Less,
    LessOrEqual,
    Greater,
    GreaterOrEqual,
}

impl Operator {
    pub open spec fn spec_literal(self) -> Seq<char> {
        match self {
            Operator::Matches => "=~"@,
            Operator::NotMatches => "!~"@,
            Operator::Equals => "=="@,
            Operator::NotEquals => "!="@,
            Operator::Less => "<"@,
            Operator::LessOrEqual => "<="@,
            Operator::Greater => ">"@,
            Operator::GreaterOrEqual => ">="@,
        }
    }

    /// What the operator says of two numbers. The two pattern operators say
    /// nothing of numbers.
    pub open spec fn holds_of(self, left: int, right: int) -> bool {
        match self {
            Operator::Equals => left == right,
            Operator::NotEquals => left != right,
            Operator::Less => left < right,
            Operator::LessOrEqual => left <= right,
            Operator::Greater => left > right,
            Operator::GreaterOrEqual => left >= right,
            _ => false,
        }
    }

    /// What the operator says of a text and the text it is held against.
    /// A pattern that is no valid regular expression matches nothing. The
    /// ordering operators say nothing of texts.
    pub open spec fn holds_of_text(self, left: Seq<char>, right: Seq<char>) -> bool {
        match self {
            Operator::Matches => regex_search(right, left) == Some(true),
            Operator::NotMatches => regex_search(right, left) != Some(true),
            Operator::Equals => left == right,
            Operator::NotEquals => left != right,
            _ => false,
        }
    }

    pub fn literal(&self) -> (s: &'static str)
        ensures
            s@ == self.spec_literal(),
    {
        match self {
            Operator::Matches => "=~",
            Operator::NotMatches => "!~",
            Operator::Equals => "==",
            Operator::NotEquals => "!=",
            Operator::Less => "<",
            Operator::LessOrEqual => "<=",
            Operator::Greater => ">",
            Operator::GreaterOrEqual => ">=",
        }
    }

    fn holds(&self, left: i128, right: i128) -> (b: bool)
        ensures
            b == self.holds_of(left as int, right as int),
    {
        match self {
            Operator::Equals => left == right,
            Operator::NotEquals => left != right,
            Operator::Less => left < right,
            Operator::LessOrEqual => left <= right,
            Operator::Greater => left > right,
            Operator::GreaterOrEqual => left >= right,
            _ => false,
        }
    }
}

/// The last `width` decimal digits of `f`, leading zeros kept.
pub open spec fn fixed_digits(f: nat, width: nat) -> Seq<char>
    decreases width,
{
    if width == 0 {
        Seq::empty()
    } else {
        fixed_digits(f / 10, (width - 1) as nat).push(digit_of((f % 10) as int))
    }
}

/// The last `width` decimal digits of `f` without the zeros at their end.
pub open spec fn trimmed_digits(f: nat, width: nat) -> Seq<char>
    decreases width,
{
    if width == 0 || f == 0 {
        Seq::empty()
    } else if f % 10 == 0 {
        trimmed_digits(f / 10, (width - 1) as nat)
    } else {
        fixed_digits(f, width)
    }
}

/// The notation of a fixed-point number: the whole part, and behind a dot
/// the fraction digits up to the last that is not zero, if there is any.
pub open spec fn fixed_point_digits(v: int) -> Seq<char> {
    let magnitude = if v < 0 {
        -v
    } else {
        v
    };
    let sign = if v < 0 {
        seq!['-']
    } else {
        Seq::empty()
    };
    let whole = nat_digits((magnitude / FRACTION_UNIT as int) as nat);
    let fraction = (magnitude % FRACTION_UNIT as int) as nat;
    if fraction == 0 {
        sign + whole
    } else {
        sign + whole + seq!['.'] + trimmed_digits(fraction, 6)
    }
}

fn push_fixed_digits(out: &mut String, f: u64, width: u8)
    ensures
        final(out)@ == old(out)@ + fixed_digits(f as nat, width as nat),
    decreases width,
{
    if width > 0 {
        push_fixed_digits(out, f / 10, width - 1);
        push_u64(out, f % 10);
        assert(nat_digits((f % 10) as nat) =~= seq![digit_of((f % 10) as int)]);
        assert(final(out)@ =~= old(out)@ + fixed_digits(f as nat, width as nat));
    } else {
        assert(final(out)@ =~= old(out)@ + fixed_digits(f as nat, width as nat));
    }
}

fn push_trimmed_digits(out: &mut String, f: u64, width: u8)
    ensures
        final(out)@ == old(out)@ + trimmed_digits(f as nat, width as nat),
    decreases width,
{
    if width == 0 || f == 0 {
        assert(final(out)@ =~= old(out)@ + trimmed_digits(f as nat, width as nat));
    } else if f % 10 == 0 {
        push_trimmed_digits(out, f / 10, width - 1);
    } else {
        push_fixed_digits(out, f, width);
    }
}

/// Appends the notation of the fixed-point number `v` to `out`.
pub fn push_fixed_point(out: &mut String, v: i64)
    ensures
        final(out)@ == old(out)@ + fixed_point_digits(v as int),
{
    let magnitude: u64 = if v < 0 { (-(v as i128)) as u64 } else { v as u64 };
    if v < 0 {
        out.push('-');
    }
    push_u64(out, magnitude / 1_000_000);
    let fraction: u64 = magnitude % 1_000_000;
    if fraction != 0 {
        out.push('.');
        push_trimmed_digits(out, fraction, 6);
    }
    assert(final(out)@ =~= old(out)@ + fixed_point_digits(v as int));
}

/// The value of a condition. A `Float` holds a fixed-point number in units
/// of `1 / FRACTION_UNIT`.
#[derive(Debug)]
pub enum Value {
    Integer(i64),
    Float(i64),
    String(String),
}

pub enum ValueView {
    Integer(int),
    Float(int),
    String(Seq<char>),
}

impl View for Value {
    type V = ValueView;

    open spec fn view(&self) -> ValueView {
        match self {
            Value::Integer(v) => ValueView::Integer(*v as int),
            Value::Float(v) => ValueView::Float(*v as int),
            Value::String(v) => ValueView::String(v@),
        }
    }
}

impl Clone for Value {
    fn clone(&self) -> (r: Self)
        ensures
            r@ == self@,
    {
        match self {
            Value::Integer(v) => Value::Integer(*v),
            Value::Float(v) => Value::Float(*v),
            Value::String(v) => Value::String(v.clone()),
        }
    }
}

impl ValueView {
    pub open spec fn kind_name(self) -> Seq<char> {
        match self {
            ValueView::Integer(_) => "integer"@,
            ValueView::Float(_) => "float"@,
            ValueView::String(_) => "string"@,
        }
    }

    pub open spec fn notation(self) -> Seq<char> {
        match self {
            ValueView::Integer(v) => "int("@ + int_digits(v) + ")"@,
            ValueView::Float(v) => "float("@ + fixed_point_digits(v) + ")"@,
            ValueView::String(v) => "string("@ + v + ")"@,
        }
    }

    /// What `operator` says of the whole number `ext_val` and this value.
    /// A whole number is held against a fixed-point value as a fixed-point
    /// number; it is never equal to, nor ordered against, a text.
    pub open spec fn holds_for_integer(self, ext_val: int, operator: Operator) -> bool {
        match self {
            ValueView::Integer(v) => operator.holds_of(ext_val, v),
            ValueView::Float(v) => operator.holds_of(ext_val * FRACTION_UNIT as int, v),
            ValueView::String(_) => false,
        }
    }

    /// What `operator` says of the fixed-point number `ext_val` and this
    /// value.
    pub open spec fn holds_for_fixed_point(self, ext_val: int, operator: Operator) -> bool {
        match self {
            ValueView::Integer(v) => operator.holds_of(ext_val, v * FRACTION_UNIT as int),
            ValueView::Float(v) => operator.holds_of(ext_val, v),
            ValueView::String(_) => false,
        }
    }

    /// What `operator` says of the text `ext_val` and this value. A text is
    /// never equal to a number.
    pub open spec fn holds_for_text(self, ext_val: Seq<char>, operator: Operator) -> bool {
        match self {
            ValueView::Integer(_) => false,
            ValueView::Float(_) => false,
            ValueView::String(v) => operator.holds_of_text(ext_val, v),
        }
    }
}

impl Value {
    pub fn value_type(&self) -> (s: &'static str)
        ensures
            s@ == self@.kind_name(),
    {
        match self {
            Value::Integer(_) => "integer",
            Value::Float(_) => "float",
            Value::String(_) => "string",
        }
    }

    pub fn as_string(&self) -> (s: String)
        ensures
            s@ == self@.notation(),
    {
        let mut s = String::new();
        match self {
            Value::Integer(v) => {
                push_str(&mut s, "int(");
                push_i64(&mut s, *v);
            },
            Value::Float(v) => {
                push_str(&mut s, "float(");
                push_fixed_point(&mut s, *v);
            },
            Value::String(v) => {
                push_str(&mut s, "string(");
                push_str(&mut s, v.as_str());
            },
        }
        push_str(&mut s, ")");
        assert(s@ =~= self@.notation());
        s
    }

    /// Holds the whole number `ext_val` against this value.
    pub fn eval_i64(&self, ext_val: i64, operator: Operator) -> (b: bool)
        ensures
            b == self@.holds_for_integer(ext_val as int, operator),
    {
        match self {
            Value::Integer(v) => operator.holds(ext_val as i128, *v as i128),
            Value::Float(v) => operator.holds(ext_val as i128 * 1_000_000, *v as i128),
            Value::String(_) => false,
        }
    }

    /// Holds the fixed-point number `ext_val`, in units of
    /// `1 / FRACTION_UNIT`, against this value.
    pub fn eval_f64(&self, ext_val: i64, operator: Operator) -> (b: bool)
        ensures
            b == self@.holds_for_fixed_point(ext_val as int, operator),
    {
        match self {
            Value::Integer(v) => operator.holds(ext_val as i128, *v as i128 * 1_000_000),
            Value::Float(v) => operator.holds(ext_val as i128, *v as i128),
            Value::String(_) => false,
        }
    }

    /// Holds the text `ext_val` against this value.
    pub fn eval_str(&self, ext_val: &str, operator: Operator) -> (b: bool)
        ensures
            b == self@.holds_for_text(ext_val@, operator),
    {
        match self {
            Value::Integer(_) => false,
            Value::Float(_) => false,
            Value::String(v) => match operator {
                Operator::Matches => decide_match(is_match(v.as_str(), ext_val)),
                Operator::NotMatches => !decide_match(is_match(v.as_str(), ext_val)),
                Operator::Equals => ext_val.to_owned() == *v,
                Operator::NotEquals => !(ext_val.to_owned() == *v),
                _ => false,
            },
        }
    }
}

/// How the outcome of a pattern search counts: a pattern that could not be
/// compiled matches nothing.
pub fn decide_match(found: Option<bool>) -> (b: bool)
    ensures
        b == (found == Some(true)),
{
    match found {
        Some(hit) => hit,
        None => false,
    }
}

/// A condition: an attribute, a comparison and the value to compare with.
#[derive(Debug)]
pub struct Condition {
    pub ident: String,
    pub operator: Operator,
    pub value: Value,
}

pub struct ConditionView {
    pub ident: Seq<char>,
    pub operator: Operator,
    pub value: ValueView,
}

impl View for Condition {
    type V = ConditionView;

    open spec fn view(&self) -> ConditionView {
        ConditionView { ident: self.ident@, operator: self.operator, value: self.value@ }
    }
}

impl Clone for Condition {
    fn clone(&self) -> (r: Self)
        ensures
            r@ == self@,
    {
        Condition { ident: self.ident.clone(), operator: self.operator, value: self.value.clone() }
    }
}

impl ConditionView {
    pub open spec fn notation(self) -> Seq<char> {
        "Condition<("@ + self.ident + " "@ + self.operator.spec_literal() + " "@
            + self.value.notation() + ")>"@
    }
}

impl Condition {
    pub fn to_string(&self) -> (s: String)
        ensures
            s@ == self@.notation(),
    {
        let mut s = String::new();
        push_str(&mut s, "Condition<(");
        push_str(&mut s, self.ident.as_str());
        push_str(&mut s, " ");
        push_str(&mut s, self.operator.literal());
        push_str(&mut s, " ");
        let value = self.value.as_string();
        push_str(&mut s, value.as_str());
        push_str(&mut s, ")>");
        assert(s@ =~= self@.notation());
        s
    }
}

} // verus!
