//! The pilot domain of the filter language.

use crate::lee::parser::condition::{Condition, ConditionView, Value, ValueView};
use crate::lee::parser::error::CompileError;
use crate::lee::parser::expression::{
    lemma_compiled_shape, lemma_failure_is_rejection, lemma_well_formed_connected,
    CombineOperator, ExprTree, Filter, LeftTree,
};
use crate::moving::pilot::{Pilot, PilotView};
use crate::text::{eq_ignoring_case, push_str, same_ignoring_case, same_text};
use vstd::prelude::*;

verus! {

/// The attributes of a pilot that a query can speak of.
#[derive(Debug, Clone, Copy, PartialEq, Eq, Structural)]
pub enum PilotField {
    Callsign,
    Name,
    Alt,
    Gs,
    Lat,
    Lng,
    Aircraft,
    Arrival,
    Departure,
    Rules,
}

/// The attribute that an identifier names.
pub open spec fn field_of(ident: Seq<char>) -> Option<PilotField> {
    if ident == "rules"@ {
        Some(PilotField::Rules)
    } else if ident == "callsign"@ {
        Some(PilotField::Callsign)
    } else if ident == "name"@ {
        Some(PilotField::Name)
    } else if ident == "alt"@ {
        Some(PilotField::Alt)
    } else if ident == "gs"@ {
        Some(PilotField::Gs)
    } else if ident == "lat"@ {
        Some(PilotField::Lat)
    } else if ident == "lng"@ {
        Some(PilotField::Lng)
    } else if ident == "aircraft"@ {
        Some(PilotField::Aircraft)
    } else if ident == "arrival"@ {
        Some(PilotField::Arrival)
    } else if ident == "departure"@ {
        Some(PilotField::Departure)
    } else {
        None
    }
}

/// The flight rules that a value names: `i` and `ifr` stand for `I`, `v` and
/// `vfr` for `V`, in any case.
pub open spec fn rules_of(value: ValueView) -> Option<Seq<char>> {
    match value {
        ValueView::String(v) => if same_ignoring_case(v, "i"@) || same_ignoring_case(v, "ifr"@) {
            Some("I"@)
        } else if same_ignoring_case(v, "v"@) || same_ignoring_case(v, "vfr"@) {
            Some("V"@)
        } else {
            None
        },
        _ => None,
    }
}

/// Whether a condition can be held against pilots: it names a known
/// attribute and, for the flight rules, known rules.
pub open spec fn pilot_accepts(cond: ConditionView) -> bool {
    match field_of(cond.ident) {
        Some(PilotField::Rules) => rules_of(cond.value) is Some,
        Some(_) => true,
        None => false,
    }
}

pub open spec fn unknown_field_reason(ident: Seq<char>) -> Seq<char> {
    ident
        + " is not a valid field to query, valid fields are: [callsign, name, alt, gs, lat, lng, aircraft, arrival, departure, rules]"@
}

pub open spec fn rules_type_reason(value: ValueView) -> Seq<char> {
    "invalid rules value type "@ + value.kind_name()
}

pub open spec fn rules_value_reason() -> Seq<char> {
    "invalid rules value, valid ones are ['v', 'i', 'vfr', 'ifr']"@
}

/// Why a condition cannot be held against pilots.
pub open spec fn pilot_rejection(cond: ConditionView) -> Seq<char> {
    match field_of(cond.ident) {
        Some(PilotField::Rules) => if cond.value is String {
            rules_value_reason()
        } else {
            rules_type_reason(cond.value)
        },
        _ => unknown_field_reason(cond.ident),
    }
}

/// What a condition says of a pilot. Of a pilot without a flight plan,
/// nothing that speaks of the plan holds.
pub open spec fn pilot_admits(cond: ConditionView, pilot: PilotView) -> bool {
    match field_of(cond.ident) {
        Some(PilotField::Callsign) => cond.value.holds_for_text(pilot.callsign, cond.operator),
        Some(PilotField::Name) => cond.value.holds_for_text(pilot.name, cond.operator),
        Some(PilotField::Alt) => cond.value.holds_for_integer(pilot.altitude as int, cond.operator),
        Some(PilotField::Gs) => cond.value.holds_for_integer(
            pilot.groundspeed as int,
            cond.operator,
        ),
        Some(PilotField::Lat) => cond.value.holds_for_fixed_point(
            pilot.position.lat as int,
            cond.operator,
        ),
        Some(PilotField::Lng) => cond.value.holds_for_fixed_point(
            pilot.position.lng as int,
            cond.operator,
        ),
        Some(PilotField::Aircraft) => match pilot.flight_plan {
            Some(fp) => cond.value.holds_for_text(fp.aircraft, cond.operator),
            None => false,
        },
        Some(PilotField::Arrival) => match pilot.flight_plan {
            Some(fp) => cond.value.holds_for_text(fp.arrival, cond.operator),
            None => false,
        },
        Some(PilotField::Departure) => match pilot.flight_plan {
            Some(fp) => cond.value.holds_for_text(fp.departure, cond.operator),
            None => false,
        },
        Some(PilotField::Rules) => match (pilot.flight_plan, rules_of(cond.value)) {
            (Some(fp), Some(rules)) => ValueView::String(rules).holds_for_text(
                fp.flight_rules,
                cond.operator,
            ),
            _ => false,
        },
        None => false,
    }
}

/// What a condition says of a pilot.
pub open spec fn pilot_matches(cond: ConditionView, pilot: &Pilot) -> bool {
    pilot_admits(cond, pilot@)
}

/// What a left operand says of a pilot.
pub open spec fn left_admits(t: LeftTree, pilot: PilotView) -> bool
    decreases t,
{
    match t {
        LeftTree::Group(e) => admits(*e, pilot),
        LeftTree::Condition(_) => false,
        LeftTree::Compiled(c) => pilot_admits(c, pilot),
    }
}

/// What an expression says of a pilot.
pub open spec fn admits(t: ExprTree, pilot: PilotView) -> bool
    decreases t,
{
    let left = left_admits(t.left, pilot);
    match (t.operator, t.right) {
        (Some(CombineOperator::And), Some(r)) => left && admits(*r, pilot),
        (Some(CombineOperator::Or), Some(r)) => left || admits(*r, pilot),
        _ => left,
    }
}

/// What an expression says of a pilot depends on nothing but what the
/// pilot is.
pub proof fn lemma_admits(t: ExprTree, pilot: &Pilot)
    ensures
        t.holds::<PilotFilter>(pilot) == admits(t, pilot@),
    decreases t,
{
    reveal_with_fuel(ExprTree::holds, 2);
    reveal_with_fuel(LeftTree::holds, 2);
    reveal_with_fuel(admits, 2);
    reveal_with_fuel(left_admits, 2);
    match t.left {
        LeftTree::Group(e) => {
            lemma_admits(*e, pilot);
        },
        _ => {},
    }
    match t.right {
        Some(r) => {
            lemma_admits(*r, pilot);
        },
        None => {},
    }
}

fn field_named(ident: &str) -> (r: Option<PilotField>)
    ensures
        r == field_of(ident@),
{
    if same_text(ident, "rules") {
        Some(PilotField::Rules)
    } else if same_text(ident, "callsign") {
        Some(PilotField::Callsign)
    } else if same_text(ident, "name") {
        Some(PilotField::Name)
    } else if same_text(ident, "alt") {
        Some(PilotField::Alt)
    } else if same_text(ident, "gs") {
        Some(PilotField::Gs)
    } else if same_text(ident, "lat") {
        Some(PilotField::Lat)
    } else if same_text(ident, "lng") {
        Some(PilotField::Lng)
    } else if same_text(ident, "aircraft") {
        Some(PilotField::Aircraft)
    } else if same_text(ident, "arrival") {
        Some(PilotField::Arrival)
    } else if same_text(ident, "departure") {
        Some(PilotField::Departure)
    } else {
        None
    }
}

/// A condition compiled for pilots.
pub struct PilotFilter {
    cond: Condition,
    field: PilotField,
    /// The value that the pilot's attribute is held against: that of the
    /// condition, or for the flight rules their canonical letter.
    value: Value,
}

impl PilotFilter {
    #[verifier::type_invariant]
    spec fn inv(self) -> bool {
        &&& field_of(self.cond@.ident) == Some(self.field)
        &&& self.field == PilotField::Rules ==> rules_of(self.cond@.value) is Some
            && self.value@ == ValueView::String(rules_of(self.cond@.value)->0)
        &&& self.field != PilotField::Rules ==> self.value@ == self.cond@.value
    }

    /// The condition this filter was compiled from.
    pub closed spec fn source(&self) -> ConditionView {
        self.cond@
    }
}

/// Compiles a condition for pilots. The known attributes are `callsign`,
/// `name`, `alt`, `gs`, `lat`, `lng`, `aircraft`, `arrival`, `departure` and
/// `rules`.
pub fn compile_filter(cond: Condition) -> (r: Result<PilotFilter, CompileError>)
    ensures
        r is Ok <==> pilot_accepts(cond@),
        r is Ok ==> r->Ok_0.source() == cond@,
        r is Err ==> r->Err_0.msg@ == pilot_rejection(cond@),
{
    let field = match field_named(cond.ident.as_str()) {
        Some(f) => f,
        None => {
            let mut msg = String::new();
            push_str(&mut msg, cond.ident.as_str());
            push_str(
                &mut msg,
                " is not a valid field to query, valid fields are: [callsign, name, alt, gs, lat, lng, aircraft, arrival, departure, rules]",
            );
            assert(msg@ =~= unknown_field_reason(cond@.ident));
            return Err(CompileError { msg });
        },
    };
    let value = match field {
        PilotField::Rules => {
            match &cond.value {
                Value::String(v) => {
                    if eq_ignoring_case(v.as_str(), "i") || eq_ignoring_case(v.as_str(), "ifr") {
                        Value::String("I".to_owned())
                    } else if eq_ignoring_case(v.as_str(), "v") || eq_ignoring_case(
                        v.as_str(),
                        "vfr",
                    ) {
                        Value::String("V".to_owned())
                    } else {
                        return Err(
                            CompileError {
                                msg:
                                    "invalid rules value, valid ones are ['v', 'i', 'vfr', 'ifr']".to_owned(),
                            },
                        );
                    }
                },
                _ => {
                    let mut msg = String::new();
                    push_str(&mut msg, "invalid rules value type ");
                    push_str(&mut msg, cond.value.value_type());
                    assert(msg@ =~= rules_type_reason(cond@.value));
                    return Err(CompileError { msg });
                },
            }
        },
        _ => cond.value.clone(),
    };
    Ok(PilotFilter { cond, field, value })
}

impl Filter for PilotFilter {
    type Model = Pilot;

    open spec fn condition(&self) -> ConditionView {
        self.source()
    }

    open spec fn accepts(cond: ConditionView) -> bool {
        pilot_accepts(cond)
    }

    open spec fn rejection(cond: ConditionView) -> Seq<char> {
        pilot_rejection(cond)
    }

    open spec fn matches(cond: ConditionView, model: &Pilot) -> bool {
        pilot_matches(cond, model)
    }

    fn compile(cond: Condition) -> (r: Result<Self, CompileError>) {
        compile_filter(cond)
    }

    fn evaluate(&self, model: &Pilot) -> (b: bool) {
        proof {
            use_type_invariant(self);
        }
        let operator = self.cond.operator;
        match self.field {
            PilotField::Callsign => self.value.eval_str(model.callsign.as_str(), operator),
            PilotField::Name => self.value.eval_str(model.name.as_str(), operator),
            PilotField::Alt => self.value.eval_i64(model.altitude as i64, operator),
            PilotField::Gs => self.value.eval_i64(model.groundspeed as i64, operator),
            PilotField::Lat => self.value.eval_f64(model.position.lat, operator),
            PilotField::Lng => self.value.eval_f64(model.position.lng, operator),
            PilotField::Aircraft => match &model.flight_plan {
                Some(fp) => self.value.eval_str(fp.aircraft.as_str(), operator),
                None => false,
            },
            PilotField::Arrival => match &model.flight_plan {
                Some(fp) => self.value.eval_str(fp.arrival.as_str(), operator),
                None => false,
            },
            PilotField::Departure => match &model.flight_plan {
                Some(fp) => self.value.eval_str(fp.departure.as_str(), operator),
                None => false,
            },
            PilotField::Rules => match &model.flight_plan {
                Some(fp) => self.value.eval_str(fp.flight_rules.as_str(), operator),
                None => false,
            },
        }
    }
}

/// A condition is rejected for one of three reasons, each of which names
/// what is wrong: an unknown attribute, flight rules that are no text, or
/// flight rules that are none of the known ones.
pub proof fn lemma_rejection_names_reason(cond: ConditionView)
    requires
        !pilot_accepts(cond),
    ensures
        field_of(cond.ident) is None ==> pilot_rejection(cond) == unknown_field_reason(cond.ident),
        field_of(cond.ident) is Some ==> field_of(cond.ident) == Some(PilotField::Rules),
        field_of(cond.ident) is Some && !(cond.value is String) ==> pilot_rejection(cond)
            == rules_type_reason(cond.value),
        field_of(cond.ident) is Some && cond.value is String ==> pilot_rejection(cond)
            == rules_value_reason(),
{
}

/// Where compiling an expression for pilots fails, the failure names what
/// is wrong with one of its conditions: an attribute that is not known,
/// flight rules that are no text, or flight rules that are none of the known
/// ones.
pub proof fn lemma_failure_names_reason(t: ExprTree) -> (c: ConditionView)
    requires
        t.compiled::<PilotFilter>().1 is Some,
    ensures
        t.mentions(c),
        t.compiled::<PilotFilter>().1->0 == unknown_field_reason(c.ident) || t.compiled::<
            PilotFilter,
        >().1->0 == rules_type_reason(c.value) || t.compiled::<PilotFilter>().1->0
            == rules_value_reason(),
{
    let c = lemma_failure_is_rejection::<PilotFilter>(t);
    lemma_rejection_names_reason(c);
    c
}

/// Compiling a well-formed expression for pilots leaves it well formed, so
/// that a right operand stands behind every connective, which is all that
/// evaluating it on a pilot asks for; where compiling succeeds, every
/// condition of the outcome is compiled.
pub proof fn lemma_compiled_can_be_evaluated(t: ExprTree)
    requires
        t.well_formed(),
    ensures
        t.compiled::<PilotFilter>().0.well_formed(),
        t.compiled::<PilotFilter>().0.connected(),
        t.compiled::<PilotFilter>().1 is None ==> t.compiled::<PilotFilter>().0.is_compiled(),
{
    lemma_compiled_shape::<PilotFilter>(t);
    lemma_well_formed_connected(t.compiled::<PilotFilter>().0);
}

} // verus!
