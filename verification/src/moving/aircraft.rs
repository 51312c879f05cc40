//! Aircraft types, and how the type of a flight is guessed from what its
//! flight plan names.

use crate::text::chars_of;
use vstd::prelude::*;

verus! {

/// The kinds of engines.
#[derive(Debug, Clone, Copy, PartialEq, Eq, Structural)]
pub enum EngineType {
    Electric,
    Jet,
    Piston,
    Rocket,
    Turboprop,
}

/// The kinds of aircraft.
#[derive(Debug, Clone, Copy, PartialEq, Eq, Structural)]
pub enum AircraftType {
    Amphibian,
    Gyrocopter,
    Helicopter,
    LandPlane,
    SeaPlane,
    Tiltrotor,
}

/// One aircraft model.
#[derive(Debug)]
pub struct Aircraft {
    pub name: String,
    pub description: String,
    pub wtc: String,
    pub wtg: String,
    pub designator: String,
    pub manufacturer_code: String,
    pub aircraft_type: AircraftType,
    pub engine_count: u8,
    pub engine_type: EngineType,
}

/// A [`Aircraft`] as a mathematical value.
pub struct AircraftView {
    pub name: Seq<char>,
    pub description: Seq<char>,
    pub wtc: Seq<char>,
    pub wtg: Seq<char>,
    pub designator: Seq<char>,
    pub manufacturer_code: Seq<char>,
    pub aircraft_type: AircraftType,
    pub engine_count: u8,
    pub engine_type: EngineType,
}

impl View for Aircraft {
    type V = AircraftView;

    open spec fn view(&self) -> AircraftView {
        AircraftView {
            name: self.name@,
            description: self.description@,
            wtc: self.wtc@,
            wtg: self.wtg@,
            designator: self.designator@,
            manufacturer_code: self.manufacturer_code@,
            aircraft_type: self.aircraft_type,
            engine_count: self.engine_count,
            engine_type: self.engine_type,
        }
    }
}

impl Clone for Aircraft {
    fn clone(&self) -> (r: Self)
        ensures
            r@ == self@,
    {
        Aircraft {
            name: self.name.clone(),
            description: self.description.clone(),
            wtc: self.wtc.clone(),
            wtg: self.wtg.clone(),
            designator: self.designator.clone(),
            manufacturer_code: self.manufacturer_code.clone(),
            aircraft_type: self.aircraft_type,
            engine_count: self.engine_count,
            engine_type: self.engine_type,
        }
    }
}

impl Aircraft {
    /// Whether the two are equal, field by field.
    pub fn same(&self, other: &Self) -> (b: bool)
        ensures
            b == (self@ == other@),
    {
        self.name == other.name
            && self.description == other.description
            && self.wtc == other.wtc
            && self.wtg == other.wtg
            && self.designator == other.designator
            && self.manufacturer_code == other.manufacturer_code
            && self.aircraft_type == other.aircraft_type
            && self.engine_count == other.engine_count
            && self.engine_type == other.engine_type
    }
}

/// The index of the first model from `from` on whose designator is `code`.
pub open spec fn first_designated(models: Seq<AircraftView>, code: Seq<char>, from: int) -> Option<
    int,
>
    decreases models.len() - from,
{
    if from < 0 || from >= models.len() {
        None
    } else if models[from].designator == code {
        Some(from)
    } else {
        first_designated(models, code, from + 1)
    }
}

/// The index of the model that the first `l` characters of `code`, or the
/// longest shorter beginning of it, designate.
pub open spec fn guess_from(models: Seq<AircraftView>, code: Seq<char>, l: int) -> Option<int>
    decreases l,
{
    if l <= 0 || l > code.len() {
        None
    } else {
        match first_designated(models, code.subrange(0, l), 0) {
            Some(i) => Some(i),
            None => guess_from(models, code, l - 1),
        }
    }
}

/// The index of the model that a flight plan means by `code`: the first
/// model designated by the first five characters of `code` or, failing that,
/// by the longest shorter beginning of it.
pub open spec fn spec_guess(models: Seq<AircraftView>, code: Seq<char>) -> Option<int> {
    guess_from(
        models,
        code,
        if code.len() < 5 {
            code.len() as int
        } else {
            5
        },
    )
}

/// The model that a flight plan means by `code`, if any.
pub open spec fn spec_guess_model(models: Seq<AircraftView>, code: Seq<char>) -> Option<
    AircraftView,
> {
    match spec_guess(models, code) {
        Some(i) => Some(models[i]),
        None => None,
    }
}

/// The table of known aircraft models.
#[derive(Debug)]
pub struct AircraftDb {
    pub models: Vec<Aircraft>,
}

impl AircraftDb {
    pub open spec fn spec_models(&self) -> Seq<AircraftView> {
        crate::text::views(self.models@)
    }

    pub fn new(models: Vec<Aircraft>) -> (db: Self)
        ensures
            db.spec_models() == crate::text::views(models@),
    {
        AircraftDb { models }
    }

    fn find(&self, code: &str) -> (r: Option<usize>)
        ensures
            r is Some <==> first_designated(self.spec_models(), code@, 0) is Some,
            r is Some ==> r->0 == first_designated(self.spec_models(), code@, 0)->0 && r->0
                < self.models@.len(),
    {
        let mut i: usize = 0;
        let wanted = code.to_owned();
        while i < self.models.len()
            invariant
                i <= self.models@.len(),
                wanted@ == code@,
                first_designated(self.spec_models(), code@, 0) == first_designated(
                    self.spec_models(),
                    code@,
                    i as int,
                ),
            decreases self.models@.len() - i,
        {
            assert(self.spec_models()[i as int] == self.models@[i as int]@);
            if self.models[i].designator == wanted {
                return Some(i);
            }
            i += 1;
        }
        None
    }
}

/// The model that a flight plan means by `code`.
pub fn guess_aircraft_types<'a>(db: &'a AircraftDb, code: &str) -> (r: Option<&'a Aircraft>)
    ensures
        r is Some <==> spec_guess_model(db.spec_models(), code@) is Some,
        r is Some ==> r->0@ == spec_guess_model(db.spec_models(), code@)->0,
{
    let chars = chars_of(code);
    let mut l: usize = if chars.len() < 5 { chars.len() } else { 5 };
    let mut prefix: Vec<char> = Vec::new();
    let mut k: usize = 0;
    while k < l
        invariant
            k <= l <= chars.len(),
            prefix@ == chars@.subrange(0, k as int),
        decreases l - k,
    {
        prefix.push(chars[k]);
        k += 1;
        assert(prefix@ =~= chars@.subrange(0, k as int));
    }
    while l > 0
        invariant
            l <= chars.len(),
            chars@ == code@,
            prefix@ == chars@.subrange(0, l as int),
            spec_guess(db.spec_models(), code@) == guess_from(db.spec_models(), code@, l as int),
        decreases l,
    {
        let text = crate::text::string_of(&prefix);
        match db.find(text.as_str()) {
            Some(i) => {
                return Some(&db.models[i]);
            },
            None => {},
        }
        prefix.pop();
        l -= 1;
        assert(prefix@ =~= chars@.subrange(0, l as int));
    }
    None
}

} // verus!
