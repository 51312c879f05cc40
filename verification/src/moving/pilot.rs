//! Pilots and their flight plans.

use crate::moving::aircraft::{guess_aircraft_types, spec_guess_model, Aircraft, AircraftDb, AircraftView};
use crate::moving::exttypes;
use crate::text::{parse_unsigned_within, unsigned_text_within};
use crate::timefmt::{instant_or, parse_instant_or};
use crate::types::Point;
use vstd::prelude::*;

verus! {

/// A flight plan with its numbers read.
#[derive(Debug)]
pub struct FlightPlan {
    pub flight_rules: String,
    pub aircraft: String,
    pub departure: String,
    pub arrival: String,
    pub alternate: String,
    pub cruise_tas: u16,
    pub altitude: u16,
    pub deptime: String,
    pub enroute_time: String,
    pub fuel_time: String,
    pub remarks: String,
    pub route: String,
}

/// A [`FlightPlan`] as a mathematical value.
pub struct FlightPlanView {
    pub flight_rules: Seq<char>,
    pub aircraft: Seq<char>,
    pub departure: Seq<char>,
    pub arrival: Seq<char>,
    pub alternate: Seq<char>,
    pub cruise_tas: u16,
    pub altitude: u16,
    pub deptime: Seq<char>,
    pub enroute_time: Seq<char>,
    pub fuel_time: Seq<char>,
    pub remarks: Seq<char>,
    pub route: Seq<char>,
}

impl View for FlightPlan {
    type V = FlightPlanView;

    open spec fn view(&self) -> FlightPlanView {
        FlightPlanView {
            flight_rules: self.flight_rules@,
            aircraft: self.aircraft@,
            departure: self.departure@,
            arrival: self.arrival@,
            alternate: self.alternate@,
            cruise_tas: self.cruise_tas,
            altitude: self.altitude,
            deptime: self.deptime@,
            enroute_time: self.enroute_time@,
            fuel_time: self.fuel_time@,
            remarks: self.remarks@,
            route: self.route@,
        }
    }
}

impl Clone for FlightPlan {
    fn clone(&self) -> (r: Self)
        ensures
            r@ == self@,
    {
        FlightPlan {
            flight_rules: self.flight_rules.clone(),
            aircraft: self.aircraft.clone(),
            departure: self.departure.clone(),
            arrival: self.arrival.clone(),
            alternate: self.alternate.clone(),
            cruise_tas: self.cruise_tas,
            altitude: self.altitude,
            deptime: self.deptime.clone(),
            enroute_time: self.enroute_time.clone(),
            fuel_time: self.fuel_time.clone(),
            remarks: self.remarks.clone(),
            route: self.route.clone(),
        }
    }
}

impl FlightPlan {
    /// Whether the two are equal, field by field.
    pub fn same(&self, other: &Self) -> (b: bool)
        ensures
            b == (self@ == other@),
    {
        self.flight_rules == other.flight_rules
            && self.aircraft == other.aircraft
            && self.departure == other.departure
            && self.arrival == other.arrival
            && self.alternate == other.alternate
            && self.cruise_tas == other.cruise_tas
            && self.altitude == other.altitude
            && self.deptime == other.deptime
            && self.enroute_time == other.enroute_time
            && self.fuel_time == other.fuel_time
            && self.remarks == other.remarks
            && self.route == other.route
    }
}
/// A pilot that is online.
#[derive(Debug)]
pub struct Pilot {
    pub cid: u32,
    pub name: String,
    pub callsign: String,
    pub server: String,
    pub pilot_rating: i32,
    pub position: Point,
    pub altitude: i32,
    pub groundspeed: i32,
    pub transponder: String,
    pub heading: i16,
    /// Hundredths of an inch of mercury.
    pub qnh_i_hg: u16,
    pub qnh_mb: u16,
    pub flight_plan: Option<FlightPlan>,
    /// Milliseconds since the Unix epoch.
    pub logon_time: i64,
    /// Milliseconds since the Unix epoch.
    pub last_updated: i64,
    pub aircraft_type: Option<Aircraft>,
}

/// A [`Pilot`] as a mathematical value.
pub struct PilotView {
    pub cid: u32,
    pub name: Seq<char>,
    pub callsign: Seq<char>,
    pub server: Seq<char>,
    pub pilot_rating: i32,
    pub position: Point,
    pub altitude: i32,
    pub groundspeed: i32,
    pub transponder: Seq<char>,
    pub heading: i16,
    pub qnh_i_hg: u16,
    pub qnh_mb: u16,
    pub flight_plan: Option<FlightPlanView>,
    pub logon_time: i64,
    pub last_updated: i64,
    pub aircraft_type: Option<AircraftView>,
}

impl View for Pilot {
    type V = PilotView;

    open spec fn view(&self) -> PilotView {
        PilotView {
            cid: self.cid,
            name: self.name@,
            callsign: self.callsign@,
            server: self.server@,
            pilot_rating: self.pilot_rating,
            position: self.position,
            altitude: self.altitude,
            groundspeed: self.groundspeed,
            transponder: self.transponder@,
            heading: self.heading,
            qnh_i_hg: self.qnh_i_hg,
            qnh_mb: self.qnh_mb,
            flight_plan: match self.flight_plan {
                Some(x) => Some(x@),
                None => None,
            },
            logon_time: self.logon_time,
            last_updated: self.last_updated,
            aircraft_type: match self.aircraft_type {
                Some(x) => Some(x@),
                None => None,
            },
        }
    }
}

impl Clone for Pilot {
    fn clone(&self) -> (r: Self)
        ensures
            r@ == self@,
    {
        Pilot {
            cid: self.cid,
            name: self.name.clone(),
            callsign: self.callsign.clone(),
            server: self.server.clone(),
            pilot_rating: self.pilot_rating,
            position: self.position,
            altitude: self.altitude,
            groundspeed: self.groundspeed,
            transponder: self.transponder.clone(),
            heading: self.heading,
            qnh_i_hg: self.qnh_i_hg,
            qnh_mb: self.qnh_mb,
            flight_plan: match &self.flight_plan {
                Some(x) => Some(x.clone()),
                None => None,
            },
            logon_time: self.logon_time,
            last_updated: self.last_updated,
            aircraft_type: match &self.aircraft_type {
                Some(x) => Some(x.clone()),
                None => None,
            },
        }
    }
}

impl Pilot {
    /// Whether the two are equal, field by field.
    pub fn same(&self, other: &Self) -> (b: bool)
        ensures
            b == (self@ == other@),
    {
        self.cid == other.cid
            && self.name == other.name
            && self.callsign == other.callsign
            && self.server == other.server
            && self.pilot_rating == other.pilot_rating
            && self.position == other.position
            && self.altitude == other.altitude
            && self.groundspeed == other.groundspeed
            && self.transponder == other.transponder
            && self.heading == other.heading
            && self.qnh_i_hg == other.qnh_i_hg
            && self.qnh_mb == other.qnh_mb
            && (match (&self.flight_plan, &other.flight_plan) {
                (Some(x), Some(y)) => x.same(y),
                (None, None) => true,
                _ => false,
            })
            && self.logon_time == other.logon_time
            && self.last_updated == other.last_updated
            && (match (&self.aircraft_type, &other.aircraft_type) {
                (Some(x), Some(y)) => x.same(y),
                (None, None) => true,
                _ => false,
            })
    }
}

/// A number of a flight plan: what does not read as a number of 16 bits
/// counts as 0.
pub open spec fn spec_plan_number(text: Seq<char>) -> u16 {
    match unsigned_text_within(text, u16::MAX as int) {
        Some(v) => v as u16,
        None => 0,
    }
}

pub fn plan_number(text: &str) -> (n: u16)
    ensures
        n == spec_plan_number(text@),
{
    match parse_unsigned_within(text, 0xffff) {
        Some(v) => v as u16,
        None => 0,
    }
}

/// A pressure in hundredths from one in millionths, rounded to the nearest
/// and held within 16 bits.
pub open spec fn spec_hundredths(v: i64) -> u16 {
    if v <= 0 {
        0
    } else if (v + 5000) / 10000 > u16::MAX {
        u16::MAX
    } else {
        ((v + 5000) / 10000) as u16
    }
}

pub fn hundredths(v: i64) -> (h: u16)
    ensures
        h == spec_hundredths(v),
{
    if v <= 0 {
        0
    } else {
        let r: i128 = (v as i128 + 5000) / 10000;
        if r > 0xffff {
            0xffff
        } else {
            r as u16
        }
    }
}

/// The 16 bits of `v` read as a number without sign.
pub open spec fn spec_unsigned(v: i16) -> u16 {
    if v < 0 {
        (v + 0x1_0000) as u16
    } else {
        v as u16
    }
}

pub fn unsigned(v: i16) -> (u: u16)
    ensures
        u == spec_unsigned(v),
{
    if v < 0 {
        (v as i32 + 0x1_0000) as u16
    } else {
        v as u16
    }
}

impl exttypes::FlightPlanView {
    /// The flight plan with its numbers read.
    pub open spec fn converted(self) -> FlightPlanView {
        FlightPlanView {
            flight_rules: self.flight_rules,
            aircraft: self.aircraft,
            departure: self.departure,
            arrival: self.arrival,
            alternate: self.alternate,
            cruise_tas: spec_plan_number(self.cruise_tas),
            altitude: spec_plan_number(self.altitude),
            deptime: self.deptime,
            enroute_time: self.enroute_time,
            fuel_time: self.fuel_time,
            remarks: self.remarks,
            route: self.route,
        }
    }
}

impl exttypes::PilotView {
    /// The pilot that a record of the feed describes. `now` stands in for a
    /// time that cannot be read; the aircraft type is guessed from the
    /// flight plan with the help of `models`.
    pub open spec fn converted(self, now: i64, models: Seq<AircraftView>) -> PilotView {
        PilotView {
            cid: self.cid,
            name: self.name,
            callsign: self.callsign,
            server: self.server,
            pilot_rating: self.pilot_rating,
            position: Point { lat: self.latitude, lng: self.longitude },
            altitude: self.altitude,
            groundspeed: self.groundspeed,
            transponder: self.transponder,
            heading: self.heading,
            qnh_i_hg: spec_hundredths(self.qnh_i_hg),
            qnh_mb: spec_unsigned(self.qnh_mb),
            flight_plan: match self.flight_plan {
                Some(fp) => Some(fp.converted()),
                None => None,
            },
            logon_time: instant_or(self.logon_time, now),
            last_updated: instant_or(self.last_updated, now),
            aircraft_type: match self.flight_plan {
                Some(fp) => spec_guess_model(models, fp.aircraft),
                None => None,
            },
        }
    }
}

impl FlightPlan {
    pub fn from_ext(src: exttypes::FlightPlan) -> (r: FlightPlan)
        ensures
            r@ == src@.converted(),
    {
        let cruise_tas = plan_number(src.cruise_tas.as_str());
        let altitude = plan_number(src.altitude.as_str());
        FlightPlan {
            flight_rules: src.flight_rules,
            aircraft: src.aircraft,
            departure: src.departure,
            arrival: src.arrival,
            alternate: src.alternate,
            cruise_tas,
            altitude,
            deptime: src.deptime,
            enroute_time: src.enroute_time,
            fuel_time: src.fuel_time,
            remarks: src.remarks,
            route: src.route,
        }
    }
}

impl Pilot {
    /// The pilot that a record of the feed describes.
    pub fn from_ext(src: exttypes::Pilot, now: i64, db: &AircraftDb) -> (r: Pilot)
        ensures
            r@ == src@.converted(now, db.spec_models()),
    {
        let logon_time = parse_instant_or(src.logon_time.as_str(), now);
        let last_updated = parse_instant_or(src.last_updated.as_str(), now);
        let flight_plan: Option<FlightPlan> = match src.flight_plan {
            Some(fp) => Some(FlightPlan::from_ext(fp)),
            None => None,
        };
        let aircraft_type: Option<Aircraft> = match &flight_plan {
            Some(fp) => match guess_aircraft_types(db, fp.aircraft.as_str()) {
                Some(a) => Some(a.clone()),
                None => None,
            },
            None => None,
        };
        Pilot {
            cid: src.cid,
            name: src.name,
            callsign: src.callsign,
            server: src.server,
            pilot_rating: src.pilot_rating,
            position: Point { lat: src.latitude, lng: src.longitude },
            altitude: src.altitude,
            groundspeed: src.groundspeed,
            transponder: src.transponder,
            heading: src.heading,
            qnh_i_hg: hundredths(src.qnh_i_hg),
            qnh_mb: unsigned(src.qnh_mb),
            flight_plan,
            logon_time,
            last_updated,
            aircraft_type,
        }
    }
}

} // verus!
