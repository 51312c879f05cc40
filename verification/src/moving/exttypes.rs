//! Records of the live feed, as they arrive. Coordinates and pressures are
//! fixed-point numbers in millionths.

use vstd::prelude::*;

verus! {

/// A flight plan as filed.
#[derive(Debug)]
pub struct FlightPlan {
    pub flight_rules: String,
    pub aircraft: String,
    pub departure: String,
    pub arrival: String,
    pub alternate: String,
    pub cruise_tas: String,
    pub altitude: String,
    pub deptime: String,
    pub enroute_time: String,
    pub fuel_time: String,
    pub remarks: String,
    pub route: String,
}

/// A [`FlightPlan`] as a mathematical value.
pub struct FlightPlanView {
    pub flight_rules: Seq<char>,
    pub aircraft: Seq<char>,
    pub departure: Seq<char>,
    pub arrival: Seq<char>,
    pub alternate: Seq<char>,
    pub cruise_tas: Seq<char>,
    pub altitude: Seq<char>,
    pub deptime: Seq<char>,
    pub enroute_time: Seq<char>,
    pub fuel_time: Seq<char>,
    pub remarks: Seq<char>,
    pub route: Seq<char>,
}

impl View for FlightPlan {
    type V = FlightPlanView;

    open spec fn view(&self) -> FlightPlanView {
        FlightPlanView {
            flight_rules: self.flight_rules@,
            aircraft: self.aircraft@,
            departure: self.departure@,
            arrival: self.arrival@,
            alternate: self.alternate@,
            cruise_tas: self.cruise_tas@,
            altitude: self.altitude@,
            deptime: self.deptime@,
            enroute_time: self.enroute_time@,
            fuel_time: self.fuel_time@,
            remarks: self.remarks@,
            route: self.route@,
        }
    }
}

impl Clone for FlightPlan {
    fn clone(&self) -> (r: Self)
        ensures
            r@ == self@,
    {
        FlightPlan {
            flight_rules: self.flight_rules.clone(),
            aircraft: self.aircraft.clone(),
            departure: self.departure.clone(),
            arrival: self.arrival.clone(),
            alternate: self.alternate.clone(),
            cruise_tas: self.cruise_tas.clone(),
            altitude: self.altitude.clone(),
            deptime: self.deptime.clone(),
            enroute_time: self.enroute_time.clone(),
            fuel_time: self.fuel_time.clone(),
            remarks: self.remarks.clone(),
            route: self.route.clone(),
        }
    }
}

impl FlightPlan {
    /// Whether the two are equal, field by field.
    pub fn same(&self, other: &Self) -> (b: bool)
        ensures
            b == (self@ == other@),
    {
        self.flight_rules == other.flight_rules
            && self.aircraft == other.aircraft
            && self.departure == other.departure
            && self.arrival == other.arrival
            && self.alternate == other.alternate
            && self.cruise_tas == other.cruise_tas
            && self.altitude == other.altitude
            && self.deptime == other.deptime
            && self.enroute_time == other.enroute_time
            && self.fuel_time == other.fuel_time
            && self.remarks == other.remarks
            && self.route == other.route
    }
}
/// A pilot of the feed.
#[derive(Debug)]
pub struct Pilot {
    pub cid: u32,
    pub name: String,
    pub callsign: String,
    pub server: String,
    pub pilot_rating: i32,
    /// Millionths of a degree.
    pub latitude: i64,
    /// Millionths of a degree.
    pub longitude: i64,
    pub altitude: i32,
    pub groundspeed: i32,
    pub transponder: String,
    pub heading: i16,
    /// Millionths of an inch of mercury.
    pub qnh_i_hg: i64,
    pub qnh_mb: i16,
    pub flight_plan: Option<FlightPlan>,
    pub logon_time: String,
    pub last_updated: String,
}

/// A [`Pilot`] as a mathematical value.
pub struct PilotView {
    pub cid: u32,
    pub name: Seq<char>,
    pub callsign: Seq<char>,
    pub server: Seq<char>,
    pub pilot_rating: i32,
    pub latitude: i64,
    pub longitude: i64,
    pub altitude: i32,
    pub groundspeed: i32,
    pub transponder: Seq<char>,
    pub heading: i16,
    pub qnh_i_hg: i64,
    pub qnh_mb: i16,
    pub flight_plan: Option<FlightPlanView>,
    pub logon_time: Seq<char>,
    pub last_updated: Seq<char>,
}

impl View for Pilot {
    type V = PilotView;

    open spec fn view(&self) -> PilotView {
        PilotView {
            cid: self.cid,
            name: self.name@,
            callsign: self.callsign@,
            server: self.server@,
            pilot_rating: self.pilot_rating,
            latitude: self.latitude,
            longitude: self.longitude,
            altitude: self.altitude,
            groundspeed: self.groundspeed,
            transponder: self.transponder@,
            heading: self.heading,
            qnh_i_hg: self.qnh_i_hg,
            qnh_mb: self.qnh_mb,
            flight_plan: match self.flight_plan {
                Some(x) => Some(x@),
                None => None,
            },
            logon_time: self.logon_time@,
            last_updated: self.last_updated@,
        }
    }
}

impl Clone for Pilot {
    fn clone(&self) -> (r: Self)
        ensures
            r@ == self@,
    {
        Pilot {
            cid: self.cid,
            name: self.name.clone(),
            callsign: self.callsign.clone(),
            server: self.server.clone(),
            pilot_rating: self.pilot_rating,
            latitude: self.latitude,
            longitude: self.longitude,
            altitude: self.altitude,
            groundspeed: self.groundspeed,
            transponder: self.transponder.clone(),
            heading: self.heading,
            qnh_i_hg: self.qnh_i_hg,
            qnh_mb: self.qnh_mb,
            flight_plan: match &self.flight_plan {
                Some(x) => Some(x.clone()),
                None => None,
            },
            logon_time: self.logon_time.clone(),
            last_updated: self.last_updated.clone(),
        }
    }
}

impl Pilot {
    /// Whether the two are equal, field by field.
    pub fn same(&self, other: &Self) -> (b: bool)
        ensures
            b == (self@ == other@),
    {
        self.cid == other.cid
            && self.name == other.name
            && self.callsign == other.callsign
            && self.server == other.server
            && self.pilot_rating == other.pilot_rating
            && self.latitude == other.latitude
            && self.longitude == other.longitude
            && self.altitude == other.altitude
            && self.groundspeed == other.groundspeed
            && self.transponder == other.transponder
            && self.heading == other.heading
            && self.qnh_i_hg == other.qnh_i_hg
            && self.qnh_mb == other.qnh_mb
            && (match (&self.flight_plan, &other.flight_plan) {
                (Some(x), Some(y)) => x.same(y),
                (None, None) => true,
                _ => false,
            })
            && self.logon_time == other.logon_time
            && self.last_updated == other.last_updated
    }
}
/// The head of a snapshot.
#[derive(Debug)]
pub struct General {
    pub version: u64,
    pub reload: u64,
    pub update: String,
    pub update_timestamp: String,
    pub connected_clients: u32,
    pub unique_users: u32,
}

/// A [`General`] as a mathematical value.
pub struct GeneralView {
    pub version: u64,
    pub reload: u64,
    pub update: Seq<char>,
    pub update_timestamp: Seq<char>,
    pub connected_clients: u32,
    pub unique_users: u32,
}

impl View for General {
    type V = GeneralView;

    open spec fn view(&self) -> GeneralView {
        GeneralView {
            version: self.version,
            reload: self.reload,
            update: self.update@,
            update_timestamp: self.update_timestamp@,
            connected_clients: self.connected_clients,
            unique_users: self.unique_users,
        }
    }
}

impl Clone for General {
    fn clone(&self) -> (r: Self)
        ensures
            r@ == self@,
    {
        General {
            version: self.version,
            reload: self.reload,
            update: self.update.clone(),
            update_timestamp: self.update_timestamp.clone(),
            connected_clients: self.connected_clients,
            unique_users: self.unique_users,
        }
    }
}

impl General {
    /// Whether the two are equal, field by field.
    pub fn same(&self, other: &Self) -> (b: bool)
        ensures
            b == (self@ == other@),
    {
        self.version == other.version
            && self.reload == other.reload
            && self.update == other.update
            && self.update_timestamp == other.update_timestamp
            && self.connected_clients == other.connected_clients
            && self.unique_users == other.unique_users
    }
}
/// A controller of the feed.
#[derive(Debug)]
pub struct Controller {
    pub cid: u32,
    pub callsign: String,
    pub name: String,
    pub frequency: String,
    pub facility: i8,
    pub rating: i32,
    pub server: String,
    pub visual_range: u32,
    pub atis_code: Option<String>,
    pub text_atis: Option<Vec<String>>,
    pub logon_time: String,
    pub last_updated: String,
}

/// A [`Controller`] as a mathematical value.
pub struct ControllerView {
    pub cid: u32,
    pub callsign: Seq<char>,
    pub name: Seq<char>,
    pub frequency: Seq<char>,
    pub facility: i8,
    pub rating: i32,
    pub server: Seq<char>,
    pub visual_range: u32,
    pub atis_code: Option<Seq<char>>,
    pub text_atis: Option<Seq<Seq<char>>>,
    pub logon_time: Seq<char>,
    pub last_updated: Seq<char>,
}

impl View for Controller {
    type V = ControllerView;

    open spec fn view(&self) -> ControllerView {
        ControllerView {
            cid: self.cid,
            callsign: self.callsign@,
            name: self.name@,
            frequency: self.frequency@,
            facility: self.facility,
            rating: self.rating,
            server: self.server@,
            visual_range: self.visual_range,
            atis_code: crate::text::opt_text(self.atis_code),
            text_atis: match self.text_atis {
                Some(lines) => Some(crate::text::string_views(lines@)),
                None => None,
            },
            logon_time: self.logon_time@,
            last_updated: self.last_updated@,
        }
    }
}

impl Clone for Controller {
    fn clone(&self) -> (r: Self)
        ensures
            r@ == self@,
    {
        Controller {
            cid: self.cid,
            callsign: self.callsign.clone(),
            name: self.name.clone(),
            frequency: self.frequency.clone(),
            facility: self.facility,
            rating: self.rating,
            server: self.server.clone(),
            visual_range: self.visual_range,
            atis_code: crate::text::clone_opt_text(&self.atis_code),
            text_atis: match &self.text_atis {
                Some(lines) => Some(crate::text::clone_texts(lines)),
                None => None,
            },
            logon_time: self.logon_time.clone(),
            last_updated: self.last_updated.clone(),
        }
    }
}

/// One snapshot of the feed.
#[derive(Debug)]
pub struct Data {
    pub general: General,
    pub pilots: Vec<Pilot>,
    pub controllers: Vec<Controller>,
    pub atis: Vec<Controller>,
}

} // verus!
