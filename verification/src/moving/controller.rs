//! Controllers and the facilities they staff.

use crate::moving::exttypes;
use crate::text::{decimal_text_within, joined, parse_decimal_within};
use crate::timefmt::{instant_or, parse_instant_or};
use vstd::prelude::*;

verus! {

/// What a controller looks after.
#[derive(Debug, Clone, Copy, PartialEq, Eq, Structural)]
pub enum Facility {
    Reject,
    ATIS,
    Delivery,
    Ground,
    Tower,
    Approach,
    Radar,
}

impl Facility {
    /// The facility that the code of the feed stands for; any code out of
    /// `1..=6` is rejected.
    pub open spec fn spec_from_code(v: i8) -> Facility {
        if v == 1 {
            Facility::ATIS
        } else if v == 2 {
            Facility::Delivery
        } else if v == 3 {
            Facility::Ground
        } else if v == 4 {
            Facility::Tower
        } else if v == 5 {
            Facility::Approach
        } else if v == 6 {
            Facility::Radar
        } else {
            Facility::Reject
        }
    }

    /// The name of the facility in lower case, as labels use it.
    pub open spec fn spec_label(self) -> Seq<char> {
        match self {
            Facility::Reject => "reject"@,
            Facility::ATIS => "atis"@,
            Facility::Delivery => "delivery"@,
            Facility::Ground => "ground"@,
            Facility::Tower => "tower"@,
            Facility::Approach => "approach"@,
            Facility::Radar => "radar"@,
        }
    }

    /// The name of the facility as it is spoken, for the five facilities of
    /// an airport.
    pub open spec fn spec_title(self) -> Seq<char> {
        match self {
            Facility::ATIS => "ATIS"@,
            Facility::Delivery => "Delivery"@,
            Facility::Ground => "Ground"@,
            Facility::Tower => "Tower"@,
            Facility::Approach => "Approach"@,
            _ => ""@,
        }
    }

    pub fn from_code(v: i8) -> (f: Facility)
        ensures
            f == Facility::spec_from_code(v),
    {
        if v == 1 {
            Facility::ATIS
        } else if v == 2 {
            Facility::Delivery
        } else if v == 3 {
            Facility::Ground
        } else if v == 4 {
            Facility::Tower
        } else if v == 5 {
            Facility::Approach
        } else if v == 6 {
            Facility::Radar
        } else {
            Facility::Reject
        }
    }

    pub fn to_string(&self) -> (s: String)
        ensures
            s@ == self.spec_label(),
    {
        match self {
            Facility::Reject => "reject".to_owned(),
            Facility::ATIS => "atis".to_owned(),
            Facility::Delivery => "delivery".to_owned(),
            Facility::Ground => "ground".to_owned(),
            Facility::Tower => "tower".to_owned(),
            Facility::Approach => "approach".to_owned(),
            Facility::Radar => "radar".to_owned(),
        }
    }

    pub fn title(&self) -> (s: &'static str)
        ensures
            s@ == self.spec_title(),
    {
        match self {
            Facility::ATIS => "ATIS",
            Facility::Delivery => "Delivery",
            Facility::Ground => "Ground",
            Facility::Tower => "Tower",
            Facility::Approach => "Approach",
            _ => "",
        }
    }
}

/// A controller that is online.
#[derive(Debug)]
pub struct Controller {
    pub cid: u32,
    pub name: String,
    pub callsign: String,
    /// Frequency in kHz.
    pub freq: u32,
    pub facility: Facility,
    pub rating: i32,
    pub server: String,
    pub visual_range: u32,
    pub atis_code: String,
    pub text_atis: String,
    pub human_readable: Option<String>,
    /// Milliseconds since the Unix epoch.
    pub last_updated: i64,
    /// Milliseconds since the Unix epoch.
    pub logon_time: i64,
}

/// A [`Controller`] as a mathematical value.
pub struct ControllerView {
    pub cid: u32,
    pub name: Seq<char>,
    pub callsign: Seq<char>,
    pub freq: u32,
    pub facility: Facility,
    pub rating: i32,
    pub server: Seq<char>,
    pub visual_range: u32,
    pub atis_code: Seq<char>,
    pub text_atis: Seq<char>,
    pub human_readable: Option<Seq<char>>,
    pub last_updated: i64,
    pub logon_time: i64,
}

impl View for Controller {
    type V = ControllerView;

    open spec fn view(&self) -> ControllerView {
        ControllerView {
            cid: self.cid,
            name: self.name@,
            callsign: self.callsign@,
            freq: self.freq,
            facility: self.facility,
            rating: self.rating,
            server: self.server@,
            visual_range: self.visual_range,
            atis_code: self.atis_code@,
            text_atis: self.text_atis@,
            human_readable: crate::text::opt_text(self.human_readable),
            last_updated: self.last_updated,
            logon_time: self.logon_time,
        }
    }
}

impl Clone for Controller {
    fn clone(&self) -> (r: Self)
        ensures
            r@ == self@,
    {
        Controller {
            cid: self.cid,
            name: self.name.clone(),
            callsign: self.callsign.clone(),
            freq: self.freq,
            facility: self.facility,
            rating: self.rating,
            server: self.server.clone(),
            visual_range: self.visual_range,
            atis_code: self.atis_code.clone(),
            text_atis: self.text_atis.clone(),
            human_readable: crate::text::clone_opt_text(&self.human_readable),
            last_updated: self.last_updated,
            logon_time: self.logon_time,
        }
    }
}

impl ControllerView {
    /// Whether the two are the same controller in the same state: all but
    /// the time of the last update is equal.
    pub open spec fn alike(self, other: ControllerView) -> bool {
        (ControllerView { last_updated: other.last_updated, ..self }) == other
    }
}

impl Controller {
    /// Whether the two are alike: the time of the last update is not
    /// looked at.
    pub fn same(&self, other: &Self) -> (b: bool)
        ensures
            b == self@.alike(other@),
    {
        self.cid == other.cid && self.name == other.name && self.callsign == other.callsign
            && self.freq == other.freq && self.facility == other.facility && self.rating
            == other.rating && self.server == other.server && self.visual_range
            == other.visual_range && self.atis_code == other.atis_code && self.text_atis
            == other.text_atis && crate::text::same_opt_text(
            &self.human_readable,
            &other.human_readable,
        ) && self.logon_time == other.logon_time
    }
}
/// The controllers of an airport: at most one per facility.
#[derive(Debug)]
pub struct ControllerSet {
    pub atis: Option<Controller>,
    pub delivery: Option<Controller>,
    pub ground: Option<Controller>,
    pub tower: Option<Controller>,
    pub approach: Option<Controller>,
}

/// A [`ControllerSet`] as a mathematical value.
pub struct ControllerSetView {
    pub atis: Option<ControllerView>,
    pub delivery: Option<ControllerView>,
    pub ground: Option<ControllerView>,
    pub tower: Option<ControllerView>,
    pub approach: Option<ControllerView>,
}

impl View for ControllerSet {
    type V = ControllerSetView;

    open spec fn view(&self) -> ControllerSetView {
        ControllerSetView {
            atis: match self.atis {
                Some(x) => Some(x@),
                None => None,
            },
            delivery: match self.delivery {
                Some(x) => Some(x@),
                None => None,
            },
            ground: match self.ground {
                Some(x) => Some(x@),
                None => None,
            },
            tower: match self.tower {
                Some(x) => Some(x@),
                None => None,
            },
            approach: match self.approach {
                Some(x) => Some(x@),
                None => None,
            },
        }
    }
}

impl Clone for ControllerSet {
    fn clone(&self) -> (r: Self)
        ensures
            r@ == self@,
    {
        ControllerSet {
            atis: match &self.atis {
                Some(x) => Some(x.clone()),
                None => None,
            },
            delivery: match &self.delivery {
                Some(x) => Some(x.clone()),
                None => None,
            },
            ground: match &self.ground {
                Some(x) => Some(x.clone()),
                None => None,
            },
            tower: match &self.tower {
                Some(x) => Some(x.clone()),
                None => None,
            },
            approach: match &self.approach {
                Some(x) => Some(x.clone()),
                None => None,
            },
        }
    }
}

impl ControllerSetView {
    /// Whether the two are the same but for what `alike` overlooks in their parts.
    pub open spec fn alike(self, other: ControllerSetView) -> bool {
        &&& match (self.atis, other.atis) {
            (Some(x), Some(y)) => x.alike(y),
            (None, None) => true,
            _ => false,
        }
        &&& match (self.delivery, other.delivery) {
            (Some(x), Some(y)) => x.alike(y),
            (None, None) => true,
            _ => false,
        }
        &&& match (self.ground, other.ground) {
            (Some(x), Some(y)) => x.alike(y),
            (None, None) => true,
            _ => false,
        }
        &&& match (self.tower, other.tower) {
            (Some(x), Some(y)) => x.alike(y),
            (None, None) => true,
            _ => false,
        }
        &&& match (self.approach, other.approach) {
            (Some(x), Some(y)) => x.alike(y),
            (None, None) => true,
            _ => false,
        }
    }
}

impl ControllerSet {
    /// Whether the two are alike.
    pub fn same(&self, other: &Self) -> (b: bool)
        ensures
            b == self@.alike(other@),
    {
        (match (&self.atis, &other.atis) {
                (Some(x), Some(y)) => x.same(y),
                (None, None) => true,
                _ => false,
            })
            && (match (&self.delivery, &other.delivery) {
                (Some(x), Some(y)) => x.same(y),
                (None, None) => true,
                _ => false,
            })
            && (match (&self.ground, &other.ground) {
                (Some(x), Some(y)) => x.same(y),
                (None, None) => true,
                _ => false,
            })
            && (match (&self.tower, &other.tower) {
                (Some(x), Some(y)) => x.same(y),
                (None, None) => true,
                _ => false,
            })
            && (match (&self.approach, &other.approach) {
                (Some(x), Some(y)) => x.same(y),
                (None, None) => true,
                _ => false,
            })
    }
}
impl ControllerSetView {
    pub open spec fn is_empty(self) -> bool {
        self.atis is None && self.delivery is None && self.ground is None && self.tower is None
            && self.approach is None
    }

    pub open spec fn empty() -> ControllerSetView {
        ControllerSetView { atis: None, delivery: None, ground: None, tower: None, approach: None }
    }
}

impl ControllerSet {
    pub fn empty() -> (r: Self)
        ensures
            r@ == ControllerSetView::empty(),
    {
        ControllerSet { atis: None, delivery: None, ground: None, tower: None, approach: None }
    }

    pub fn is_empty(&self) -> (b: bool)
        ensures
            b == self@.is_empty(),
    {
        self.atis.is_none() && self.delivery.is_none() && self.ground.is_none()
            && self.tower.is_none() && self.approach.is_none()
    }
}

/// A frequency in kHz from its notation in MHz; 0 for a text that is no
/// number, and for a negative one. What does not fit 32 bits is held at the
/// largest value.
pub open spec fn spec_frequency(text: Seq<char>) -> u32 {
    match decimal_text_within(text, i64::MIN as int, i64::MAX as int) {
        Some(v) => if v < 0 {
            0
        } else if v / 1000 > u32::MAX {
            u32::MAX
        } else {
            (v / 1000) as u32
        },
        None => 0,
    }
}

pub fn frequency_khz(text: &str) -> (f: u32)
    ensures
        f == spec_frequency(text@),
{
    match parse_decimal_within(text, i64::MIN, i64::MAX) {
        Some(v) => {
            if v < 0 {
                0
            } else if v / 1000 > 0xffff_ffff {
                0xffff_ffff
            } else {
                (v / 1000) as u32
            }
        },
        None => 0,
    }
}

impl exttypes::ControllerView {
    /// The controller that a record of the feed describes. `now` stands in
    /// for a time that cannot be read.
    pub open spec fn converted(self, now: i64) -> ControllerView {
        ControllerView {
            cid: self.cid,
            name: self.name,
            callsign: self.callsign,
            freq: spec_frequency(self.frequency),
            facility: Facility::spec_from_code(self.facility),
            rating: self.rating,
            server: self.server,
            visual_range: self.visual_range,
            atis_code: match self.atis_code {
                Some(c) => c,
                None => Seq::empty(),
            },
            text_atis: match self.text_atis {
                Some(lines) => joined(lines, "\n"@),
                None => Seq::empty(),
            },
            human_readable: None,
            last_updated: instant_or(self.last_updated, now),
            logon_time: instant_or(self.logon_time, now),
        }
    }
}

impl Controller {
    /// The controller that a record of the feed describes. `now` stands in
    /// for a time that cannot be read.
    pub fn from_ext(ctrl: exttypes::Controller, now: i64) -> (r: Controller)
        ensures
            r@ == ctrl@.converted(now),
    {
        let freq = frequency_khz(ctrl.frequency.as_str());
        let text_atis = match &ctrl.text_atis {
            Some(ta) => crate::text::join(ta, "\n"),
            None => String::new(),
        };
        let atis_code = match ctrl.atis_code {
            Some(c) => c,
            None => String::new(),
        };
        Controller {
            cid: ctrl.cid,
            name: ctrl.name,
            callsign: ctrl.callsign,
            freq,
            facility: Facility::from_code(ctrl.facility),
            rating: ctrl.rating,
            server: ctrl.server,
            visual_range: ctrl.visual_range,
            atis_code,
            text_atis,
            human_readable: None,
            last_updated: parse_instant_or(ctrl.last_updated.as_str(), now),
            logon_time: parse_instant_or(ctrl.logon_time.as_str(), now),
        }
    }
}

} // verus!
