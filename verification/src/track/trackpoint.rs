//! One point of a pilot's track.

use crate::moving::pilot::Pilot;
use crate::trackfile::{
    i16_of, i32_of, signed_of, spec_signed_of, spec_signed_within, spec_word_of, word_of, Record,
    TrackEntry,
};
use vstd::prelude::*;

verus! {

/// Where a pilot was at a time: one entry of the track.
#[derive(Debug, Clone, Copy, PartialEq, Eq, Structural)]
pub struct TrackPoint {
    /// Millionths of a degree.
    pub lat: i64,
    /// Millionths of a degree.
    pub lng: i64,
    pub alt: i32,
    pub hdg: i16,
    pub gs: i32,
    /// Milliseconds since the Unix epoch.
    pub ts: i64,
}

impl Record for TrackPoint {
    open spec fn word_count() -> nat {
        6
    }

    open spec fn spec_encode(&self) -> Seq<u64> {
        seq![
            spec_word_of(self.lat as int),
            spec_word_of(self.lng as int),
            spec_word_of(self.alt as int),
            spec_word_of(self.hdg as int),
            spec_word_of(self.gs as int),
            spec_word_of(self.ts as int),
        ]
    }

    open spec fn spec_decode(w: Seq<u64>) -> Self {
        TrackPoint {
            lat: spec_signed_of(w[0]),
            lng: spec_signed_of(w[1]),
            alt: spec_signed_within(w[2], i32::MIN as int, i32::MAX as int) as i32,
            hdg: spec_signed_within(w[3], i16::MIN as int, i16::MAX as int) as i16,
            gs: spec_signed_within(w[4], i32::MIN as int, i32::MAX as int) as i32,
            ts: spec_signed_of(w[5]),
        }
    }

    proof fn lemma_roundtrip(&self) {
    }

    fn words() -> (n: usize) {
        6
    }

    fn encode(&self) -> (w: Vec<u64>) {
        let w = vec![
            word_of(self.lat),
            word_of(self.lng),
            word_of(self.alt as i64),
            word_of(self.hdg as i64),
            word_of(self.gs as i64),
            word_of(self.ts),
        ];
        assert(w@ =~= self.spec_encode());
        w
    }

    fn decode(w: &Vec<u64>) -> (r: Self) {
        TrackPoint {
            lat: signed_of(w[0]),
            lng: signed_of(w[1]),
            alt: i32_of(w[2]),
            hdg: i16_of(w[3]),
            gs: i32_of(w[4]),
            ts: signed_of(w[5]),
        }
    }
}

impl TrackEntry for TrackPoint {
    /// Two points say the same where all but their time is equal.
    open spec fn alike(&self, other: &Self) -> bool {
        self.lat == other.lat && self.lng == other.lng && self.alt == other.alt && self.hdg
            == other.hdg && self.gs == other.gs
    }

    fn same(&self, other: &Self) -> (b: bool) {
        self.lat == other.lat && self.lng == other.lng && self.alt == other.alt && self.hdg
            == other.hdg && self.gs == other.gs
    }

    fn copy(&self) -> (r: Self) {
        *self
    }
}

impl TrackPoint {
    /// Where and how fast `pilot` was when last heard of.
    pub open spec fn spec_of(pilot: &Pilot) -> TrackPoint {
        TrackPoint {
            lat: pilot.position.lat,
            lng: pilot.position.lng,
            alt: pilot.altitude,
            hdg: pilot.heading,
            gs: pilot.groundspeed,
            ts: pilot.last_updated,
        }
    }

    pub fn of(pilot: &Pilot) -> (tp: TrackPoint)
        ensures
            tp == TrackPoint::spec_of(pilot),
    {
        TrackPoint {
            lat: pilot.position.lat,
            lng: pilot.position.lng,
            alt: pilot.altitude,
            hdg: pilot.heading,
            gs: pilot.groundspeed,
            ts: pilot.last_updated,
        }
    }
}

} // verus!
