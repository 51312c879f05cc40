//! What a flight reports of itself: telemetry in fixed-point numbers, one unit
//! being a millionth, and the header of the file that keeps it.

use crate::trackfile::{
    signed_of, spec_signed_of, spec_word_of, spec_word_of_bool, word_of, word_of_bool, Record,
    TrackEntry as Entry, TrackFileHeader,
};
use vstd::prelude::*;

verus! {

pub const TRACK_VERSION: u64 = 1;

pub const TRACK_MAGIC_NUMBER: u64 = 0xAA99AA881011889C;

/// The identifier that a fresh header carries.
pub const DEFAULT_UUID: &'static str = "47cb897f-ada4-4a94-b9c3-ad8e4dd1f73f";

/// Where the aircraft is and how it moves.
#[derive(Debug, Clone, Copy, PartialEq, Eq, Structural)]
pub struct TrackPoint {
    pub ts: u64,
    pub lat: i64,
    pub lng: i64,
    pub hdg_true: i64,
    pub alt_amsl: i64,
    pub alt_agl: i64,
    pub gnd_height: i64,
    pub crs: i64,
    pub ias: i64,
    pub tas: i64,
    pub gs: i64,
    pub ap_master: bool,
    pub gear_pct: i64,
    pub flaps: i64,
    pub on_gnd: bool,
    pub on_rwy: bool,
    pub wind_vel: i64,
    pub wind_dir: i64,
    pub distance: i64,
}

impl Record for TrackPoint {
    open spec fn word_count() -> nat {
        19
    }

    open spec fn spec_encode(&self) -> Seq<u64> {
        seq![
            self.ts,
            spec_word_of(self.lat as int),
            spec_word_of(self.lng as int),
            spec_word_of(self.hdg_true as int),
            spec_word_of(self.alt_amsl as int),
            spec_word_of(self.alt_agl as int),
            spec_word_of(self.gnd_height as int),
            spec_word_of(self.crs as int),
            spec_word_of(self.ias as int),
            spec_word_of(self.tas as int),
            spec_word_of(self.gs as int),
            spec_word_of_bool(self.ap_master),
            spec_word_of(self.gear_pct as int),
            spec_word_of(self.flaps as int),
            spec_word_of_bool(self.on_gnd),
            spec_word_of_bool(self.on_rwy),
            spec_word_of(self.wind_vel as int),
            spec_word_of(self.wind_dir as int),
            spec_word_of(self.distance as int),
        ]
    }

    open spec fn spec_decode(w: Seq<u64>) -> Self {
        TrackPoint {
            ts: w[0],
            lat: spec_signed_of(w[1]),
            lng: spec_signed_of(w[2]),
            hdg_true: spec_signed_of(w[3]),
            alt_amsl: spec_signed_of(w[4]),
            alt_agl: spec_signed_of(w[5]),
            gnd_height: spec_signed_of(w[6]),
            crs: spec_signed_of(w[7]),
            ias: spec_signed_of(w[8]),
            tas: spec_signed_of(w[9]),
            gs: spec_signed_of(w[10]),
            ap_master: w[11] != 0,
            gear_pct: spec_signed_of(w[12]),
            flaps: spec_signed_of(w[13]),
            on_gnd: w[14] != 0,
            on_rwy: w[15] != 0,
            wind_vel: spec_signed_of(w[16]),
            wind_dir: spec_signed_of(w[17]),
            distance: spec_signed_of(w[18]),
        }
    }

    proof fn lemma_roundtrip(&self) {
    }

    fn words() -> (n: usize) {
        19
    }

    fn encode(&self) -> (w: Vec<u64>) {
        let w = vec![
            self.ts,
            word_of(self.lat),
            word_of(self.lng),
            word_of(self.hdg_true),
            word_of(self.alt_amsl),
            word_of(self.alt_agl),
            word_of(self.gnd_height),
            word_of(self.crs),
            word_of(self.ias),
            word_of(self.tas),
            word_of(self.gs),
            word_of_bool(self.ap_master),
            word_of(self.gear_pct),
            word_of(self.flaps),
            word_of_bool(self.on_gnd),
            word_of_bool(self.on_rwy),
            word_of(self.wind_vel),
            word_of(self.wind_dir),
            word_of(self.distance),
        ];
        assert(w@ =~= self.spec_encode());
        w
    }

    fn decode(w: &Vec<u64>) -> (r: Self) {
        TrackPoint {
            ts: w[0],
            lat: signed_of(w[1]),
            lng: signed_of(w[2]),
            hdg_true: signed_of(w[3]),
            alt_amsl: signed_of(w[4]),
            alt_agl: signed_of(w[5]),
            gnd_height: signed_of(w[6]),
            crs: signed_of(w[7]),
            ias: signed_of(w[8]),
            tas: signed_of(w[9]),
            gs: signed_of(w[10]),
            ap_master: w[11] != 0,
            gear_pct: signed_of(w[12]),
            flaps: signed_of(w[13]),
            on_gnd: w[14] != 0,
            on_rwy: w[15] != 0,
            wind_vel: signed_of(w[16]),
            wind_dir: signed_of(w[17]),
            distance: signed_of(w[18]),
        }
    }
}

/// How the aircraft met the ground.
#[derive(Debug, Clone, Copy, PartialEq, Eq, Structural)]
pub struct TouchDown {
    pub ts: u64,
    pub bank: i64,
    pub hdg_mag: i64,
    pub hdg_true: i64,
    pub vel_nrm: i64,
    pub pitch: i64,
    pub lat: i64,
    pub lng: i64,
}

impl Record for TouchDown {
    open spec fn word_count() -> nat {
        8
    }

    open spec fn spec_encode(&self) -> Seq<u64> {
        seq![
            self.ts,
            spec_word_of(self.bank as int),
            spec_word_of(self.hdg_mag as int),
            spec_word_of(self.hdg_true as int),
            spec_word_of(self.vel_nrm as int),
            spec_word_of(self.pitch as int),
            spec_word_of(self.lat as int),
            spec_word_of(self.lng as int),
        ]
    }

    open spec fn spec_decode(w: Seq<u64>) -> Self {
        TouchDown {
            ts: w[0],
            bank: spec_signed_of(w[1]),
            hdg_mag: spec_signed_of(w[2]),
            hdg_true: spec_signed_of(w[3]),
            vel_nrm: spec_signed_of(w[4]),
            pitch: spec_signed_of(w[5]),
            lat: spec_signed_of(w[6]),
            lng: spec_signed_of(w[7]),
        }
    }

    proof fn lemma_roundtrip(&self) {
    }

    fn words() -> (n: usize) {
        8
    }

    fn encode(&self) -> (w: Vec<u64>) {
        let w = vec![
            self.ts,
            word_of(self.bank),
            word_of(self.hdg_mag),
            word_of(self.hdg_true),
            word_of(self.vel_nrm),
            word_of(self.pitch),
            word_of(self.lat),
            word_of(self.lng),
        ];
        assert(w@ =~= self.spec_encode());
        w
    }

    fn decode(w: &Vec<u64>) -> (r: Self) {
        TouchDown {
            ts: w[0],
            bank: signed_of(w[1]),
            hdg_mag: signed_of(w[2]),
            hdg_true: signed_of(w[3]),
            vel_nrm: signed_of(w[4]),
            pitch: signed_of(w[5]),
            lat: signed_of(w[6]),
            lng: signed_of(w[7]),
        }
    }
}

/// One entry of the file of a flight.
#[derive(Debug, Clone, Copy, PartialEq, Eq, Structural)]
pub enum TrackEntry {
    TrackPoint(TrackPoint),
    TouchDown(TouchDown),
}

/// `w`, filled up with zeros to the length `n`.
pub open spec fn filled(w: Seq<u64>, n: nat) -> Seq<u64> {
    if w.len() >= n {
        w
    } else {
        w + Seq::new((n - w.len()) as nat, |i: int| 0u64)
    }
}

impl Record for TrackEntry {
    /// One word that tells the kind, and the words of the longer kind.
    open spec fn word_count() -> nat {
        20
    }

    open spec fn spec_encode(&self) -> Seq<u64> {
        match self {
            TrackEntry::TrackPoint(p) => seq![0u64] + p.spec_encode(),
            TrackEntry::TouchDown(t) => seq![1u64] + filled(t.spec_encode(), 19),
        }
    }

    open spec fn spec_decode(w: Seq<u64>) -> Self {
        if w[0] == 1 {
            TrackEntry::TouchDown(TouchDown::spec_decode(w.subrange(1, 9)))
        } else {
            TrackEntry::TrackPoint(TrackPoint::spec_decode(w.subrange(1, 20)))
        }
    }

    proof fn lemma_roundtrip(&self) {
        match self {
            TrackEntry::TrackPoint(p) => {
                p.lemma_roundtrip();
                assert(self.spec_encode().subrange(1, 20) =~= p.spec_encode());
            },
            TrackEntry::TouchDown(t) => {
                t.lemma_roundtrip();
                assert(self.spec_encode().subrange(1, 9) =~= t.spec_encode());
            },
        }
    }

    fn words() -> (n: usize) {
        20
    }

    fn encode(&self) -> (w: Vec<u64>) {
        let mut w: Vec<u64> = Vec::new();
        match self {
            TrackEntry::TrackPoint(p) => {
                w.push(0);
                let mut rest = p.encode();
                w.append(&mut rest);
                assert(w@ =~= self.spec_encode());
            },
            TrackEntry::TouchDown(t) => {
                w.push(1);
                let mut rest = t.encode();
                w.append(&mut rest);
                let mut k: usize = 0;
                while k < 11
                    invariant
                        k <= 11,
                        w@ == seq![1u64] + t.spec_encode() + Seq::new(k as nat, |i: int| 0u64),
                    decreases 11 - k,
                {
                    w.push(0);
                    k += 1;
                    assert(w@ =~= seq![1u64] + t.spec_encode() + Seq::new(k as nat, |i: int| 0u64));
                }
                assert(w@ =~= self.spec_encode());
            },
        }
        w
    }

    fn decode(w: &Vec<u64>) -> (r: Self) {
        if w[0] == 1 {
            let mut part: Vec<u64> = Vec::new();
            let mut k: usize = 1;
            while k < 9
                invariant
                    1 <= k <= 9,
                    w@.len() == 20,
                    part@ == w@.subrange(1, k as int),
                decreases 9 - k,
            {
                part.push(w[k]);
                k += 1;
                assert(part@ =~= w@.subrange(1, k as int));
            }
            TrackEntry::TouchDown(TouchDown::decode(&part))
        } else {
            let mut part: Vec<u64> = Vec::new();
            let mut k: usize = 1;
            while k < 20
                invariant
                    1 <= k <= 20,
                    w@.len() == 20,
                    part@ == w@.subrange(1, k as int),
                decreases 20 - k,
            {
                part.push(w[k]);
                k += 1;
                assert(part@ =~= w@.subrange(1, k as int));
            }
            TrackEntry::TrackPoint(TrackPoint::decode(&part))
        }
    }
}

impl TrackPoint {
    /// Whether the two points say the same: all but their time is equal.
    pub open spec fn alike(&self, other: &Self) -> bool {
        (TrackPoint { ts: other.ts, ..*self }) == *other
    }
}

impl Entry for TrackEntry {
    /// Two points say the same where all but their time is equal. A
    /// touchdown says the same as nothing else, so that each one is kept.
    open spec fn alike(&self, other: &Self) -> bool {
        match (self, other) {
            (TrackEntry::TrackPoint(l), TrackEntry::TrackPoint(r)) => l.alike(r),
            _ => false,
        }
    }

    fn same(&self, other: &Self) -> (b: bool) {
        match (self, other) {
            (TrackEntry::TrackPoint(l), TrackEntry::TrackPoint(r)) => {
                l.lat == r.lat && l.lng == r.lng && l.hdg_true == r.hdg_true && l.alt_amsl
                    == r.alt_amsl && l.alt_agl == r.alt_agl && l.gnd_height == r.gnd_height && l.crs
                    == r.crs && l.ias == r.ias && l.tas == r.tas && l.gs == r.gs && l.ap_master
                    == r.ap_master && l.gear_pct == r.gear_pct && l.flaps == r.flaps && l.on_gnd
                    == r.on_gnd && l.on_rwy == r.on_rwy && l.wind_dir == r.wind_dir && l.wind_vel
                    == r.wind_vel && l.distance == r.distance
            },
            _ => false,
        }
    }

    fn copy(&self) -> (r: Self) {
        *self
    }
}

/// The byte that a word stands for in an identifier: the word itself where
/// it fits a byte, else 0.
pub open spec fn byte_of(w: u64) -> u8 {
    if w < 256 {
        w as u8
    } else {
        0
    }
}

/// The identifier made of the first `k` of the words `w`, zeros behind.
pub open spec fn uuid_of(w: Seq<u64>, k: nat) -> [u8; 36]
    decreases k,
{
    if k == 0 {
        vstd::array::spec_array_fill_for_copy_type::<u8, 36>(0u8)
    } else {
        vstd::array::spec_array_update(
            uuid_of(w, (k - 1) as nat),
            k - 1,
            byte_of(w[k - 1]),
        )
    }
}

/// The identifier made of the first `k` words holds their low bytes, and
/// zeros behind them.
pub proof fn lemma_uuid_of(w: Seq<u64>, k: nat)
    requires
        k <= 36,
    ensures
        forall|i: int| 0 <= i < k ==> #[trigger] uuid_of(w, k)@[i] == byte_of(w[i]),
        forall|i: int| k <= i < 36 ==> #[trigger] uuid_of(w, k)@[i] == 0,
        uuid_of(w, k)@.len() == 36,
    decreases k,
{
    broadcast use vstd::array::group_array_axioms;

    if k == 0 {
        vstd::array::axiom_spec_array_fill_for_copy_type::<u8, 36>(0u8);
    } else {
        lemma_uuid_of(w, (k - 1) as nat);
        vstd::array::axiom_spec_array_update(uuid_of(w, (k - 1) as nat), k - 1, byte_of(w[k - 1]));
    }
}

fn ascii_byte(c: char) -> (b: u8)
    requires
        c <= '\u{7f}',
    ensures
        b as char == c,
{
    assert(c as int <= 127);
    let code: u32 = c as u32;
    code as u8
}

/// The header of a flight's file: that of a track file, and the identifier
/// of the flight in 36 ASCII characters.
#[derive(Debug, Clone, Copy)]
pub struct Header {
    version: u64,
    magic: u64,
    ts: u64,
    count: u64,
    uuid: [u8; 36],
}

impl Header {
    pub closed spec fn spec_uuid(&self) -> Seq<char> {
        Seq::new(36, |i: int| self.uuid@[i] as char)
    }

    /// The identifier of the flight: 36 characters, each the one with the
    /// code of its byte.
    pub fn uuid(&self) -> (s: String)
        ensures
            s@ == self.spec_uuid(),
            s@.len() == 36,
    {
        broadcast use vstd::array::group_array_axioms;

        let mut s = String::new();
        let mut i: usize = 0;
        while i < 36
            invariant
                i <= 36,
                s@.len() == i,
                forall|k: int| 0 <= k < i ==> #[trigger] s@[k] == self.uuid@[k] as char,
            decreases 36 - i,
        {
            let b: u8 = self.uuid[i];
            s.push(b as char);
            i += 1;
        }
        assert(s@ =~= self.spec_uuid());
        s
    }

    /// Sets the identifier of the flight, which must be made of at most 36
    /// ASCII characters; the characters behind its end stay as they were.
    pub fn set_uuid(&mut self, uuid: &str)
        requires
            uuid@.len() <= 36,
            forall|i: int| 0 <= i < uuid@.len() ==> #[trigger] uuid@[i] <= '\u{7f}',
        ensures
            final(self).spec_uuid() == uuid@ + old(self).spec_uuid().subrange(
                uuid@.len() as int,
                36,
            ),
            final(self).spec_uuid().len() == 36,
            uuid@.len() == 36 ==> final(self).spec_uuid() == uuid@,
            final(self).spec_version() == old(self).spec_version(),
            final(self).spec_count() == old(self).spec_count(),
            final(self).spec_timestamp() == old(self).spec_timestamp(),
            final(self).spec_check_magic() == old(self).spec_check_magic(),
    {
        broadcast use vstd::array::group_array_axioms;

        let chars = crate::text::chars_of(uuid);
        let mut i: usize = 0;
        while i < chars.len()
            invariant
                i <= chars.len() <= 36,
                chars@ == uuid@,
                forall|k: int| 0 <= k < chars@.len() ==> #[trigger] chars@[k] <= '\u{7f}',
                self.version == old(self).version,
                self.magic == old(self).magic,
                self.ts == old(self).ts,
                self.count == old(self).count,
                forall|k: int| 0 <= k < i ==> #[trigger] self.uuid@[k] as char == chars@[k],
                forall|k: int| i <= k < 36 ==> #[trigger] self.uuid@[k] == old(self).uuid@[k],
            decreases chars.len() - i,
        {
            let c = chars[i];
            assert(c <= '\u{7f}');
            let b: u8 = ascii_byte(c);
            self.uuid[i] = b;
            i += 1;
        }
        assert(self.spec_uuid() =~= uuid@ + old(self).spec_uuid().subrange(uuid@.len() as int, 36));
        assert(uuid@.len() == 36 ==> self.spec_uuid() =~= uuid@);
    }

    /// The identifier of a flight has 36 characters, each of them ASCII or
    /// one of the 128 characters behind.
    pub proof fn lemma_uuid_len(&self)
        ensures
            self.spec_uuid().len() == 36,
            forall|i: int| 0 <= i < 36 ==> #[trigger] self.spec_uuid()[i] <= '\u{ff}',
    {
    }
}

impl Record for Header {
    open spec fn word_count() -> nat {
        40
    }

    closed spec fn spec_encode(&self) -> Seq<u64> {
        seq![self.version, self.magic, self.ts, self.count] + Seq::new(
            36,
            |i: int| self.uuid@[i] as u64,
        )
    }

    closed spec fn spec_decode(w: Seq<u64>) -> Self {
        Header {
            version: w[0],
            magic: w[1],
            ts: w[2],
            count: w[3],
            uuid: uuid_of(w.subrange(4, 40), 36),
        }
    }

    proof fn lemma_roundtrip(&self) {
        broadcast use vstd::array::group_array_axioms;

        let w = self.spec_encode();
        lemma_uuid_of(w.subrange(4, 40), 36);
        let back = Header::spec_decode(w);
        assert(back.uuid =~= self.uuid);
    }

    fn words() -> (n: usize) {
        40
    }

    fn encode(&self) -> (w: Vec<u64>) {
        broadcast use vstd::array::group_array_axioms;

        let mut w: Vec<u64> = vec![self.version, self.magic, self.ts, self.count];
        let mut i: usize = 0;
        while i < 36
            invariant
                i <= 36,
                w@ == seq![self.version, self.magic, self.ts, self.count] + Seq::new(
                    i as nat,
                    |k: int| self.uuid@[k] as u64,
                ),
            decreases 36 - i,
        {
            w.push(self.uuid[i] as u64);
            i += 1;
            assert(w@ =~= seq![self.version, self.magic, self.ts, self.count] + Seq::new(
                i as nat,
                |k: int| self.uuid@[k] as u64,
            ));
        }
        w
    }

    fn decode(w: &Vec<u64>) -> (r: Self) {
        broadcast use vstd::array::group_array_axioms;

        let mut uuid: [u8; 36] = [0u8; 36];
        let ghost tail = w@.subrange(4, 40);
        let mut i: usize = 0;
        proof {
            lemma_uuid_of(tail, 0);
        }
        while i < 36
            invariant
                i <= 36,
                w@.len() == 40,
                tail == w@.subrange(4, 40),
                uuid@ == uuid_of(tail, i as nat)@,
            decreases 36 - i,
        {
            let word: u64 = w[4 + i];
            let b: u8 = if word < 256 { word as u8 } else { 0 };
            proof {
                lemma_uuid_of(tail, i as nat);
                lemma_uuid_of(tail, (i + 1) as nat);
            }
            uuid[i] = b;
            i += 1;
            assert(uuid@ =~= uuid_of(tail, i as nat)@);
        }
        assert(uuid =~= uuid_of(tail, 36));
        Header { version: w[0], magic: w[1], ts: w[2], count: w[3], uuid }
    }
}


/// The words of the identifier that a fresh header carries.
pub open spec fn default_uuid_words() -> Seq<u64> {
    Seq::new(36, |i: int| DEFAULT_UUID@[i] as u64)
}

impl TrackFileHeader for Header {
    closed spec fn spec_check_magic(&self) -> bool {
        self.magic == TRACK_MAGIC_NUMBER
    }

    closed spec fn spec_version(&self) -> u64 {
        self.version
    }

    closed spec fn spec_timestamp(&self) -> u64 {
        self.ts
    }

    closed spec fn spec_count(&self) -> u64 {
        self.count
    }

    closed spec fn spec_default(now: u64) -> Self {
        Header {
            version: TRACK_VERSION,
            magic: TRACK_MAGIC_NUMBER,
            ts: now,
            count: 0,
            uuid: uuid_of(default_uuid_words(), 36),
        }
    }

    closed spec fn spec_inc(&self, now: u64) -> Self {
        Header {
            version: self.version,
            magic: self.magic,
            ts: now,
            count: if self.count < u64::MAX {
                (self.count + 1) as u64
            } else {
                self.count
            },
            uuid: self.uuid,
        }
    }

    proof fn lemma_header(&self, now: u64) {
    }

    fn default_at(now: u64) -> (h: Self) {
        broadcast use vstd::array::group_array_axioms;

        let mut h = Header {
            version: TRACK_VERSION,
            magic: TRACK_MAGIC_NUMBER,
            ts: now,
            count: 0,
            uuid: [0u8; 36],
        };
        proof {
            reveal_strlit("47cb897f-ada4-4a94-b9c3-ad8e4dd1f73f");
            lemma_uuid_of(default_uuid_words(), 36);
        }
        h.set_uuid(DEFAULT_UUID);
        proof {
            assert forall|i: int| 0 <= i < 36 implies h.uuid@[i] == uuid_of(
                default_uuid_words(),
                36,
            )@[i] by {
                assert(h.spec_uuid()[i] == DEFAULT_UUID@[i]);
            }
            assert(h.uuid =~= uuid_of(default_uuid_words(), 36));
        }
        h
    }

    fn check_magic(&self) -> (b: bool) {
        self.magic == TRACK_MAGIC_NUMBER
    }

    fn version(&self) -> (v: u64) {
        self.version
    }

    fn timestamp(&self) -> (t: u64) {
        self.ts
    }

    fn count(&self) -> (n: u64) {
        self.count
    }

    fn inc(&mut self, now: u64) {
        self.count += 1;
        self.ts = now;
    }
}

/// A fresh header carries the default identifier.
pub proof fn lemma_default_uuid(now: u64)
    ensures
        Header::spec_default(now).spec_uuid() == DEFAULT_UUID@,
{
    broadcast use vstd::array::group_array_axioms;

    reveal_strlit("47cb897f-ada4-4a94-b9c3-ad8e4dd1f73f");
    lemma_uuid_of(default_uuid_words(), 36);
    assert(Header::spec_default(now).spec_uuid() =~= DEFAULT_UUID@);
}

} // verus!

