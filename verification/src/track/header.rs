//! The header of a pilot's track file.

use crate::trackfile::{Record, TrackFileHeader};
use vstd::prelude::*;

verus! {

pub const TRACK_VERSION: u64 = 1;

pub const TRACK_MAGIC_NUMBER: u64 = 0x119F3E5F006A42C8;

/// The header of the track file of a pilot.
#[derive(Debug, Clone, Copy, PartialEq, Eq, Structural)]
pub struct Header {
    pub magic: u64,
    pub version: u64,
    /// When the file was last written, in milliseconds since the Unix epoch.
    pub ts: u64,
    pub count: u64,
}

impl Record for Header {
    open spec fn word_count() -> nat {
        4
    }

    open spec fn spec_encode(&self) -> Seq<u64> {
        seq![
            self.magic,
            self.version,
            self.ts,
            self.count,
        ]
    }

    open spec fn spec_decode(w: Seq<u64>) -> Self {
        Header {
            magic: w[0],
            version: w[1],
            ts: w[2],
            count: w[3],
        }
    }

    proof fn lemma_roundtrip(&self) {
    }

    fn words() -> (n: usize) {
        4
    }

    fn encode(&self) -> (w: Vec<u64>) {
        let w = vec![
            self.magic,
            self.version,
            self.ts,
            self.count,
        ];
        assert(w@ =~= self.spec_encode());
        w
    }

    fn decode(w: &Vec<u64>) -> (r: Self) {
        Header {
            magic: w[0],
            version: w[1],
            ts: w[2],
            count: w[3],
        }
    }
}

impl TrackFileHeader for Header {
    open spec fn spec_check_magic(&self) -> bool {
        self.magic == TRACK_MAGIC_NUMBER
    }

    open spec fn spec_version(&self) -> u64 {
        self.version
    }

    open spec fn spec_timestamp(&self) -> u64 {
        self.ts
    }

    open spec fn spec_count(&self) -> u64 {
        self.count
    }

    open spec fn spec_default(now: u64) -> Self {
        Header { magic: TRACK_MAGIC_NUMBER, version: TRACK_VERSION, ts: now, count: 0 }
    }

    open spec fn spec_inc(&self, now: u64) -> Self {
        Header {
            magic: self.magic,
            version: self.version,
            ts: now,
            count: if self.count < u64::MAX {
                (self.count + 1) as u64
            } else {
                self.count
            },
        }
    }

    proof fn lemma_header(&self, now: u64) {
    }

    fn default_at(now: u64) -> (h: Self) {
        Header { magic: TRACK_MAGIC_NUMBER, version: TRACK_VERSION, ts: now, count: 0 }
    }

    fn check_magic(&self) -> (b: bool) {
        self.magic == TRACK_MAGIC_NUMBER
    }

    fn version(&self) -> (v: u64) {
        self.version
    }

    fn timestamp(&self) -> (t: u64) {
        self.ts
    }

    fn count(&self) -> (n: u64) {
        self.count
    }

    fn inc(&mut self, now: u64) {
        self.ts = now;
        self.count += 1;
    }
}

} // verus!
