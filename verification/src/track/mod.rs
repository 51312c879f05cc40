//! The store of pilot tracks: one track file per pilot and session, in
//! folders by pilot.

pub mod header;
pub mod trackpoint;

use self::header::Header;
use self::trackpoint::TrackPoint;
use crate::moving::pilot::{Pilot, PilotView};
use crate::text::{int_digits, nat_digits, push_i64, push_str, push_u64};
use crate::trackfile::{
    image, image_entries, image_fault, image_header, with_entry, TrackFile, TrackFileError,
    TrackFileHeader,
};
use vstd::prelude::*;

verus! {

/// How long a track is kept after it was last written: two days, in
/// milliseconds.
pub const RETENTION_MS: u64 = 172_800_000;

/// `part` inside the folder `base`.
pub open spec fn path_join(base: Seq<char>, part: Seq<char>) -> Seq<char> {
    if base.len() == 0 {
        part
    } else if base.last() == '/' {
        base + part
    } else {
        base + "/"@ + part
    }
}

/// The folder of the tracks of the pilot `cid` below `root`: pilots are
/// grouped by ten thousand.
pub open spec fn spec_track_folder(root: Seq<char>, cid: u32) -> Seq<char> {
    path_join(path_join(root, nat_digits((cid / 10000) as nat)), nat_digits(cid as nat))
}

/// The name of the file of one session of a pilot: identity, callsign and
/// the second of the logon.
pub open spec fn spec_track_name(pilot: PilotView) -> Seq<char> {
    nat_digits(pilot.cid as nat) + "."@ + pilot.callsign + "."@ + int_digits(
        pilot.logon_time as int / 1000,
    ) + ".bin"@
}

/// Whether a track last written at `mtime` is too old at `now` to be kept.
pub open spec fn expired(mtime: u64, now: u64) -> bool {
    mtime + RETENTION_MS < now
}

/// Whether the image of a track file is sound and too old at `now` to be
/// kept.
pub open spec fn stale(data: Seq<u8>, now: u64) -> bool {
    image_fault::<TrackPoint, Header>(data) is None && expired(
        image_header::<Header>(data).ts,
        now,
    )
}

/// How many of the first `n` images are sound track files, and how many
/// points those hold in all.
pub open spec fn spec_counters(images: Seq<Vec<u8>>, n: int) -> (nat, nat)
    decreases n,
{
    if n <= 0 || n > images.len() {
        (0, 0)
    } else {
        let (tracks, points) = spec_counters(images, n - 1);
        if image_fault::<TrackPoint, Header>(images[n - 1]@) is None {
            (tracks + 1, points + image_header::<Header>(images[n - 1]@).count as nat)
        } else {
            (tracks, points)
        }
    }
}

/// The names among the first `n` of `files` whose image is stale at `now`.
pub open spec fn spec_stale_names(files: Seq<(String, Vec<u8>)>, now: u64, n: int) -> Seq<
    Seq<char>,
>
    decreases n,
{
    if n <= 0 || n > files.len() {
        Seq::empty()
    } else if stale(files[n - 1].1@, now) {
        spec_stale_names(files, now, n - 1).push(files[n - 1].0@)
    } else {
        spec_stale_names(files, now, n - 1)
    }
}

/// `n`, held at the largest number of 64 bits.
pub open spec fn held(n: nat) -> u64 {
    if n > u64::MAX {
        u64::MAX
    } else {
        n as u64
    }
}

fn join_path(base: &str, part: &str) -> (r: String)
    ensures
        r@ == path_join(base@, part@),
{
    let chars = crate::text::chars_of(base);
    let mut r = String::new();
    push_str(&mut r, base);
    if chars.len() > 0 && chars[chars.len() - 1] != '/' {
        push_str(&mut r, "/");
    }
    push_str(&mut r, part);
    assert(r@ =~= path_join(base@, part@)) by {
        if chars.len() == 0 {
            assert(base@ =~= Seq::<char>::empty());
        }
    }
    r
}

fn floor_seconds(ms: i64) -> (s: i64)
    ensures
        s == ms as int / 1000,
{
    if ms >= 0 {
        ms / 1000
    } else {
        let up: i128 = (-(ms as i128) + 999) / 1000;
        (-up) as i64
    }
}

/// The store of the tracks of pilots.
#[derive(Debug)]
pub struct Store {
    folder: String,
}

impl Store {
    /// The folder that holds all tracks.
    pub closed spec fn spec_folder(&self) -> Seq<char> {
        self.folder@
    }

    pub fn new(folder: &str) -> (r: Self)
        ensures
            r.spec_folder() == folder@,
    {
        Store { folder: folder.to_owned() }
    }

    /// The folder that holds all tracks.
    pub fn folder(&self) -> (s: &str)
        ensures
            s@ == self.spec_folder(),
    {
        self.folder.as_str()
    }

    /// The folder that holds the tracks of `pilot`.
    pub fn pilot_track_folder(&self, pilot: &Pilot) -> (r: String)
        ensures
            r@ == spec_track_folder(self.spec_folder(), pilot.cid),
    {
        let first = crate::text::u64_to_string((pilot.cid / 10000) as u64);
        let second = crate::text::u64_to_string(pilot.cid as u64);
        let group = join_path(self.folder.as_str(), first.as_str());
        join_path(group.as_str(), second.as_str())
    }

    /// The path of the track file of this session of `pilot`.
    pub fn pilot_track_filename(&self, pilot: &Pilot) -> (r: String)
        ensures
            r@ == path_join(
                spec_track_folder(self.spec_folder(), pilot.cid),
                spec_track_name(pilot@),
            ),
    {
        let folder = self.pilot_track_folder(pilot);
        let mut name = String::new();
        push_u64(&mut name, pilot.cid as u64);
        push_str(&mut name, ".");
        push_str(&mut name, pilot.callsign.as_str());
        push_str(&mut name, ".");
        push_i64(&mut name, floor_seconds(pilot.logon_time));
        push_str(&mut name, ".bin");
        assert(name@ =~= spec_track_name(pilot@));
        join_path(folder.as_str(), name.as_str())
    }

    /// Counts the track files among `images` and the points in them. An
    /// image that is no sound track file is passed over. Either number is
    /// held at the largest number of 64 bits.
    pub fn counters(&self, images: &Vec<Vec<u8>>) -> (r: (u64, u64))
        ensures
            r.0 == held(spec_counters(images@, images@.len() as int).0),
            r.1 == held(spec_counters(images@, images@.len() as int).1),
    {
        let mut tracks: u64 = 0;
        let mut points: u64 = 0;
        let mut i: usize = 0;
        while i < images.len()
            invariant
                i <= images.len(),
                tracks == held(spec_counters(images@, i as int).0),
                points == held(spec_counters(images@, i as int).1),
            decreases images.len() - i,
        {
            let file: Result<TrackFile<TrackPoint, Header>, TrackFileError> = TrackFile::new(
                "",
                Some(&images[i]),
                0,
            );
            match file {
                Ok(file) => {
                    let count = file.count();
                    tracks = if tracks < u64::MAX { tracks + 1 } else { tracks };
                    points = if points <= u64::MAX - count { points + count } else { u64::MAX };
                },
                Err(_) => {},
            }
            i += 1;
        }
        (tracks, points)
    }

    /// The names of the files whose track was last written more than two
    /// days before `now`, for the caller to remove. Each file comes with its
    /// name and its image; one that is no sound track file is passed over.
    pub fn cleanup(&self, files: &Vec<(String, Vec<u8>)>, now: u64) -> (r: Vec<String>)
        ensures
            crate::text::string_views(r@) == spec_stale_names(files@, now, files@.len() as int),
    {
        let mut names: Vec<String> = Vec::new();
        let mut i: usize = 0;
        assert(crate::text::string_views(names@) =~= Seq::<Seq<char>>::empty());
        while i < files.len()
            invariant
                i <= files.len(),
                crate::text::string_views(names@) == spec_stale_names(files@, now, i as int),
            decreases files.len() - i,
        {
            let ghost before = crate::text::string_views(names@);
            let file: Result<TrackFile<TrackPoint, Header>, TrackFileError> = TrackFile::new(
                files[i].0.as_str(),
                Some(&files[i].1),
                0,
            );
            match file {
                Ok(file) => {
                    let mtime = file.mtime();
                    if mtime <= u64::MAX - RETENTION_MS && mtime + RETENTION_MS < now {
                        names.push(files[i].0.clone());
                        assert(crate::text::string_views(names@) =~= before.push(files@[i as int].0@));
                    }
                },
                Err(_) => {},
            }
            i += 1;
        }
        names
    }

    /// Writes where `pilot` is into the track of this session. `existing`
    /// is the image of the track file, if there is one already; the image
    /// to keep from now on comes back.
    pub fn store_track(&self, existing: Option<&Vec<u8>>, pilot: &Pilot, now: u64) -> (r: Result<
        Vec<u8>,
        TrackFileError,
    >)
        ensures
            match existing {
                None => r is Ok && r->Ok_0@ == image(
                    Header::spec_default(now).spec_inc(now),
                    seq![TrackPoint::spec_of(pilot)],
                ),
                Some(data) => match image_fault::<TrackPoint, Header>(data@) {
                    Some(fault) => r is Err && r->Err_0@ == fault,
                    None => r is Ok && r->Ok_0@ == image(
                        if crate::trackfile::repeats(
                            image_entries::<TrackPoint, Header>(
                                data@,
                                image_header::<Header>(data@).count as nat,
                            ),
                            TrackPoint::spec_of(pilot),
                        ) {
                            image_header::<Header>(data@)
                        } else {
                            image_header::<Header>(data@).spec_inc(now)
                        },
                        with_entry(
                            image_entries::<TrackPoint, Header>(
                                data@,
                                image_header::<Header>(data@).count as nat,
                            ),
                            TrackPoint::spec_of(pilot),
                        ),
                    ),
                },
            },
    {
        let name = self.pilot_track_filename(pilot);
        let mut file: TrackFile<TrackPoint, Header> = match TrackFile::new(
            name.as_str(),
            existing,
            now,
        ) {
            Ok(f) => f,
            Err(e) => {
                return Err(e);
            },
        };
        let point = TrackPoint::of(pilot);
        file.append(&point, now);
        assert(seq![TrackPoint::spec_of(pilot)] =~= with_entry(
            Seq::<TrackPoint>::empty(),
            TrackPoint::spec_of(pilot),
        ));
        Ok(file.bytes())
    }

    /// The points of the track of this session of a pilot, oldest first.
    /// `existing` is the image of the track file, if there is one.
    pub fn get_track_points(&self, existing: Option<&Vec<u8>>) -> (r: Result<
        Vec<TrackPoint>,
        TrackFileError,
    >)
        ensures
            match existing {
                None => r is Ok && r->Ok_0@ == Seq::<TrackPoint>::empty(),
                Some(data) => match image_fault::<TrackPoint, Header>(data@) {
                    Some(fault) => r is Err && r->Err_0@ == fault,
                    None => r is Ok && r->Ok_0@ == image_entries::<TrackPoint, Header>(
                        data@,
                        image_header::<Header>(data@).count as nat,
                    ),
                },
            },
    {
        let file: TrackFile<TrackPoint, Header> = match TrackFile::new("", existing, 0) {
            Ok(f) => f,
            Err(e) => {
                return Err(e);
            },
        };
        Ok(file.read_all())
    }
}

} // verus!
