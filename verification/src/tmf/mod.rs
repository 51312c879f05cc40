//! Tracks that flights report of themselves: one file per flight, and an
//! acknowledgement for everything that a flight sends.

pub mod types;

use self::types::{Header, TrackEntry};
use crate::text::push_str;
use crate::track::path_join;
use crate::trackfile::{repeats, with_entry, TrackFile, TrackFileHeader};
use vstd::prelude::*;

verus! {

/// The service that takes in the tracks that flights report.
#[derive(Debug)]
pub struct TrackService {
    folder: String,
}

/// The name of the file of the flight `flight_id`.
pub open spec fn spec_flight_file(flight_id: Seq<char>) -> Seq<char> {
    flight_id + ".bin"@
}

impl TrackService {
    /// The folder that holds the files of all flights.
    pub closed spec fn spec_folder(&self) -> Seq<char> {
        self.folder@
    }

    pub fn new(dirname: &str) -> (r: Self)
        ensures
            r.spec_folder() == dirname@,
    {
        TrackService { folder: dirname.to_owned() }
    }

    pub fn folder(&self) -> (s: &str)
        ensures
            s@ == self.spec_folder(),
    {
        self.folder.as_str()
    }

    /// The path of the file of the flight `flight_id`.
    pub fn flight_filename(&self, flight_id: &str) -> (r: String)
        ensures
            r@ == path_join(self.spec_folder(), spec_flight_file(flight_id@)),
    {
        let chars = crate::text::chars_of(self.folder.as_str());
        let mut r = String::new();
        push_str(&mut r, self.folder.as_str());
        if chars.len() > 0 && chars[chars.len() - 1] != '/' {
            push_str(&mut r, "/");
        }
        push_str(&mut r, flight_id);
        push_str(&mut r, ".bin");
        assert(r@ =~= path_join(self.spec_folder(), spec_flight_file(flight_id@))) by {
            if chars.len() == 0 {
                assert(self.folder@ =~= Seq::<char>::empty());
            }
        }
        r
    }
}

/// The headers of a request as mathematical values: each a name and its
/// value, or nothing for a value that is no text.
pub open spec fn header_views(headers: Seq<(String, Option<String>)>) -> Seq<
    (Seq<char>, Option<Seq<char>>),
> {
    headers.map_values(|h: (String, Option<String>)| (h.0@, crate::text::opt_text(h.1)))
}

/// The value of the first header from `from` on that goes by the name
/// `key`.
pub open spec fn header_value(
    headers: Seq<(Seq<char>, Option<Seq<char>>)>,
    key: Seq<char>,
    from: int,
) -> Option<Option<Seq<char>>>
    decreases headers.len() - from,
{
    if from < 0 || from >= headers.len() {
        None
    } else if headers[from].0 == key {
        Some(headers[from].1)
    } else {
        header_value(headers, key, from + 1)
    }
}

/// What the header `key` says, or why it says nothing: it is missing, or
/// its value is no text.
pub open spec fn spec_extract(headers: Seq<(Seq<char>, Option<Seq<char>>)>, key: Seq<char>) -> Result<
    Seq<char>,
    Seq<char>,
> {
    match header_value(headers, key, 0) {
        Some(Some(value)) => Ok(value),
        Some(None) => Err("invalid "@ + key + " header"@),
        None => Err(key + " header is missing"@),
    }
}

/// What a header says, where it says anything.
pub open spec fn said(outcome: Result<Seq<char>, Seq<char>>) -> Option<Seq<char>> {
    match outcome {
        Ok(value) => Some(value),
        Err(_) => None,
    }
}

/// Why the headers of a request do not describe a flight.
#[derive(Debug)]
pub struct MetaError {
    pub msg: String,
}

/// What the header `key` of a request says.
pub fn extract_key(headers: &Vec<(String, Option<String>)>, key: &str) -> (r: Result<
    String,
    MetaError,
>)
    ensures
        match spec_extract(header_views(headers@), key@) {
            Ok(value) => r is Ok && r->Ok_0@ == value,
            Err(msg) => r is Err && r->Err_0.msg@ == msg,
        },
{
    let ghost all = header_views(headers@);
    let wanted = key.to_owned();
    let mut i: usize = 0;
    while i < headers.len()
        invariant
            i <= headers.len(),
            wanted@ == key@,
            all == header_views(headers@),
            header_value(all, key@, 0) == header_value(all, key@, i as int),
        decreases headers.len() - i,
    {
        assert(all[i as int] == (headers@[i as int].0@, crate::text::opt_text(headers@[i as int].1)));
        if headers[i].0 == wanted {
            return match &headers[i].1 {
                Some(value) => Ok(value.clone()),
                None => {
                    let mut msg = String::new();
                    push_str(&mut msg, "invalid ");
                    push_str(&mut msg, key);
                    push_str(&mut msg, " header");
                    Err(MetaError { msg })
                },
            };
        }
        i += 1;
    }
    let mut msg = String::new();
    push_str(&mut msg, key);
    push_str(&mut msg, " header is missing");
    Err(MetaError { msg })
}

/// What a flight says of itself when it starts to report.
#[derive(Debug)]
pub struct FlightMeta {
    pub flight_id: String,
    pub atc_id: String,
    pub atc_type: Option<String>,
    pub atc_flight_number: Option<String>,
    pub aircraft_title: Option<String>,
}

impl FlightMeta {
    /// Reads what a flight says of itself from the headers of its request.
    /// The identifiers of the flight and of its callsign must be there;
    /// the type, the flight number and the title of the aircraft may be
    /// missing.
    pub fn try_from(headers: &Vec<(String, Option<String>)>) -> (r: Result<FlightMeta, MetaError>)
        ensures
            match (
                spec_extract(header_views(headers@), "x-flight-id"@),
                spec_extract(header_views(headers@), "x-atc-id"@),
            ) {
                (Err(msg), _) => r is Err && r->Err_0.msg@ == msg,
                (Ok(_), Err(msg)) => r is Err && r->Err_0.msg@ == msg,
                (Ok(flight_id), Ok(atc_id)) => {
                    &&& r is Ok
                    &&& r->Ok_0.flight_id@ == flight_id
                    &&& r->Ok_0.atc_id@ == atc_id
                    &&& crate::text::opt_text(r->Ok_0.atc_type) == said(
                        spec_extract(header_views(headers@), "x-atc-type"@),
                    )
                    &&& crate::text::opt_text(r->Ok_0.atc_flight_number) == said(
                        spec_extract(header_views(headers@), "x-atc-flight-number"@),
                    )
                    &&& crate::text::opt_text(r->Ok_0.aircraft_title) == said(
                        spec_extract(header_views(headers@), "x-title"@),
                    )
                },
            },
    {
        let flight_id = match extract_key(headers, "x-flight-id") {
            Ok(value) => value,
            Err(e) => {
                return Err(e);
            },
        };
        let atc_id = match extract_key(headers, "x-atc-id") {
            Ok(value) => value,
            Err(e) => {
                return Err(e);
            },
        };
        let atc_type = optional(extract_key(headers, "x-atc-type"));
        let atc_flight_number = optional(extract_key(headers, "x-atc-flight-number"));
        let aircraft_title = optional(extract_key(headers, "x-title"));
        Ok(FlightMeta { flight_id, atc_id, atc_type, atc_flight_number, aircraft_title })
    }
}

/// What a header says, where it says anything.
fn optional(outcome: Result<String, MetaError>) -> (r: Option<String>)
    ensures
        outcome is Ok ==> r is Some && r->0@ == outcome->Ok_0@,
        outcome is Err ==> r is None,
{
    match outcome {
        Ok(value) => Some(value),
        Err(_) => None,
    }
}

/// What a flight sends.
#[derive(Debug, Clone, Copy, PartialEq, Eq, Structural)]
pub enum Request {
    /// An entry for the track.
    Track(TrackEntry),
    /// A question for the time, with the time of the one who asks, in
    /// microseconds.
    Echo(u64),
}

/// The times of an answer to a question for the time, in microseconds.
#[derive(Debug, Clone, Copy, PartialEq, Eq, Structural)]
pub struct EchoResponse {
    pub client_timestamp_us: u64,
    pub server_timestamp_us: u64,
}

/// What a flight gets back for everything that it sends.
#[derive(Debug, Clone, Copy, PartialEq, Eq, Structural)]
pub struct Ack {
    pub seq_number: u64,
    pub echo_response: Option<EchoResponse>,
}

/// `n + 1`, held at the largest number there is.
pub open spec fn next_number(n: u64) -> u64 {
    if n < u64::MAX {
        (n + 1) as u64
    } else {
        n
    }
}

/// One flight that reports its track.
pub struct Session {
    file: TrackFile<TrackEntry, Header>,
    seq_number: u64,
}

impl Session {
    pub closed spec fn spec_file(&self) -> TrackFile<TrackEntry, Header> {
        self.file
    }

    /// The number that the next acknowledgement carries.
    pub closed spec fn spec_seq_number(&self) -> u64 {
        self.seq_number
    }

    pub closed spec fn wf(&self) -> bool {
        self.file.wf()
    }

    /// Starts to serve a flight whose track file is `file`; numbers start
    /// at 1.
    pub fn new(file: TrackFile<TrackEntry, Header>) -> (r: Self)
        requires
            file.wf(),
        ensures
            r.wf(),
            r.spec_file() == file,
            r.spec_seq_number() == 1,
    {
        Session { file, seq_number: 1 }
    }

    /// The image of the track file as it is to be kept.
    pub fn bytes(&self) -> (data: Vec<u8>)
        ensures
            data@ == self.spec_file().spec_bytes(),
    {
        self.file.bytes()
    }

    /// Takes in what the flight has sent at `now_ms`, in milliseconds, which
    /// is `now_us` in microseconds. An entry is written to the track; a
    /// question for the time is answered. Either is acknowledged with the
    /// next number.
    pub fn handle(&mut self, request: Request, now_ms: u64, now_us: u64) -> (ack: Ack)
        requires
            old(self).wf(),
        ensures
            final(self).wf(),
            ack.seq_number == old(self).spec_seq_number(),
            final(self).spec_seq_number() == next_number(old(self).spec_seq_number()),
            match request {
                Request::Track(entry) => {
                    &&& ack.echo_response is None
                    &&& final(self).spec_file().spec_name() == old(self).spec_file().spec_name()
                    &&& final(self).spec_file().spec_entries() == with_entry(
                        old(self).spec_file().spec_entries(),
                        entry,
                    )
                    &&& final(self).spec_file().spec_header() == if repeats(
                        old(self).spec_file().spec_entries(),
                        entry,
                    ) {
                        old(self).spec_file().spec_header()
                    } else {
                        old(self).spec_file().spec_header().spec_inc(now_ms)
                    }
                },
                Request::Echo(client) => ack.echo_response == Some(
                    EchoResponse { client_timestamp_us: client, server_timestamp_us: now_us },
                ) && final(self).spec_file() == old(self).spec_file(),
            },
    {
        let seq_number = self.seq_number;
        self.seq_number = if seq_number < u64::MAX { seq_number + 1 } else { seq_number };
        match request {
            Request::Track(entry) => {
                self.file.append(&entry, now_ms);
                Ack { seq_number, echo_response: None }
            },
            Request::Echo(client) => Ack {
                seq_number,
                echo_response: Some(
                    EchoResponse { client_timestamp_us: client, server_timestamp_us: now_us },
                ),
            },
        }
    }
}

} // verus!
