//! Runways, read from a table of comma-separated values.

use super::types::{Runway, RunwayView};
use crate::tables::{csv_rows, read_csv, row_views};
use crate::text::{
    decimal_text_within, int_text_within, parse_decimal_within, parse_int_within,
    parse_unsigned_within, push_str, string_views, unsigned_text_within, views,
};
use vstd::prelude::*;

verus! {

/// Why a field of the table of runways cannot be read.
#[derive(Debug)]
pub enum ParseError {
    ParseStringError(String),
    ParseIntError(String),
    ParseFloatError(String),
}

pub enum ParseErrorView {
    ParseStringError(Seq<char>),
    ParseIntError(Seq<char>),
    ParseFloatError(Seq<char>),
}

impl View for ParseError {
    type V = ParseErrorView;

    open spec fn view(&self) -> ParseErrorView {
        match self {
            ParseError::ParseStringError(s) => ParseErrorView::ParseStringError(s@),
            ParseError::ParseIntError(s) => ParseErrorView::ParseIntError(s@),
            ParseError::ParseFloatError(s) => ParseErrorView::ParseFloatError(s@),
        }
    }
}

impl ParseErrorView {
    pub open spec fn message(self) -> Seq<char> {
        match self {
            ParseErrorView::ParseStringError(s) => "error parsing quoted string '"@ + s + "'"@,
            ParseErrorView::ParseIntError(s) => "no whole number @ "@ + s,
            ParseErrorView::ParseFloatError(s) => "no number @ "@ + s,
        }
    }
}

impl ParseError {
    pub fn to_string(&self) -> (s: String)
        ensures
            s@ == self@.message(),
    {
        let mut s = String::new();
        match self {
            ParseError::ParseStringError(t) => {
                push_str(&mut s, "error parsing quoted string '");
                push_str(&mut s, t.as_str());
                push_str(&mut s, "'");
            },
            ParseError::ParseIntError(t) => {
                push_str(&mut s, "no whole number @ ");
                push_str(&mut s, t.as_str());
            },
            ParseError::ParseFloatError(t) => {
                push_str(&mut s, "no number @ ");
                push_str(&mut s, t.as_str());
            },
        }
        assert(s@ =~= self@.message());
        s
    }
}

/// Reads a whole number without sign that fits 32 bits.
pub fn parse_u32(s: &str) -> (r: Result<u32, ParseError>)
    ensures
        match unsigned_text_within(s@, u32::MAX as int) {
            Some(v) => r == Ok::<u32, ParseError>(v as u32),
            None => r is Err && r->Err_0@ == ParseErrorView::ParseIntError(s@),
        },
{
    match parse_unsigned_within(s, 0xffff_ffff) {
        Some(v) => Ok(v as u32),
        None => Err(ParseError::ParseIntError(s.to_owned())),
    }
}

/// Reads a whole number that fits 32 bits.
pub fn parse_i32(s: &str) -> (r: Result<i32, ParseError>)
    ensures
        match int_text_within(s@, i32::MIN as int, i32::MAX as int) {
            Some(v) => r == Ok::<i32, ParseError>(v as i32),
            None => r is Err && r->Err_0@ == ParseErrorView::ParseIntError(s@),
        },
{
    match parse_int_within(s, -0x8000_0000, 0x7fff_ffff) {
        Some(v) => Ok(v as i32),
        None => Err(ParseError::ParseIntError(s.to_owned())),
    }
}

/// Reads a number with a fraction, in millionths.
pub fn parse_f64(s: &str) -> (r: Result<i64, ParseError>)
    ensures
        match decimal_text_within(s@, i64::MIN as int, i64::MAX as int) {
            Some(v) => r == Ok::<i64, ParseError>(v as i64),
            None => r is Err && r->Err_0@ == ParseErrorView::ParseFloatError(s@),
        },
{
    match parse_decimal_within(s, i64::MIN, i64::MAX) {
        Some(v) => Ok(v),
        None => Err(ParseError::ParseFloatError(s.to_owned())),
    }
}

pub open spec fn u32_or_zero(s: Seq<char>) -> u32 {
    match unsigned_text_within(s, u32::MAX as int) {
        Some(v) => v as u32,
        None => 0,
    }
}

pub open spec fn i32_or_zero(s: Seq<char>) -> i32 {
    match int_text_within(s, i32::MIN as int, i32::MAX as int) {
        Some(v) => v as i32,
        None => 0,
    }
}

pub open spec fn fixed_or_zero(s: Seq<char>) -> i64 {
    match decimal_text_within(s, i64::MIN as int, i64::MAX as int) {
        Some(v) => v as i64,
        None => 0,
    }
}

/// A heading in whole degrees from one in millionths: the fraction is
/// dropped, and what does not fit 16 bits is held at the nearest end.
pub open spec fn spec_heading(v: i64) -> u16 {
    if v <= 0 {
        0
    } else if v / 1_000_000 > u16::MAX {
        u16::MAX
    } else {
        (v / 1_000_000) as u16
    }
}

/// The low or the high end of the runway that a row of the table describes.
/// What cannot be read as a number counts as 0.
pub open spec fn spec_runway_end(row: Seq<Seq<char>>, high: bool) -> RunwayView {
    let base = if high {
        14
    } else {
        8
    };
    RunwayView {
        icao: row[2],
        length_ft: u32_or_zero(row[3]),
        width_ft: u32_or_zero(row[4]),
        surface: row[5],
        lighted: row[6] == "1"@,
        closed: row[7] == "1"@,
        ident: row[base],
        latitude: fixed_or_zero(row[base + 1]),
        longitude: fixed_or_zero(row[base + 2]),
        elevation_ft: i32_or_zero(row[base + 3]),
        heading: spec_heading(fixed_or_zero(row[base + 4])),
        active_to: false,
        active_lnd: false,
    }
}

fn heading(v: i64) -> (h: u16)
    ensures
        h == spec_heading(v),
{
    if v <= 0 {
        0
    } else if v / 1_000_000 > 0xffff {
        0xffff
    } else {
        (v / 1_000_000) as u16
    }
}

fn u32_field(s: &str) -> (v: u32)
    ensures
        v == u32_or_zero(s@),
{
    match parse_u32(s) {
        Ok(v) => v,
        Err(_) => 0,
    }
}

fn i32_field(s: &str) -> (v: i32)
    ensures
        v == i32_or_zero(s@),
{
    match parse_i32(s) {
        Ok(v) => v,
        Err(_) => 0,
    }
}

fn fixed_field(s: &str) -> (v: i64)
    ensures
        v == fixed_or_zero(s@),
{
    match parse_f64(s) {
        Ok(v) => v,
        Err(_) => 0,
    }
}

fn runway_end(tokens: &Vec<String>, high: bool) -> (r: Runway)
    requires
        tokens@.len() >= 19,
    ensures
        r@ == spec_runway_end(string_views(tokens@), high),
{
    let base: usize = if high { 14 } else { 8 };
    let ghost row = string_views(tokens@);
    assert(row[2] == tokens@[2]@ && row[3] == tokens@[3]@ && row[4] == tokens@[4]@ && row[5]
        == tokens@[5]@ && row[6] == tokens@[6]@ && row[7] == tokens@[7]@);
    assert(row[base as int] == tokens@[base as int]@ && row[base + 1] == tokens@[base + 1]@
        && row[base + 2] == tokens@[base + 2]@ && row[base + 3] == tokens@[base + 3]@ && row[base
        + 4] == tokens@[base + 4]@);
    Runway {
        icao: tokens[2].clone(),
        length_ft: u32_field(tokens[3].as_str()),
        width_ft: u32_field(tokens[4].as_str()),
        surface: tokens[5].clone(),
        lighted: crate::text::same_text(tokens[6].as_str(), "1"),
        closed: crate::text::same_text(tokens[7].as_str(), "1"),
        ident: tokens[base].clone(),
        latitude: fixed_field(tokens[base + 1].as_str()),
        longitude: fixed_field(tokens[base + 2].as_str()),
        elevation_ft: i32_field(tokens[base + 3].as_str()),
        heading: heading(fixed_field(tokens[base + 4].as_str())),
        active_to: false,
        active_lnd: false,
    }
}

/// The two ends of the runway that a row of the table describes, the low
/// end first. The row must have all of its 19 fields.
pub fn parse_runway(tokens: &Vec<String>) -> (r: Result<(Runway, Runway), ParseError>)
    requires
        tokens@.len() >= 19,
    ensures
        r is Ok,
        r->Ok_0.0@ == spec_runway_end(string_views(tokens@), false),
        r->Ok_0.1@ == spec_runway_end(string_views(tokens@), true),
{
    Ok((runway_end(tokens, false), runway_end(tokens, true)))
}

/// The ends of the runways that the first `n` rows describe, two for each
/// row, in the order of the rows. A row that lacks fields is passed over.
pub open spec fn spec_runways(rows: Seq<Seq<Seq<char>>>, n: int) -> Seq<RunwayView>
    decreases n,
{
    if n <= 0 || n > rows.len() {
        Seq::empty()
    } else if rows[n - 1].len() >= 19 {
        spec_runways(rows, n - 1).push(spec_runway_end(rows[n - 1], false)).push(
            spec_runway_end(rows[n - 1], true),
        )
    } else {
        spec_runways(rows, n - 1)
    }
}

/// The ends of the runways that the rows of a table describe.
pub fn runways_of_rows(rows: &Vec<Vec<String>>) -> (r: Vec<Runway>)
    ensures
        views(r@) == spec_runways(row_views(rows@), rows@.len() as int),
{
    let mut out: Vec<Runway> = Vec::new();
    let mut i: usize = 0;
    assert(views(out@) =~= Seq::<RunwayView>::empty());
    while i < rows.len()
        invariant
            i <= rows.len(),
            views(out@) == spec_runways(row_views(rows@), i as int),
        decreases rows.len() - i,
    {
        let ghost before = views(out@);
        assert(row_views(rows@)[i as int] == string_views(rows@[i as int]@));
        if rows[i].len() >= 19 {
            match parse_runway(&rows[i]) {
                Ok(pair) => {
                    let ghost low = pair.0@;
                    let ghost high = pair.1@;
                    out.push(pair.0);
                    out.push(pair.1);
                    assert(views(out@) =~= before.push(low).push(high));
                },
                Err(_) => {},
            }
        }
        i += 1;
    }
    out
}

/// Reads the table of runways. Nothing comes back where the text is no
/// table of comma-separated values.
pub fn parse(text: &str) -> (r: Option<Vec<Runway>>)
    ensures
        r is Some <==> csv_rows(text@) is Some,
        r is Some ==> views(r->0@) == spec_runways(
            csv_rows(text@)->0,
            csv_rows(text@)->0.len() as int,
        ),
{
    match read_csv(text) {
        Some(rows) => Some(runways_of_rows(&rows)),
        None => None,
    }
}

} // verus!
