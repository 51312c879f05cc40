//! The reference file: countries, airports and regions of airspace in
//! sections of lines, the fields of a line between bars.
//!
//! A line that starts with `;` is a comment. `[Countries]`, `[Airports]`,
//! `[FIRs]` and `[UIRs]` open the sections; `[IDL]` ends the file. A line
//! that does not have the fields of its section is passed over.

use super::data::FixedData;
use super::geonames::Geonames;
use super::types::{
    Airport, AirportView, Boundaries, BoundariesView, Country, CountryView, Runway, RunwayView,
    FIR, FIRView, UIR, UIRView,
};
use crate::moving::controller::{ControllerSet, ControllerSetView, ControllerView};
use crate::text::{
    chars_of, decimal_text_within, parse_decimal_within, push_str, same_text, split, split_on,
    string_of, string_views, trim, trimmed, views,
};
use crate::types::Point;
use vstd::prelude::*;

verus! {

/// The section of the reference data that is being read.
#[derive(Debug, Clone, Copy, PartialEq, Eq, Structural)]
pub enum ParserState {
    Idle,
    ReadCountries,
    ReadAirports,
    ReadFIRs,
    ReadUIRs,
}

/// Why the reference data cannot be read.
#[derive(Debug)]
pub struct ParseError {
    pub msg: String,
}

impl ParseError {
    pub open spec fn spec_message(&self) -> Seq<char> {
        "parse error: "@ + self.msg@
    }

    pub fn to_string(&self) -> (s: String)
        ensures
            s@ == self.spec_message(),
    {
        let mut s = String::new();
        push_str(&mut s, "parse error: ");
        push_str(&mut s, self.msg.as_str());
        assert(s@ =~= self.spec_message());
        s
    }
}

/// The name of the section that a line in brackets opens: the line without
/// its first and its last character.
pub open spec fn section_name(line: Seq<char>) -> Seq<char> {
    if line.len() <= 2 {
        Seq::empty()
    } else {
        line.subrange(1, line.len() - 1)
    }
}

/// The country that the fields of a line describe.
pub open spec fn spec_country_line(tokens: Seq<Seq<char>>) -> Option<CountryView> {
    if tokens.len() != 3 {
        None
    } else {
        Some(
            CountryView {
                name: tokens[0],
                prefix: tokens[1],
                control_name: if tokens[2].len() == 0 {
                    None
                } else {
                    Some(tokens[2])
                },
            },
        )
    }
}

/// The index of the runway among the first `n` with the identifier `ident`.
pub open spec fn runway_at(list: Seq<RunwayView>, ident: Seq<char>, n: int) -> Option<int>
    decreases n,
{
    if n <= 0 || n > list.len() {
        None
    } else if list[n - 1].ident == ident {
        Some(n - 1)
    } else {
        runway_at(list, ident, n - 1)
    }
}

/// The runways with `r` in the place of the one with its identifier, or
/// behind all others.
pub open spec fn with_runway(list: Seq<RunwayView>, r: RunwayView) -> Seq<RunwayView> {
    match runway_at(list, r.ident, list.len() as int) {
        Some(i) => list.update(i, r),
        None => list.push(r),
    }
}

/// The runways of the airport `icao` among the first `n` of all runways,
/// each identifier once: a later runway takes the place of an earlier one
/// with its identifier.
pub open spec fn runways_of(all: Seq<RunwayView>, icao: Seq<char>, n: int) -> Seq<RunwayView>
    decreases n,
{
    if n <= 0 || n > all.len() {
        Seq::empty()
    } else if all[n - 1].icao == icao {
        with_runway(runways_of(all, icao, n - 1), all[n - 1])
    } else {
        runways_of(all, icao, n - 1)
    }
}

/// Whether one of the first `n` airports has the code `icao`.
pub open spec fn has_icao(airports: Seq<AirportView>, icao: Seq<char>, n: int) -> bool
    decreases n,
{
    if n <= 0 || n > airports.len() {
        false
    } else {
        airports[n - 1].icao == icao || has_icao(airports, icao, n - 1)
    }
}

/// The airport that the fields of a line describe. Its position must read
/// as two numbers. The runways go to the first airport with their code; the
/// country is the one at the position of the airport.
pub open spec fn spec_airport_line(
    tokens: Seq<Seq<char>>,
    so_far: Seq<AirportView>,
    runways: Seq<RunwayView>,
    geonames: Geonames,
) -> Option<AirportView> {
    if tokens.len() != 7 {
        None
    } else {
        match (
            decimal_text_within(tokens[2], i64::MIN as int, i64::MAX as int),
            decimal_text_within(tokens[3], i64::MIN as int, i64::MAX as int),
        ) {
            (Some(lat), Some(lng)) => {
                let position = Point { lat: lat as i64, lng: lng as i64 };
                Some(
                    AirportView {
                        icao: tokens[0],
                        iata: tokens[4],
                        name: tokens[1],
                        position,
                        fir_id: tokens[5],
                        is_pseudo: tokens[6] == "1"@,
                        controllers: ControllerSetView::empty(),
                        runways: if has_icao(so_far, tokens[0], so_far.len() as int) {
                            Seq::empty()
                        } else {
                            runways_of(runways, tokens[0], runways.len() as int)
                        },
                        country: geonames.spec_country_by_position(position),
                        wx: None,
                    },
                )
            },
            _ => None,
        }
    }
}

/// The index of the last of the first `n` outlines with the identifier
/// `id`.
pub open spec fn outline_at(bdrs: Seq<BoundariesView>, id: Seq<char>, n: int) -> Option<int>
    decreases n,
{
    if n <= 0 || n > bdrs.len() {
        None
    } else if bdrs[n - 1].id == id {
        Some(n - 1)
    } else {
        outline_at(bdrs, id, n - 1)
    }
}

/// The region that the fields of a line describe. Its outline is the one
/// that the last field names or, where that is empty, the one named like
/// the region; a region without an outline is passed over. The country is
/// the one at the middle of the outline.
pub open spec fn spec_fir_line(
    tokens: Seq<Seq<char>>,
    bdrs: Seq<BoundariesView>,
    geonames: Geonames,
) -> Option<FIRView> {
    if tokens.len() != 4 {
        None
    } else {
        let b_id = if tokens[3].len() == 0 {
            tokens[0]
        } else {
            tokens[3]
        };
        match outline_at(bdrs, b_id, bdrs.len() as int) {
            Some(i) => Some(
                FIRView {
                    icao: tokens[0],
                    name: tokens[1],
                    prefix: tokens[2],
                    boundaries: bdrs[i],
                    controllers: Seq::empty(),
                    country: geonames.spec_country_by_position(bdrs[i].center),
                },
            ),
            None => None,
        }
    }
}

/// The upper region that the fields of a line describe; its regions stand
/// in the last field with commas between them.
pub open spec fn spec_uir_line(tokens: Seq<Seq<char>>) -> Option<UIRView> {
    if tokens.len() != 3 {
        None
    } else {
        Some(UIRView { icao: tokens[0], name: tokens[1], fir_ids: split_on(tokens[2], ',') })
    }
}

/// What was read so far.
pub struct Progress {
    pub state: ParserState,
    /// Whether the end of the file was met.
    pub stopped: bool,
    pub countries: Seq<CountryView>,
    pub airports: Seq<AirportView>,
    pub firs: Seq<FIRView>,
    pub uirs: Seq<UIRView>,
}

impl Progress {
    pub open spec fn start() -> Progress {
        Progress {
            state: ParserState::Idle,
            stopped: false,
            countries: Seq::empty(),
            airports: Seq::empty(),
            firs: Seq::empty(),
            uirs: Seq::empty(),
        }
    }

    /// What was read after one more line, which comes without white space
    /// at its ends.
    pub open spec fn after(
        self,
        line: Seq<char>,
        bdrs: Seq<BoundariesView>,
        runways: Seq<RunwayView>,
        geonames: Geonames,
    ) -> Progress {
        if self.stopped || line.len() == 0 || line[0] == ';' {
            self
        } else if line[0] == '[' {
            let section = section_name(line);
            if section == "Countries"@ {
                Progress { state: ParserState::ReadCountries, ..self }
            } else if section == "Airports"@ {
                Progress { state: ParserState::ReadAirports, ..self }
            } else if section == "FIRs"@ {
                Progress { state: ParserState::ReadFIRs, ..self }
            } else if section == "UIRs"@ {
                Progress { state: ParserState::ReadUIRs, ..self }
            } else if section == "IDL"@ {
                Progress { stopped: true, ..self }
            } else {
                self
            }
        } else {
            let tokens = split_on(line, '|');
            match self.state {
                ParserState::Idle => self,
                ParserState::ReadCountries => match spec_country_line(tokens) {
                    Some(c) => Progress { countries: self.countries.push(c), ..self },
                    None => self,
                },
                ParserState::ReadAirports => match spec_airport_line(
                    tokens,
                    self.airports,
                    runways,
                    geonames,
                ) {
                    Some(a) => Progress { airports: self.airports.push(a), ..self },
                    None => self,
                },
                ParserState::ReadFIRs => match spec_fir_line(tokens, bdrs, geonames) {
                    Some(f) => Progress { firs: self.firs.push(f), ..self },
                    None => self,
                },
                ParserState::ReadUIRs => match spec_uir_line(tokens) {
                    Some(u) => Progress { uirs: self.uirs.push(u), ..self },
                    None => self,
                },
            }
        }
    }
}

/// What was read after the first `n` lines.
pub open spec fn progress(
    lines: Seq<Seq<char>>,
    n: int,
    bdrs: Seq<BoundariesView>,
    runways: Seq<RunwayView>,
    geonames: Geonames,
) -> Progress
    decreases n,
{
    if n <= 0 || n > lines.len() {
        Progress::start()
    } else {
        progress(lines, n - 1, bdrs, runways, geonames).after(
            trimmed(lines[n - 1]),
            bdrs,
            runways,
            geonames,
        )
    }
}

/// What the whole text holds.
pub open spec fn spec_parse(
    src: Seq<char>,
    bdrs: Seq<BoundariesView>,
    runways: Seq<RunwayView>,
    geonames: Geonames,
) -> Progress {
    progress(split_on(src, '\n'), split_on(src, '\n').len() as int, bdrs, runways, geonames)
}

fn country_line(tokens: &Vec<String>) -> (r: Option<Country>)
    ensures
        r is Some <==> spec_country_line(string_views(tokens@)) is Some,
        r is Some ==> r->0@ == spec_country_line(string_views(tokens@))->0,
{
    if tokens.len() != 3 {
        return None;
    }
    let ghost v = string_views(tokens@);
    assert(v[0] == tokens@[0]@ && v[1] == tokens@[1]@ && v[2] == tokens@[2]@);
    let control_name = if tokens[2].as_str().unicode_len() == 0 {
        None
    } else {
        Some(tokens[2].clone())
    };
    Some(Country { name: tokens[0].clone(), prefix: tokens[1].clone(), control_name })
}

fn put_runway(list: &mut Vec<Runway>, r: Runway)
    ensures
        views(final(list)@) == with_runway(views(old(list)@), r@),
{
    let ghost before = views(list@);
    let mut n: usize = list.len();
    while n > 0
        invariant
            n <= list@.len(),
            list@ == old(list)@,
            before == views(list@),
            runway_at(before, r@.ident, before.len() as int) == runway_at(
                before,
                r@.ident,
                n as int,
            ),
        decreases n,
    {
        assert(before[n - 1] == list@[n - 1]@);
        if list[n - 1].ident == r.ident {
            list[n - 1] = r;
            assert(views(list@) =~= before.update(n - 1, r@));
            return ;
        }
        n -= 1;
    }
    list.push(r);
    assert(views(list@) =~= before.push(r@));
}

fn runways_for(all: &Vec<Runway>, icao: &String) -> (r: Vec<Runway>)
    ensures
        views(r@) == runways_of(views(all@), icao@, all@.len() as int),
{
    let mut out: Vec<Runway> = Vec::new();
    let mut i: usize = 0;
    assert(views(out@) =~= Seq::<RunwayView>::empty());
    while i < all.len()
        invariant
            i <= all.len(),
            views(out@) == runways_of(views(all@), icao@, i as int),
        decreases all.len() - i,
    {
        assert(views(all@)[i as int] == all@[i as int]@);
        if all[i].icao == *icao {
            put_runway(&mut out, all[i].clone());
        }
        i += 1;
    }
    out
}

fn known_icao(airports: &Vec<Airport>, icao: &String) -> (b: bool)
    ensures
        b == has_icao(views(airports@), icao@, airports@.len() as int),
{
    let mut n: usize = airports.len();
    while n > 0
        invariant
            n <= airports@.len(),
            has_icao(views(airports@), icao@, airports@.len() as int) == has_icao(
                views(airports@),
                icao@,
                n as int,
            ),
        decreases n,
    {
        assert(views(airports@)[n - 1] == airports@[n - 1]@);
        if airports[n - 1].icao == *icao {
            return true;
        }
        n -= 1;
    }
    false
}

fn airport_line(
    tokens: &Vec<String>,
    so_far: &Vec<Airport>,
    runways: &Vec<Runway>,
    geonames: &Geonames,
) -> (r: Option<Airport>)
    requires
        geonames.wf(),
    ensures
        r is Some <==> spec_airport_line(
            string_views(tokens@),
            views(so_far@),
            views(runways@),
            *geonames,
        ) is Some,
        r is Some ==> r->0@ == spec_airport_line(
            string_views(tokens@),
            views(so_far@),
            views(runways@),
            *geonames,
        )->0,
{
    if tokens.len() != 7 {
        return None;
    }
    let ghost v = string_views(tokens@);
    assert(forall|k: int| 0 <= k < 7 ==> #[trigger] v[k] == tokens@[k]@);
    let lat = match parse_decimal_within(tokens[2].as_str(), i64::MIN, i64::MAX) {
        Some(x) => x,
        None => {
            return None;
        },
    };
    let lng = match parse_decimal_within(tokens[3].as_str(), i64::MIN, i64::MAX) {
        Some(x) => x,
        None => {
            return None;
        },
    };
    let icao = tokens[0].clone();
    let rwys = if known_icao(so_far, &icao) {
        let none: Vec<Runway> = Vec::new();
        assert(views(none@) =~= Seq::<RunwayView>::empty());
        none
    } else {
        runways_for(runways, &icao)
    };
    let position = Point { lat, lng };
    let country = geonames.get_country_by_position(position);
    Some(
        Airport {
            icao,
            iata: tokens[4].clone(),
            name: tokens[1].clone(),
            position,
            fir_id: tokens[5].clone(),
            is_pseudo: same_text(tokens[6].as_str(), "1"),
            controllers: ControllerSet::empty(),
            runways: rwys,
            country,
            wx: None,
        },
    )
}

fn find_outline(bdrs: &Vec<Boundaries>, id: &String) -> (r: Option<usize>)
    ensures
        r is Some <==> outline_at(views(bdrs@), id@, bdrs@.len() as int) is Some,
        r is Some ==> r->0 < bdrs@.len() && r->0 == outline_at(
            views(bdrs@),
            id@,
            bdrs@.len() as int,
        )->0,
{
    let mut n: usize = bdrs.len();
    while n > 0
        invariant
            n <= bdrs@.len(),
            outline_at(views(bdrs@), id@, bdrs@.len() as int) == outline_at(
                views(bdrs@),
                id@,
                n as int,
            ),
        decreases n,
    {
        assert(views(bdrs@)[n - 1] == bdrs@[n - 1]@);
        if bdrs[n - 1].id == *id {
            return Some(n - 1);
        }
        n -= 1;
    }
    None
}

fn fir_line(tokens: &Vec<String>, bdrs: &Vec<Boundaries>, geonames: &Geonames) -> (r: Option<FIR>)
    requires
        geonames.wf(),
    ensures
        r is Some <==> spec_fir_line(string_views(tokens@), views(bdrs@), *geonames) is Some,
        r is Some ==> r->0@ == spec_fir_line(string_views(tokens@), views(bdrs@), *geonames)->0,
{
    if tokens.len() != 4 {
        return None;
    }
    let ghost v = string_views(tokens@);
    assert(forall|k: int| 0 <= k < 4 ==> #[trigger] v[k] == tokens@[k]@);
    let b_id = if tokens[3].as_str().unicode_len() == 0 {
        &tokens[0]
    } else {
        &tokens[3]
    };
    match find_outline(bdrs, b_id) {
        Some(i) => {
            assert(views(bdrs@)[i as int] == bdrs@[i as int]@);
            let boundaries = bdrs[i].clone();
            let country = geonames.get_country_by_position(boundaries.center);
            let controllers = Vec::new();
            assert(views(controllers@) =~= Seq::<ControllerView>::empty());
            Some(
                FIR {
                    icao: tokens[0].clone(),
                    name: tokens[1].clone(),
                    prefix: tokens[2].clone(),
                    boundaries,
                    controllers,
                    country,
                },
            )
        },
        None => None,
    }
}

fn uir_line(tokens: &Vec<String>) -> (r: Option<UIR>)
    ensures
        r is Some <==> spec_uir_line(string_views(tokens@)) is Some,
        r is Some ==> r->0@ == spec_uir_line(string_views(tokens@))->0,
{
    if tokens.len() != 3 {
        return None;
    }
    let ghost v = string_views(tokens@);
    assert(forall|k: int| 0 <= k < 3 ==> #[trigger] v[k] == tokens@[k]@);
    Some(
        UIR {
            icao: tokens[0].clone(),
            name: tokens[1].clone(),
            fir_ids: split(tokens[2].as_str(), ','),
        },
    )
}

fn section_of(line: &Vec<char>) -> (r: String)
    ensures
        r@ == section_name(line@),
{
    let mut out: Vec<char> = Vec::new();
    if line.len() <= 2 {
        return string_of(&out);
    }
    let mut i: usize = 1;
    assert(out@ =~= line@.subrange(1, 1));
    while i < line.len() - 1
        invariant
            1 <= i <= line.len() - 1,
            out@ == line@.subrange(1, i as int),
        decreases line.len() - i,
    {
        out.push(line[i]);
        i += 1;
        assert(out@ =~= line@.subrange(1, i as int));
    }
    string_of(&out)
}

/// Reads the reference file. `bdrs` are the outlines of the regions,
/// `runways` the ends of all runways, and `geonames` tells the country at a
/// position.
pub fn parse(src: &str, bdrs: Vec<Boundaries>, runways: Vec<Runway>, geonames: Geonames) -> (r:
    Result<FixedData, ParseError>)
    requires
        geonames.wf(),
    ensures
        r is Ok,
        r->Ok_0.wf(),
        r->Ok_0.spec_geonames() == geonames,
        r->Ok_0.spec_countries() == spec_parse(
            src@,
            views(bdrs@),
            views(runways@),
            geonames,
        ).countries,
        r->Ok_0.spec_airports() == spec_parse(
            src@,
            views(bdrs@),
            views(runways@),
            geonames,
        ).airports,
        r->Ok_0.spec_firs() == spec_parse(src@, views(bdrs@), views(runways@), geonames).firs,
        r->Ok_0.spec_uirs() == spec_parse(src@, views(bdrs@), views(runways@), geonames).uirs,
{
    let lines = split(src, '\n');
    let ghost all = string_views(lines@);
    let ghost b = views(bdrs@);
    let ghost rw = views(runways@);
    let mut state = ParserState::Idle;
    let mut stopped = false;
    let mut countries: Vec<Country> = Vec::new();
    let mut airports: Vec<Airport> = Vec::new();
    let mut firs: Vec<FIR> = Vec::new();
    let mut uirs: Vec<UIR> = Vec::new();
    let mut i: usize = 0;
    assert(views(countries@) =~= Seq::<CountryView>::empty());
    assert(views(airports@) =~= Seq::<AirportView>::empty());
    assert(views(firs@) =~= Seq::<FIRView>::empty());
    assert(views(uirs@) =~= Seq::<UIRView>::empty());
    while i < lines.len()
        invariant
            i <= lines.len(),
            geonames.wf(),
            all == string_views(lines@),
            b == views(bdrs@),
            rw == views(runways@),
            progress(all, i as int, b, rw, geonames) == (Progress {
                state,
                stopped,
                countries: views(countries@),
                airports: views(airports@),
                firs: views(firs@),
                uirs: views(uirs@),
            }),
        decreases lines.len() - i,
    {
        assert(all[i as int] == lines@[i as int]@);
        let line = trim(lines[i].as_str());
        let chars = chars_of(line.as_str());
        i += 1;
        if stopped || chars.len() == 0 || chars[0] == ';' {
            continue ;
        }
        if chars[0] == '[' {
            let section = section_of(&chars);
            if same_text(section.as_str(), "Countries") {
                state = ParserState::ReadCountries;
            } else if same_text(section.as_str(), "Airports") {
                state = ParserState::ReadAirports;
            } else if same_text(section.as_str(), "FIRs") {
                state = ParserState::ReadFIRs;
            } else if same_text(section.as_str(), "UIRs") {
                state = ParserState::ReadUIRs;
            } else if same_text(section.as_str(), "IDL") {
                stopped = true;
            }
            continue ;
        }
        let tokens = split(line.as_str(), '|');
        match state {
            ParserState::Idle => {},
            ParserState::ReadCountries => {
                match country_line(&tokens) {
                    Some(c) => {
                        let ghost before = views(countries@);
                        let ghost v = c@;
                        countries.push(c);
                        assert(views(countries@) =~= before.push(v));
                    },
                    None => {},
                }
            },
            ParserState::ReadAirports => {
                match airport_line(&tokens, &airports, &runways, &geonames) {
                    Some(a) => {
                        let ghost before = views(airports@);
                        let ghost v = a@;
                        airports.push(a);
                        assert(views(airports@) =~= before.push(v));
                    },
                    None => {},
                }
            },
            ParserState::ReadFIRs => {
                match fir_line(&tokens, &bdrs, &geonames) {
                    Some(f) => {
                        let ghost before = views(firs@);
                        let ghost v = f@;
                        firs.push(f);
                        assert(views(firs@) =~= before.push(v));
                    },
                    None => {},
                }
            },
            ParserState::ReadUIRs => {
                match uir_line(&tokens) {
                    Some(u) => {
                        let ghost before = views(uirs@);
                        let ghost v = u@;
                        uirs.push(u);
                        assert(views(uirs@) =~= before.push(v));
                    },
                    None => {},
                }
            },
        }
    }
    Ok(FixedData::new(countries, airports, firs, uirs, geonames))
}

} // verus!
