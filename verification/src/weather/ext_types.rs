//! Weather observations.

use vstd::prelude::*;

verus! {

/// Where the wind comes from: a direction in degrees, or a word for a wind
/// that turns.
#[derive(Debug)]
pub enum WindDirection {
    Variable(String),
    Degree(u64),
}

pub enum WindDirectionView {
    Variable(Seq<char>),
    Degree(u64),
}

impl View for WindDirection {
    type V = WindDirectionView;

    open spec fn view(&self) -> WindDirectionView {
        match self {
            WindDirection::Variable(s) => WindDirectionView::Variable(s@),
            WindDirection::Degree(d) => WindDirectionView::Degree(*d),
        }
    }
}

impl Clone for WindDirection {
    fn clone(&self) -> (r: Self)
        ensures
            r@ == self@,
    {
        match self {
            WindDirection::Variable(s) => WindDirection::Variable(s.clone()),
            WindDirection::Degree(d) => WindDirection::Degree(*d),
        }
    }
}

impl WindDirection {
    pub fn same(&self, other: &Self) -> (b: bool)
        ensures
            b == (self@ == other@),
    {
        match (self, other) {
            (WindDirection::Variable(x), WindDirection::Variable(y)) => *x == *y,
            (WindDirection::Degree(x), WindDirection::Degree(y)) => *x == *y,
            _ => false,
        }
    }
}

/// One observation of the weather at a station.
#[derive(Debug)]
pub struct WeatherInfo {
    /// In millionths of a degree.
    pub temperature: Option<i64>,
    /// In millionths of a degree.
    pub dew_point: Option<i64>,
    pub wind_speed: Option<u64>,
    pub wind_gust: Option<u64>,
    pub wind_direction: Option<WindDirection>,
    pub raw: String,
    /// When the observation was received, in milliseconds since the Unix epoch.
    pub ts: i64,
}

/// A [`WeatherInfo`] as a mathematical value.
pub struct WeatherInfoView {
    pub temperature: Option<i64>,
    pub dew_point: Option<i64>,
    pub wind_speed: Option<u64>,
    pub wind_gust: Option<u64>,
    pub wind_direction: Option<WindDirectionView>,
    pub raw: Seq<char>,
    pub ts: i64,
}

impl View for WeatherInfo {
    type V = WeatherInfoView;

    open spec fn view(&self) -> WeatherInfoView {
        WeatherInfoView {
            temperature: self.temperature,
            dew_point: self.dew_point,
            wind_speed: self.wind_speed,
            wind_gust: self.wind_gust,
            wind_direction: match self.wind_direction {
                Some(x) => Some(x@),
                None => None,
            },
            raw: self.raw@,
            ts: self.ts,
        }
    }
}

impl Clone for WeatherInfo {
    fn clone(&self) -> (r: Self)
        ensures
            r@ == self@,
    {
        WeatherInfo {
            temperature: self.temperature,
            dew_point: self.dew_point,
            wind_speed: self.wind_speed,
            wind_gust: self.wind_gust,
            wind_direction: match &self.wind_direction {
                Some(x) => Some(x.clone()),
                None => None,
            },
            raw: self.raw.clone(),
            ts: self.ts,
        }
    }
}

impl WeatherInfo {
    /// Whether the two are equal, field by field.
    pub fn same(&self, other: &Self) -> (b: bool)
        ensures
            b == (self@ == other@),
    {
        (match (self.temperature, other.temperature) {
                (Some(x), Some(y)) => x == y,
                (None, None) => true,
                _ => false,
            })
            && (match (self.dew_point, other.dew_point) {
                (Some(x), Some(y)) => x == y,
                (None, None) => true,
                _ => false,
            })
            && (match (self.wind_speed, other.wind_speed) {
                (Some(x), Some(y)) => x == y,
                (None, None) => true,
                _ => false,
            })
            && (match (self.wind_gust, other.wind_gust) {
                (Some(x), Some(y)) => x == y,
                (None, None) => true,
                _ => false,
            })
            && (match (&self.wind_direction, &other.wind_direction) {
                (Some(x), Some(y)) => x.same(y),
                (None, None) => true,
                _ => false,
            })
            && self.raw == other.raw
            && self.ts == other.ts
    }
}
/// One observation as the weather service reports it.
#[derive(Debug)]
pub struct Metar {
    pub metar_id: u64,
    pub icao_id: String,
    /// Milliseconds since the Unix epoch.
    pub receipt_time: i64,
    /// Milliseconds since the Unix epoch.
    pub report_time: i64,
    pub temp: Option<i64>,
    pub dewp: Option<i64>,
    pub wdir: Option<WindDirection>,
    pub wspd: Option<u64>,
    pub wgst: Option<u64>,
    pub raw_ob: String,
}

/// A [`Metar`] as a mathematical value.
pub struct MetarView {
    pub metar_id: u64,
    pub icao_id: Seq<char>,
    pub receipt_time: i64,
    pub report_time: i64,
    pub temp: Option<i64>,
    pub dewp: Option<i64>,
    pub wdir: Option<WindDirectionView>,
    pub wspd: Option<u64>,
    pub wgst: Option<u64>,
    pub raw_ob: Seq<char>,
}

impl View for Metar {
    type V = MetarView;

    open spec fn view(&self) -> MetarView {
        MetarView {
            metar_id: self.metar_id,
            icao_id: self.icao_id@,
            receipt_time: self.receipt_time,
            report_time: self.report_time,
            temp: self.temp,
            dewp: self.dewp,
            wdir: match self.wdir {
                Some(x) => Some(x@),
                None => None,
            },
            wspd: self.wspd,
            wgst: self.wgst,
            raw_ob: self.raw_ob@,
        }
    }
}

impl Clone for Metar {
    fn clone(&self) -> (r: Self)
        ensures
            r@ == self@,
    {
        Metar {
            metar_id: self.metar_id,
            icao_id: self.icao_id.clone(),
            receipt_time: self.receipt_time,
            report_time: self.report_time,
            temp: self.temp,
            dewp: self.dewp,
            wdir: match &self.wdir {
                Some(x) => Some(x.clone()),
                None => None,
            },
            wspd: self.wspd,
            wgst: self.wgst,
            raw_ob: self.raw_ob.clone(),
        }
    }
}

impl Metar {
    /// Whether the two are equal, field by field.
    pub fn same(&self, other: &Self) -> (b: bool)
        ensures
            b == (self@ == other@),
    {
        self.metar_id == other.metar_id
            && self.icao_id == other.icao_id
            && self.receipt_time == other.receipt_time
            && self.report_time == other.report_time
            && (match (self.temp, other.temp) {
                (Some(x), Some(y)) => x == y,
                (None, None) => true,
                _ => false,
            })
            && (match (self.dewp, other.dewp) {
                (Some(x), Some(y)) => x == y,
                (None, None) => true,
                _ => false,
            })
            && (match (&self.wdir, &other.wdir) {
                (Some(x), Some(y)) => x.same(y),
                (None, None) => true,
                _ => false,
            })
            && (match (self.wspd, other.wspd) {
                (Some(x), Some(y)) => x == y,
                (None, None) => true,
                _ => false,
            })
            && (match (self.wgst, other.wgst) {
                (Some(x), Some(y)) => x == y,
                (None, None) => true,
                _ => false,
            })
            && self.raw_ob == other.raw_ob
    }
}
impl MetarView {
    /// The observation, as it is kept.
    pub open spec fn info(self) -> WeatherInfoView {
        WeatherInfoView {
            temperature: self.temp,
            dew_point: self.dewp,
            wind_speed: self.wspd,
            wind_gust: self.wgst,
            wind_direction: self.wdir,
            raw: self.raw_ob,
            ts: self.receipt_time,
        }
    }
}

impl WeatherInfo {
    pub fn from_metar(value: Metar) -> (r: WeatherInfo)
        ensures
            r@ == value@.info(),
    {
        WeatherInfo {
            temperature: value.temp,
            dew_point: value.dewp,
            wind_speed: value.wspd,
            wind_gust: value.wgst,
            wind_direction: value.wdir,
            raw: value.raw_ob,
            ts: value.receipt_time,
        }
    }
}

} // verus!
