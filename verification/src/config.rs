//! The settings of the service and their defaults.

use vstd::prelude::*;

verus! {

/// Settings of the map: by how much a viewport is widened, in thousandths.
#[derive(Debug, Clone, Copy, PartialEq, Eq, Structural)]
pub struct Camden {
    /// By how much the window of a viewer is widened before it is queried,
    /// in thousandths: 1300 stands for 1.3.
    pub map_win_multiplier: u32,
}

impl Default for Camden {
    fn default() -> (r: Self)
        ensures
            r.map_win_multiplier == 1300,
    {
        Camden { map_win_multiplier: 1300 }
    }
}

/// Where the reference files are kept after they were fetched.
#[derive(Debug)]
pub struct Cache {
    pub runways: String,
    pub geonames_countries: String,
    pub geonames_shapes: String,
}

impl Default for Cache {
    fn default() -> (r: Self)
        ensures
            r.runways@ == "/tmp/runways.csv.cache"@,
            r.geonames_countries@ == "/tmp/geonames.countries.csv.cache"@,
            r.geonames_shapes@ == "/tmp/geonames.shapes.json.zip"@,
    {
        Cache {
            runways: "/tmp/runways.csv.cache".to_owned(),
            geonames_countries: "/tmp/geonames.countries.csv.cache".to_owned(),
            geonames_shapes: "/tmp/geonames.shapes.json.zip".to_owned(),
        }
    }
}

/// The live feed.
#[derive(Debug)]
pub struct Api {
    pub url: String,
    /// The time between two fetches, in seconds.
    pub poll_period: u64,
    /// How long a fetch may take, in seconds.
    pub timeout: u64,
}

impl Default for Api {
    fn default() -> (r: Self)
        ensures
            r.url@ == "https://data.vatsim.net/v3/vatsim-data.json"@,
            r.poll_period == 15,
            r.timeout == 1,
    {
        Api {
            url: "https://data.vatsim.net/v3/vatsim-data.json".to_owned(),
            poll_period: 15,
            timeout: 1,
        }
    }
}

/// How much is logged.
#[derive(Debug, Clone, Copy, PartialEq, Eq, Structural)]
pub enum LogLevel {
    Off,
    Error,
    Warn,
    Info,
    Debug,
    Trace,
}

/// Settings of the log.
#[derive(Debug, Clone, Copy, PartialEq, Eq, Structural)]
pub struct Log {
    pub level: LogLevel,
}

impl Default for Log {
    fn default() -> (r: Self)
        ensures
            r.level == LogLevel::Debug,
    {
        Log { level: LogLevel::Debug }
    }
}

/// Settings of the web server.
#[derive(Debug, Clone, Copy, PartialEq, Eq, Structural)]
pub struct Web {
    pub port: u16,
}

impl Default for Web {
    fn default() -> (r: Self)
        ensures
            r.port == 8000,
    {
        Web { port: 8000 }
    }
}

/// Where the reference data is fetched from.
#[derive(Debug)]
pub struct Fixed {
    pub data_url: String,
    pub boundaries_url: String,
    pub runways_url: String,
    pub geonames_countries_url: String,
    pub geonames_shapes_url: String,
}

impl Default for Fixed {
    fn default() -> (r: Self)
        ensures
            r.data_url@
                == "https://raw.githubusercontent.com/vatsimnetwork/vatspy-data-project/master/VATSpy.dat"@,
            r.boundaries_url@
                == "https://raw.githubusercontent.com/vatsimnetwork/vatspy-data-project/master/Boundaries.geojson"@,
            r.runways_url@ == "https://ourairports.com/data/runways.csv"@,
            r.geonames_countries_url@
                == "http://download.geonames.org/export/dump/countryInfo.txt"@,
            r.geonames_shapes_url@
                == "http://download.geonames.org/export/dump/shapes_simplified_low.json.zip"@,
    {
        Fixed {
            data_url:
                "https://raw.githubusercontent.com/vatsimnetwork/vatspy-data-project/master/VATSpy.dat".to_owned(),
            boundaries_url:
                "https://raw.githubusercontent.com/vatsimnetwork/vatspy-data-project/master/Boundaries.geojson".to_owned(),
            runways_url: "https://ourairports.com/data/runways.csv".to_owned(),
            geonames_countries_url:
                "http://download.geonames.org/export/dump/countryInfo.txt".to_owned(),
            geonames_shapes_url:
                "http://download.geonames.org/export/dump/shapes_simplified_low.json.zip".to_owned(),
        }
    }
}

/// Where tracks are kept.
#[derive(Debug)]
pub struct Track {
    /// The folder of the tracks of pilots.
    pub folder: String,
    /// The folder of the tracks that flights report of themselves.
    pub tmf_folder: String,
    pub uri: String,
    pub dbname: String,
}

impl Default for Track {
    fn default() -> (r: Self)
        ensures
            r.folder@ == "/var/lib/simwatch/tracks"@,
            r.tmf_folder@ == "/var/lib/simwatch/tmf"@,
            r.uri@ == "mongodb://localhost:27017"@,
            r.dbname@ == "camden-dev"@,
    {
        Track {
            folder: "/var/lib/simwatch/tracks".to_owned(),
            tmf_folder: "/var/lib/simwatch/tmf".to_owned(),
            uri: "mongodb://localhost:27017".to_owned(),
            dbname: "camden-dev".to_owned(),
        }
    }
}

/// Where the service listens.
#[derive(Debug)]
pub struct Grpc {
    pub listen: String,
}

impl Default for Grpc {
    fn default() -> (r: Self)
        ensures
            r.listen@ == "127.0.0.1:50051"@,
    {
        Grpc { listen: "127.0.0.1:50051".to_owned() }
    }
}

/// All settings.
#[derive(Debug)]
pub struct Config {
    pub log: Log,
    pub web: Web,
    pub grpc: Grpc,
    pub api: Api,
    pub fixed: Fixed,
    pub track: Track,
    pub cache: Cache,
    pub camden: Camden,
}

impl Default for Config {
    fn default() -> (r: Self)
        ensures
            r.log.level == LogLevel::Debug,
            r.web.port == 8000,
            r.api.poll_period == 15,
            r.api.timeout == 1,
            r.camden.map_win_multiplier == 1300,
    {
        Config {
            log: Log::default(),
            web: Web::default(),
            grpc: Grpc::default(),
            api: Api::default(),
            fixed: Fixed::default(),
            track: Track::default(),
            cache: Cache::default(),
            camden: Camden::default(),
        }
    }
}

} // verus!
