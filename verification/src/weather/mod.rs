//! The weather at airports: a cache of observations that are kept for a
//! while, and a list of stations that had nothing to report, which are left
//! alone for longer and longer.
//!
//! The cache does not fetch anything itself. It says what is to be fetched,
//! and takes in what came back.

pub mod ext_types;

use self::ext_types::{Metar, MetarView, WeatherInfo, WeatherInfoView};
use crate::table::Table;
use crate::text::{join, joined, push_str, string_views, views};
use vstd::arithmetic::power2::{lemma2_to64, lemma_pow2_unfold, pow2};
use vstd::prelude::*;

verus! {

pub const BASE_API: &'static str = "https://aviationweather.gov/cgi-bin/data";

/// For how long a station is left alone after it first had nothing to
/// report: an hour, in milliseconds.
pub const BLACKLIST_MS: i64 = 3_600_000;

/// The time between two sweeps of the cache: five minutes, in milliseconds.
pub const SWEEP_MS: i64 = 300_000;

/// For how long an observation is kept unless told otherwise: half an hour,
/// in milliseconds.
pub const DEFAULT_TTL_MS: i64 = 1_800_000;

/// `2 * d`, held at the largest number of 64 bits.
pub open spec fn doubled(d: i64) -> i64 {
    if 2 * d > i64::MAX {
        i64::MAX
    } else if 2 * d < i64::MIN {
        i64::MIN
    } else {
        (2 * d) as i64
    }
}

/// A station that is left alone from `set_at` on for `duration`, both in
/// milliseconds.
#[derive(Debug, Clone, Copy, PartialEq, Eq, Structural)]
pub struct BlackListItem {
    pub set_at: i64,
    pub duration: i64,
}

impl BlackListItem {
    pub open spec fn spec_new(now: i64) -> BlackListItem {
        BlackListItem { set_at: now, duration: BLACKLIST_MS }
    }

    pub open spec fn spec_double(self, now: i64) -> BlackListItem {
        BlackListItem { set_at: now, duration: doubled(self.duration) }
    }

    pub open spec fn spec_expired(self, now: i64) -> bool {
        now > self.set_at + self.duration
    }

    /// The entry of a station that has nothing to report at `now`, given
    /// the entry that it had.
    pub open spec fn after_failure(previous: Option<BlackListItem>, now: i64) -> BlackListItem {
        match previous {
            Some(item) => item.spec_double(now),
            None => BlackListItem::spec_new(now),
        }
    }

    pub fn new(now: i64) -> (r: Self)
        ensures
            r == BlackListItem::spec_new(now),
    {
        BlackListItem { set_at: now, duration: BLACKLIST_MS }
    }

    pub fn double(&self, now: i64) -> (r: Self)
        ensures
            r == self.spec_double(now),
    {
        let wide: i128 = 2 * (self.duration as i128);
        let duration: i64 = if wide > i64::MAX as i128 {
            i64::MAX
        } else if wide < i64::MIN as i128 {
            i64::MIN
        } else {
            wide as i64
        };
        BlackListItem { set_at: now, duration }
    }

    pub fn expired(&self, now: i64) -> (b: bool)
        ensures
            b == self.spec_expired(now),
    {
        now as i128 > self.set_at as i128 + self.duration as i128
    }
}

/// The entry of a station after it had nothing to report `k` times in a
/// row, at the times `nows`.
pub open spec fn after_failures(nows: Seq<i64>, k: nat) -> BlackListItem
    decreases k,
{
    if k <= 1 {
        BlackListItem::spec_new(nows[0])
    } else {
        after_failures(nows, (k - 1) as nat).spec_double(nows[k - 1])
    }
}

/// A station that had nothing to report `k` times in a row is left alone
/// for an hour times two to the power of `k - 1`, as long as that fits 64
/// bits.
pub proof fn lemma_backoff(nows: Seq<i64>, k: nat)
    requires
        1 <= k <= nows.len(),
        BLACKLIST_MS * pow2((k - 1) as nat) <= i64::MAX,
    ensures
        after_failures(nows, k).duration == BLACKLIST_MS * pow2((k - 1) as nat),
        after_failures(nows, k).set_at == nows[k - 1],
    decreases k,
{
    lemma2_to64();
    if k > 1 {
        lemma_pow2_unfold((k - 1) as nat);
        assert(pow2((k - 1) as nat) == 2 * pow2((k - 2) as nat));
        assert(BLACKLIST_MS * pow2((k - 2) as nat) <= i64::MAX) by (nonlinear_arith)
            requires
                BLACKLIST_MS * (2 * pow2((k - 2) as nat)) <= i64::MAX,
                pow2((k - 2) as nat) >= 0,
                BLACKLIST_MS > 0,
        ;
        lemma_backoff(nows, (k - 1) as nat);
        assert(2 * (BLACKLIST_MS * pow2((k - 2) as nat)) == BLACKLIST_MS * (2 * pow2(
            (k - 2) as nat,
        ))) by (nonlinear_arith);
        vstd::arithmetic::power2::lemma_pow2_pos((k - 2) as nat);
        assert(BLACKLIST_MS * pow2((k - 2) as nat) >= 0) by (nonlinear_arith)
            requires
                pow2((k - 2) as nat) > 0,
                BLACKLIST_MS > 0,
        ;
    }
}

/// What came back for one station.
#[derive(Debug)]
pub enum Fetched {
    /// The service could not be reached, or what it said could not be read.
    Failed,
    /// The service had nothing to report.
    Empty,
    Found(Metar),
}

/// What is to be done to get the weather at a station.
#[derive(Debug)]
pub enum GetPlan {
    /// Nothing: the cache holds an observation that is young enough.
    Cached(WeatherInfo),
    /// Nothing: the station is left alone.
    Blacklisted,
    /// The observation is to be fetched from this address.
    Fetch(String),
}

/// The address that the observations of `stations` are fetched from.
pub open spec fn spec_path(stations: Seq<Seq<char>>) -> Seq<char> {
    BASE_API@ + "/metar.php?ids="@ + joined(stations, ","@) + "&format=json"@
}

/// Whether an observation received at `ts` is still to be trusted at
/// `now`, kept for `ttl`.
pub open spec fn fresh(ts: i64, now: i64, ttl: i64) -> bool {
    now - ts < ttl
}

/// Whether an observation received at `ts` may still be handed out at
/// `now`, kept for `ttl`.
pub open spec fn usable(ts: i64, now: i64, ttl: i64) -> bool {
    now - ts <= ttl
}

/// The weather at hand: the last observation of each station, the stations
/// that are left alone for a while, and how many requests were made.
#[derive(Debug)]
pub struct WeatherManager {
    metar_ttl: i64,
    cache: Table<WeatherInfo>,
    blacklist: Table<BlackListItem>,
    apireq_num: usize,
}

impl WeatherManager {
    /// For how long an observation is kept, in milliseconds.
    pub closed spec fn spec_ttl(&self) -> i64 {
        self.metar_ttl
    }

    pub closed spec fn spec_cache(&self) -> Table<WeatherInfo> {
        self.cache
    }

    pub closed spec fn spec_blacklist(&self) -> Table<BlackListItem> {
        self.blacklist
    }

    pub closed spec fn spec_request_num(&self) -> usize {
        self.apireq_num
    }

    pub closed spec fn wf(&self) -> bool {
        self.cache.wf() && self.blacklist.wf()
    }

    /// Whether the station is left alone at `now`.
    pub open spec fn spec_blacklisted(&self, location: Seq<char>, now: i64) -> bool {
        match self.spec_blacklist().spec_get(location) {
            Some(item) => !item.spec_expired(now),
            None => false,
        }
    }

    /// Whether the cache holds an observation of the station that is still
    /// to be trusted at `now`.
    pub open spec fn spec_valid(&self, location: Seq<char>, now: i64) -> bool {
        match self.spec_cache().spec_get(location) {
            Some(wx) => fresh(wx.ts, now, self.spec_ttl()),
            None => false,
        }
    }

    /// Whether the station is to be fetched at `now`.
    pub open spec fn spec_wanted(&self, location: Seq<char>, now: i64) -> bool {
        !self.spec_blacklisted(location, now) && !self.spec_valid(location, now)
    }

    /// Those of the first `n` stations that are to be fetched at `now`.
    pub open spec fn spec_to_load(&self, locations: Seq<Seq<char>>, now: i64, n: int) -> Seq<
        Seq<char>,
    >
        decreases n,
    {
        if n <= 0 || n > locations.len() {
            Seq::empty()
        } else if self.spec_wanted(locations[n - 1], now) {
            self.spec_to_load(locations, now, n - 1).push(locations[n - 1])
        } else {
            self.spec_to_load(locations, now, n - 1)
        }
    }

    /// Those of the first `n` stations in the cache whose observation is no
    /// longer to be trusted at `now`.
    pub open spec fn spec_expired(&self, now: i64, n: int) -> Seq<Seq<char>>
        decreases n,
    {
        if n <= 0 || n > self.spec_cache().spec_keys().len() {
            Seq::empty()
        } else if !fresh(self.spec_cache().spec_values()[n - 1].ts, now, self.spec_ttl()) {
            self.spec_expired(now, n - 1).push(self.spec_cache().spec_keys()[n - 1])
        } else {
            self.spec_expired(now, n - 1)
        }
    }

    pub fn new(metar_ttl: i64) -> (r: Self)
        ensures
            r.wf(),
            r.spec_ttl() == metar_ttl,
            r.spec_request_num() == 0,
            r.spec_cache().spec_keys().len() == 0,
            r.spec_blacklist().spec_keys().len() == 0,
    {
        WeatherManager {
            metar_ttl,
            cache: Table::new(),
            blacklist: Table::new(),
            apireq_num: 0,
        }
    }

    /// How often the service was asked.
    pub fn request_num(&self) -> (n: usize)
        ensures
            n == self.spec_request_num(),
    {
        self.apireq_num
    }

    pub fn has_valid_cache_for(&self, location: &str, now: i64) -> (b: bool)
        requires
            self.wf(),
        ensures
            b == self.spec_valid(location@, now),
    {
        match self.cache.get(location) {
            Some(value) => (now as i128 - value.ts as i128) < self.metar_ttl as i128,
            None => false,
        }
    }

    pub fn is_blacklisted(&self, location: &str, now: i64) -> (b: bool)
        requires
            self.wf(),
        ensures
            b == self.spec_blacklisted(location@, now),
    {
        match self.blacklist.get(location) {
            Some(item) => !item.expired(now),
            None => false,
        }
    }

    fn inc_apireq(&mut self)
        ensures
            final(self).spec_request_num() == crate::util::one_more(old(self).spec_request_num()),
            final(self).spec_ttl() == old(self).spec_ttl(),
            final(self).spec_cache() == old(self).spec_cache(),
            final(self).spec_blacklist() == old(self).spec_blacklist(),
    {
        if self.apireq_num < usize::MAX {
            self.apireq_num += 1;
        }
    }

    /// The stations whose observation has grown old at `now`: those that a
    /// sweep of the cache is to load anew.
    pub fn run(&self, now: i64) -> (r: Vec<String>)
        requires
            self.wf(),
        ensures
            string_views(r@) == self.spec_expired(now, self.spec_cache().spec_keys().len() as int),
    {
        let mut expired: Vec<String> = Vec::new();
        let mut i: usize = 0;
        let n: usize = self.cache.len();
        assert(string_views(expired@) =~= Seq::<Seq<char>>::empty());
        while i < n
            invariant
                i <= n,
                self.wf(),
                n == self.spec_cache().spec_keys().len(),
                n == self.spec_cache().spec_values().len(),
                string_views(expired@) == self.spec_expired(now, i as int),
            decreases n - i,
        {
            let ghost before = string_views(expired@);
            let wx = self.cache.value_at(i);
            if !((now as i128 - wx.ts as i128) < self.metar_ttl as i128) {
                let key = self.cache.key_at(i).clone();
                expired.push(key);
                assert(string_views(expired@) =~= before.push(self.spec_cache().spec_keys()[i as int]));
            }
            i += 1;
        }
        expired
    }

    /// The stations among `locations` that are to be fetched at `now`:
    /// those that are not left alone and have no observation that is still
    /// to be trusted.
    pub fn stations_to_load(&self, locations: &Vec<String>, now: i64) -> (r: Vec<String>)
        requires
            self.wf(),
        ensures
            string_views(r@) == self.spec_to_load(
                string_views(locations@),
                now,
                locations@.len() as int,
            ),
    {
        let mut results: Vec<String> = Vec::new();
        let mut i: usize = 0;
        assert(string_views(results@) =~= Seq::<Seq<char>>::empty());
        while i < locations.len()
            invariant
                i <= locations.len(),
                self.wf(),
                string_views(results@) == self.spec_to_load(
                    string_views(locations@),
                    now,
                    i as int,
                ),
            decreases locations.len() - i,
        {
            let ghost before = string_views(results@);
            assert(string_views(locations@)[i as int] == locations@[i as int]@);
            let blacklisted = self.is_blacklisted(locations[i].as_str(), now);
            let has_valid_cache = self.has_valid_cache_for(locations[i].as_str(), now);
            if !blacklisted && !has_valid_cache {
                results.push(locations[i].clone());
                assert(string_views(results@) =~= before.push(locations@[i as int]@));
            }
            i += 1;
        }
        results
    }

    fn path_for(stations: &Vec<String>) -> (r: String)
        ensures
            r@ == spec_path(string_views(stations@)),
    {
        let mut path = String::new();
        push_str(&mut path, BASE_API);
        push_str(&mut path, "/metar.php?ids=");
        let list = join(stations, ",");
        push_str(&mut path, list.as_str());
        push_str(&mut path, "&format=json");
        assert(path@ =~= spec_path(string_views(stations@)));
        path
    }

    /// What is to be fetched to have the weather at `locations` at hand:
    /// the address for all stations that are to be fetched, or nothing
    /// where there is none. An address handed out counts as a request.
    pub fn preload(&mut self, locations: &Vec<String>, now: i64) -> (r: Option<String>)
        requires
            old(self).wf(),
        ensures
            final(self).wf(),
            final(self).spec_ttl() == old(self).spec_ttl(),
            final(self).spec_cache() == old(self).spec_cache(),
            final(self).spec_blacklist() == old(self).spec_blacklist(),
            r is Some <==> old(self).spec_to_load(
                string_views(locations@),
                now,
                locations@.len() as int,
            ).len() > 0,
            r is Some ==> r->0@ == spec_path(
                old(self).spec_to_load(string_views(locations@), now, locations@.len() as int),
            ) && final(self).spec_request_num() == crate::util::one_more(
                old(self).spec_request_num(),
            ),
            r is None ==> final(self).spec_request_num() == old(self).spec_request_num(),
    {
        let stations = self.stations_to_load(locations, now);
        if stations.len() == 0 {
            return None;
        }
        self.inc_apireq();
        Some(Self::path_for(&stations))
    }

    /// Whether the cache is that of `before` with the observations `metars`
    /// taken in: a station is known by its last observation among them, and
    /// any other station as it was known before.
    pub open spec fn holds_after(&self, before: &WeatherManager, metars: Seq<MetarView>) -> bool {
        forall|location: Seq<char>|
            match observed(metars, location, metars.len() as int) {
                Some(metar) => (#[trigger] self.spec_cache().spec_get(location)) is Some
                    && self.spec_cache().spec_get(location)->0@ == metar.info(),
                None => self.spec_cache().spec_get(location) == before.spec_cache().spec_get(
                    location,
                ),
            }
    }

    /// Takes in the observations that came back for a preload: each is
    /// kept under the name of its station.
    pub fn store(&mut self, metars: Vec<Metar>)
        requires
            old(self).wf(),
        ensures
            final(self).wf(),
            final(self).spec_ttl() == old(self).spec_ttl(),
            final(self).spec_blacklist() == old(self).spec_blacklist(),
            final(self).spec_request_num() == old(self).spec_request_num(),
            final(self).holds_after(old(self), views(metars@)),
    {
        let ghost all = views(metars@);
        let mut metars = metars;
        let n: usize = metars.len();
        let mut i: usize = 0;
        while i < n
            invariant
                i <= n == all.len(),
                metars@.len() == n,
                forall|k: int| i <= k < n ==> (#[trigger] metars@[k])@ == all[k],
                self.wf(),
                self.spec_ttl() == old(self).spec_ttl(),
                self.spec_blacklist() == old(self).spec_blacklist(),
                self.spec_request_num() == old(self).spec_request_num(),
                forall|location: Seq<char>|
                    observed(all, location, i as int) is None ==> self.spec_cache().spec_get(
                        location,
                    ) == old(self).spec_cache().spec_get(location),
                forall|location: Seq<char>|
                    observed(all, location, i as int) is Some ==> self.spec_cache().spec_get(
                        location,
                    ) is Some && self.spec_cache().spec_get(location)->0@ == observed(
                        all,
                        location,
                        i as int,
                    )->0.info(),
            decreases n - i,
        {
            let mut metar = Metar {
                metar_id: 0,
                icao_id: String::new(),
                receipt_time: 0,
                report_time: 0,
                temp: None,
                dewp: None,
                wdir: None,
                wspd: None,
                wgst: None,
                raw_ob: String::new(),
            };
            core::mem::swap(&mut metar, &mut metars[i]);
            assert(metar@ == all[i as int]);
            let loc = metar.icao_id.clone();
            self.cache.put(loc, WeatherInfo::from_metar(metar));
            i += 1;
        }
    }

    /// The observation of the station in the cache, where it may still be
    /// handed out at `now`.
    pub fn get_cache(&self, location: &str, now: i64) -> (r: Option<WeatherInfo>)
        requires
            self.wf(),
        ensures
            r is Some <==> (self.spec_cache().spec_get(location@) is Some && usable(
                self.spec_cache().spec_get(location@)->0.ts,
                now,
                self.spec_ttl(),
            )),
            r is Some ==> r->0@ == self.spec_cache().spec_get(location@)->0@,
    {
        match self.cache.get(location) {
            Some(value) => {
                if (now as i128 - value.ts as i128) > self.metar_ttl as i128 {
                    None
                } else {
                    Some(value.clone())
                }
            },
            None => None,
        }
    }

    /// What is to be done to get the weather at `location` at `now`. An
    /// address handed out counts as a request.
    pub fn plan(&mut self, location: &str, now: i64) -> (r: GetPlan)
        requires
            old(self).wf(),
        ensures
            final(self).wf(),
            final(self).spec_ttl() == old(self).spec_ttl(),
            final(self).spec_cache() == old(self).spec_cache(),
            final(self).spec_blacklist() == old(self).spec_blacklist(),
            match r {
                GetPlan::Cached(wx) => old(self).spec_cache().spec_get(location@) is Some && usable(
                    old(self).spec_cache().spec_get(location@)->0.ts,
                    now,
                    old(self).spec_ttl(),
                ) && wx@ == old(self).spec_cache().spec_get(location@)->0@ && final(self).spec_request_num() == old(self).spec_request_num(),
                GetPlan::Blacklisted => !(old(self).spec_cache().spec_get(location@) is Some
                    && usable(
                    old(self).spec_cache().spec_get(location@)->0.ts,
                    now,
                    old(self).spec_ttl(),
                )) && old(self).spec_blacklisted(location@, now) && final(self).spec_request_num()
                    == old(self).spec_request_num(),
                GetPlan::Fetch(path) => !(old(self).spec_cache().spec_get(location@) is Some
                    && usable(
                    old(self).spec_cache().spec_get(location@)->0.ts,
                    now,
                    old(self).spec_ttl(),
                )) && !old(self).spec_blacklisted(location@, now) && path@ == spec_path(
                    seq![location@],
                ) && final(self).spec_request_num() == crate::util::one_more(
                    old(self).spec_request_num(),
                ),
            },
    {
        match self.get_cache(location, now) {
            Some(wx) => {
                return GetPlan::Cached(wx);
            },
            None => {},
        }
        if self.is_blacklisted(location, now) {
            return GetPlan::Blacklisted;
        }
        self.inc_apireq();
        let one = vec![location.to_owned()];
        assert(string_views(one@) =~= seq![location@]);
        GetPlan::Fetch(Self::path_for(&one))
    }

    /// Takes in what came back for `location` at `now`. An observation is
    /// kept and handed out. A station that had nothing to report, or that
    /// could not be asked, is left alone from now on: for an hour the first
    /// time, and for twice as long as the last time from then on.
    pub fn get(&mut self, location: &str, fetched: Fetched, now: i64) -> (r: Option<WeatherInfo>)
        requires
            old(self).wf(),
        ensures
            final(self).wf(),
            final(self).spec_ttl() == old(self).spec_ttl(),
            final(self).spec_request_num() == old(self).spec_request_num(),
            match fetched {
                Fetched::Found(metar) => r is Some && r->0@ == metar@.info() && final(self).spec_blacklist() == old(self).spec_blacklist() && final(self).spec_cache().spec_get(location@) is Some && final(self).spec_cache().spec_get(
                    location@,
                )->0@ == metar@.info() && forall|other: Seq<char>|
                    other != location@ ==> final(self).spec_cache().spec_get(other) == old(self).spec_cache().spec_get(other),
                _ => r is None && final(self).spec_cache() == old(self).spec_cache() && final(self).spec_blacklist().spec_get(location@) == Some(
                    BlackListItem::after_failure(
                        old(self).spec_blacklist().spec_get(location@),
                        now,
                    ),
                ) && forall|other: Seq<char>|
                    other != location@ ==> final(self).spec_blacklist().spec_get(other) == old(self).spec_blacklist().spec_get(other),
            },
    {
        match fetched {
            Fetched::Found(metar) => {
                let wx = WeatherInfo::from_metar(metar);
                self.cache.put(location.to_owned(), wx.clone());
                Some(wx)
            },
            _ => {
                let blitem = match self.blacklist.get(location) {
                    Some(blitem) => blitem.double(now),
                    None => BlackListItem::new(now),
                };
                self.blacklist.put(location.to_owned(), blitem);
                None
            },
        }
    }
}

/// The last of the first `n` observations that is of the station
/// `location`.
pub open spec fn observed(metars: Seq<MetarView>, location: Seq<char>, n: int) -> Option<MetarView>
    decreases n,
{
    if n <= 0 || n > metars.len() {
        None
    } else if metars[n - 1].icao_id == location {
        Some(metars[n - 1])
    } else {
        observed(metars, location, n - 1)
    }
}

/// What a cache knows of a station, as a mathematical value.
pub open spec fn known_of(m: WeatherManager, location: Seq<char>) -> Option<WeatherInfoView> {
    match m.spec_cache().spec_get(location) {
        Some(info) => Some(info@),
        None => None,
    }
}

/// Taking in the same observations a second time changes nothing that the
/// cache knows of any station.
pub proof fn lemma_store_twice(
    before: WeatherManager,
    once: WeatherManager,
    twice: WeatherManager,
    metars: Seq<MetarView>,
)
    requires
        once.holds_after(&before, metars),
        twice.holds_after(&once, metars),
    ensures
        forall|location: Seq<char>| #[trigger]
            known_of(twice, location) == known_of(once, location),
{
}

/// A station that is left alone, or whose observation is still to be
/// trusted, is not among the stations to load; so once the observations of
/// all stations are young, nothing is to be fetched.
pub proof fn lemma_nothing_to_load(m: WeatherManager, locations: Seq<Seq<char>>, now: i64, n: int)
    requires
        0 <= n <= locations.len(),
    ensures
        forall|k: int|
            0 <= k < m.spec_to_load(locations, now, n).len() ==> m.spec_wanted(
                #[trigger] m.spec_to_load(locations, now, n)[k],
                now,
            ),
        (forall|k: int| 0 <= k < n ==> !m.spec_wanted(#[trigger] locations[k], now))
            ==> m.spec_to_load(locations, now, n).len() == 0,
    decreases n,
{
    if n > 0 {
        lemma_nothing_to_load(m, locations, now, n - 1);
        let before = m.spec_to_load(locations, now, n - 1);
        let all = m.spec_to_load(locations, now, n);
        assert forall|k: int| 0 <= k < all.len() implies m.spec_wanted(#[trigger] all[k], now) by {
            if k < before.len() {
                assert(all[k] == before[k]);
            }
        }
    }
}

} // verus!
