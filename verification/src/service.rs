//! The device that the plugin exposes: its temperature sources, their ids, and
//! the cache of disk temperatures with its refresh and fail-safe rules.
use crate::temps::{keys_sorted, lemma_map_at, TempMap};
use crate::text::str_eq;
use vstd::prelude::*;

verus! {

/// Whether `c` is an ASCII letter or digit (what `char::is_ascii_alphanumeric` returns).
pub open spec fn is_ascii_alphanumeric(c: char) -> bool {
    ('a' <= c && c <= 'z') || ('A' <= c && c <= 'Z') || ('0' <= c && c <= '9')
}

/// Whether `c` may stand in a temperature id unchanged.
pub open spec fn is_id_char(c: char) -> bool {
    is_ascii_alphanumeric(c) || c == '_' || c == '-' || c == '.'
}

/// Whether `c` is trimmed from both ends of a temperature id.
pub open spec fn is_id_edge_char(c: char) -> bool {
    c == '_' || c == '-' || c == '.'
}

/// `c`, or `_` where `c` may not stand in an id.
pub open spec fn sanitize_char(c: char) -> char {
    if is_id_char(c) {
        c
    } else {
        '_'
    }
}

/// `s` without its leading id edge characters.
pub open spec fn trim_id_start(s: Seq<char>) -> Seq<char>
    decreases s.len(),
{
    if s.len() > 0 && is_id_edge_char(s[0]) {
        trim_id_start(s.drop_first())
    } else {
        s
    }
}

/// `s` without its trailing id edge characters.
pub open spec fn trim_id_end(s: Seq<char>) -> Seq<char>
    decreases s.len(),
{
    if s.len() > 0 && is_id_edge_char(s.last()) {
        trim_id_end(s.drop_last())
    } else {
        s
    }
}

/// The temperature id of the disk named `name`: each character that may not
/// stand in an id replaced by `_`, then `_`, `-` and `.` trimmed from both
/// ends; `disk` where nothing is left.
pub open spec fn temp_id_spec(name: Seq<char>) -> Seq<char> {
    let safe = trim_id_end(trim_id_start(name.map_values(|c: char| sanitize_char(c))));
    if safe.len() == 0 {
        seq!['d', 'i', 's', 'k']
    } else {
        safe
    }
}

fn is_ascii_alphanumeric_char(c: char) -> (res: bool)
    ensures
        res == is_ascii_alphanumeric(c),
{
    ('a' <= c && c <= 'z') || ('A' <= c && c <= 'Z') || ('0' <= c && c <= '9')
}

/// The temperature id of the disk named `disk_name`.
pub fn temp_id(disk_name: &str) -> (id: String)
    ensures
        id@ == temp_id_spec(disk_name@),
{
    let n = disk_name.unicode_len();
    let ghost sanitized = disk_name@.map_values(|c: char| sanitize_char(c));
    let mut safe = String::new();
    let mut i: usize = 0;
    proof {
        reveal_strlit("_");
    }
    while i < n
        invariant
            n == disk_name@.len(),
            i <= n,
            sanitized == disk_name@.map_values(|c: char| sanitize_char(c)),
            safe@ == sanitized.subrange(0, i as int),
            "_"@ == seq!['_'],
        decreases n - i,
    {
        let c = disk_name.get_char(i);
        if is_ascii_alphanumeric_char(c) || c == '_' || c == '-' || c == '.' {
            let piece = disk_name.substring_char(i, i + 1);
            assert(piece@ =~= seq![c]);
            safe.append(piece);
        } else {
            safe.append("_");
        }
        assert(safe@ =~= sanitized.subrange(0, i + 1));
        i = i + 1;
    }
    assert(safe@ =~= sanitized);
    let s = safe.as_str();
    let mut a: usize = 0;
    assert(s@.subrange(0, n as int) =~= s@);
    while a < n
        invariant
            n == s@.len(),
            a <= n,
            trim_id_start(s@) == trim_id_start(s@.subrange(a as int, n as int)),
        ensures
            a <= n,
            trim_id_start(s@) == s@.subrange(a as int, n as int),
        decreases n - a,
    {
        let c = s.get_char(a);
        if !(c == '_' || c == '-' || c == '.') {
            break;
        }
        assert(s@.subrange(a as int, n as int).drop_first() =~= s@.subrange(a + 1, n as int));
        a = a + 1;
    }
    let ghost t = s@.subrange(a as int, n as int);
    let mut b: usize = n;
    while b > a
        invariant
            n == s@.len(),
            a <= b <= n,
            t == s@.subrange(a as int, n as int),
            trim_id_end(t) == trim_id_end(s@.subrange(a as int, b as int)),
        ensures
            a <= b <= n,
            trim_id_end(t) == s@.subrange(a as int, b as int),
        decreases b,
    {
        let c = s.get_char(b - 1);
        if !(c == '_' || c == '-' || c == '.') {
            break;
        }
        assert(s@.subrange(a as int, b as int).drop_last() =~= s@.subrange(a as int, b - 1));
        b = b - 1;
    }
    if a == b {
        proof {
            reveal_strlit("disk");
        }
        String::from_str("disk")
    } else {
        String::from_str(s.substring_char(a, b))
    }
}

/// Nanoseconds in a second.
pub const NANOS_PER_SECOND: u128 = 1_000_000_000;

/// Time from `since` to `now`, both in nanoseconds on a monotonic clock; zero
/// where `now` is earlier (as `Instant::elapsed` saturates).
pub open spec fn elapsed_nanos(since: u128, now: u128) -> int {
    if now >= since {
        now - since
    } else {
        0
    }
}

/// Whether a new fetch is due: none was tried yet, or the poll interval has
/// passed since the last try.
pub open spec fn refresh_due(last_attempt: Option<u128>, now: u128, poll_interval_seconds: u64) -> bool {
    match last_attempt {
        None => true,
        Some(t) => elapsed_nanos(t, now) >= poll_interval_seconds * NANOS_PER_SECOND,
    }
}

/// Whether the last good reading is too old to be trusted: there was none, or
/// more than `stale_after_seconds` have passed since it.
pub open spec fn is_stale(last_success: Option<u128>, now: u128, stale_after_seconds: u64) -> bool {
    match last_success {
        None => true,
        Some(t) => elapsed_nanos(t, now) > stale_after_seconds * NANOS_PER_SECOND,
    }
}

/// The name of the single reading that stands in for all disks when none is known.
pub open spec fn failsafe_name() -> Seq<char> {
    seq!['f', 'a', 'i', 'l', 's', 'a', 'f', 'e']
}

/// The readings that a cache starts with: each configured disk at the
/// fail-safe temperature.
pub open spec fn configured_readings<T>(disk_names: Seq<String>, failsafe: T) -> Map<Seq<char>, T> {
    Map::new(|k: Seq<char>| exists|i: int| 0 <= i < disk_names.len() && #[trigger] disk_names[i]@ == k, |k: Seq<char>| failsafe)
}

fn elapsed_since(since: u128, now: u128) -> (e: u128)
    ensures
        e == elapsed_nanos(since, now),
{
    if now >= since {
        now - since
    } else {
        0
    }
}

/// The disk temperatures last known, with the times of the last fetch and the
/// last good fetch (nanoseconds on the service's monotonic clock) and the
/// error of the last fetch.
pub struct TempCache<T> {
    temperatures: TempMap<T>,
    last_success: Option<u128>,
    last_attempt: Option<u128>,
    last_error: Option<String>,
}

impl<T> TempCache<T> {
    /// The readings, disk name to temperature.
    pub closed spec fn readings(&self) -> TempMap<T> {
        self.temperatures
    }

    /// When the last fetch succeeded.
    pub closed spec fn last_success_at(&self) -> Option<u128> {
        self.last_success
    }

    /// When a fetch was last tried.
    pub closed spec fn last_attempt_at(&self) -> Option<u128> {
        self.last_attempt
    }

    /// The error of the last fetch, where it failed.
    pub closed spec fn error(&self) -> Option<Seq<char>> {
        match self.last_error {
            Some(e) => Some(e@),
            None => None,
        }
    }

    /// Whether a fetch is due at `now`.
    pub fn should_refresh(&self, now: u128, poll_interval_seconds: u64) -> (due: bool)
        ensures
            due == refresh_due(self.last_attempt_at(), now, poll_interval_seconds),
    {
        match self.last_attempt {
            None => true,
            Some(t) => elapsed_since(t, now) >= (poll_interval_seconds as u128) * NANOS_PER_SECOND,
        }
    }

    /// Takes the readings of a good fetch made at `now`.
    pub fn record_success(&mut self, temperatures: TempMap<T>, now: u128)
        ensures
            final(self).readings() == temperatures,
            final(self).last_attempt_at() == Some(now),
            final(self).last_success_at() == Some(now),
            final(self).error() == None::<Seq<char>>,
    {
        self.temperatures = temperatures;
        self.last_attempt = Some(now);
        self.last_success = Some(now);
        self.last_error = None;
    }

    /// The readings, disk name to temperature.
    pub fn temperatures(&self) -> (m: &TempMap<T>)
        ensures
            *m == self.readings(),
    {
        &self.temperatures
    }

    /// Whether the last fetch failed, so that the device reports a warning.
    pub fn health_warning(&self) -> (warn: bool)
        ensures
            warn == (self.error() is Some),
    {
        self.last_error.is_some()
    }

    /// The temperature sources of the device, in ascending order of disk name:
    /// the id, the label (the disk name) and the number (the position, from 1).
    pub fn temp_infos(&self) -> (infos: Vec<(String, String, u32)>)
        ensures
            keys_sorted(self.readings().entries()),
            infos@.len() == self.readings().entries().len(),
            forall|i: int|
                0 <= i < infos@.len() ==> {
                    &&& (#[trigger] infos@[i]).0@ == temp_id_spec(self.readings().entries()[i].0)
                    &&& infos@[i].1@ == self.readings().entries()[i].0
                    &&& infos@[i].2 == (i + 1) as u32
                },
    {
        let m = &self.temperatures;
        let n = m.len();
        let mut infos: Vec<(String, String, u32)> = Vec::new();
        let mut i: usize = 0;
        while i < n
            invariant
                n == m.entries().len(),
                *m == self.readings(),
                i <= n,
                infos@.len() == i,
                forall|j: int|
                    0 <= j < i ==> {
                        &&& (#[trigger] infos@[j]).0@ == temp_id_spec(m.entries()[j].0)
                        &&& infos@[j].1@ == m.entries()[j].0
                        &&& infos@[j].2 == (j + 1) as u32
                    },
            decreases n - i,
        {
            let name = m.key_at(i);
            let number: u32 = (i + 1) as u32;
            infos.push((temp_id(name.as_str()), name.clone(), number));
            i = i + 1;
        }
        infos
    }
}

impl<T: Copy> TempCache<T> {
    /// A cache that holds each configured disk at the fail-safe temperature,
    /// with no fetch tried yet.
    pub fn new(disk_names: &Vec<String>, failsafe: T) -> (cache: Self)
        ensures
            cache.readings()@ == configured_readings(disk_names@, failsafe),
            cache.last_attempt_at() == None::<u128>,
            cache.last_success_at() == None::<u128>,
            cache.error() == None::<Seq<char>>,
    {
        let mut temperatures = TempMap::new();
        let n = disk_names.len();
        let mut i: usize = 0;
        while i < n
            invariant
                n == disk_names@.len(),
                i <= n,
                temperatures@ == configured_readings(disk_names@.subrange(0, i as int), failsafe),
            decreases n - i,
        {
            let name = disk_names[i].clone();
            temperatures.insert(name, failsafe);
            proof {
                let p1 = disk_names@.subrange(0, i + 1);
                let p0 = disk_names@.subrange(0, i as int);
                let m1 = configured_readings(p1, failsafe);
                let m0 = configured_readings(p0, failsafe).insert(disk_names@[i as int]@, failsafe);
                assert forall|k: Seq<char>| #[trigger] m1.contains_key(k) <==> m0.contains_key(k) by {
                    if m1.contains_key(k) {
                        let j = choose|j: int| 0 <= j < p1.len() && #[trigger] p1[j]@ == k;
                        if j < i {
                            assert(p0[j]@ == k);
                        }
                    }
                    if configured_readings(p0, failsafe).contains_key(k) {
                        let j = choose|j: int| 0 <= j < p0.len() && #[trigger] p0[j]@ == k;
                        assert(p1[j]@ == k);
                    }
                    if k == disk_names@[i as int]@ {
                        assert(p1[i as int]@ == k);
                    }
                }
                assert(m1 =~= m0);
            }
            i = i + 1;
        }
        assert(disk_names@.subrange(0, n as int) =~= disk_names@);
        TempCache { temperatures, last_success: None, last_attempt: None, last_error: None }
    }

    /// Records a failed fetch made at `now`. Where the last good reading is
    /// stale, every disk falls back to the fail-safe temperature, and where no
    /// disk is known, a single `failsafe` reading stands in.
    pub fn record_failure(&mut self, error: String, now: u128, stale_after_seconds: u64, failsafe: T)
        ensures
            final(self).last_attempt_at() == Some(now),
            final(self).last_success_at() == old(self).last_success_at(),
            final(self).error() == Some(error@),
            !is_stale(old(self).last_success_at(), now, stale_after_seconds) ==> final(self).readings()
                == old(self).readings(),
            is_stale(old(self).last_success_at(), now, stale_after_seconds) && old(self).readings().entries().len()
                == 0 ==> final(self).readings().entries() == seq![(failsafe_name(), failsafe)],
            is_stale(old(self).last_success_at(), now, stale_after_seconds) && old(self).readings().entries().len()
                > 0 ==> {
                &&& final(self).readings()@.dom() == old(self).readings()@.dom()
                &&& final(self).readings().entries().len() == old(self).readings().entries().len()
                &&& forall|i: int|
                    0 <= i < old(self).readings().entries().len() ==> #[trigger] final(self).readings().entries()[i]
                        == (old(self).readings().entries()[i].0, failsafe)
            },
            is_stale(old(self).last_success_at(), now, stale_after_seconds) ==> {
                &&& final(self).readings().entries().len() > 0
                &&& forall|k: Seq<char>| #[trigger] final(self).readings()@.contains_key(k) ==> final(self).readings()@[k] == failsafe
            },
    {
        self.last_attempt = Some(now);
        self.last_error = Some(error);
        let stale = match self.last_success {
            None => true,
            Some(t) => elapsed_since(t, now) > (stale_after_seconds as u128) * NANOS_PER_SECOND,
        };
        if stale {
            if self.temperatures.is_empty() {
                proof {
                    reveal_strlit("failsafe");
                }
                let name = String::from_str("failsafe");
                assert(name@ == failsafe_name());
                self.temperatures.insert(name, failsafe);
                proof {
                    lemma_map_at(self.temperatures.entries(), 0);
                    assert(self.temperatures@.dom() =~= Set::empty().insert(failsafe_name()));
                }
            } else {
                self.temperatures.set_all(failsafe);
            }
        }
    }

    /// The temperature of each source, in ascending order of disk name.
    pub fn status_entries(&self) -> (status: Vec<(String, T)>)
        ensures
            keys_sorted(self.readings().entries()),
            status@.len() == self.readings().entries().len(),
            forall|i: int|
                0 <= i < status@.len() ==> {
                    &&& (#[trigger] status@[i]).0@ == temp_id_spec(self.readings().entries()[i].0)
                    &&& status@[i].1 == self.readings().entries()[i].1
                },
    {
        let m = &self.temperatures;
        let n = m.len();
        let mut status: Vec<(String, T)> = Vec::new();
        let mut i: usize = 0;
        while i < n
            invariant
                n == m.entries().len(),
                *m == self.readings(),
                i <= n,
                status@.len() == i,
                forall|j: int|
                    0 <= j < i ==> {
                        &&& (#[trigger] status@[j]).0@ == temp_id_spec(m.entries()[j].0)
                        &&& status@[j].1 == m.entries()[j].1
                    },
            decreases n - i,
        {
            let name = m.key_at(i);
            let value = *m.value_at(i);
            status.push((temp_id(name.as_str()), value));
            i = i + 1;
        }
        status
    }
}

proof fn lemma_trim_id_start(s: Seq<char>)
    ensures
        trim_id_start(s).len() <= s.len(),
        trim_id_start(s) == s.subrange(s.len() - trim_id_start(s).len(), s.len() as int),
        trim_id_start(s).len() > 0 ==> !is_id_edge_char(trim_id_start(s)[0]),
    decreases s.len(),
{
    if s.len() > 0 && is_id_edge_char(s[0]) {
        lemma_trim_id_start(s.drop_first());
        let t = trim_id_start(s.drop_first());
        assert(s.drop_first().subrange(s.drop_first().len() - t.len(), s.drop_first().len() as int) =~= s.subrange(
            s.len() - t.len(),
            s.len() as int,
        ));
    } else {
        assert(s.subrange(0, s.len() as int) =~= s);
    }
}

proof fn lemma_trim_id_end(s: Seq<char>)
    ensures
        trim_id_end(s).len() <= s.len(),
        trim_id_end(s) == s.subrange(0, trim_id_end(s).len() as int),
        trim_id_end(s).len() > 0 ==> !is_id_edge_char(trim_id_end(s).last()),
    decreases s.len(),
{
    if s.len() > 0 && is_id_edge_char(s.last()) {
        lemma_trim_id_end(s.drop_last());
        let t = trim_id_end(s.drop_last());
        assert(s.drop_last().subrange(0, t.len() as int) =~= s.subrange(0, t.len() as int));
    } else {
        assert(s.subrange(0, s.len() as int) =~= s);
    }
}

/// A temperature id is never empty, holds only ASCII letters, digits, `_`,
/// `-` and `.`, and neither starts nor ends with `_`, `-` or `.`.
pub proof fn lemma_temp_id_well_formed(name: Seq<char>)
    ensures
        temp_id_spec(name).len() > 0,
        forall|i: int| 0 <= i < temp_id_spec(name).len() ==> is_id_char(#[trigger] temp_id_spec(name)[i]),
        !is_id_edge_char(temp_id_spec(name)[0]),
        !is_id_edge_char(temp_id_spec(name).last()),
{
    let sanitized = name.map_values(|c: char| sanitize_char(c));
    let t = trim_id_start(sanitized);
    let safe = trim_id_end(t);
    lemma_trim_id_start(sanitized);
    lemma_trim_id_end(t);
    if safe.len() > 0 {
        assert forall|i: int| 0 <= i < safe.len() implies is_id_char(#[trigger] safe[i]) by {
            assert(safe[i] == t[i]);
            assert(t[i] == sanitized[sanitized.len() - t.len() + i]);
        }
        assert(safe[0] == t[0]);
    }
}

/// Ids are stable: the id of an id is that id.
pub proof fn lemma_temp_id_stable(name: Seq<char>)
    ensures
        temp_id_spec(temp_id_spec(name)) == temp_id_spec(name),
{
    let r = temp_id_spec(name);
    lemma_temp_id_well_formed(name);
    let sanitized = r.map_values(|c: char| sanitize_char(c));
    assert(sanitized =~= r);
    assert(trim_id_start(r) == r);
    assert(trim_id_end(r) == r);
}

/// No fetch is due within the poll interval after the last try.
pub proof fn lemma_no_fetch_within_poll_interval<T>(
    cache: TempCache<T>,
    now: u128,
    poll_interval_seconds: u64,
)
    requires
        cache.last_attempt_at() is Some,
        cache.last_attempt_at()->0 <= now,
        now < cache.last_attempt_at()->0 + poll_interval_seconds * NANOS_PER_SECOND,
    ensures
        !refresh_due(cache.last_attempt_at(), now, poll_interval_seconds),
{
}

/// A fetch is due before the first try, and once the poll interval has passed since the last one.
pub proof fn lemma_fetch_due_after_poll_interval<T>(
    cache: TempCache<T>,
    now: u128,
    poll_interval_seconds: u64,
)
    requires
        cache.last_attempt_at() is Some ==> now >= cache.last_attempt_at()->0 + poll_interval_seconds
            * NANOS_PER_SECOND,
    ensures
        refresh_due(cache.last_attempt_at(), now, poll_interval_seconds),
{
}

/// The id of the one device that the plugin exposes.
pub open spec fn device_id_spec() -> Seq<char> {
    "truenas"@
}

/// The id of the one device that the plugin exposes: `truenas`.
pub fn device_id() -> (id: String)
    ensures
        id@ == device_id_spec(),
{
    String::from_str("truenas")
}

/// Whether a request names the plugin's device.
pub fn is_device_id(id: &str) -> (b: bool)
    ensures
        b == (id@ == device_id_spec()),
{
    str_eq(id, "truenas")
}

/// The name under which the plugin reports itself.
pub fn service_id() -> (id: &'static str)
    ensures
        id@ == "coolercontrol-truenas-bridge"@,
{
    "coolercontrol-truenas-bridge"
}

/// The plugin's version.
pub fn version() -> (v: &'static str)
    ensures
        v@ == "0.1.2"@,
{
    "0.1.2"
}

/// What the plugin says of its device, besides its temperature sources and
/// its temperature range.
#[derive(Debug)]
pub struct DeviceDescription {
    pub id: String,
    pub name: String,
    pub uid_info: Option<String>,
    pub model: Option<String>,
    pub driver_name: Option<String>,
    pub driver_version: Option<String>,
    pub locations: Vec<String>,
}

/// The device of the TrueNAS system at `host`: id `truenas`, name `TrueNAS`,
/// model `TrueNAS Disk Temperatures`, the host as unique id and as the one
/// location, and the plugin as driver.
pub fn describe_device(host: &str) -> (d: DeviceDescription)
    ensures
        d.id@ == device_id_spec(),
        d.name@ == "TrueNAS"@,
        d.uid_info matches Some(u) && u@ == host@,
        d.model matches Some(m) && m@ == "TrueNAS Disk Temperatures"@,
        d.driver_name matches Some(n) && n@ == "coolercontrol-truenas-bridge"@,
        d.driver_version matches Some(v) && v@ == "0.1.2"@,
        d.locations@.len() == 1,
        d.locations@[0]@ == host@,
{
    let mut locations: Vec<String> = Vec::new();
    locations.push(String::from_str(host));
    DeviceDescription {
        id: device_id(),
        name: String::from_str("TrueNAS"),
        uid_info: Some(String::from_str(host)),
        model: Some(String::from_str("TrueNAS Disk Temperatures")),
        driver_name: Some(String::from_str(service_id())),
        driver_version: Some(String::from_str(version())),
        locations,
    }
}

} // verus!
