//! Meross hub rooms: which devices are climate sensors, how their names
//! read on the panel, where the MQTT broker is, and the caches a settings
//! change drops.

use vstd::prelude::*;
use crate::server::model::RoomClimate;
use crate::text::{
    chars_of, eq_ignore_ascii_case, eq_ignore_case, find_seq, find_seq_from, has_prefix_at,
    lower_seq, parse_u16, parse_u16_exec, rfind_char, rfind_char_exec, same_chars, starts_with,
    string_in, to_lower, trim, trim_bounds, trim_char_end, trim_range, end_char,
};

verus! {

/// Broker port when the domain names none.
pub const MQTT_PORT: u16 = 443;
/// How long cached room readings are served, in seconds.
pub const ROOMS_TTL_SECS: u64 = 90;

/// Meross cloud login, cached between dashboard loads.
pub struct CloudCreds {
    pub email: String,
    pub token: String,
    pub key: String,
    pub user_id: String,
    pub domain: String,
    pub mqtt_domain: String,
}

/// What the server keeps between loads: the last room readings (with the
/// millisecond they were read) and the cloud login.
pub struct MerossCache {
    pub rooms: Option<(u64, Vec<RoomClimate>)>,
    pub creds: Option<CloudCreds>,
}

impl MerossCache {
    /// Nothing cached.
    pub fn new() -> (c: Self)
        ensures
            c.rooms is None,
            c.creds is None,
    {
        MerossCache { rooms: None, creds: None }
    }
}

/// Drop cached thermometer readings so the next dashboard load talks to the hub.
pub fn invalidate_rooms(cache: &mut MerossCache)
    ensures
        final(cache).rooms is None,
        final(cache).creds == old(cache).creds,
{
    cache.rooms = None;
}

/// Drop the readings and the cloud login (after a credentials change).
pub fn invalidate_cache(cache: &mut MerossCache)
    ensures
        final(cache).rooms is None,
        final(cache).creds is None,
{
    invalidate_rooms(cache);
    cache.creds = None;
}

fn room(name: &str, temperature: &str, humidity: &str) -> (r: RoomClimate)
    ensures
        r.name@ == name@,
        r.temperature@ == temperature@,
        r.humidity@ == humidity@,
        r.online,
{
    RoomClimate {
        name: name.to_string(),
        temperature: temperature.to_string(),
        humidity: humidity.to_string(),
        online: true,
    }
}

/// Rooms shown when Meross is not configured.
pub fn demo_rooms() -> (r: Vec<RoomClimate>)
    ensures
        r@.len() == 3,
        r@[0].name@ == "Kitchen"@ && r@[0].temperature@ == "21.4°"@ && r@[0].humidity@ == "48%"@,
        r@[1].name@ == "Studio"@ && r@[1].temperature@ == "20.1°"@ && r@[1].humidity@ == "51%"@,
        r@[2].name@ == "Bedroom"@ && r@[2].temperature@ == "19.8°"@ && r@[2].humidity@ == "53%"@,
        forall|i: int| 0 <= i < 3 ==> (#[trigger] r@[i]).online,
{
    vec![
        room("Kitchen", "21.4°", "48%"),
        room("Studio", "20.1°", "51%"),
        room("Bedroom", "19.8°", "53%"),
    ]
}

/// `s` with every leading copy of `p` removed (`str::trim_start_matches`).
pub open spec fn strip_all(s: Seq<char>, p: Seq<char>) -> Seq<char>
    decreases s.len(),
{
    if p.len() > 0 && starts_with(s, p) {
        strip_all(s.skip(p.len() as int), p)
    } else {
        s
    }
}

/// The broker domain without scheme and trailing slashes.
pub open spec fn broker_of(domain: Seq<char>) -> Seq<char> {
    trim_char_end(
        strip_all(
            strip_all(strip_all(strip_all(trim(domain), "mqtts://"@), "mqtt://"@), "https://"@),
            "http://"@,
        ),
        '/',
    )
}

/// Host and port of the MQTT broker a domain names.
pub open spec fn mqtt_host_of(domain: Seq<char>) -> (Seq<char>, u16) {
    let d = broker_of(domain);
    match rfind_char(d, ':') {
        Some(c) => match parse_u16(d.skip(c + 1)) {
            Some(p) => (d.take(c), p),
            None => (d, MQTT_PORT),
        },
        None => (d, MQTT_PORT),
    }
}

/// Start of `v[lo..hi]` after every leading copy of `p`.
pub(crate) fn skip_all(v: &[char], lo: usize, hi: usize, p: &[char]) -> (r: usize)
    requires
        lo <= hi <= v@.len(),
    ensures
        lo <= r <= hi,
        strip_all(v@.subrange(lo as int, hi as int), p@) == v@.subrange(r as int, hi as int),
    decreases hi - lo,
{
    let w = vstd::slice::slice_subrange(v, lo, hi);
    assert(w@ == v@.subrange(lo as int, hi as int));
    assert(w@.subrange(0, w@.len() as int) =~= w@);
    if p.len() > 0 && has_prefix_at(w, 0, p) {
        let k = p.len();
        assert(w@.skip(k as int) =~= v@.subrange(lo + k, hi as int));
        skip_all(v, lo + k, hi, p)
    } else {
        lo
    }
}

/// Broker host and port from the cloud's `mqttDomain`.
pub fn mqtt_host(domain: &str) -> (r: (String, u16))
    ensures
        r.0@ == mqtt_host_of(domain@).0,
        r.1 == mqtt_host_of(domain@).1,
{
    let v = chars_of(domain);
    let (i0, j0) = trim_bounds(&v);
    let p1 = chars_of("mqtts://");
    let p2 = chars_of("mqtt://");
    let p3 = chars_of("https://");
    let p4 = chars_of("http://");
    let i1 = skip_all(&v, i0, j0, p1.as_slice());
    let i2 = skip_all(&v, i1, j0, p2.as_slice());
    let i3 = skip_all(&v, i2, j0, p3.as_slice());
    let i4 = skip_all(&v, i3, j0, p4.as_slice());
    let j = end_char(&v, '/', i4, j0);
    let d = vstd::slice::slice_subrange(v.as_slice(), i4, j);
    assert(d@ == broker_of(domain@));
    let n = d.len();
    match rfind_char_exec(d, ':', n) {
        Some(c) => {
            assert(d@.skip(c + 1) =~= d@.subrange(c + 1, n as int));
            match parse_u16_exec(d, c + 1, n) {
                Some(p) => {
                    assert(d@.take(c as int) =~= d@.subrange(0, c as int));
                    (string_in(d, 0, c), p)
                },
                None => {
                    assert(d@.subrange(0, n as int) =~= d@);
                    (string_in(d, 0, n), MQTT_PORT)
                },
            }
        },
        None => {
            assert(d@.subrange(0, n as int) =~= d@);
            (string_in(d, 0, n), MQTT_PORT)
        },
    }
}

/// The lowercased characters of `s`.
fn lowered(s: &str) -> (r: Vec<char>)
    ensures
        r@ == lower_seq(s@),
{
    let v = chars_of(s);
    to_lower(v.as_slice())
}

/// `v` starts with the literal `lit`.
pub(crate) fn begins(v: &Vec<char>, lit: &str) -> (r: bool)
    ensures
        r == starts_with(v@, lit@),
{
    let p = chars_of(lit);
    assert(v@.subrange(0, v@.len() as int) =~= v@);
    has_prefix_at(v.as_slice(), 0, p.as_slice())
}

/// `v` contains the literal `lit`.
fn holds(v: &Vec<char>, lit: &str) -> (r: bool)
    ensures
        r == find_seq(v@, lit@) is Some,
{
    let p = chars_of(lit);
    assert(v@.subrange(0, v@.len() as int) =~= v@);
    find_seq_from(v.as_slice(), 0, p.as_slice()).is_some()
}

/// Hub devices are `msh…`.
pub fn is_hub(device_type: &str) -> (r: bool)
    ensures
        r == starts_with(lower_seq(device_type@), "msh"@),
{
    let t = lowered(device_type);
    begins(&t, "msh")
}

/// Temperature / humidity sensors: untyped, `ms100…`, or typed as such.
pub fn is_temp_sensor(device_type: &str) -> (r: bool)
    ensures
        r == ({
            let t = lower_seq(device_type@);
            t.len() == 0 || starts_with(t, "ms100"@) || find_seq(t, "temp"@) is Some || find_seq(
                t,
                "hum"@,
            ) is Some
        }),
{
    let t = lowered(device_type);
    t.len() == 0 || begins(&t, "ms100") || holds(&t, "temp") || holds(&t, "hum")
}

/// Hub-attached thermostat valves: `mts…` or typed as a thermostat.
pub fn is_hub_thermostat(device_type: &str) -> (r: bool)
    ensures
        r == (starts_with(lower_seq(device_type@), "mts"@) || find_seq(
            lower_seq(device_type@),
            "thermostat"@,
        ) is Some),
{
    let t = lowered(device_type);
    begins(&t, "mts") || holds(&t, "thermostat")
}

/// Wi-Fi thermostats are `mts…` devices.
pub fn is_wifi_thermostat(device_type: &str) -> (r: bool)
    ensures
        r == starts_with(lower_seq(device_type@), "mts"@),
{
    let t = lowered(device_type);
    begins(&t, "mts")
}

/// Sub-devices that report a room's climate.
pub fn is_climate_subdevice(device_type: &str) -> (r: bool)
    ensures
        r == ({
            let t = lower_seq(device_type@);
            t.len() == 0 || starts_with(t, "ms100"@) || find_seq(t, "temp"@) is Some || find_seq(
                t,
                "hum"@,
            ) is Some || starts_with(t, "mts"@) || find_seq(t, "thermostat"@) is Some
        }),
{
    is_temp_sensor(device_type) || is_hub_thermostat(device_type)
}

/// `s` ends with `p`.
pub open spec fn ends_with(s: Seq<char>, p: Seq<char>) -> bool {
    p.len() <= s.len() && s.skip(s.len() - p.len()) == p
}

/// A thermostat name without a trailing ` thermostat`, ` trv` or ` valve`
/// (any ASCII case), trimmed.
pub open spec fn thermostat_name_of(raw: Seq<char>) -> Seq<char> {
    let t = trim(raw);
    let l = lower_seq(t);
    if ends_with(l, " thermostat"@) {
        trim(t.take(l.len() - " thermostat"@.len()))
    } else if ends_with(l, " trv"@) {
        trim(t.take(l.len() - " trv"@.len()))
    } else if ends_with(l, " valve"@) {
        trim(t.take(l.len() - " valve"@.len()))
    } else {
        t
    }
}

/// `v` ends with the literal `lit`.
pub(crate) fn finishes(v: &Vec<char>, lit: &str) -> (r: bool)
    ensures
        r == ends_with(v@, lit@),
{
    let p = chars_of(lit);
    if p.len() > v.len() {
        return false;
    }
    let at = v.len() - p.len();
    assert(v@.subrange(at as int, v@.len() as int) =~= v@.skip(at as int));
    let r = has_prefix_at(v.as_slice(), at, p.as_slice());
    assert(v@.subrange(at as int, v@.len() as int).subrange(0, p@.len() as int) =~= v@.skip(at as int));
    r
}

pub fn strip_thermostat_suffix(raw: &str) -> (r: String)
    ensures
        r@ == thermostat_name_of(raw@),
{
    let v = chars_of(raw);
    let (i, j) = trim_bounds(&v);
    let t = vstd::slice::slice_subrange(v.as_slice(), i, j);
    let mut tv: Vec<char> = Vec::new();
    let mut k: usize = 0;
    while k < t.len()
        invariant
            k <= t@.len(),
            tv@ == t@.take(k as int),
        decreases t@.len() - k,
    {
        tv.push(t[k]);
        assert(t@.take(k + 1) =~= t@.take(k as int).push(t@[k as int]));
        k = k + 1;
    }
    assert(t@.take(t@.len() as int) =~= t@);
    let l = to_lower(tv.as_slice());
    if finishes(&l, " thermostat") {
        let cut = tv.len() - chars_of(" thermostat").len();
        let (a, b) = trim_range(tv.as_slice(), 0, cut);
        assert(tv@.take(cut as int) =~= tv@.subrange(0, cut as int));
        return string_in(tv.as_slice(), a, b);
    }
    if finishes(&l, " trv") {
        let cut = tv.len() - chars_of(" trv").len();
        let (a, b) = trim_range(tv.as_slice(), 0, cut);
        assert(tv@.take(cut as int) =~= tv@.subrange(0, cut as int));
        return string_in(tv.as_slice(), a, b);
    }
    if finishes(&l, " valve") {
        let cut = tv.len() - chars_of(" valve").len();
        let (a, b) = trim_range(tv.as_slice(), 0, cut);
        assert(tv@.take(cut as int) =~= tv@.subrange(0, cut as int));
        return string_in(tv.as_slice(), a, b);
    }
    assert(tv@.subrange(0, tv@.len() as int) =~= tv@);
    string_in(tv.as_slice(), 0, tv.len())
}

/// A name that is only a model number (`mts…`), `thermostat`, or blank.
pub fn looks_like_thermostat_model(name: &str) -> (r: bool)
    ensures
        r == ({
            let n = lower_seq(trim(name@));
            n.len() == 0 || starts_with(n, "mts"@) || n == "thermostat"@
        }),
{
    let v = chars_of(name);
    let t = crate::text::trimmed(v.as_slice());
    let n = to_lower(t.as_slice());
    let word = chars_of("thermostat");
    n.len() == 0 || begins(&n, "mts") || same_chars(n.as_slice(), word.as_slice())
}

/// Add a room unless one with the same name (ASCII case-insensitively) is listed.
pub fn push_unique_room(rooms: &mut Vec<RoomClimate>, room: RoomClimate)
    ensures
        (exists|i: int|
            0 <= i < old(rooms)@.len() && eq_ignore_case(#[trigger] old(rooms)@[i].name@, room.name@))
            ==> final(rooms)@ == old(rooms)@,
        !(exists|i: int|
            0 <= i < old(rooms)@.len() && eq_ignore_case(#[trigger] old(rooms)@[i].name@, room.name@))
            ==> final(rooms)@ == old(rooms)@.push(room),
{
    let key = chars_of(room.name.as_str());
    let n = rooms.len();
    let mut i: usize = 0;
    while i < n
        invariant
            n == rooms@.len(),
            rooms@ == old(rooms)@,
            key@ == room.name@,
            i <= n,
            forall|j: int| 0 <= j < i ==> !eq_ignore_case(#[trigger] rooms@[j].name@, room.name@),
        decreases n - i,
    {
        let other = chars_of(rooms[i].name.as_str());
        if eq_ignore_ascii_case(other.as_slice(), key.as_slice()) {
            return;
        }
        i = i + 1;
    }
    rooms.push(room);
}

} // verus!
