//! How the Meross rooms are named and ordered: labels from the config, the
//! thermostat fallbacks, and the final sort and room filter.

use vstd::prelude::*;
use crate::server::meross::{
    is_climate_subdevice, is_hub_thermostat, looks_like_thermostat_model, strip_thermostat_suffix,
    thermostat_name_of,
};
use crate::server::model::{compare_text, text_lt, Duplicate, RoomClimate};
use crate::text::{
    chars_of, eq_ignore_ascii_case, eq_ignore_case, find_seq, lower_seq, push_str, same_text,
    starts_with, trim,
};

verus! {

/// The label configured for `key`: the first pair with that name.
pub open spec fn label_of(labels: Seq<(String, String)>, key: Seq<char>) -> Option<Seq<char>>
    decreases labels.len(),
{
    if labels.len() == 0 {
        None
    } else if labels[0].0@ == key {
        Some(labels[0].1@)
    } else {
        label_of(labels.drop_first(), key)
    }
}

/// Look up the label configured for `key`.
pub fn label_for(labels: &[(String, String)], key: &str) -> (r: Option<String>)
    ensures
        match r {
            Some(l) => label_of(labels@, key@) == Some(l@),
            None => label_of(labels@, key@) is None,
        },
{
    let n = labels.len();
    let mut i: usize = 0;
    assert(labels@.skip(0) =~= labels@);
    while i < n
        invariant
            n == labels@.len(),
            i <= n,
            label_of(labels@, key@) == label_of(labels@.skip(i as int), key@),
        decreases n - i,
    {
        assert(labels@.skip(i as int)[0] == labels@[i as int]);
        assert(labels@.skip(i as int).drop_first() =~= labels@.skip(i + 1));
        if same_text(labels[i].0.as_str(), key) {
            return Some(labels[i].1.clone());
        }
        i = i + 1;
    }
    None
}

/// A name that is only a model number, `thermostat`, or blank.
pub open spec fn model_like(name: Seq<char>) -> bool {
    let n = lower_seq(trim(name));
    n.len() == 0 || starts_with(n, "mts"@) || n == "thermostat"@
}

/// How a thermostat reads on the panel: its configured label (by name,
/// then by a non-empty id), else its name without the model suffix, and
/// `Kitchen` when nothing but a model number is left.
pub open spec fn thermostat_label_of(raw: Seq<char>, id: Seq<char>, labels: Seq<(String, String)>) -> Seq<char> {
    match label_of(labels, raw) {
        Some(l) => l,
        None => match (if id.len() > 0 { label_of(labels, id) } else { None }) {
            Some(l) => l,
            None => {
                let s = thermostat_name_of(raw);
                if s.len() == 0 || model_like(s) {
                    "Kitchen"@
                } else {
                    s
                }
            },
        },
    }
}

fn text(s: &str) -> (r: String)
    ensures
        r@ == s@,
{
    let mut t = String::new();
    push_str(&mut t, s);
    assert(Seq::<char>::empty() + s@ =~= s@);
    t
}

pub fn thermostat_display_name(raw: &str, id: &str, labels: &[(String, String)]) -> (r: String)
    ensures
        r@ == thermostat_label_of(raw@, id@, labels@),
{
    if let Some(l) = label_for(labels, raw) {
        return l;
    }
    if !id.is_empty() {
        if let Some(l) = label_for(labels, id) {
            return l;
        }
    }
    let stripped = strip_thermostat_suffix(raw);
    if stripped.as_str().is_empty() || looks_like_thermostat_model(stripped.as_str()) {
        text("Kitchen")
    } else {
        stripped
    }
}

/// Climate sub-device types: sensors and hub thermostats.
pub open spec fn climate_type(t: Seq<char>) -> bool {
    let l = lower_seq(t);
    l.len() == 0 || starts_with(l, "ms100"@) || find_seq(l, "temp"@) is Some || find_seq(l, "hum"@) is Some
        || starts_with(l, "mts"@) || find_seq(l, "thermostat"@) is Some
}

/// Hub thermostat types.
pub open spec fn thermostat_type(t: Seq<char>) -> bool {
    starts_with(lower_seq(t), "mts"@) || find_seq(lower_seq(t), "thermostat"@) is Some
}

/// The room label of a hub sub-device and whether it is a thermostat;
/// `None` for a sub-device without id or that reports no climate.
pub open spec fn subdevice_label_of(
    id: Seq<char>,
    name: Seq<char>,
    device_type: Seq<char>,
    labels: Seq<(String, String)>,
) -> Option<(Seq<char>, bool)> {
    if id.len() == 0 || !climate_type(device_type) {
        None
    } else {
        let raw = if name.len() == 0 { id } else { name };
        if thermostat_type(device_type) {
            Some((thermostat_label_of(raw, id, labels), true))
        } else {
            Some(
                (
                    match label_of(labels, name) {
                        Some(l) => l,
                        None => match label_of(labels, id) {
                            Some(l) => l,
                            None => raw,
                        },
                    },
                    false,
                ),
            )
        }
    }
}

pub fn subdevice_label(id: &str, name: &str, device_type: &str, labels: &[(String, String)]) -> (r: Option<
    (String, bool),
>)
    ensures
        match r {
            Some((l, t)) => subdevice_label_of(id@, name@, device_type@, labels@) == Some((l@, t)),
            None => subdevice_label_of(id@, name@, device_type@, labels@) is None,
        },
{
    if id.is_empty() || !is_climate_subdevice(device_type) {
        return None;
    }
    let raw = if name.is_empty() { id } else { name };
    if is_hub_thermostat(device_type) {
        return Some((thermostat_display_name(raw, id, labels), true));
    }
    let label = match label_for(labels, name) {
        Some(l) => l,
        None => match label_for(labels, id) {
            Some(l) => l,
            None => text(raw),
        },
    };
    Some((label, false))
}

/// Index of the first wanted room name matching `name` (ASCII case
/// ignored), or `usize::MAX` when none does.
pub open spec fn want_pos(wanted: Seq<String>, name: Seq<char>) -> int
    decreases wanted.len(),
{
    if wanted.len() == 0 {
        usize::MAX as int
    } else if eq_ignore_case(wanted[0]@, name) {
        0
    } else {
        let p = want_pos(wanted.drop_first(), name);
        if p == usize::MAX as int {
            p
        } else {
            p + 1
        }
    }
}

proof fn lemma_want_pos(wanted: Seq<String>, name: Seq<char>)
    requires
        wanted.len() <= usize::MAX,
    ensures
        want_pos(wanted, name) == usize::MAX as int || 0 <= want_pos(wanted, name) < wanted.len(),
        want_pos(wanted, name) != usize::MAX as int ==> eq_ignore_case(wanted[want_pos(wanted, name)]@, name),
        want_pos(wanted, name) == usize::MAX as int <==> forall|i: int|
            0 <= i < wanted.len() ==> !eq_ignore_case((#[trigger] wanted[i])@, name),
    decreases wanted.len(),
{
    if wanted.len() > 0 {
        lemma_want_pos(wanted.drop_first(), name);
        if !eq_ignore_case(wanted[0]@, name) {
            assert forall|i: int| 0 < i < wanted.len() implies wanted[i] == wanted.drop_first()[i - 1] by {}
            if want_pos(wanted, name) != usize::MAX as int {
                let p = want_pos(wanted.drop_first(), name);
                assert(wanted[p + 1] == wanted.drop_first()[p]);
            }
        }
    }
}

fn want_index(wanted: &[String], name: &str) -> (r: usize)
    ensures
        r as int == want_pos(wanted@, name@),
{
    let key = chars_of(name);
    let n = wanted.len();
    let mut i: usize = 0;
    assert(wanted@.skip(0) =~= wanted@);
    while i < n
        invariant
            n == wanted@.len(),
            i <= n,
            key@ == name@,
            forall|k: int| 0 <= k < i ==> !eq_ignore_case((#[trigger] wanted@[k])@, name@),
            want_pos(wanted@, name@) == (if want_pos(wanted@.skip(i as int), name@) == usize::MAX as int {
                usize::MAX as int
            } else {
                want_pos(wanted@.skip(i as int), name@) + i
            }),
        decreases n - i,
    {
        let w = chars_of(wanted[i].as_str());
        assert(wanted@.skip(i as int)[0] == wanted@[i as int]);
        assert(wanted@.skip(i as int).drop_first() =~= wanted@.skip(i + 1));
        if eq_ignore_ascii_case(w.as_slice(), key.as_slice()) {
            return i;
        }
        proof {
            lemma_want_pos(wanted@.skip(i + 1), name@);
        }
        i = i + 1;
    }
    assert(wanted@.skip(n as int) =~= Seq::<String>::empty());
    usize::MAX
}

/// `a` sorts before `b`: by wanted position when a room filter is given,
/// else by name.
pub open spec fn room_lt(a: RoomClimate, b: RoomClimate, wanted: Seq<String>, by_pos: bool) -> bool {
    if by_pos {
        want_pos(wanted, a.name@) < want_pos(wanted, b.name@)
    } else {
        text_lt(a.name@, b.name@)
    }
}

/// Where `e` goes in `s`: before the first room it sorts before.
pub open spec fn room_slot(s: Seq<RoomClimate>, e: RoomClimate, wanted: Seq<String>, by_pos: bool) -> int
    decreases s.len(),
{
    if s.len() == 0 {
        0
    } else if room_lt(e, s[0], wanted, by_pos) {
        0
    } else {
        1 + room_slot(s.drop_first(), e, wanted, by_pos)
    }
}

/// `rs` stably sorted by [`room_lt`]: rooms that compare equal keep their order.
pub open spec fn sort_rooms(rs: Seq<RoomClimate>, wanted: Seq<String>, by_pos: bool) -> Seq<RoomClimate>
    decreases rs.len(),
{
    if rs.len() == 0 {
        rs
    } else {
        let s = sort_rooms(rs.drop_last(), wanted, by_pos);
        s.insert(room_slot(s, rs.last(), wanted, by_pos), rs.last())
    }
}

proof fn lemma_room_slot_bound(s: Seq<RoomClimate>, e: RoomClimate, wanted: Seq<String>, by_pos: bool)
    ensures
        0 <= room_slot(s, e, wanted, by_pos) <= s.len(),
    decreases s.len(),
{
    if s.len() > 0 && !room_lt(e, s[0], wanted, by_pos) {
        lemma_room_slot_bound(s.drop_first(), e, wanted, by_pos);
    }
}

proof fn lemma_sort_rooms_len(rs: Seq<RoomClimate>, wanted: Seq<String>, by_pos: bool)
    ensures
        sort_rooms(rs, wanted, by_pos).len() == rs.len(),
    decreases rs.len(),
{
    if rs.len() > 0 {
        lemma_sort_rooms_len(rs.drop_last(), wanted, by_pos);
        lemma_room_slot_bound(sort_rooms(rs.drop_last(), wanted, by_pos), rs.last(), wanted, by_pos);
    }
}

fn room_before(a: &RoomClimate, b: &RoomClimate, wanted: &[String], by_pos: bool) -> (r: bool)
    ensures
        r == room_lt(*a, *b, wanted@, by_pos),
{
    if by_pos {
        want_index(wanted, a.name.as_str()) < want_index(wanted, b.name.as_str())
    } else {
        compare_text(a.name.as_str(), b.name.as_str()) < 0
    }
}

/// Stable insertion sort of the rooms by [`room_lt`].
fn sort_room_list(v: &mut Vec<RoomClimate>, wanted: &[String], by_pos: bool)
    ensures
        final(v)@ == sort_rooms(old(v)@, wanted@, by_pos),
{
    let ghost orig = v@;
    let mut rest: Vec<RoomClimate> = Vec::new();
    core::mem::swap(v, &mut rest);
    let n = rest.len();
    let mut i: usize = 0;
    assert(orig.take(0) =~= Seq::<RoomClimate>::empty());
    assert(orig.skip(0) =~= orig);
    while i < n
        invariant
            n == orig.len(),
            i <= n,
            rest@ == orig.skip(i as int),
            v@ == sort_rooms(orig.take(i as int), wanted@, by_pos),
        decreases n - i,
    {
        proof {
            lemma_sort_rooms_len(orig.take(i as int), wanted@, by_pos);
        }
        let e = rest.remove(0);
        let m = v.len();
        let mut j: usize = 0;
        assert(v@.skip(0) =~= v@);
        while j < m && !room_before(&e, &v[j], wanted, by_pos)
            invariant
                m == v@.len(),
                j <= m,
                room_slot(v@, e, wanted@, by_pos) == j + room_slot(v@.skip(j as int), e, wanted@, by_pos),
            decreases m - j,
        {
            assert(v@.skip(j as int)[0] == v@[j as int]);
            assert(v@.skip(j as int).drop_first() =~= v@.skip(j + 1));
            j = j + 1;
        }
        proof {
            if j < m {
                assert(v@.skip(j as int)[0] == v@[j as int]);
            } else {
                assert(v@.skip(j as int) =~= Seq::<RoomClimate>::empty());
            }
            assert(orig.take(i + 1).drop_last() =~= orig.take(i as int));
            assert(orig.skip(i as int)[0] == orig[i as int]);
            assert(orig.skip(i as int).subrange(1, orig.skip(i as int).len() as int) =~= orig.skip(i + 1));
        }
        v.insert(j, e);
        i = i + 1;
    }
    assert(orig.take(n as int) =~= orig);
}

/// The rooms as the panel lists them: sorted by name; with a room filter,
/// only the rooms it names (ASCII case ignored), in the filter's order.
pub open spec fn ordered_rooms(rooms: Seq<RoomClimate>, wanted: Seq<String>) -> Seq<RoomClimate> {
    let by_name = sort_rooms(rooms, wanted, false);
    if wanted.len() == 0 {
        by_name
    } else {
        sort_rooms(by_name.filter(|r: RoomClimate| want_pos(wanted, r.name@) < usize::MAX as int), wanted, true)
    }
}

/// Sort the rooms by name, then apply the configured room filter and order.
pub fn order_rooms(rooms: &mut Vec<RoomClimate>, wanted: &[String])
    ensures
        final(rooms)@ == ordered_rooms(old(rooms)@, wanted@),
{
    sort_room_list(rooms, wanted, false);
    if wanted.len() == 0 {
        return;
    }
    let ghost before = rooms@;
    let ghost pred = |r: RoomClimate| want_pos(wanted@, r.name@) < usize::MAX as int;
    let mut rest: Vec<RoomClimate> = Vec::new();
    core::mem::swap(rooms, &mut rest);
    let n = rest.len();
    let mut i: usize = 0;
    assert(before.take(0).filter(pred) =~= Seq::<RoomClimate>::empty()) by {
        reveal(Seq::filter);
    }
    assert(before.skip(0) =~= before);
    while i < n
        invariant
            n == before.len(),
            i <= n,
            rest@ == before.skip(i as int),
            rooms@ == before.take(i as int).filter(pred),
            pred == (|r: RoomClimate| want_pos(wanted@, r.name@) < usize::MAX as int),
        decreases n - i,
    {
        let e = rest.remove(0);
        assert(e == before[i as int]) by {
            assert(before.skip(i as int)[0] == before[i as int]);
        }
        assert(before.skip(i as int).subrange(1, before.skip(i as int).len() as int) =~= before.skip(i + 1));
        assert(before.take(i + 1).drop_last() =~= before.take(i as int));
        assert(before.take(i + 1).last() == e);
        let keep = want_index(wanted, e.name.as_str()) < usize::MAX;
        if keep {
            rooms.push(e);
            assert(before.take(i + 1).filter(pred) == before.take(i as int).filter(pred).push(
                before[i as int],
            )) by {
                reveal(Seq::filter);
            }
        } else {
            assert(before.take(i + 1).filter(pred) == before.take(i as int).filter(pred)) by {
                reveal(Seq::filter);
            }
        }
        i = i + 1;
    }
    assert(before.take(n as int) =~= before);
    sort_room_list(rooms, wanted, true);
}

/// A hub device type (`msh…`, any case).
pub open spec fn hub_type(t: Seq<char>) -> bool {
    starts_with(lower_seq(t), "msh"@)
}

/// The positions of the hubs among the account's device types, in order.
pub open spec fn hubs_of(ts: Seq<String>) -> Seq<usize>
    decreases ts.len(),
{
    if ts.len() == 0 {
        Seq::empty()
    } else {
        let rest = hubs_of(ts.drop_last());
        if hub_type(ts.last()@) {
            rest.push((ts.len() - 1) as usize)
        } else {
            rest
        }
    }
}

/// The hubs to read rooms from; an account without one is refused.
pub fn hub_indices(device_types: &[String]) -> (r: Result<Vec<usize>, String>)
    ensures
        match r {
            Ok(v) => v@ == hubs_of(device_types@) && v@.len() > 0,
            Err(e) => hubs_of(device_types@).len() == 0 && e@ == "no Meross hub on this account (looked for msh*)"@,
        },
{
    let mut out: Vec<usize> = Vec::new();
    let mut i: usize = 0;
    while i < device_types.len()
        invariant
            i <= device_types@.len(),
            out@ == hubs_of(device_types@.take(i as int)),
        decreases device_types@.len() - i,
    {
        assert(device_types@.take(i + 1).drop_last() =~= device_types@.take(i as int));
        assert(device_types@.take(i + 1).last() == device_types@[i as int]);
        if crate::server::meross::is_hub(device_types[i].as_str()) {
            out.push(i);
        }
        i = i + 1;
    }
    assert(device_types@.take(device_types@.len() as int) =~= device_types@);
    if out.len() == 0 {
        let mut e = String::new();
        push_str(&mut e, "no Meross hub on this account (looked for msh*)");
        assert(Seq::<char>::empty() + "no Meross hub on this account (looked for msh*)"@ =~= "no Meross hub on this account (looked for msh*)"@);
        return Err(e);
    }
    Ok(out)
}

/// Room labels of the climate sub-devices `(id, name, type)` of a hub, in
/// order (a later one for the same id wins when they are looked up).
pub open spec fn named_subs(subs: Seq<(String, String, String)>, labels: Seq<(String, String)>) -> Seq<(Seq<char>, Seq<char>)>
    decreases subs.len(),
{
    if subs.len() == 0 {
        Seq::empty()
    } else {
        let rest = named_subs(subs.drop_last(), labels);
        let s = subs.last();
        match subdevice_label_of(s.0@, s.1@, s.2@, labels) {
            Some((l, _)) => rest.push((s.0@, l)),
            None => rest,
        }
    }
}

/// Some climate sub-device is a thermostat: only then are thermostats polled.
pub open spec fn any_thermostat(subs: Seq<(String, String, String)>, labels: Seq<(String, String)>) -> bool {
    exists|i: int| 0 <= i < subs.len() && #[trigger] thermostat_at(subs, labels, i)
}

/// Sub-device `i` is a climate thermostat.
pub open spec fn thermostat_at(subs: Seq<(String, String, String)>, labels: Seq<(String, String)>, i: int) -> bool {
    match subdevice_label_of(subs[i].0@, subs[i].1@, subs[i].2@, labels) {
        Some((_, t)) => t,
        None => false,
    }
}

/// The labels of a hub's climate sub-devices and whether any is a
/// thermostat.
pub fn room_names(subs: &[(String, String, String)], labels: &[(String, String)]) -> (r: (Vec<(String, String)>, bool))
    ensures
        r.0@.map_values(|p: (String, String)| (p.0@, p.1@)) == named_subs(subs@, labels@),
        r.1 == any_thermostat(subs@, labels@),
{
    let mut out: Vec<(String, String)> = Vec::new();
    let mut thermo = false;
    let mut i: usize = 0;
    while i < subs.len()
        invariant
            i <= subs@.len(),
            out@.map_values(|p: (String, String)| (p.0@, p.1@)) == named_subs(subs@.take(i as int), labels@),
            thermo == exists|j: int| 0 <= j < i && #[trigger] thermostat_at(subs@, labels@, j),
        decreases subs@.len() - i,
    {
        assert(subs@.take(i + 1).drop_last() =~= subs@.take(i as int));
        assert(subs@.take(i + 1).last() == subs@[i as int]);
        let ghost before = out@;
        let ghost ti = thermostat_at(subs@, labels@, i as int);
        let ghost was = thermo;
        match subdevice_label(subs[i].0.as_str(), subs[i].1.as_str(), subs[i].2.as_str(), labels) {
            Some((l, t)) => {
                let id = own_text(subs[i].0.as_str());
                out.push((id, l));
                assert(out@.map_values(|p: (String, String)| (p.0@, p.1@)) =~= before.map_values(
                    |p: (String, String)| (p.0@, p.1@),
                ).push((subs@[i as int].0@, l@)));
                if t {
                    thermo = true;
                }
            },
            None => {},
        }
        proof {
            assert(thermo == (was || ti));
            if ti {
                assert(thermostat_at(subs@, labels@, i as int));
            }
            if !was && !ti {
                assert forall|j: int| 0 <= j < i + 1 implies !#[trigger] thermostat_at(subs@, labels@, j) by {
                    if j < i {
                    } else {
                        assert(j == i);
                    }
                }
            }
        }
        i = i + 1;
    }
    assert(subs@.take(subs@.len() as int) =~= subs@);
    (out, thermo)
}

fn own_text(s: &str) -> (r: String)
    ensures
        r@ == s@,
{
    let mut t = String::new();
    push_str(&mut t, s);
    assert(Seq::<char>::empty() + s@ =~= s@);
    t
}

} // verus!
