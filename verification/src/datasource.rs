//! Lookups over the configured locations and chats, built once from validated input.

use vstd::prelude::*;
use vstd::string::*;
use crate::config::{Chat, Location, Park, Station};
use crate::keyed::StrMap;
use crate::text::{i64_to_text, int_decimal};
use crate::whatever::WhateverSync;

verus! {

/// IDs of the given stations.
pub open spec fn station_ids(stations: Seq<Station>) -> Set<Seq<char>> {
    Set::new(|sid: Seq<char>| exists|k: int| 0 <= k < stations.len() && #[trigger] stations[k].id@ == sid)
}

/// IDs of the stations of the given parks.
pub open spec fn park_station_ids(parks: Seq<Park>) -> Set<Seq<char>> {
    Set::new(|sid: Seq<char>| exists|j: int| 0 <= j < parks.len() && #[trigger] station_ids(parks[j].stations@).contains(sid))
}

/// IDs of the given parks.
pub open spec fn park_ids(parks: Seq<Park>) -> Set<Seq<char>> {
    Set::new(|pid: Seq<char>| exists|j: int| 0 <= j < parks.len() && #[trigger] parks[j].id@ == pid)
}

/// IDs of the given locations.
pub open spec fn location_ids(locs: Seq<Location>) -> Set<Seq<char>> {
    Set::new(|lid: Seq<char>| exists|i: int| 0 <= i < locs.len() && #[trigger] locs[i].id@ == lid)
}

/// IDs of the parks of the given locations.
pub open spec fn all_park_ids(locs: Seq<Location>) -> Set<Seq<char>> {
    Set::new(|pid: Seq<char>| exists|i: int| 0 <= i < locs.len() && #[trigger] park_ids(locs[i].parks@).contains(pid))
}

/// IDs of the stations of the given locations.
pub open spec fn all_station_ids(locs: Seq<Location>) -> Set<Seq<char>> {
    Set::new(|sid: Seq<char>| exists|i: int| 0 <= i < locs.len() && #[trigger] park_station_ids(locs[i].parks@).contains(sid))
}

pub open spec fn msg_dup_location(id: Seq<char>) -> Seq<char> {
    "found duplicate location id: "@ + id
}

pub open spec fn msg_dup_park(id: Seq<char>) -> Seq<char> {
    "found duplicate park id: "@ + id
}

/// The message names the park of the repeated station.
pub open spec fn msg_dup_station(park_id: Seq<char>) -> Seq<char> {
    "found duplicate station id: "@ + park_id
}

pub open spec fn msg_unknown_location(chat_id: i64, location_id: Seq<char>) -> Seq<char> {
    "chat "@ + int_decimal(chat_id as int) + " references unknown location id: "@ + location_id
}

pub open spec fn msg_dup_chat(chat_id: i64) -> Seq<char> {
    "found duplicate chat id: "@ + int_decimal(chat_id as int)
}

/// Registers the stations of one park in order, given the station IDs seen before;
/// fails on the first station whose ID was seen.
pub open spec fn scan_stations(seen: Set<Seq<char>>, stations: Seq<Station>, park_id: Seq<char>) -> Result<Set<Seq<char>>, Seq<char>>
    decreases stations.len(),
{
    if stations.len() == 0 {
        Ok(seen)
    } else {
        match scan_stations(seen, stations.drop_last(), park_id) {
            Ok(s) => if s.contains(stations.last().id@) {
                Err(msg_dup_station(park_id))
            } else {
                Ok(s.insert(stations.last().id@))
            },
            Err(m) => Err(m),
        }
    }
}

/// Registers the parks of one location in order, with their stations.
pub open spec fn scan_parks(seen_parks: Set<Seq<char>>, seen_stations: Set<Seq<char>>, parks: Seq<Park>) -> Result<(Set<Seq<char>>, Set<Seq<char>>), Seq<char>>
    decreases parks.len(),
{
    if parks.len() == 0 {
        Ok((seen_parks, seen_stations))
    } else {
        match scan_parks(seen_parks, seen_stations, parks.drop_last()) {
            Ok((p, s)) => {
                let park = parks.last();
                if p.contains(park.id@) {
                    Err(msg_dup_park(park.id@))
                } else {
                    match scan_stations(s, park.stations@, park.id@) {
                        Ok(s2) => Ok((p.insert(park.id@), s2)),
                        Err(m) => Err(m),
                    }
                }
            },
            Err(m) => Err(m),
        }
    }
}

/// Registers the locations in order, with their parks and stations.
pub open spec fn scan_locations(locs: Seq<Location>) -> Result<(Set<Seq<char>>, Set<Seq<char>>, Set<Seq<char>>), Seq<char>>
    decreases locs.len(),
{
    if locs.len() == 0 {
        Ok((Set::empty(), Set::empty(), Set::empty()))
    } else {
        match scan_locations(locs.drop_last()) {
            Ok((l, p, s)) => {
                let loc = locs.last();
                if l.contains(loc.id@) {
                    Err(msg_dup_location(loc.id@))
                } else {
                    match scan_parks(p, s, loc.parks@) {
                        Ok((p2, s2)) => Ok((l.insert(loc.id@), p2, s2)),
                        Err(m) => Err(m),
                    }
                }
            },
            Err(m) => Err(m),
        }
    }
}

/// The first location reference that is not among `known`.
pub open spec fn first_unknown(refs: Seq<String>, known: Set<Seq<char>>) -> Option<Seq<char>>
    decreases refs.len(),
{
    if refs.len() == 0 {
        None
    } else {
        match first_unknown(refs.drop_last(), known) {
            Some(r) => Some(r),
            None => if known.contains(refs.last()@) { None } else { Some(refs.last()@) },
        }
    }
}

/// Registers the chats in order; a chat fails on its first unknown location reference,
/// then on a repeated chat ID.
pub open spec fn scan_chats(known: Set<Seq<char>>, chats: Seq<Chat>) -> Result<Set<i64>, Seq<char>>
    decreases chats.len(),
{
    if chats.len() == 0 {
        Ok(Set::empty())
    } else {
        match scan_chats(known, chats.drop_last()) {
            Ok(ids) => {
                let chat = chats.last();
                match first_unknown(chat.locations@, known) {
                    Some(r) => Err(msg_unknown_location(chat.id, r)),
                    None => if ids.contains(chat.id) {
                        Err(msg_dup_chat(chat.id))
                    } else {
                        Ok(ids.insert(chat.id))
                    },
                }
            },
            Err(m) => Err(m),
        }
    }
}

/// Outcome of checking the configuration data: the message of the first problem met when
/// going through the locations (each with its parks and stations) and then the chats.
pub open spec fn datasource_check(locs: Seq<Location>, chats: Seq<Chat>) -> Result<(), Seq<char>> {
    match scan_locations(locs) {
        Ok((l, _, _)) => match scan_chats(l, chats) {
            Ok(_) => Ok(()),
            Err(m) => Err(m),
        },
        Err(m) => Err(m),
    }
}

/// The location with the given ID.
pub open spec fn resolve_location(locs: Seq<Location>, id: Seq<char>) -> Location {
    locs[choose|i: int| 0 <= i < locs.len() && locs[i].id@ == id]
}

/// A location holds a station exactly when the station's ID is among those of its parks.
pub proof fn lemma_has_station(loc: Location, sid: Seq<char>)
    ensures
        loc.has_station(sid) == park_station_ids(loc.parks@).contains(sid),
{
    if loc.has_station(sid) {
        let (j, k) = choose|j: int, k: int|
            0 <= j < loc.parks@.len() && 0 <= k < loc.parks@[j].stations@.len()
                && #[trigger] loc.parks@[j].stations@[k].id@ == sid;
        assert(station_ids(loc.parks@[j].stations@).contains(sid));
    }
    if park_station_ids(loc.parks@).contains(sid) {
        let j = choose|j: int| 0 <= j < loc.parks@.len() && #[trigger] station_ids(loc.parks@[j].stations@).contains(sid);
        let k = choose|k: int| 0 <= k < loc.parks@[j].stations@.len() && #[trigger] loc.parks@[j].stations@[k].id@ == sid;
        assert(loc.parks@[j].stations@[k].id@ == sid);
    }
}

proof fn lemma_scan_stations_err(seen: Set<Seq<char>>, stations: Seq<Station>, park_id: Seq<char>, n: int)
    requires
        0 <= n <= stations.len(),
        scan_stations(seen, stations.take(n), park_id) is Err,
    ensures
        scan_stations(seen, stations, park_id) == scan_stations(seen, stations.take(n), park_id),
    decreases stations.len(),
{
    if n < stations.len() {
        assert(stations.drop_last().take(n) =~= stations.take(n));
        lemma_scan_stations_err(seen, stations.drop_last(), park_id, n);
    } else {
        assert(stations.take(n) =~= stations);
    }
}

proof fn lemma_scan_stations_ok(seen: Set<Seq<char>>, stations: Seq<Station>, park_id: Seq<char>)
    requires
        scan_stations(seen, stations, park_id) is Ok,
    ensures
        scan_stations(seen, stations, park_id)->Ok_0 == seen + station_ids(stations),
        seen.disjoint(station_ids(stations)),
    decreases stations.len(),
{
    if stations.len() > 0 {
        let prefix = stations.drop_last();
        lemma_scan_stations_ok(seen, prefix, park_id);
        let last = stations.last().id@;
        assert(station_ids(stations) =~= station_ids(prefix).insert(last)) by {
            assert forall|sid: Seq<char>| station_ids(stations).contains(sid) implies station_ids(prefix).insert(last).contains(sid) by {
                let k = choose|k: int| 0 <= k < stations.len() && stations[k].id@ == sid;
                if k < stations.len() - 1 {
                    assert(prefix[k].id@ == sid);
                }
            }
            assert forall|sid: Seq<char>| station_ids(prefix).insert(last).contains(sid) implies station_ids(stations).contains(sid) by {
                if sid != last {
                    let k = choose|k: int| 0 <= k < prefix.len() && prefix[k].id@ == sid;
                    assert(stations[k].id@ == sid);
                } else {
                    assert(stations[stations.len() - 1].id@ == sid);
                }
            }
        }
        assert(scan_stations(seen, stations, park_id)->Ok_0 =~= seen + station_ids(stations));
    } else {
        assert(station_ids(stations) =~= Set::empty());
        assert(seen + station_ids(stations) =~= seen);
    }
}

proof fn lemma_scan_parks_err(sp: Set<Seq<char>>, ss: Set<Seq<char>>, parks: Seq<Park>, n: int)
    requires
        0 <= n <= parks.len(),
        scan_parks(sp, ss, parks.take(n)) is Err,
    ensures
        scan_parks(sp, ss, parks) == scan_parks(sp, ss, parks.take(n)),
    decreases parks.len(),
{
    if n < parks.len() {
        assert(parks.drop_last().take(n) =~= parks.take(n));
        lemma_scan_parks_err(sp, ss, parks.drop_last(), n);
    } else {
        assert(parks.take(n) =~= parks);
    }
}

proof fn lemma_scan_parks_ok(sp: Set<Seq<char>>, ss: Set<Seq<char>>, parks: Seq<Park>)
    requires
        scan_parks(sp, ss, parks) is Ok,
    ensures
        scan_parks(sp, ss, parks)->Ok_0.0 == sp + park_ids(parks),
        scan_parks(sp, ss, parks)->Ok_0.1 == ss + park_station_ids(parks),
        sp.disjoint(park_ids(parks)),
        ss.disjoint(park_station_ids(parks)),
    decreases parks.len(),
{
    if parks.len() > 0 {
        let prefix = parks.drop_last();
        lemma_scan_parks_ok(sp, ss, prefix);
        let (p, s) = scan_parks(sp, ss, prefix)->Ok_0;
        let park = parks.last();
        lemma_scan_stations_ok(s, park.stations@, park.id@);
        assert(park_ids(parks) =~= park_ids(prefix).insert(park.id@)) by {
            assert forall|pid: Seq<char>| park_ids(parks).contains(pid) implies park_ids(prefix).insert(park.id@).contains(pid) by {
                let j = choose|j: int| 0 <= j < parks.len() && parks[j].id@ == pid;
                if j < parks.len() - 1 {
                    assert(prefix[j].id@ == pid);
                }
            }
            assert forall|pid: Seq<char>| park_ids(prefix).insert(park.id@).contains(pid) implies park_ids(parks).contains(pid) by {
                if pid != park.id@ {
                    let j = choose|j: int| 0 <= j < prefix.len() && prefix[j].id@ == pid;
                    assert(parks[j].id@ == pid);
                } else {
                    assert(parks[parks.len() - 1].id@ == pid);
                }
            }
        }
        assert(park_station_ids(parks) =~= park_station_ids(prefix) + station_ids(park.stations@)) by {
            assert forall|sid: Seq<char>| park_station_ids(parks).contains(sid) implies (park_station_ids(prefix) + station_ids(park.stations@)).contains(sid) by {
                let j = choose|j: int| 0 <= j < parks.len() && station_ids(parks[j].stations@).contains(sid);
                if j < parks.len() - 1 {
                    assert(prefix[j] == parks[j]);
                    assert(station_ids(prefix[j].stations@).contains(sid));
                }
            }
            assert forall|sid: Seq<char>| (park_station_ids(prefix) + station_ids(park.stations@)).contains(sid) implies park_station_ids(parks).contains(sid) by {
                if park_station_ids(prefix).contains(sid) {
                    let j = choose|j: int| 0 <= j < prefix.len() && station_ids(prefix[j].stations@).contains(sid);
                    assert(parks[j] == prefix[j]);
                    assert(station_ids(parks[j].stations@).contains(sid));
                } else {
                    assert(parks[parks.len() - 1] == park);
                    assert(station_ids(parks[parks.len() - 1].stations@).contains(sid));
                }
            }
        }
        assert(scan_parks(sp, ss, parks)->Ok_0.0 =~= sp + park_ids(parks));
        assert(scan_parks(sp, ss, parks)->Ok_0.1 =~= ss + park_station_ids(parks));
    } else {
        assert(park_ids(parks) =~= Set::empty());
        assert(park_station_ids(parks) =~= Set::empty());
        assert(sp + park_ids(parks) =~= sp);
        assert(ss + park_station_ids(parks) =~= ss);
    }
}

proof fn lemma_scan_locations_err(locs: Seq<Location>, n: int)
    requires
        0 <= n <= locs.len(),
        scan_locations(locs.take(n)) is Err,
    ensures
        scan_locations(locs) == scan_locations(locs.take(n)),
    decreases locs.len(),
{
    if n < locs.len() {
        assert(locs.drop_last().take(n) =~= locs.take(n));
        lemma_scan_locations_err(locs.drop_last(), n);
    } else {
        assert(locs.take(n) =~= locs);
    }
}

/// What a successful scan of the locations establishes.
proof fn lemma_scan_locations_ok(locs: Seq<Location>)
    requires
        scan_locations(locs) is Ok,
    ensures
        scan_locations(locs)->Ok_0.0 == location_ids(locs),
        scan_locations(locs)->Ok_0.1 == all_park_ids(locs),
        scan_locations(locs)->Ok_0.2 == all_station_ids(locs),
        forall|i: int, j: int| 0 <= i < locs.len() && 0 <= j < locs.len() && i != j ==> locs[i].id@ != locs[j].id@,
        forall|i: int, j: int, sid: Seq<char>|
            0 <= i < locs.len() && 0 <= j < locs.len()
                && #[trigger] park_station_ids(locs[i].parks@).contains(sid)
                && #[trigger] park_station_ids(locs[j].parks@).contains(sid) ==> i == j,
    decreases locs.len(),
{
    if locs.len() > 0 {
        let prefix = locs.drop_last();
        lemma_scan_locations_ok(prefix);
        let (l, p, s) = scan_locations(prefix)->Ok_0;
        let loc = locs.last();
        let n = locs.len() - 1;
        lemma_scan_parks_ok(p, s, loc.parks@);
        assert(location_ids(locs) =~= location_ids(prefix).insert(loc.id@)) by {
            assert forall|x: Seq<char>| location_ids(locs).contains(x) implies location_ids(prefix).insert(loc.id@).contains(x) by {
                let i = choose|i: int| 0 <= i < locs.len() && locs[i].id@ == x;
                if i < n {
                    assert(prefix[i].id@ == x);
                }
            }
            assert forall|x: Seq<char>| location_ids(prefix).insert(loc.id@).contains(x) implies location_ids(locs).contains(x) by {
                if x != loc.id@ {
                    let i = choose|i: int| 0 <= i < prefix.len() && prefix[i].id@ == x;
                    assert(locs[i].id@ == x);
                } else {
                    assert(locs[n].id@ == x);
                }
            }
        }
        assert(all_park_ids(locs) =~= all_park_ids(prefix) + park_ids(loc.parks@)) by {
            assert forall|x: Seq<char>| all_park_ids(locs).contains(x) implies (all_park_ids(prefix) + park_ids(loc.parks@)).contains(x) by {
                let i = choose|i: int| 0 <= i < locs.len() && park_ids(locs[i].parks@).contains(x);
                if i < n {
                    assert(prefix[i] == locs[i]);
                    assert(park_ids(prefix[i].parks@).contains(x));
                }
            }
            assert forall|x: Seq<char>| (all_park_ids(prefix) + park_ids(loc.parks@)).contains(x) implies all_park_ids(locs).contains(x) by {
                if all_park_ids(prefix).contains(x) {
                    let i = choose|i: int| 0 <= i < prefix.len() && park_ids(prefix[i].parks@).contains(x);
                    assert(locs[i] == prefix[i]);
                    assert(park_ids(locs[i].parks@).contains(x));
                } else {
                    assert(locs[n] == loc);
                    assert(park_ids(locs[n].parks@).contains(x));
                }
            }
        }
        assert(all_station_ids(locs) =~= all_station_ids(prefix) + park_station_ids(loc.parks@)) by {
            assert forall|x: Seq<char>| all_station_ids(locs).contains(x) implies (all_station_ids(prefix) + park_station_ids(loc.parks@)).contains(x) by {
                let i = choose|i: int| 0 <= i < locs.len() && park_station_ids(locs[i].parks@).contains(x);
                if i < n {
                    assert(prefix[i] == locs[i]);
                    assert(park_station_ids(prefix[i].parks@).contains(x));
                }
            }
            assert forall|x: Seq<char>| (all_station_ids(prefix) + park_station_ids(loc.parks@)).contains(x) implies all_station_ids(locs).contains(x) by {
                if all_station_ids(prefix).contains(x) {
                    let i = choose|i: int| 0 <= i < prefix.len() && park_station_ids(prefix[i].parks@).contains(x);
                    assert(locs[i] == prefix[i]);
                    assert(park_station_ids(locs[i].parks@).contains(x));
                } else {
                    assert(locs[n] == loc);
                    assert(park_station_ids(locs[n].parks@).contains(x));
                }
            }
        }
        assert forall|i: int, j: int| 0 <= i < locs.len() && 0 <= j < locs.len() && i != j implies locs[i].id@ != locs[j].id@ by {
            if i < n && j < n {
                assert(prefix[i] == locs[i] && prefix[j] == locs[j]);
            } else if i == n {
                assert(prefix[j] == locs[j]);
                assert(location_ids(prefix).contains(locs[j].id@));
            } else {
                assert(prefix[i] == locs[i]);
                assert(location_ids(prefix).contains(locs[i].id@));
            }
        }
        assert forall|i: int, j: int, sid: Seq<char>|
            0 <= i < locs.len() && 0 <= j < locs.len()
                && #[trigger] park_station_ids(locs[i].parks@).contains(sid)
                && #[trigger] park_station_ids(locs[j].parks@).contains(sid) implies i == j by {
            if i < n && j < n {
                assert(prefix[i] == locs[i] && prefix[j] == locs[j]);
            } else if i == n && j < n {
                assert(prefix[j] == locs[j]);
                assert(all_station_ids(prefix).contains(sid));
            } else if j == n && i < n {
                assert(prefix[i] == locs[i]);
                assert(all_station_ids(prefix).contains(sid));
            }
        }
        let (l2, p2, s2) = scan_locations(locs)->Ok_0;
        assert(l2 =~= location_ids(locs));
        assert(p2 =~= all_park_ids(locs));
        assert(s2 =~= all_station_ids(locs));
    } else {
        assert(location_ids(locs) =~= Set::empty());
        assert(all_park_ids(locs) =~= Set::empty());
        assert(all_station_ids(locs) =~= Set::empty());
    }
}

proof fn lemma_first_unknown_found(refs: Seq<String>, known: Set<Seq<char>>, n: int)
    requires
        0 <= n <= refs.len(),
        first_unknown(refs.take(n), known) is Some,
    ensures
        first_unknown(refs, known) == first_unknown(refs.take(n), known),
    decreases refs.len(),
{
    if n < refs.len() {
        assert(refs.drop_last().take(n) =~= refs.take(n));
        lemma_first_unknown_found(refs.drop_last(), known, n);
    } else {
        assert(refs.take(n) =~= refs);
    }
}

proof fn lemma_first_unknown_none(refs: Seq<String>, known: Set<Seq<char>>)
    ensures
        first_unknown(refs, known) is None <==> forall|k: int| 0 <= k < refs.len() ==> known.contains(#[trigger] refs[k]@),
    decreases refs.len(),
{
    if refs.len() > 0 {
        let prefix = refs.drop_last();
        lemma_first_unknown_none(prefix, known);
        if first_unknown(refs, known) is None {
            assert forall|k: int| 0 <= k < refs.len() implies known.contains(#[trigger] refs[k]@) by {
                if k < refs.len() - 1 {
                    assert(prefix[k] == refs[k]);
                }
            }
        } else if forall|k: int| 0 <= k < refs.len() ==> known.contains(#[trigger] refs[k]@) {
            assert forall|k: int| 0 <= k < prefix.len() implies known.contains(#[trigger] prefix[k]@) by {
                assert(prefix[k] == refs[k]);
            }
            assert(known.contains(refs[refs.len() - 1]@));
        }
    }
}

proof fn lemma_scan_chats_err(known: Set<Seq<char>>, chats: Seq<Chat>, n: int)
    requires
        0 <= n <= chats.len(),
        scan_chats(known, chats.take(n)) is Err,
    ensures
        scan_chats(known, chats) == scan_chats(known, chats.take(n)),
    decreases chats.len(),
{
    if n < chats.len() {
        assert(chats.drop_last().take(n) =~= chats.take(n));
        lemma_scan_chats_err(known, chats.drop_last(), n);
    } else {
        assert(chats.take(n) =~= chats);
    }
}

/// Provides an efficient way to perform lookups on the configuration data.
pub struct Datasource {
    locations: Vec<Location>,
    location_by_station_id: StrMap<usize>,
    locations_by_chat_id: Vec<(i64, Vec<usize>)>,
}

impl Datasource {
    /// The configured locations, in the order they were given.
    pub closed spec fn locations_spec(self) -> Seq<Location> {
        self.locations@
    }

    /// The location that holds a station with the given ID.
    pub open spec fn location_of_station(self, station_id: Seq<char>) -> Option<Location> {
        if exists|i: int| 0 <= i < self.locations_spec().len() && #[trigger] self.locations_spec()[i].has_station(station_id) {
            Some(self.locations_spec()[choose|i: int| 0 <= i < self.locations_spec().len() && #[trigger] self.locations_spec()[i].has_station(station_id)])
        } else {
            None
        }
    }

    closed spec fn chat_entry(self, chat_id: i64) -> int {
        choose|c: int| 0 <= c < self.locations_by_chat_id@.len() && self.locations_by_chat_id@[c].0 == chat_id
    }

    /// The locations accessible from the chat with the given ID, in configured order;
    /// empty for a chat that is not configured.
    pub closed spec fn locations_for_chat(self, chat_id: i64) -> Seq<Location> {
        if exists|c: int| 0 <= c < self.locations_by_chat_id@.len() && self.locations_by_chat_id@[c].0 == chat_id {
            let idx = self.locations_by_chat_id@[self.chat_entry(chat_id)].1@;
            Seq::new(idx.len(), |k: int| self.locations@[idx[k] as int])
        } else {
            Seq::empty()
        }
    }

    /// Lookups agree with the configuration data.
    pub closed spec fn wf(self) -> bool {
        let locs = self.locations@;
        &&& self.location_by_station_id.wf()
        &&& forall|i: int, j: int| 0 <= i < locs.len() && 0 <= j < locs.len() && i != j ==> locs[i].id@ != locs[j].id@
        &&& forall|i: int, j: int, sid: Seq<char>|
            0 <= i < locs.len() && 0 <= j < locs.len()
                && #[trigger] locs[i].has_station(sid) && #[trigger] locs[j].has_station(sid) ==> i == j
        &&& forall|sid: Seq<char>| #[trigger] self.location_by_station_id@.contains_key(sid) ==>
                self.location_by_station_id@[sid] < locs.len()
                && locs[self.location_by_station_id@[sid] as int].has_station(sid)
        &&& forall|i: int, sid: Seq<char>| 0 <= i < locs.len() && #[trigger] locs[i].has_station(sid)
                ==> self.location_by_station_id@.contains_key(sid)
        &&& forall|c: int, d: int| 0 <= c < self.locations_by_chat_id@.len() && 0 <= d < self.locations_by_chat_id@.len() && c != d
                ==> self.locations_by_chat_id@[c].0 != self.locations_by_chat_id@[d].0
        &&& forall|c: int, k: int| 0 <= c < self.locations_by_chat_id@.len() && 0 <= k < self.locations_by_chat_id@[c].1@.len()
                ==> #[trigger] self.locations_by_chat_id@[c].1@[k] < locs.len()
    }

    /// Location IDs are distinct and no station ID occurs in two locations.
    pub proof fn lemma_wf(self)
        requires
            self.wf(),
        ensures
            forall|i: int, j: int| 0 <= i < self.locations_spec().len() && 0 <= j < self.locations_spec().len() && i != j
                ==> self.locations_spec()[i].id@ != self.locations_spec()[j].id@,
            forall|i: int, sid: Seq<char>|
                0 <= i < self.locations_spec().len() && #[trigger] self.locations_spec()[i].has_station(sid)
                    ==> self.location_of_station(sid) == Some(self.locations_spec()[i]),
    {
    }

    /// Two locations of a chat with the same ID are the same location.
    pub proof fn lemma_chat_locations_by_id(self, chat_id: i64)
        requires
            self.wf(),
        ensures
            forall|j: int, k: int|
                0 <= j < self.locations_for_chat(chat_id).len() && 0 <= k < self.locations_for_chat(chat_id).len()
                    && #[trigger] self.locations_for_chat(chat_id)[j].id@ == #[trigger] self.locations_for_chat(chat_id)[k].id@
                    ==> self.locations_for_chat(chat_id)[j] == self.locations_for_chat(chat_id)[k],
    {
        if exists|c: int| 0 <= c < self.locations_by_chat_id@.len() && self.locations_by_chat_id@[c].0 == chat_id {
            let c = self.chat_entry(chat_id);
            let idx = self.locations_by_chat_id@[c].1@;
            assert forall|j: int, k: int|
                0 <= j < self.locations_for_chat(chat_id).len() && 0 <= k < self.locations_for_chat(chat_id).len()
                    && #[trigger] self.locations_for_chat(chat_id)[j].id@ == #[trigger] self.locations_for_chat(chat_id)[k].id@
                    implies self.locations_for_chat(chat_id)[j] == self.locations_for_chat(chat_id)[k] by {
                assert(self.locations_by_chat_id@[c].1@[j] < self.locations@.len());
                assert(self.locations_by_chat_id@[c].1@[k] < self.locations@.len());
                assert(self.locations_for_chat(chat_id)[j] == self.locations@[idx[j] as int]);
                assert(self.locations_for_chat(chat_id)[k] == self.locations@[idx[k] as int]);
            }
        }
    }

    /// Validates the input data and creates a new Datasource.
    ///
    /// Fails with the message of the first problem met when going through the locations
    /// (a repeated location ID, then for each park a repeated park ID, then for each of its
    /// stations a repeated station ID) and then the chats (an unknown location reference, then
    /// a repeated chat ID).
    pub fn new(locations: Vec<Location>, chats: Vec<Chat>) -> (r: Result<Datasource, WhateverSync>)
        ensures
            r is Ok <==> datasource_check(locations@, chats@) is Ok,
            r matches Err(e) ==> e is Stringly && e.text() == datasource_check(locations@, chats@)->Err_0,
            r matches Ok(ds) ==> {
                &&& ds.wf()
                &&& ds.locations_spec() == locations@
                &&& forall|c: int| 0 <= c < chats@.len() ==>
                        #[trigger] ds.locations_for_chat(chats@[c].id)
                            == chats@[c].locations@.map_values(|id: String| resolve_location(locations@, id@))
                &&& forall|chat_id: i64| (forall|c: int| 0 <= c < chats@.len() ==> chats@[c].id != chat_id)
                        ==> #[trigger] ds.locations_for_chat(chat_id).len() == 0
            },
    {
        let mut location_by_id: StrMap<usize> = StrMap::new();
        let mut park_seen: StrMap<usize> = StrMap::new();
        let mut location_by_station_id: StrMap<usize> = StrMap::new();
        let mut i: usize = 0;
        while i < locations.len()
            invariant
                i <= locations@.len(),
                location_by_id.wf(),
                park_seen.wf(),
                location_by_station_id.wf(),
                scan_locations(locations@.take(i as int)) == Ok::<_, Seq<char>>((location_by_id@.dom(), park_seen@.dom(), location_by_station_id@.dom())),
                forall|id: Seq<char>| #[trigger] location_by_id@.contains_key(id) ==>
                    location_by_id@[id] < i && locations@[location_by_id@[id] as int].id@ == id,
                forall|sid: Seq<char>| #[trigger] location_by_station_id@.contains_key(sid) ==>
                    location_by_station_id@[sid] < i && locations@[location_by_station_id@[sid] as int].has_station(sid),
            decreases locations@.len() - i,
        {
            let location = &locations[i];
            proof {
                let next = locations@.take(i + 1);
                assert(next.drop_last() =~= locations@.take(i as int));
                assert(next.last() == locations@[i as int]);
            }
            if location_by_id.contains_key(location.id.as_str()) {
                let mut m = String::from_str("found duplicate location id: ");
                m.append(location.id.as_str());
                proof { lemma_scan_locations_err(locations@, i + 1); }
                assert(datasource_check(locations@, chats@) == Err::<(), Seq<char>>(m@));
                return Err(WhateverSync::without_source(m));
            }
            location_by_id.insert(location.id.clone(), i);
            let ghost l_before = location_by_id@;
            match scan_location_parks(&location.parks, i, &mut park_seen, &mut location_by_station_id, Ghost(*location)) {
                Ok(()) => {},
                Err(m) => {
                    proof { lemma_scan_locations_err(locations@, i + 1); }
                    return Err(WhateverSync::without_source(m));
                },
            }
            proof {
                assert(location_by_id@.dom() =~= scan_locations(locations@.take(i as int))->Ok_0.0.insert(location.id@));
                assert forall|sid: Seq<char>| #[trigger] location_by_station_id@.contains_key(sid) implies
                    location_by_station_id@[sid] < i + 1 && locations@[location_by_station_id@[sid] as int].has_station(sid) by {
                }
            }
            i = i + 1;
        }
        assert(locations@.take(locations@.len() as int) =~= locations@);
        proof {
            lemma_scan_locations_ok(locations@);
        }

        let mut locations_by_chat_id: Vec<(i64, Vec<usize>)> = Vec::new();
        let ghost known = location_by_id@.dom();
        let mut c: usize = 0;
        while c < chats.len()
            invariant
                c <= chats@.len(),
                location_by_id.wf(),
                known == location_by_id@.dom(),
                known == location_ids(locations@),
                scan_locations(locations@) is Ok,
                scan_locations(locations@)->Ok_0.0 == known,
                forall|id: Seq<char>| #[trigger] location_by_id@.contains_key(id) ==>
                    location_by_id@[id] < locations@.len() && locations@[location_by_id@[id] as int].id@ == id,
                scan_chats(known, chats@.take(c as int)) is Ok,
                locations_by_chat_id@.len() == c,
                forall|d: int| 0 <= d < c ==> #[trigger] locations_by_chat_id@[d].0 == chats@[d].id,
                forall|d: int| 0 <= d < c ==> scan_chats(known, chats@.take(c as int))->Ok_0.contains(#[trigger] chats@[d].id),
                forall|x: i64| scan_chats(known, chats@.take(c as int))->Ok_0.contains(x) ==> exists|d: int| 0 <= d < c && #[trigger] chats@[d].id == x,
                forall|d: int, e: int| 0 <= d < c && 0 <= e < c && d != e ==> chats@[d].id != chats@[e].id,
                forall|d: int| 0 <= d < c ==> #[trigger] locations_by_chat_id@[d].1@.len() == chats@[d].locations@.len(),
                forall|d: int, k: int| 0 <= d < c && 0 <= k < locations_by_chat_id@[d].1@.len() ==>
                    #[trigger] locations_by_chat_id@[d].1@[k] < locations@.len()
                    && locations@[locations_by_chat_id@[d].1@[k] as int].id@ == chats@[d].locations@[k]@,
            decreases chats@.len() - c,
        {
            let chat = &chats[c];
            proof {
                let next = chats@.take(c + 1);
                assert(next.drop_last() =~= chats@.take(c as int));
                assert(next.last() == chats@[c as int]);
            }
            let chat_locations = match resolve_chat(chat, &location_by_id) {
                Ok(v) => v,
                Err(m) => {
                    proof {
                        assert(first_unknown(chat.locations@, known) is Some);
                        assert(scan_chats(known, chats@.take(c + 1)) == Err::<Set<i64>, Seq<char>>(m@));
                        lemma_scan_chats_err(known, chats@, c + 1);
                    }
                    assert(datasource_check(locations@, chats@) == Err::<(), Seq<char>>(m@));
                    return Err(WhateverSync::without_source(m));
                },
            };
            if chat_listed(&locations_by_chat_id, chat.id) {
                let mut m = String::from_str("found duplicate chat id: ");
                let n = i64_to_text(chat.id);
                m.append(n.as_str());
                proof {
                    let d = choose|d: int| 0 <= d < locations_by_chat_id@.len() && locations_by_chat_id@[d].0 == chat.id;
                    assert(chats@[d].id == chat.id);
                    assert(scan_chats(known, chats@.take(c + 1)) == Err::<Set<i64>, Seq<char>>(m@));
                    lemma_scan_chats_err(known, chats@, c + 1);
                }
                assert(datasource_check(locations@, chats@) == Err::<(), Seq<char>>(m@));
                return Err(WhateverSync::without_source(m));
            }
            proof {
                let prev = scan_chats(known, chats@.take(c as int))->Ok_0;
                if prev.contains(chat.id) {
                    let d = choose|d: int| 0 <= d < c && #[trigger] chats@[d].id == chat.id;
                    assert(locations_by_chat_id@[d].0 == chat.id);
                }
                assert(!prev.contains(chat.id));
                lemma_first_unknown_none(chat.locations@, known);
                assert forall|k: int| 0 <= k < chat_locations@.len() implies
                    #[trigger] chat_locations@[k] < locations@.len()
                    && locations@[chat_locations@[k] as int].id@ == chats@[c as int].locations@[k]@ by {
                    assert(known.contains(chat.locations@[k]@));
                }
            }
            locations_by_chat_id.push((chat.id, chat_locations));
            c = c + 1;
        }
        assert(chats@.take(chats@.len() as int) =~= chats@);
        let ds = Datasource {
            locations,
            location_by_station_id,
            locations_by_chat_id,
        };
        proof {
            let locs = ds.locations@;
            assert forall|i: int, sid: Seq<char>| 0 <= i < locs.len() && #[trigger] locs[i].has_station(sid)
                implies ds.location_by_station_id@.contains_key(sid) by {
                lemma_has_station(locs[i], sid);
                assert(all_station_ids(locs).contains(sid));
            }
            assert forall|i: int, j: int, sid: Seq<char>|
                0 <= i < locs.len() && 0 <= j < locs.len()
                    && #[trigger] locs[i].has_station(sid) && #[trigger] locs[j].has_station(sid) implies i == j by {
                lemma_has_station(locs[i], sid);
                lemma_has_station(locs[j], sid);
            }
            assert forall|cc: int| 0 <= cc < chats@.len() implies
                #[trigger] ds.locations_for_chat(chats@[cc].id)
                    == chats@[cc].locations@.map_values(|id: String| resolve_location(locs, id@)) by {
                assert(ds.locations_by_chat_id@[cc].0 == chats@[cc].id);
                let e = ds.chat_entry(chats@[cc].id);
                assert(e == cc);
                let idx = ds.locations_by_chat_id@[cc].1@;
                assert forall|k: int| 0 <= k < idx.len() implies locs[idx[k] as int] == resolve_location(locs, chats@[cc].locations@[k]@) by {
                    let r = chats@[cc].locations@[k]@;
                    assert(locs[idx[k] as int].id@ == r);
                    let w = choose|w: int| 0 <= w < locs.len() && locs[w].id@ == r;
                    assert(w == idx[k] as int);
                }
                assert(ds.locations_for_chat(chats@[cc].id) =~= chats@[cc].locations@.map_values(|id: String| resolve_location(locs, id@)));
            }
        }
        Ok(ds)
    }

    /// Returns a Location that contains a station with the given ID.
    pub fn get_location_by_station(&self, id: &str) -> (r: Option<&Location>)
        requires
            self.wf(),
        ensures
            match r {
                Some(loc) => self.location_of_station(id@) == Some(*loc),
                None => self.location_of_station(id@) is None,
            },
    {
        match self.location_by_station_id.get(id) {
            Some(i) => {
                let loc = &self.locations[*i];
                proof { self.lemma_wf(); }
                Some(loc)
            },
            None => None,
        }
    }

    /// Returns a list of Locations accessible from the Chat with the given ID.
    pub fn get_locations_by_chat(&self, id: i64) -> (r: Vec<&Location>)
        requires
            self.wf(),
        ensures
            r@.len() == self.locations_for_chat(id).len(),
            forall|k: int| 0 <= k < r@.len() ==> *r@[k] == self.locations_for_chat(id)[k],
    {
        let mut r: Vec<&Location> = Vec::new();
        let mut c: usize = 0;
        while c < self.locations_by_chat_id.len()
            invariant
                self.wf(),
                c <= self.locations_by_chat_id@.len(),
                forall|d: int| 0 <= d < c ==> self.locations_by_chat_id@[d].0 != id,
                r@.len() == 0,
            decreases self.locations_by_chat_id@.len() - c,
        {
            if self.locations_by_chat_id[c].0 == id {
                let idx = &self.locations_by_chat_id[c].1;
                let mut k: usize = 0;
                while k < idx.len()
                    invariant
                        self.wf(),
                        c < self.locations_by_chat_id@.len(),
                        *idx == self.locations_by_chat_id@[c as int].1,
                        k <= idx@.len(),
                        r@.len() == k,
                        forall|q: int| 0 <= q < k ==> *r@[q] == self.locations@[idx@[q] as int],
                    decreases idx@.len() - k,
                {
                    r.push(&self.locations[idx[k]]);
                    k = k + 1;
                }
                proof {
                    assert(self.chat_entry(id) == c as int);
                }
                return r;
            }
            c = c + 1;
        }
        r
    }
}

/// Registers the parks of one location and their stations; `loc_index` is the location's position.
fn scan_location_parks(
    parks: &Vec<Park>,
    loc_index: usize,
    park_seen: &mut StrMap<usize>,
    location_by_station_id: &mut StrMap<usize>,
    Ghost(location): Ghost<Location>,
) -> (r: Result<(), String>)
    requires
        old(park_seen).wf(),
        old(location_by_station_id).wf(),
        location.parks@ == parks@,
    ensures
        final(park_seen).wf(),
        final(location_by_station_id).wf(),
        scan_parks(old(park_seen)@.dom(), old(location_by_station_id)@.dom(), parks@) is Err ==>
            r is Err && r->Err_0@ == scan_parks(old(park_seen)@.dom(), old(location_by_station_id)@.dom(), parks@)->Err_0,
        scan_parks(old(park_seen)@.dom(), old(location_by_station_id)@.dom(), parks@) is Ok ==> {
            &&& r is Ok
            &&& final(park_seen)@.dom() == scan_parks(old(park_seen)@.dom(), old(location_by_station_id)@.dom(), parks@)->Ok_0.0
            &&& final(location_by_station_id)@.dom() == scan_parks(old(park_seen)@.dom(), old(location_by_station_id)@.dom(), parks@)->Ok_0.1
            &&& forall|sid: Seq<char>| #[trigger] final(location_by_station_id)@.contains_key(sid) ==> (
                    if old(location_by_station_id)@.contains_key(sid) {
                        final(location_by_station_id)@[sid] == old(location_by_station_id)@[sid]
                    } else {
                        final(location_by_station_id)@[sid] == loc_index && location.has_station(sid)
                    })
        },
{
    let ghost p0 = old(park_seen)@;
    let ghost s0 = old(location_by_station_id)@;
    let mut j: usize = 0;
    while j < parks.len()
        invariant
            p0 == old(park_seen)@,
            s0 == old(location_by_station_id)@,
            j <= parks@.len(),
            location.parks@ == parks@,
            park_seen.wf(),
            location_by_station_id.wf(),
            scan_parks(p0.dom(), s0.dom(), parks@.take(j as int)) == Ok::<_, Seq<char>>((park_seen@.dom(), location_by_station_id@.dom())),
            forall|sid: Seq<char>| #[trigger] s0.contains_key(sid) ==> location_by_station_id@.contains_key(sid),
            forall|sid: Seq<char>| #[trigger] location_by_station_id@.contains_key(sid) ==> (
                if s0.contains_key(sid) {
                    location_by_station_id@[sid] == s0[sid]
                } else {
                    location_by_station_id@[sid] == loc_index && location.has_station(sid)
                }),
        decreases parks@.len() - j,
    {
        let park = &parks[j];
        proof {
            let next = parks@.take(j + 1);
            assert(next.drop_last() =~= parks@.take(j as int));
            assert(next.last() == parks@[j as int]);
        }
        if park_seen.contains_key(park.id.as_str()) {
            let mut m = String::from_str("found duplicate park id: ");
            m.append(park.id.as_str());
            proof {
                assert(scan_parks(p0.dom(), s0.dom(), parks@.take(j + 1)) == Err::<(Set<Seq<char>>, Set<Seq<char>>), Seq<char>>(m@));
                lemma_scan_parks_err(p0.dom(), s0.dom(), parks@, j + 1);
                assert(scan_parks(p0.dom(), s0.dom(), parks@) == Err::<(Set<Seq<char>>, Set<Seq<char>>), Seq<char>>(m@));
            }
            return Err(m);
        }
        park_seen.insert(park.id.clone(), loc_index);
        let ghost s_before = location_by_station_id@;
        let mut k: usize = 0;
        while k < park.stations.len()
            invariant
                p0 == old(park_seen)@,
                s0 == old(location_by_station_id)@,
                j < parks@.len(),
                *park == parks@[j as int],
                park_seen.wf(),
                park_seen@.dom() == scan_parks(p0.dom(), s0.dom(), parks@.take(j as int))->Ok_0.0.insert(park.id@),
                scan_parks(p0.dom(), s0.dom(), parks@.take(j as int)) is Ok,
                !scan_parks(p0.dom(), s0.dom(), parks@.take(j as int))->Ok_0.0.contains(park.id@),
                s_before.dom() == scan_parks(p0.dom(), s0.dom(), parks@.take(j as int))->Ok_0.1,
                parks@.take(j + 1).drop_last() == parks@.take(j as int),
                parks@.take(j + 1).last() == parks@[j as int],
                location.parks@ == parks@,
                k <= park.stations@.len(),
                location_by_station_id.wf(),
                scan_stations(s_before.dom(), park.stations@.take(k as int), park.id@) == Ok::<_, Seq<char>>(location_by_station_id@.dom()),
                forall|sid: Seq<char>| #[trigger] location_by_station_id@.contains_key(sid) ==> (
                    if s0.contains_key(sid) {
                        location_by_station_id@[sid] == s0[sid]
                    } else {
                        location_by_station_id@[sid] == loc_index && location.has_station(sid)
                    }),
                forall|sid: Seq<char>| #[trigger] s_before.contains_key(sid) ==> location_by_station_id@.contains_key(sid) && location_by_station_id@[sid] == s_before[sid],
                forall|sid: Seq<char>| #[trigger] s0.contains_key(sid) ==> location_by_station_id@.contains_key(sid),
            decreases park.stations@.len() - k,
        {
            let station = &park.stations[k];
            proof {
                let next = park.stations@.take(k + 1);
                assert(next.drop_last() =~= park.stations@.take(k as int));
                assert(next.last() == park.stations@[k as int]);
            }
            if location_by_station_id.contains_key(station.id.as_str()) {
                let mut m = String::from_str("found duplicate station id: ");
                m.append(park.id.as_str());
                proof {
                    lemma_scan_stations_err(s_before.dom(), park.stations@, park.id@, k + 1);
                    let p = scan_parks(p0.dom(), s0.dom(), parks@.take(j as int))->Ok_0.0;
                    assert(scan_parks(p0.dom(), s0.dom(), parks@.take(j + 1)) == Err::<(Set<Seq<char>>, Set<Seq<char>>), Seq<char>>(m@));
                    lemma_scan_parks_err(p0.dom(), s0.dom(), parks@, j + 1);
                    assert(scan_parks(p0.dom(), s0.dom(), parks@) == Err::<(Set<Seq<char>>, Set<Seq<char>>), Seq<char>>(m@));
                }
                return Err(m);
            }
            proof {
                assert(location.has_station(station.id@)) by {
                    assert(location.parks@[j as int].stations@[k as int].id@ == station.id@);
                }
            }
            location_by_station_id.insert(station.id.clone(), loc_index);
            proof {
                assert(location_by_station_id@.dom() =~= scan_stations(s_before.dom(), park.stations@.take(k as int), park.id@)->Ok_0.insert(station.id@));
            }
            k = k + 1;
        }
        proof {
            assert(park.stations@.take(park.stations@.len() as int) =~= park.stations@);
            assert(park_seen@.dom() =~= scan_parks(p0.dom(), s0.dom(), parks@.take(j as int))->Ok_0.0.insert(park.id@));
        }
        j = j + 1;
    }
    assert(parks@.take(parks@.len() as int) =~= parks@);
    Ok(())
}

/// Returns whether a chat with this ID was registered.
fn chat_listed(entries: &Vec<(i64, Vec<usize>)>, id: i64) -> (r: bool)
    ensures
        r == exists|d: int| 0 <= d < entries@.len() && entries@[d].0 == id,
{
    let mut d: usize = 0;
    while d < entries.len()
        invariant
            d <= entries@.len(),
            forall|e: int| 0 <= e < d ==> entries@[e].0 != id,
        decreases entries@.len() - d,
    {
        if entries[d].0 == id {
            return true;
        }
        d = d + 1;
    }
    false
}

/// Resolves the location references of a chat to positions, failing on the first unknown one.
fn resolve_chat(chat: &Chat, location_by_id: &StrMap<usize>) -> (r: Result<Vec<usize>, String>)
    requires
        location_by_id.wf(),
    ensures
        match first_unknown(chat.locations@, location_by_id@.dom()) {
            Some(u) => r matches Err(e) && e@ == msg_unknown_location(chat.id, u),
            None => r matches Ok(v) && v@.len() == chat.locations@.len()
                && forall|k: int| 0 <= k < v@.len() ==> #[trigger] v@[k] == location_by_id@[chat.locations@[k]@],
        },
{
    let mut v: Vec<usize> = Vec::new();
    let mut k: usize = 0;
    while k < chat.locations.len()
        invariant
            location_by_id.wf(),
            k <= chat.locations@.len(),
            first_unknown(chat.locations@.take(k as int), location_by_id@.dom()) is None,
            v@.len() == k,
            forall|q: int| 0 <= q < k ==> #[trigger] v@[q] == location_by_id@[chat.locations@[q]@],
        decreases chat.locations@.len() - k,
    {
        proof {
            let next = chat.locations@.take(k + 1);
            assert(next.drop_last() =~= chat.locations@.take(k as int));
            assert(next.last() == chat.locations@[k as int]);
        }
        match location_by_id.get(chat.locations[k].as_str()) {
            Some(idx) => v.push(*idx),
            None => {
                let mut m = String::from_str("chat ");
                let n = i64_to_text(chat.id);
                m.append(n.as_str());
                m.append(" references unknown location id: ");
                m.append(chat.locations[k].as_str());
                proof { lemma_first_unknown_found(chat.locations@, location_by_id@.dom(), k + 1); }
                return Err(m);
            },
        }
        k = k + 1;
    }
    assert(chat.locations@.take(chat.locations@.len() as int) =~= chat.locations@);
    Ok(v)
}


/// IDs of the given stations, in order.
pub open spec fn station_id_seq(stations: Seq<Station>) -> Seq<Seq<char>> {
    stations.map_values(|s: Station| s.id@)
}

/// IDs of the given parks, in order.
pub open spec fn park_id_seq(parks: Seq<Park>) -> Seq<Seq<char>> {
    parks.map_values(|p: Park| p.id@)
}

/// IDs of the stations of the given parks, park by park.
pub open spec fn park_station_seq(parks: Seq<Park>) -> Seq<Seq<char>>
    decreases parks.len(),
{
    if parks.len() == 0 {
        Seq::empty()
    } else {
        park_station_seq(parks.drop_last()) + station_id_seq(parks.last().stations@)
    }
}

/// IDs of the given locations, in order.
pub open spec fn location_id_seq(locs: Seq<Location>) -> Seq<Seq<char>> {
    locs.map_values(|l: Location| l.id@)
}

/// IDs of the parks of the given locations, location by location.
pub open spec fn location_park_seq(locs: Seq<Location>) -> Seq<Seq<char>>
    decreases locs.len(),
{
    if locs.len() == 0 {
        Seq::empty()
    } else {
        location_park_seq(locs.drop_last()) + park_id_seq(locs.last().parks@)
    }
}

/// IDs of the stations of the given locations, location by location.
pub open spec fn location_station_seq(locs: Seq<Location>) -> Seq<Seq<char>>
    decreases locs.len(),
{
    if locs.len() == 0 {
        Seq::empty()
    } else {
        location_station_seq(locs.drop_last()) + park_station_seq(locs.last().parks@)
    }
}

/// IDs of the given chats, in order.
pub open spec fn chat_id_seq(chats: Seq<Chat>) -> Seq<i64> {
    chats.map_values(|c: Chat| c.id)
}

/// Location, park, station and chat IDs are each unique across the whole configuration, and
/// every location that a chat lists is configured.
pub open spec fn consistent(locs: Seq<Location>, chats: Seq<Chat>) -> bool {
    &&& location_id_seq(locs).no_duplicates()
    &&& location_park_seq(locs).no_duplicates()
    &&& location_station_seq(locs).no_duplicates()
    &&& forall|c: int, r: int| 0 <= c < chats.len() && 0 <= r < chats[c].locations@.len()
            ==> location_id_seq(locs).contains(#[trigger] chats[c].locations@[r]@)
    &&& chat_id_seq(chats).no_duplicates()
}

/// None of the IDs is among `seen`.
pub open spec fn fresh<A>(ids: Seq<A>, seen: Set<A>) -> bool {
    forall|i: int| 0 <= i < ids.len() ==> !seen.contains(#[trigger] ids[i])
}

proof fn lemma_nodup_concat<A>(a: Seq<A>, b: Seq<A>)
    ensures
        (a + b).no_duplicates() <==> (a.no_duplicates() && b.no_duplicates() && fresh(b, a.to_set())),
{
    if (a + b).no_duplicates() {
        assert forall|i: int, j: int| 0 <= i < a.len() && 0 <= j < a.len() && i != j implies a[i] != a[j] by {
            assert((a + b)[i] == a[i] && (a + b)[j] == a[j]);
        }
        assert forall|i: int, j: int| 0 <= i < b.len() && 0 <= j < b.len() && i != j implies b[i] != b[j] by {
            assert((a + b)[a.len() + i] == b[i] && (a + b)[a.len() + j] == b[j]);
        }
        assert forall|j: int| 0 <= j < b.len() implies !a.to_set().contains(#[trigger] b[j]) by {
            if a.contains(b[j]) {
                let i = choose|i: int| 0 <= i < a.len() && a[i] == b[j];
                assert((a + b)[i] == (a + b)[a.len() + j]);
            }
        }
    }
    if a.no_duplicates() && b.no_duplicates() && fresh(b, a.to_set()) {
        assert forall|i: int, j: int| 0 <= i < a.len() && 0 <= j < b.len() implies a[i] != b[j] by {
            assert(!a.to_set().contains(b[j]));
            assert(a.contains(a[i]));
        }
        vstd::seq_lib::lemma_no_dup_in_concat(a, b);
    }
}

proof fn lemma_nodup_push<A>(a: Seq<A>, x: A)
    ensures
        a.push(x).no_duplicates() <==> (a.no_duplicates() && !a.contains(x)),
{
    lemma_nodup_concat(a, seq![x]);
    assert(a + seq![x] =~= a.push(x));
    assert(fresh(seq![x], a.to_set()) <==> !a.contains(x)) by {
        if fresh(seq![x], a.to_set()) {
            assert(!a.to_set().contains(seq![x][0]));
        }
    }
}

proof fn lemma_fresh_concat<A>(a: Seq<A>, b: Seq<A>, seen: Set<A>)
    ensures
        fresh(a + b, seen) <==> (fresh(a, seen) && fresh(b, seen)),
{
    if fresh(a + b, seen) {
        assert forall|i: int| 0 <= i < a.len() implies !seen.contains(#[trigger] a[i]) by {
            assert((a + b)[i] == a[i]);
        }
        assert forall|i: int| 0 <= i < b.len() implies !seen.contains(#[trigger] b[i]) by {
            assert((a + b)[a.len() + i] == b[i]);
        }
    }
    if fresh(a, seen) && fresh(b, seen) {
        assert forall|i: int| 0 <= i < (a + b).len() implies !seen.contains(#[trigger] (a + b)[i]) by {
            if i < a.len() {
                assert((a + b)[i] == a[i]);
            } else {
                assert((a + b)[i] == b[i - a.len()]);
            }
        }
    }
}

proof fn lemma_fresh_union<A>(ids: Seq<A>, seen: Set<A>, more: Seq<A>)
    ensures
        fresh(ids, seen + more.to_set()) <==> (fresh(ids, seen) && fresh(ids, more.to_set())),
{
    if fresh(ids, seen) && fresh(ids, more.to_set()) {
        assert forall|i: int| 0 <= i < ids.len() implies !(seen + more.to_set()).contains(#[trigger] ids[i]) by {
            assert(!seen.contains(ids[i]) && !more.to_set().contains(ids[i]));
        }
    }
    if fresh(ids, seen + more.to_set()) {
        assert forall|i: int| 0 <= i < ids.len() implies !seen.contains(#[trigger] ids[i]) by {
            assert(!(seen + more.to_set()).contains(ids[i]));
        }
        assert forall|i: int| 0 <= i < ids.len() implies !more.to_set().contains(#[trigger] ids[i]) by {
            assert(!(seen + more.to_set()).contains(ids[i]));
        }
    }
}

proof fn lemma_scan_stations_iff(seen: Set<Seq<char>>, stations: Seq<Station>, park_id: Seq<char>)
    ensures
        scan_stations(seen, stations, park_id) is Ok
            <==> (station_id_seq(stations).no_duplicates() && fresh(station_id_seq(stations), seen)),
        scan_stations(seen, stations, park_id) is Ok
            ==> scan_stations(seen, stations, park_id)->Ok_0 == seen + station_id_seq(stations).to_set(),
    decreases stations.len(),
{
    let ids = station_id_seq(stations);
    if stations.len() == 0 {
        assert(ids.to_set() =~= Set::empty());
        assert(seen + ids.to_set() =~= seen);
    } else {
        let prefix = stations.drop_last();
        let x = stations.last().id@;
        let pre = station_id_seq(prefix);
        lemma_scan_stations_iff(seen, prefix, park_id);
        assert(ids =~= pre.push(x));
        lemma_nodup_push(pre, x);
        lemma_fresh_concat(pre, seq![x], seen);
        assert(pre + seq![x] =~= ids);
        assert(fresh(seq![x], seen) <==> !seen.contains(x)) by {
            if fresh(seq![x], seen) {
                assert(!seen.contains(seq![x][0]));
            }
        }
        if scan_stations(seen, prefix, park_id) is Ok {
            let s = scan_stations(seen, prefix, park_id)->Ok_0;
            assert(s.contains(x) <==> (seen.contains(x) || pre.contains(x)));
            if scan_stations(seen, stations, park_id) is Ok {
                assert(scan_stations(seen, stations, park_id)->Ok_0 =~= seen + ids.to_set()) by {
                    assert(ids.to_set() =~= pre.to_set().insert(x)) by {
                        pre.lemma_push_to_set_commute(x);
                    }
                }
            }
        }
    }
}

proof fn lemma_scan_parks_iff(sp: Set<Seq<char>>, ss: Set<Seq<char>>, parks: Seq<Park>)
    ensures
        scan_parks(sp, ss, parks) is Ok <==> {
            &&& park_id_seq(parks).no_duplicates()
            &&& fresh(park_id_seq(parks), sp)
            &&& park_station_seq(parks).no_duplicates()
            &&& fresh(park_station_seq(parks), ss)
        },
        scan_parks(sp, ss, parks) is Ok ==> {
            &&& scan_parks(sp, ss, parks)->Ok_0.0 == sp + park_id_seq(parks).to_set()
            &&& scan_parks(sp, ss, parks)->Ok_0.1 == ss + park_station_seq(parks).to_set()
        },
    decreases parks.len(),
{
    let pids = park_id_seq(parks);
    let psts = park_station_seq(parks);
    if parks.len() == 0 {
        assert(pids.to_set() =~= Set::empty());
        assert(psts.to_set() =~= Set::empty());
        assert(sp + pids.to_set() =~= sp);
        assert(ss + psts.to_set() =~= ss);
    } else {
        let prefix = parks.drop_last();
        let park = parks.last();
        let x = park.id@;
        let pre_ids = park_id_seq(prefix);
        let pre_sts = park_station_seq(prefix);
        let sts = station_id_seq(park.stations@);
        lemma_scan_parks_iff(sp, ss, prefix);
        assert(pids =~= pre_ids.push(x));
        assert(psts == pre_sts + sts);
        lemma_nodup_push(pre_ids, x);
        lemma_fresh_concat(pre_ids, seq![x], sp);
        assert(pre_ids + seq![x] =~= pids);
        assert(fresh(seq![x], sp) <==> !sp.contains(x)) by {
            if fresh(seq![x], sp) {
                assert(!sp.contains(seq![x][0]));
            }
        }
        lemma_nodup_concat(pre_sts, sts);
        lemma_fresh_concat(pre_sts, sts, ss);
        lemma_fresh_union(sts, ss, pre_sts);
        if scan_parks(sp, ss, prefix) is Ok {
            let (p, s) = scan_parks(sp, ss, prefix)->Ok_0;
            assert(p.contains(x) <==> (sp.contains(x) || pre_ids.contains(x)));
            lemma_scan_stations_iff(s, park.stations@, x);
            if scan_parks(sp, ss, parks) is Ok {
                let s2 = scan_stations(s, park.stations@, x)->Ok_0;
                assert(pids.to_set() =~= pre_ids.to_set().insert(x)) by {
                    pre_ids.lemma_push_to_set_commute(x);
                }
                vstd::seq_lib::seq_to_set_distributes_over_add(pre_sts, sts);
                assert(scan_parks(sp, ss, parks)->Ok_0.0 =~= sp + pids.to_set());
                assert(scan_parks(sp, ss, parks)->Ok_0.1 =~= ss + psts.to_set());
            }
        }
    }
}

proof fn lemma_scan_locations_iff(locs: Seq<Location>)
    ensures
        scan_locations(locs) is Ok <==> {
            &&& location_id_seq(locs).no_duplicates()
            &&& location_park_seq(locs).no_duplicates()
            &&& location_station_seq(locs).no_duplicates()
        },
        scan_locations(locs) is Ok ==> scan_locations(locs)->Ok_0.0 == location_id_seq(locs).to_set(),
        scan_locations(locs) is Ok ==> scan_locations(locs)->Ok_0.1 == location_park_seq(locs).to_set(),
        scan_locations(locs) is Ok ==> scan_locations(locs)->Ok_0.2 == location_station_seq(locs).to_set(),
    decreases locs.len(),
{
    let lids = location_id_seq(locs);
    let lps = location_park_seq(locs);
    let lss = location_station_seq(locs);
    if locs.len() == 0 {
        assert(lids.to_set() =~= Set::empty());
        assert(lps.to_set() =~= Set::empty());
        assert(lss.to_set() =~= Set::empty());
    } else {
        let prefix = locs.drop_last();
        let loc = locs.last();
        let x = loc.id@;
        let pre_ids = location_id_seq(prefix);
        let pre_ps = location_park_seq(prefix);
        let pre_ss = location_station_seq(prefix);
        let ps = park_id_seq(loc.parks@);
        let ss = park_station_seq(loc.parks@);
        lemma_scan_locations_iff(prefix);
        assert(lids =~= pre_ids.push(x));
        assert(lps == pre_ps + ps);
        assert(lss == pre_ss + ss);
        lemma_nodup_push(pre_ids, x);
        lemma_nodup_concat(pre_ps, ps);
        lemma_nodup_concat(pre_ss, ss);
        if scan_locations(prefix) is Ok {
            let (l, p, s) = scan_locations(prefix)->Ok_0;
            assert(l.contains(x) <==> pre_ids.contains(x));
            lemma_scan_parks_iff(p, s, loc.parks@);
            if scan_locations(locs) is Ok {
                let (p2, s2) = scan_parks(p, s, loc.parks@)->Ok_0;
                assert(lids.to_set() =~= pre_ids.to_set().insert(x)) by {
                    pre_ids.lemma_push_to_set_commute(x);
                }
                vstd::seq_lib::seq_to_set_distributes_over_add(pre_ps, ps);
                vstd::seq_lib::seq_to_set_distributes_over_add(pre_ss, ss);
                assert(scan_locations(locs)->Ok_0.0 =~= lids.to_set());
                assert(scan_locations(locs)->Ok_0.1 =~= lps.to_set());
                assert(scan_locations(locs)->Ok_0.2 =~= lss.to_set());
            }
        }
    }
}

proof fn lemma_scan_chats_iff(known: Set<Seq<char>>, chats: Seq<Chat>)
    ensures
        scan_chats(known, chats) is Ok <==> {
            &&& forall|c: int, r: int| 0 <= c < chats.len() && 0 <= r < chats[c].locations@.len()
                    ==> known.contains(#[trigger] chats[c].locations@[r]@)
            &&& chat_id_seq(chats).no_duplicates()
        },
        scan_chats(known, chats) is Ok ==> scan_chats(known, chats)->Ok_0 == chat_id_seq(chats).to_set(),
    decreases chats.len(),
{
    let ids = chat_id_seq(chats);
    if chats.len() == 0 {
        assert(ids.to_set() =~= Set::empty());
    } else {
        let prefix = chats.drop_last();
        let chat = chats.last();
        let n = chats.len() - 1;
        let pre = chat_id_seq(prefix);
        lemma_scan_chats_iff(known, prefix);
        lemma_first_unknown_none(chat.locations@, known);
        assert(ids =~= pre.push(chat.id));
        lemma_nodup_push(pre, chat.id);
        let all_known = forall|c: int, r: int| 0 <= c < chats.len() && 0 <= r < chats[c].locations@.len()
            ==> known.contains(#[trigger] chats[c].locations@[r]@);
        let pre_known = forall|c: int, r: int| 0 <= c < prefix.len() && 0 <= r < prefix[c].locations@.len()
            ==> known.contains(#[trigger] prefix[c].locations@[r]@);
        let last_known = forall|k: int| 0 <= k < chat.locations@.len() ==> known.contains(#[trigger] chat.locations@[k]@);
        assert(all_known <==> (pre_known && last_known)) by {
            if all_known {
                assert forall|c: int, r: int| 0 <= c < prefix.len() && 0 <= r < prefix[c].locations@.len()
                    implies known.contains(#[trigger] prefix[c].locations@[r]@) by {
                    assert(prefix[c] == chats[c]);
                }
                assert forall|k: int| 0 <= k < chat.locations@.len() implies known.contains(#[trigger] chat.locations@[k]@) by {
                    assert(chats[n] == chat);
                    assert(known.contains(chats[n].locations@[k]@));
                }
            }
            if pre_known && last_known {
                assert forall|c: int, r: int| 0 <= c < chats.len() && 0 <= r < chats[c].locations@.len()
                    implies known.contains(#[trigger] chats[c].locations@[r]@) by {
                    if c < n {
                        assert(prefix[c] == chats[c]);
                        assert(known.contains(prefix[c].locations@[r]@));
                    } else {
                        assert(chats[c] == chat);
                        assert(known.contains(chat.locations@[r]@));
                    }
                }
            }
        }
        if scan_chats(known, prefix) is Ok && scan_chats(known, chats) is Ok {
            assert(ids.to_set() =~= pre.to_set().insert(chat.id)) by {
                pre.lemma_push_to_set_commute(chat.id);
            }
            assert(scan_chats(known, chats)->Ok_0 =~= ids.to_set());
        }
    }
}

/// The configuration data is accepted exactly when it is consistent: location, park, station
/// and chat IDs are each unique across the whole configuration, and every location that a chat
/// lists is configured.
pub proof fn law_check_accepts_exactly_consistent_data(locs: Seq<Location>, chats: Seq<Chat>)
    ensures
        datasource_check(locs, chats) is Ok <==> consistent(locs, chats),
{
    lemma_scan_locations_iff(locs);
    if scan_locations(locs) is Ok {
        let l = scan_locations(locs)->Ok_0.0;
        lemma_scan_chats_iff(l, chats);
        assert forall|x: Seq<char>| l.contains(x) <==> location_id_seq(locs).contains(x) by {}
    }
}

} // verus!
