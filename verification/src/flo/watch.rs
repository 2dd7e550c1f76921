//! The park watch manager's decisions: which parks to watch, and which station statuses to report.

use vstd::prelude::*;
use crate::flo::models::{Park, Station, Status};
use crate::keyed::StrMap;

verus! {

/// Represents commands that can be used to control Park watch manager.
#[derive(Clone, Debug)]
pub enum Command {
    SubscribeToPark(String),
    UnsubscribeFromPark(String),
}

/// What the watch manager does in response to a command.
#[derive(Clone, Debug)]
pub enum WatchAction {
    /// Start a watcher task for this park.
    Start(String),
    /// Stop the watcher task of this park, if there is one.
    Stop(String),
    /// Nothing to do: the park is already watched.
    Ignore,
}

/// The parks that have a watcher task.
pub struct Watchers {
    pub parks: StrMap<()>,
}

impl Watchers {
    /// The IDs of the watched parks.
    pub open spec fn watched(self) -> Set<Seq<char>> {
        self.parks@.dom()
    }

    pub open spec fn wf(self) -> bool {
        self.parks.wf()
    }

    /// No park is watched.
    pub fn new() -> (w: Watchers)
        ensures
            w.wf(),
            w.watched() == Set::<Seq<char>>::empty(),
    {
        let w = Watchers { parks: StrMap::new() };
        assert(w.watched() =~= Set::<Seq<char>>::empty());
        w
    }
}

/// The watched parks after a command: subscribing adds the park, unsubscribing removes it.
pub open spec fn watched_after(watched: Set<Seq<char>>, command: Command) -> Set<Seq<char>> {
    match command {
        Command::SubscribeToPark(id) => watched.insert(id@),
        Command::UnsubscribeFromPark(id) => watched.remove(id@),
    }
}

/// Decides how the watch manager reacts to a command. Subscribing to a park starts a watcher
/// unless the park is watched already; unsubscribing stops the park's watcher.
pub fn handle_command(watchers: &mut Watchers, command: Command) -> (action: WatchAction)
    requires
        old(watchers).wf(),
    ensures
        final(watchers).wf(),
        final(watchers).watched() == watched_after(old(watchers).watched(), command),
        match command {
            Command::SubscribeToPark(id) => if old(watchers).watched().contains(id@) {
                action is Ignore && final(watchers).watched() == old(watchers).watched()
            } else {
                action matches WatchAction::Start(p) && p@ == id@
                    && final(watchers).watched() == old(watchers).watched().insert(id@)
            },
            Command::UnsubscribeFromPark(id) => action matches WatchAction::Stop(p) && p@ == id@
                && final(watchers).watched() == old(watchers).watched().remove(id@),
        },
{
    match command {
        Command::SubscribeToPark(park_id) => {
            if watchers.parks.contains_key(park_id.as_str()) {
                WatchAction::Ignore
            } else {
                watchers.parks.insert(park_id.clone(), ());
                WatchAction::Start(park_id)
            }
        },
        Command::UnsubscribeFromPark(park_id) => {
            let _ = watchers.parks.take(park_id.as_str());
            WatchAction::Stop(park_id)
        },
    }
}

/// Applies a fetched park to the known station statuses, station by station: a station is
/// reported when its status was not known or differs from the known one, and the known status
/// becomes the fetched one.
pub open spec fn refresh_effect(known: Map<Seq<char>, Status>, stations: Seq<Station>) -> (Map<Seq<char>, Status>, Seq<(Seq<char>, Status)>)
    decreases stations.len(),
{
    if stations.len() == 0 {
        (known, Seq::empty())
    } else {
        let (m, reported) = refresh_effect(known, stations.drop_last());
        let s = stations.last();
        if m.contains_key(s.id@) && m[s.id@] == s.status {
            (m, reported)
        } else {
            (m.insert(s.id@, s.status), reported.push((s.id@, s.status)))
        }
    }
}

/// The stations as (ID, status) pairs.
pub open spec fn stations_view(stations: Seq<Station>) -> Seq<(Seq<char>, Status)> {
    stations.map_values(|s: Station| (s.id@, s.status))
}

/// Updates the known statuses with a freshly fetched park and returns the stations whose status
/// should be reported, in the park's order.
pub fn refresh_statuses(statuses: &mut StrMap<Status>, park: Park) -> (report: Vec<Station>)
    requires
        old(statuses).wf(),
    ensures
        final(statuses).wf(),
        (final(statuses)@, stations_view(report@)) == refresh_effect(old(statuses)@, park.stations@),
{
    let ghost m0 = statuses@;
    let ghost all = park.stations@;
    let mut report: Vec<Station> = Vec::new();
    let mut k: usize = 0;
    let n = park.stations.len();
    while k < n
        invariant
            n == all.len(),
            all == park.stations@,
            k <= n,
            statuses.wf(),
            (statuses@, stations_view(report@)) == refresh_effect(m0, all.take(k as int)),
        decreases n - k,
    {
        let s = &park.stations[k];
        proof {
            let next = all.take(k + 1);
            assert(next.drop_last() =~= all.take(k as int));
            assert(next.last() == all[k as int]);
        }
        let changed = match statuses.get(s.id.as_str()) {
            Some(known) => *known != s.status,
            None => true,
        };
        if changed {
            statuses.insert(s.id.clone(), s.status);
            let ghost before = stations_view(report@);
            report.push(Station { id: s.id.clone(), status: s.status });
            assert(stations_view(report@) =~= before.push((s.id@, s.status)));
        }
        k = k + 1;
    }
    assert(all.take(n as int) =~= all);
    report
}

/// IDs of the given stations are distinct.
pub open spec fn distinct_station_ids(stations: Seq<Station>) -> bool {
    forall|i: int, j: int| 0 <= i < stations.len() && 0 <= j < stations.len() && i != j ==> stations[i].id@ != stations[j].id@
}

/// No station has this ID.
pub open spec fn id_absent(stations: Seq<Station>, id: Seq<char>) -> bool {
    forall|i: int| 0 <= i < stations.len() ==> #[trigger] stations[i].id@ != id
}

proof fn lemma_refresh_known(known: Map<Seq<char>, Status>, stations: Seq<Station>)
    requires
        distinct_station_ids(stations),
    ensures
        forall|i: int| 0 <= i < stations.len() ==> refresh_effect(known, stations).0.contains_key(#[trigger] stations[i].id@)
            && refresh_effect(known, stations).0[stations[i].id@] == stations[i].status,
        forall|id: Seq<char>| #[trigger] id_absent(stations, id)
            ==> (refresh_effect(known, stations).0.contains_key(id) == known.contains_key(id)
                && (known.contains_key(id) ==> refresh_effect(known, stations).0[id] == known[id])),
    decreases stations.len(),
{
    if stations.len() > 0 {
        let prefix = stations.drop_last();
        assert(distinct_station_ids(prefix)) by {
            assert forall|i: int, j: int| 0 <= i < prefix.len() && 0 <= j < prefix.len() && i != j implies prefix[i].id@ != prefix[j].id@ by {
                assert(stations[i] == prefix[i] && stations[j] == prefix[j]);
            }
        }
        lemma_refresh_known(known, prefix);
        let last = stations.last();
        assert forall|i: int| 0 <= i < prefix.len() implies #[trigger] prefix[i].id@ != last.id@ by {
            assert(stations[i] == prefix[i]);
        }
        assert forall|id: Seq<char>| #[trigger] id_absent(stations, id) implies id_absent(prefix, id) by {
            assert forall|i: int| 0 <= i < prefix.len() implies #[trigger] prefix[i].id@ != id by {
                assert(stations[i] == prefix[i]);
            }
            assert(stations[stations.len() - 1] == last);
        }
        assert forall|i: int| 0 <= i < stations.len() implies refresh_effect(known, stations).0.contains_key(#[trigger] stations[i].id@)
            && refresh_effect(known, stations).0[stations[i].id@] == stations[i].status by {
            if i < stations.len() - 1 {
                assert(stations[i] == prefix[i]);
            }
        }
    }
}

/// Refreshing twice with the same park (whose stations have distinct IDs) reports nothing the
/// second time and leaves the known statuses as the first refresh left them.
pub proof fn law_refresh_is_idempotent(known: Map<Seq<char>, Status>, stations: Seq<Station>)
    requires
        distinct_station_ids(stations),
    ensures
        refresh_effect(refresh_effect(known, stations).0, stations).0 == refresh_effect(known, stations).0,
        refresh_effect(refresh_effect(known, stations).0, stations).1.len() == 0,
    decreases stations.len(),
{
    lemma_refresh_known(known, stations);
    lemma_refresh_all_known(refresh_effect(known, stations).0, stations);
}

proof fn lemma_refresh_all_known(m: Map<Seq<char>, Status>, stations: Seq<Station>)
    requires
        forall|i: int| 0 <= i < stations.len() ==> m.contains_key(#[trigger] stations[i].id@) && m[stations[i].id@] == stations[i].status,
    ensures
        refresh_effect(m, stations).0 == m,
        refresh_effect(m, stations).1.len() == 0,
    decreases stations.len(),
{
    if stations.len() > 0 {
        let prefix = stations.drop_last();
        assert forall|i: int| 0 <= i < prefix.len() implies m.contains_key(#[trigger] prefix[i].id@) && m[prefix[i].id@] == prefix[i].status by {
            assert(stations[i] == prefix[i]);
        }
        lemma_refresh_all_known(m, prefix);
        assert(stations[stations.len() - 1] == stations.last());
    }
}

/// A station is reported exactly when its fetched status differs from the one known before
/// (or none was known), for a park whose stations have distinct IDs.
pub proof fn law_refresh_reports_changes(known: Map<Seq<char>, Status>, stations: Seq<Station>)
    requires
        distinct_station_ids(stations),
    ensures
        forall|id: Seq<char>, st: Status| refresh_effect(known, stations).1.contains((id, st)) <==>
            exists|i: int| 0 <= i < stations.len() && #[trigger] stations[i].id@ == id && stations[i].status == st
                && !(known.contains_key(id) && known[id] == st),
    decreases stations.len(),
{
    if stations.len() > 0 {
        let prefix = stations.drop_last();
        let last = stations.last();
        assert(distinct_station_ids(prefix)) by {
            assert forall|i: int, j: int| 0 <= i < prefix.len() && 0 <= j < prefix.len() && i != j implies prefix[i].id@ != prefix[j].id@ by {
                assert(stations[i] == prefix[i] && stations[j] == prefix[j]);
            }
        }
        law_refresh_reports_changes(known, prefix);
        lemma_refresh_known(known, prefix);
        assert forall|i: int| 0 <= i < prefix.len() implies #[trigger] prefix[i].id@ != last.id@ by {
            assert(stations[i] == prefix[i]);
        }
        let (m, r) = refresh_effect(known, prefix);
        assert(id_absent(prefix, last.id@));
        assert(m.contains_key(last.id@) == known.contains_key(last.id@));
        let pushed = !(m.contains_key(last.id@) && m[last.id@] == last.status);
        let r2 = refresh_effect(known, stations).1;
        assert(r2 == if pushed { r.push((last.id@, last.status)) } else { r });
        assert forall|id: Seq<char>, st: Status| r2.contains((id, st)) implies
            exists|i: int| 0 <= i < stations.len() && #[trigger] stations[i].id@ == id && stations[i].status == st
                && !(known.contains_key(id) && known[id] == st) by {
            let w = choose|w: int| 0 <= w < r2.len() && r2[w] == (id, st);
            if w < r.len() {
                assert(r[w] == (id, st));
                assert(r.contains((id, st)));
                let i = choose|i: int| 0 <= i < prefix.len() && #[trigger] prefix[i].id@ == id && prefix[i].status == st
                    && !(known.contains_key(id) && known[id] == st);
                assert(stations[i] == prefix[i]);
            } else {
                assert(pushed);
                assert(id == last.id@ && st == last.status);
                assert(stations[stations.len() - 1] == last);
            }
        }
        assert forall|id: Seq<char>, st: Status|
            (exists|i: int| 0 <= i < stations.len() && #[trigger] stations[i].id@ == id && stations[i].status == st
                && !(known.contains_key(id) && known[id] == st)) implies r2.contains((id, st)) by {
            let i = choose|i: int| 0 <= i < stations.len() && #[trigger] stations[i].id@ == id && stations[i].status == st
                && !(known.contains_key(id) && known[id] == st);
            if i < stations.len() - 1 {
                assert(stations[i] == prefix[i]);
                assert(r.contains((id, st)));
                let w = choose|w: int| 0 <= w < r.len() && r[w] == (id, st);
                assert(r2[w] == (id, st));
            } else {
                assert(stations[i] == last);
                assert(pushed);
                assert(r2[r.len() as int] == (id, st));
            }
        }
    }
}

/// Subscribing to a park that is already watched changes nothing: after one subscription the
/// park is watched, so a second one is ignored and leaves the watched parks as they were.
pub proof fn law_subscribe_is_idempotent(watched: Set<Seq<char>>, park_id: String)
    ensures
        watched_after(watched, Command::SubscribeToPark(park_id)).contains(park_id@),
        watched_after(watched_after(watched, Command::SubscribeToPark(park_id)), Command::SubscribeToPark(park_id))
            == watched_after(watched, Command::SubscribeToPark(park_id)),
{
    assert(watched.insert(park_id@).insert(park_id@) =~= watched.insert(park_id@));
}

/// Unsubscribing from a park undoes subscribing to it, when it was not watched before.
pub proof fn law_unsubscribe_undoes_subscribe(watched: Set<Seq<char>>, park_id: String)
    requires
        !watched.contains(park_id@),
    ensures
        watched_after(watched_after(watched, Command::SubscribeToPark(park_id)), Command::UnsubscribeFromPark(park_id))
            == watched,
{
    assert(watched.insert(park_id@).remove(park_id@) =~= watched);
}

} // verus!
