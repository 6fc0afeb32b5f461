//! Reconciling the connected backends with the active set: which connections
//! to close and which servers to connect.
use vstd::prelude::*;

use crate::config::{ServerEntry, ServerEntryV, server_views, strs};
use crate::slug::contains_id;
use crate::text::str_eq;

verus! {

/// The plan: connected backends to shut down, then servers to connect.
pub struct ReconcilePlan {
    pub to_drop: Vec<String>,
    pub to_spawn: Vec<ServerEntry>,
}

/// The connected ids that are no longer active, in order.
pub open spec fn drop_list(connected: Seq<Seq<char>>, active: Set<Seq<char>>) -> Seq<Seq<char>>
    decreases connected.len(),
{
    if connected.len() == 0 {
        Seq::empty()
    } else {
        let p = drop_list(connected.drop_last(), active);
        if active.contains(connected.last()) { p } else { p.push(connected.last()) }
    }
}

/// The entry registered last for an id (a later entry replaces an earlier
/// one, as when collecting into a map).
pub open spec fn entry_for(servers: Seq<ServerEntryV>, id: Seq<char>) -> Option<ServerEntryV>
    decreases servers.len(),
{
    if servers.len() == 0 {
        None
    } else if servers.last().id == id {
        Some(servers.last())
    } else {
        entry_for(servers.drop_last(), id)
    }
}

/// The active ids, in order, that are not connected and have an entry.
pub open spec fn spawn_list(active: Seq<Seq<char>>, connected: Set<Seq<char>>, servers: Seq<ServerEntryV>) -> Seq<ServerEntryV>
    decreases active.len(),
{
    if active.len() == 0 {
        Seq::empty()
    } else {
        let p = spawn_list(active.drop_last(), connected, servers);
        let id = active.last();
        if !connected.contains(id) && entry_for(servers, id) is Some {
            p.push(entry_for(servers, id)->0)
        } else {
            p
        }
    }
}

fn entry_for_exec(servers: &Vec<ServerEntry>, id: &String) -> (r: Option<ServerEntry>)
    ensures
        match r {
            Some(e) => entry_for(server_views(servers@), id@) == Some(e@),
            None => entry_for(server_views(servers@), id@) is None,
        },
{
    let ghost sv = server_views(servers@);
    let mut i: usize = servers.len();
    assert(sv.take(i as int) =~= sv);
    while i > 0
        invariant
            sv == server_views(servers@),
            i <= servers@.len(),
            entry_for(sv, id@) == entry_for(sv.take(i as int), id@),
        decreases i,
    {
        assert(sv.take(i as int).drop_last() =~= sv.take(i - 1));
        assert(sv.take(i as int).last() == servers@[i - 1]@);
        if servers[i - 1].id == *id {
            return Some(servers[i - 1].duplicate());
        }
        i = i - 1;
    }
    None
}

/// Plan a reconciliation: close the backends that are connected but no longer
/// active, then connect every active server that is not connected and is
/// configured.
pub fn plan_reconcile(active: &Vec<String>, connected: &Vec<String>, servers: &Vec<ServerEntry>) -> (r: ReconcilePlan)
    ensures
        strs(r.to_drop@) == drop_list(strs(connected@), strs(active@).to_set()),
        server_views(r.to_spawn@) == spawn_list(strs(active@), strs(connected@).to_set(), server_views(servers@)),
{
    let ghost con = strs(connected@);
    let ghost act = strs(active@);
    let mut to_drop: Vec<String> = Vec::new();
    let mut i: usize = 0;
    while i < connected.len()
        invariant
            con == strs(connected@),
            act == strs(active@),
            i <= connected@.len(),
            strs(to_drop@) == drop_list(con.take(i as int), act.to_set()),
        decreases connected@.len() - i,
    {
        assert(con.take(i + 1).drop_last() =~= con.take(i as int));
        assert(con.take(i + 1).last() == connected@[i as int]@);
        if !contains_id(active, &connected[i]) {
            let ghost before = strs(to_drop@);
            to_drop.push(connected[i].clone());
            assert(strs(to_drop@) =~= before.push(connected@[i as int]@));
        }
        i = i + 1;
    }
    assert(con.take(connected@.len() as int) =~= con);
    let mut to_spawn: Vec<ServerEntry> = Vec::new();
    let mut k: usize = 0;
    while k < active.len()
        invariant
            con == strs(connected@),
            act == strs(active@),
            k <= active@.len(),
            server_views(to_spawn@) == spawn_list(act.take(k as int), con.to_set(), server_views(servers@)),
        decreases active@.len() - k,
    {
        assert(act.take(k + 1).drop_last() =~= act.take(k as int));
        assert(act.take(k + 1).last() == active@[k as int]@);
        if !contains_id(connected, &active[k]) {
            match entry_for_exec(servers, &active[k]) {
                Some(e) => {
                    let ghost before = server_views(to_spawn@);
                    let ghost ev = e@;
                    to_spawn.push(e);
                    assert(server_views(to_spawn@) =~= before.push(ev));
                },
                None => {},
            }
        }
        k = k + 1;
    }
    assert(act.take(active@.len() as int) =~= act);
    ReconcilePlan { to_drop, to_spawn }
}

proof fn lemma_drop_list(connected: Seq<Seq<char>>, active: Set<Seq<char>>)
    ensures
        forall|x: Seq<char>| #[trigger] drop_list(connected, active).contains(x) <==> (connected.contains(x) && !active.contains(x)),
    decreases connected.len(),
{
    if connected.len() > 0 {
        lemma_drop_list(connected.drop_last(), active);
        let p = drop_list(connected.drop_last(), active);
        let c = connected.last();
        assert forall|x: Seq<char>| #[trigger] drop_list(connected, active).contains(x) <==> (connected.contains(x) && !active.contains(x)) by {
            if connected.contains(x) {
                let k = choose|k: int| 0 <= k < connected.len() && connected[k] == x;
                if k < connected.len() - 1 {
                    assert(connected.drop_last()[k] == x);
                }
            }
            if connected.drop_last().contains(x) {
                let k = choose|k: int| 0 <= k < connected.drop_last().len() && connected.drop_last()[k] == x;
                assert(connected[k] == x);
            }
            if !active.contains(c) {
                if p.contains(x) {
                    let k = choose|k: int| 0 <= k < p.len() && p[k] == x;
                    assert(p.push(c)[k] == x);
                }
                if p.push(c).contains(x) {
                    let k = choose|k: int| 0 <= k < p.push(c).len() && p.push(c)[k] == x;
                    if k < p.len() {
                        assert(p[k] == x);
                    }
                }
                assert(p.push(c)[p.len() as int] == c);
            }
        }
    }
}

/// The ids of the servers to connect.
pub open spec fn spawn_ids(active: Seq<Seq<char>>, connected: Set<Seq<char>>, servers: Seq<ServerEntryV>) -> Seq<Seq<char>> {
    spawn_list(active, connected, servers).map_values(|e: ServerEntryV| e.id)
}

proof fn lemma_spawn_list(active: Seq<Seq<char>>, connected: Set<Seq<char>>, servers: Seq<ServerEntryV>)
    ensures
        forall|x: Seq<char>|
            #[trigger] spawn_ids(active, connected, servers).contains(x) <==> (
            active.contains(x) && !connected.contains(x) && entry_for(servers, x) is Some),
    decreases active.len(),
{
    if active.len() > 0 {
        lemma_spawn_list(active.drop_last(), connected, servers);
        lemma_entry_for_id(servers, active.last());
        let p = spawn_list(active.drop_last(), connected, servers);
        let id = active.last();
        let pm = spawn_ids(active.drop_last(), connected, servers);
        assert forall|x: Seq<char>|
            #[trigger] spawn_ids(active, connected, servers).contains(x) <==> (
            active.contains(x) && !connected.contains(x) && entry_for(servers, x) is Some) by {
            if active.contains(x) {
                let k = choose|k: int| 0 <= k < active.len() && active[k] == x;
                if k < active.len() - 1 {
                    assert(active.drop_last()[k] == x);
                }
            }
            if active.drop_last().contains(x) {
                let k = choose|k: int| 0 <= k < active.drop_last().len() && active.drop_last()[k] == x;
                assert(active[k] == x);
            }
            if !connected.contains(id) && entry_for(servers, id) is Some {
                let e = entry_for(servers, id)->0;
                assert(spawn_ids(active, connected, servers) =~= pm.push(e.id));
                if pm.contains(x) {
                    let k = choose|k: int| 0 <= k < pm.len() && pm[k] == x;
                    assert(pm.push(e.id)[k] == x);
                }
                if pm.push(e.id).contains(x) {
                    let k = choose|k: int| 0 <= k < pm.push(e.id).len() && pm.push(e.id)[k] == x;
                    if k < pm.len() {
                        assert(pm[k] == x);
                    }
                }
                assert(pm.push(e.id)[pm.len() as int] == id);
            }
        }
    }
}

proof fn lemma_entry_for_id(servers: Seq<ServerEntryV>, id: Seq<char>)
    ensures
        entry_for(servers, id) matches Some(e) ==> e.id == id,
    decreases servers.len(),
{
    if servers.len() > 0 {
        lemma_entry_for_id(servers.drop_last(), id);
    }
}

/// Law: when every planned connection succeeds, the connected set afterwards
/// (the old one without the dropped ids, plus the spawned ones) is exactly the
/// set of active ids that were connected already or are configured.
pub proof fn lemma_reconcile_converges(active: Seq<Seq<char>>, connected: Seq<Seq<char>>, servers: Seq<ServerEntryV>)
    ensures
        ({
            let dropped = drop_list(connected, active.to_set());
            let spawned = spawn_ids(active, connected.to_set(), servers);
            let after = connected.to_set().difference(dropped.to_set()).union(spawned.to_set());
            after == active.to_set().filter(|x: Seq<char>| connected.contains(x) || entry_for(servers, x) is Some)
        }),
{
    let dropped = drop_list(connected, active.to_set());
    let spawned = spawn_ids(active, connected.to_set(), servers);
    let after = connected.to_set().difference(dropped.to_set()).union(spawned.to_set());
    let goal = active.to_set().filter(|x: Seq<char>| connected.contains(x) || entry_for(servers, x) is Some);
    lemma_drop_list(connected, active.to_set());
    lemma_spawn_list(active, connected.to_set(), servers);
    assert forall|x: Seq<char>| after.contains(x) <==> goal.contains(x) by {
        assert(dropped.contains(x) <==> (connected.contains(x) && !active.to_set().contains(x)));
        assert(spawned.contains(x) <==> (active.contains(x) && !connected.to_set().contains(x) && entry_for(servers, x) is Some));
    }
    assert(after =~= goal);
}

// ---------------------------------------------------------------------------
// Servers that could not be connected
// ---------------------------------------------------------------------------

/// The failed set after a connection attempt: a server that connected (or
/// whose backend was dropped) is no longer failed; one that could not
/// connect is.
pub open spec fn failed_after(failed: Set<Seq<char>>, id: Seq<char>, connected: bool) -> Set<Seq<char>> {
    if connected {
        failed.remove(id)
    } else {
        failed.insert(id)
    }
}

pub fn note_connect_result(failed: &mut Vec<String>, id: &String, connected: bool)
    requires
        strs(old(failed)@).no_duplicates(),
    ensures
        strs(final(failed)@).no_duplicates(),
        strs(final(failed)@).to_set() == failed_after(strs(old(failed)@).to_set(), id@, connected),
{
    let ghost old_ids = strs(failed@);
    if connected {
        let mut kept: Vec<String> = Vec::new();
        let mut i: usize = 0;
        while i < failed.len()
            invariant
                old_ids == strs(failed@),
                old_ids.no_duplicates(),
                i <= failed@.len(),
                strs(kept@).no_duplicates(),
                forall|x: Seq<char>| strs(kept@).contains(x) <==> (old_ids.take(i as int).contains(x) && x != id@),
            decreases failed@.len() - i,
        {
            let ghost before = strs(kept@);
            let pushed = !str_eq(failed[i].as_str(), id.as_str());
            if pushed {
                let v = failed[i].clone();
                proof {
                    assert(v@ == old_ids[i as int]);
                    assert(!before.contains(v@)) by {
                        if before.contains(v@) {
                            let k = choose|k: int| 0 <= k < i && old_ids.take(i as int)[k] == v@;
                            assert(old_ids[k] == old_ids[i as int]);
                        }
                    }
                }
                kept.push(v);
                assert(strs(kept@) =~= before.push(old_ids[i as int]));
            }
            proof {
                let t1 = old_ids.take(i + 1);
                assert(t1 =~= old_ids.take(i as int).push(old_ids[i as int]));
                if pushed {
                    assert(strs(kept@) == before.push(old_ids[i as int]));
                } else {
                    assert(strs(kept@) == before);
                    assert(old_ids[i as int] == id@);
                }
                assert forall|x: Seq<char>| strs(kept@).contains(x) <==> (t1.contains(x) && x != id@) by {
                    if t1.contains(x) && x != id@ {
                        let k = choose|k: int| 0 <= k < t1.len() && t1[k] == x;
                        if k < i {
                            assert(old_ids.take(i as int)[k] == x);
                        } else {
                            assert(x == old_ids[i as int]);
                            assert(strs(kept@)[before.len() as int] == x);
                        }
                    }
                    if strs(kept@).contains(x) && !before.contains(x) {
                        let k = choose|k: int| 0 <= k < strs(kept@).len() && strs(kept@)[k] == x;
                        assert(k == before.len());
                        assert(t1[i as int] == x);
                    }
                    if before.contains(x) {
                        let k = choose|k: int| 0 <= k < before.len() && before[k] == x;
                        assert(strs(kept@)[k] == x);
                        let m = choose|m: int| 0 <= m < i && old_ids.take(i as int)[m] == x;
                        assert(t1[m] == x);
                    }
                }
            }
            i = i + 1;
        }
        assert(old_ids.take(i as int) =~= old_ids);
        *failed = kept;
        assert(strs(failed@).to_set() =~= old_ids.to_set().remove(id@));
    } else {
        if !contains_id(failed, id) {
            let ghost before = strs(failed@);
            failed.push(id.clone());
            assert(strs(failed@) =~= before.push(id@));
            assert forall|x: Seq<char>| strs(failed@).to_set().contains(x) == old_ids.to_set().insert(id@).contains(x) by {
                if strs(failed@).contains(x) {
                    let k = choose|k: int| 0 <= k < strs(failed@).len() && strs(failed@)[k] == x;
                    if k < before.len() {
                        assert(before[k] == x);
                    }
                }
                if before.contains(x) {
                    let k = choose|k: int| 0 <= k < before.len() && before[k] == x;
                    assert(strs(failed@)[k] == x);
                }
                assert(strs(failed@)[before.len() as int] == id@);
            }
            assert(strs(failed@).to_set() =~= old_ids.to_set().insert(id@));
        } else {
            assert(old_ids.to_set() =~= old_ids.to_set().insert(id@));
        }
    }
}

} // verus!
