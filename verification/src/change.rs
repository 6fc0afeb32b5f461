//! Whether the configuration on disk differs from the one held: an external
//! writer's edit is adopted (and the backends reconciled) only when it
//! changes something.
use vstd::prelude::*;

use crate::config::{Config, ConfigV, Profile, ServerEntry, ServerEntryV, opt_pairs, opt_str, opt_strs, pairs, profile_views, server_views, strs};
use crate::text::str_eq;

verus! {

fn eq_opt_string(a: &Option<String>, b: &Option<String>) -> (r: bool)
    ensures
        r == (opt_str(*a) == opt_str(*b)),
{
    match (a, b) {
        (Some(x), Some(y)) => str_eq(x.as_str(), y.as_str()),
        (None, None) => true,
        _ => false,
    }
}

fn eq_strings(a: &Vec<String>, b: &Vec<String>) -> (r: bool)
    ensures
        r == (strs(a@) == strs(b@)),
{
    if a.len() != b.len() {
        assert(strs(a@).len() != strs(b@).len());
        return false;
    }
    let mut i: usize = 0;
    while i < a.len()
        invariant
            a@.len() == b@.len(),
            i <= a@.len(),
            forall|k: int| 0 <= k < i ==> strs(a@)[k] == strs(b@)[k],
        decreases a@.len() - i,
    {
        if !str_eq(a[i].as_str(), b[i].as_str()) {
            assert(strs(a@)[i as int] != strs(b@)[i as int]);
            return false;
        }
        i = i + 1;
    }
    assert(strs(a@) =~= strs(b@));
    true
}

fn eq_opt_strings(a: &Option<Vec<String>>, b: &Option<Vec<String>>) -> (r: bool)
    ensures
        r == (opt_strs(*a) == opt_strs(*b)),
{
    match (a, b) {
        (Some(x), Some(y)) => eq_strings(x, y),
        (None, None) => true,
        _ => false,
    }
}

/// The map a list of name/value pairs stands for (as when the pairs are
/// collected into a map: a later pair with the same name wins).
pub open spec fn pairs_map(p: Seq<(Seq<char>, Seq<char>)>) -> Map<Seq<char>, Seq<char>>
    decreases p.len(),
{
    if p.len() == 0 {
        Map::empty()
    } else {
        pairs_map(p.drop_last()).insert(p.last().0, p.last().1)
    }
}

pub open spec fn opt_pairs_map(o: Option<Seq<(Seq<char>, Seq<char>)>>) -> Option<Map<Seq<char>, Seq<char>>> {
    match o {
        Some(p) => Some(pairs_map(p)),
        None => None,
    }
}

proof fn lemma_pairs_map_last(p: Seq<(Seq<char>, Seq<char>)>, k: Seq<char>, j: int)
    requires
        0 <= j < p.len(),
        p[j].0 == k,
        forall|m: int| j < m < p.len() ==> p[m].0 != k,
    ensures
        pairs_map(p).contains_key(k),
        pairs_map(p)[k] == p[j].1,
    decreases p.len(),
{
    if j < p.len() - 1 {
        lemma_pairs_map_last(p.drop_last(), k, j);
        assert(p.last().0 != k);
    }
}

proof fn lemma_pairs_map_absent(p: Seq<(Seq<char>, Seq<char>)>, k: Seq<char>)
    requires
        forall|m: int| 0 <= m < p.len() ==> p[m].0 != k,
    ensures
        !pairs_map(p).contains_key(k),
    decreases p.len(),
{
    if p.len() > 0 {
        lemma_pairs_map_absent(p.drop_last(), k);
    }
}

proof fn lemma_pairs_map_has(p: Seq<(Seq<char>, Seq<char>)>, k: Seq<char>, j: int)
    requires
        0 <= j < p.len(),
        p[j].0 == k,
    ensures
        pairs_map(p).contains_key(k),
    decreases p.len(),
{
    if j < p.len() - 1 {
        lemma_pairs_map_has(p.drop_last(), k, j);
    }
}

proof fn lemma_pairs_map_dom(p: Seq<(Seq<char>, Seq<char>)>, k: Seq<char>)
    requires
        pairs_map(p).contains_key(k),
    ensures
        exists|m: int| 0 <= m < p.len() && p[m].0 == k,
{
    if !(exists|m: int| 0 <= m < p.len() && p[m].0 == k) {
        lemma_pairs_map_absent(p, k);
    }
}

/// The value of the last pair named `k`.
fn lookup_last<'a>(v: &'a Vec<(String, String)>, k: &str) -> (r: Option<&'a String>)
    ensures
        match r {
            Some(x) => pairs_map(pairs(v@)).contains_key(k@) && pairs_map(pairs(v@))[k@] == x@,
            None => !pairs_map(pairs(v@)).contains_key(k@),
        },
{
    let ghost pv = pairs(v@);
    let mut i: usize = v.len();
    while i > 0
        invariant
            pv == pairs(v@),
            i <= v@.len(),
            forall|m: int| i <= m < pv.len() ==> pv[m].0 != k@,
        decreases i,
    {
        if str_eq(v[i - 1].0.as_str(), k) {
            proof {
                lemma_pairs_map_last(pv, k@, i - 1);
            }
            return Some(&v[i - 1].1);
        }
        i = i - 1;
    }
    proof {
        lemma_pairs_map_absent(pv, k@);
    }
    None
}

/// Every name of `a` is named in `b` with the same (last) value.
fn covered(a: &Vec<(String, String)>, b: &Vec<(String, String)>) -> (r: bool)
    ensures
        r == (forall|k: Seq<char>| #[trigger] pairs_map(pairs(a@)).contains_key(k) ==> pairs_map(pairs(b@)).contains_key(k)
            && pairs_map(pairs(b@))[k] == pairs_map(pairs(a@))[k]),
{
    let ghost ma = pairs_map(pairs(a@));
    let ghost mb = pairs_map(pairs(b@));
    let mut i: usize = 0;
    while i < a.len()
        invariant
            ma == pairs_map(pairs(a@)),
            mb == pairs_map(pairs(b@)),
            i <= a@.len(),
            forall|j: int| 0 <= j < i ==> mb.contains_key(#[trigger] pairs(a@)[j].0) && mb[pairs(a@)[j].0] == ma[pairs(a@)[j].0],
        decreases a@.len() - i,
    {
        let k = a[i].0.as_str();
        assert(pairs(a@)[i as int].0 == k@);
        let x = lookup_last(a, k);
        let y = lookup_last(b, k);
        let same = match (x, y) {
            (Some(x), Some(y)) => str_eq(x.as_str(), y.as_str()),
            _ => false,
        };
        if !same {
            proof {
                lemma_pairs_map_has(pairs(a@), k@, i as int);
                assert(ma.contains_key(k@) && !(mb.contains_key(k@) && mb[k@] == ma[k@]));
            }
            return false;
        }
        i = i + 1;
    }
    proof {
        assert forall|k: Seq<char>| #[trigger] ma.contains_key(k) implies mb.contains_key(k) && mb[k] == ma[k] by {
            lemma_pairs_map_dom(pairs(a@), k);
            let j = choose|j: int| 0 <= j < pairs(a@).len() && pairs(a@)[j].0 == k;
            assert(mb.contains_key(pairs(a@)[j].0));
        }
    }
    true
}

/// Whether two lists of pairs stand for the same map.
fn eq_pairs(a: &Vec<(String, String)>, b: &Vec<(String, String)>) -> (r: bool)
    ensures
        r == (pairs_map(pairs(a@)) == pairs_map(pairs(b@))),
{
    let ghost ma = pairs_map(pairs(a@));
    let ghost mb = pairs_map(pairs(b@));
    let ab = covered(a, b);
    let ba = covered(b, a);
    proof {
        if ab && ba {
            assert(ma =~= mb);
        }
        if ma == mb {
            assert(forall|k: Seq<char>| #[trigger] ma.contains_key(k) ==> mb.contains_key(k) && mb[k] == ma[k]);
        }
    }
    ab && ba
}

fn eq_opt_pairs(a: &Option<Vec<(String, String)>>, b: &Option<Vec<(String, String)>>) -> (r: bool)
    ensures
        r == (opt_pairs_map(opt_pairs(*a)) == opt_pairs_map(opt_pairs(*b))),
{
    match (a, b) {
        (Some(x), Some(y)) => eq_pairs(x, y),
        (None, None) => true,
        _ => false,
    }
}

/// Two server entries hold the same values; the environment and the headers
/// are compared as maps from names to values.
pub open spec fn same_server_v(a: ServerEntryV, b: ServerEntryV) -> bool {
    &&& a.id == b.id
    &&& a.name == b.name
    &&& a.transport == b.transport
    &&& a.command == b.command
    &&& a.args == b.args
    &&& opt_pairs_map(a.env) == opt_pairs_map(b.env)
    &&& a.url == b.url
    &&& opt_pairs_map(a.headers) == opt_pairs_map(b.headers)
    &&& a.active == b.active
}

/// Two configurations hold the same values: servers and profiles in the same
/// order, each server the same as `same_server_v` says.
pub open spec fn same_config_v(a: ConfigV, b: ConfigV) -> bool {
    &&& a.servers.len() == b.servers.len()
    &&& forall|i: int| 0 <= i < a.servers.len() ==> same_server_v(#[trigger] a.servers[i], b.servers[i])
    &&& a.profiles == b.profiles
    &&& a.active_profile == b.active_profile
}

/// Whether two server entries hold the same values (environment and headers
/// compared as maps).
pub fn same_server(a: &ServerEntry, b: &ServerEntry) -> (r: bool)
    ensures
        r == same_server_v(a@, b@),
{
    str_eq(a.id.as_str(), b.id.as_str()) && str_eq(a.name.as_str(), b.name.as_str()) && a.transport == b.transport
        && eq_opt_string(&a.command, &b.command) && eq_opt_strings(&a.args, &b.args) && eq_opt_pairs(&a.env, &b.env)
        && eq_opt_string(&a.url, &b.url) && eq_opt_pairs(&a.headers, &b.headers) && a.active == b.active
}

fn same_profile(a: &Profile, b: &Profile) -> (r: bool)
    ensures
        r == (a@ == b@),
{
    str_eq(a.id.as_str(), b.id.as_str()) && str_eq(a.name.as_str(), b.name.as_str()) && eq_strings(
        &a.active_server_ids,
        &b.active_server_ids,
    )
}

/// Whether two configurations hold the same values (servers and profiles in
/// the same order; each server's environment and headers compared as maps).
pub fn same_config(a: &Config, b: &Config) -> (r: bool)
    ensures
        r == same_config_v(a@, b@),
{
    if a.servers.len() != b.servers.len() || a.profiles.len() != b.profiles.len() {
        assert(a@.servers.len() != b@.servers.len() || a@.profiles.len() != b@.profiles.len());
        return false;
    }
    if !eq_opt_string(&a.active_profile, &b.active_profile) {
        return false;
    }
    let mut i: usize = 0;
    while i < a.servers.len()
        invariant
            a.servers@.len() == b.servers@.len(),
            i <= a.servers@.len(),
            forall|k: int| 0 <= k < i ==> same_server_v(#[trigger] server_views(a.servers@)[k], server_views(b.servers@)[k]),
        decreases a.servers@.len() - i,
    {
        if !same_server(&a.servers[i], &b.servers[i]) {
            assert(!same_server_v(a@.servers[i as int], b@.servers[i as int]));
            return false;
        }
        i = i + 1;
    }
    let mut j: usize = 0;
    while j < a.profiles.len()
        invariant
            a.profiles@.len() == b.profiles@.len(),
            j <= a.profiles@.len(),
            forall|k: int| 0 <= k < j ==> profile_views(a.profiles@)[k] == profile_views(b.profiles@)[k],
        decreases a.profiles@.len() - j,
    {
        if !same_profile(&a.profiles[j], &b.profiles[j]) {
            assert(profile_views(a.profiles@)[j as int] != profile_views(b.profiles@)[j as int]);
            assert(a@.profiles != b@.profiles);
            return false;
        }
        j = j + 1;
    }
    assert(profile_views(a.profiles@) =~= profile_views(b.profiles@));
    true
}

} // verus!
