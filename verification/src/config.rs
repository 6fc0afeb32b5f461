//! The persisted configuration (`config.json`): servers, profiles and the
//! active profile, with the edits the UI commands make to it and the rule that
//! decides which servers are active.
use vstd::prelude::*;

use crate::ids::{is_uuid_v4_text, new_uuid_v4};
use crate::text::{is_blank, is_blank_str};



verus! {

/// How a backend MCP server is reached.
#[derive(Debug, Clone, Copy, PartialEq, Eq, Structural)]
pub enum Transport {
    Stdio,
    /// Legacy HTTP+SSE transport (deprecated by the MCP spec, kept for older servers).
    Sse,
    /// Streamable HTTP transport: a single endpoint with `Mcp-Session-Id` sessions.
    Http,
}

/// One configured backend server.
#[derive(Debug, Clone)]
pub struct ServerEntry {
    /// uuid, generated on creation.
    pub id: String,
    pub name: String,
    pub transport: Transport,
    // stdio:
    pub command: Option<String>,
    pub args: Option<Vec<String>>,
    /// Environment variables as (name, value) pairs, read as a map (a later
    /// pair with the same name wins).
    pub env: Option<Vec<(String, String)>>,
    // sse / http:
    pub url: Option<String>,
    /// Extra HTTP headers sent on every request to an http/sse backend.
    /// As (header name, value) pairs, read as a map (a later pair with the
    /// same name wins).
    pub headers: Option<Vec<(String, String)>>,
    /// Manual toggle (used when no profile is active).
    pub active: bool,
}

/// A named set of active servers.
#[derive(Debug, Clone)]
pub struct Profile {
    pub id: String,
    pub name: String,
    pub active_server_ids: Vec<String>,
}

/// The full persisted configuration.
#[derive(Debug, Clone)]
pub struct Config {
    pub servers: Vec<ServerEntry>,
    pub profiles: Vec<Profile>,
    /// `None` = no profile, manual toggles apply.
    pub active_profile: Option<String>,
}

/// A tool annotated with its owning server, as the UI lists it.
#[derive(Debug, Clone)]
pub struct ToolWithServer {
    /// Prefixed name (`{slug}__{original}`) as the client sees it.
    pub name: String,
    pub server_id: String,
    pub server_name: String,
    pub description: Option<String>,
}

/// Per-server live status for the UI.
#[derive(Debug, Clone)]
pub struct ServerStatus {
    pub id: String,
    pub active: bool,
    pub connected: bool,
    pub needs_auth: bool,
    /// Has stored OAuth tokens (i.e. the user has logged in).
    pub authenticated: bool,
    pub tool_count: usize,
}

/// Proxy/server status pushed to the UI.
#[derive(Debug, Clone)]
pub struct ProxyStatus {
    /// "starting" | "running" | "error"
    pub state: String,
    pub port: u16,
    pub message: String,
}

// ---------------------------------------------------------------------------
// Mathematical model
// ---------------------------------------------------------------------------

/// The characters of each string of a sequence.
pub open spec fn strs(v: Seq<String>) -> Seq<Seq<char>> {
    v.map_values(|s: String| s@)
}

pub open spec fn opt_str(o: Option<String>) -> Option<Seq<char>> {
    match o {
        Some(s) => Some(s@),
        None => None,
    }
}

pub open spec fn opt_strs(o: Option<Vec<String>>) -> Option<Seq<Seq<char>>> {
    match o {
        Some(v) => Some(strs(v@)),
        None => None,
    }
}

pub open spec fn pairs(v: Seq<(String, String)>) -> Seq<(Seq<char>, Seq<char>)> {
    v.map_values(|p: (String, String)| (p.0@, p.1@))
}

pub open spec fn opt_pairs(o: Option<Vec<(String, String)>>) -> Option<Seq<(Seq<char>, Seq<char>)>> {
    match o {
        Some(v) => Some(pairs(v@)),
        None => None,
    }
}

pub struct ServerEntryV {
    pub id: Seq<char>,
    pub name: Seq<char>,
    pub transport: Transport,
    pub command: Option<Seq<char>>,
    pub args: Option<Seq<Seq<char>>>,
    pub env: Option<Seq<(Seq<char>, Seq<char>)>>,
    pub url: Option<Seq<char>>,
    pub headers: Option<Seq<(Seq<char>, Seq<char>)>>,
    pub active: bool,
}

pub struct ProfileV {
    pub id: Seq<char>,
    pub name: Seq<char>,
    pub active_server_ids: Seq<Seq<char>>,
}

pub struct ConfigV {
    pub servers: Seq<ServerEntryV>,
    pub profiles: Seq<ProfileV>,
    pub active_profile: Option<Seq<char>>,
}

impl View for ServerEntry {
    type V = ServerEntryV;

    open spec fn view(&self) -> ServerEntryV {
        ServerEntryV {
            id: self.id@,
            name: self.name@,
            transport: self.transport,
            command: opt_str(self.command),
            args: opt_strs(self.args),
            env: opt_pairs(self.env),
            url: opt_str(self.url),
            headers: opt_pairs(self.headers),
            active: self.active,
        }
    }
}

impl View for Profile {
    type V = ProfileV;

    open spec fn view(&self) -> ProfileV {
        ProfileV { id: self.id@, name: self.name@, active_server_ids: strs(self.active_server_ids@) }
    }
}

pub open spec fn server_views(v: Seq<ServerEntry>) -> Seq<ServerEntryV> {
    v.map_values(|s: ServerEntry| s@)
}

pub open spec fn profile_views(v: Seq<Profile>) -> Seq<ProfileV> {
    v.map_values(|p: Profile| p@)
}

impl View for Config {
    type V = ConfigV;

    open spec fn view(&self) -> ConfigV {
        ConfigV {
            servers: server_views(self.servers@),
            profiles: profile_views(self.profiles@),
            active_profile: opt_str(self.active_profile),
        }
    }
}

// ---------------------------------------------------------------------------
// Copies whose result is known to equal the original
// ---------------------------------------------------------------------------

pub fn copy_strings(v: &Vec<String>) -> (r: Vec<String>)
    ensures
        r@ == v@,
{
    let mut out: Vec<String> = Vec::new();
    let mut i: usize = 0;
    while i < v.len()
        invariant
            i <= v@.len(),
            out@ == v@.take(i as int),
        decreases v@.len() - i,
    {
        out.push(v[i].clone());
        assert(v@.take(i + 1) =~= v@.take(i as int).push(v@[i as int]));
        i = i + 1;
    }
    assert(v@.take(v@.len() as int) =~= v@);
    out
}

pub fn copy_opt_string(o: &Option<String>) -> (r: Option<String>)
    ensures
        r == *o,
{
    match o {
        Some(s) => Some(s.clone()),
        None => None,
    }
}

pub fn copy_opt_strings(o: &Option<Vec<String>>) -> (r: Option<Vec<String>>)
    ensures
        opt_strs(r) == opt_strs(*o),
{
    match o {
        Some(v) => Some(copy_strings(v)),
        None => None,
    }
}

pub fn copy_pairs(v: &Vec<(String, String)>) -> (r: Vec<(String, String)>)
    ensures
        r@ == v@,
{
    let mut out: Vec<(String, String)> = Vec::new();
    let mut i: usize = 0;
    while i < v.len()
        invariant
            i <= v@.len(),
            out@ == v@.take(i as int),
        decreases v@.len() - i,
    {
        out.push((v[i].0.clone(), v[i].1.clone()));
        assert(v@.take(i + 1) =~= v@.take(i as int).push(v@[i as int]));
        i = i + 1;
    }
    assert(v@.take(v@.len() as int) =~= v@);
    out
}

pub fn copy_opt_pairs(o: &Option<Vec<(String, String)>>) -> (r: Option<Vec<(String, String)>>)
    ensures
        opt_pairs(r) == opt_pairs(*o),
{
    match o {
        Some(v) => Some(copy_pairs(v)),
        None => None,
    }
}

impl ServerEntry {
    /// A copy of this entry with the same content.
    pub fn duplicate(&self) -> (r: ServerEntry)
        ensures
            r@ == self@,
    {
        ServerEntry {
            id: self.id.clone(),
            name: self.name.clone(),
            transport: self.transport,
            command: copy_opt_string(&self.command),
            args: copy_opt_strings(&self.args),
            env: copy_opt_pairs(&self.env),
            url: copy_opt_string(&self.url),
            headers: copy_opt_pairs(&self.headers),
            active: self.active,
        }
    }
}

impl Profile {
    /// A copy of this profile with the same content.
    pub fn duplicate(&self) -> (r: Profile)
        ensures
            r@ == self@,
    {
        Profile {
            id: self.id.clone(),
            name: self.name.clone(),
            active_server_ids: copy_strings(&self.active_server_ids),
        }
    }
}

// ---------------------------------------------------------------------------
// Finding entries
// ---------------------------------------------------------------------------

/// The first position holding `k`.
#[verifier::opaque]
pub open spec fn first_match(keys: Seq<Seq<char>>, k: Seq<char>) -> Option<int> {
    if exists|i: int| 0 <= i < keys.len() && keys[i] == k {
        Some(choose|i: int| 0 <= i < keys.len() && keys[i] == k && forall|j: int| 0 <= j < i ==> keys[j] != k)
    } else {
        None
    }
}

pub proof fn lemma_first_match(keys: Seq<Seq<char>>, k: Seq<char>, i: int)
    requires
        0 <= i < keys.len(),
        keys[i] == k,
        forall|j: int| 0 <= j < i ==> keys[j] != k,
    ensures
        first_match(keys, k) == Some(i),
{
    reveal(first_match);
    let c = choose|c: int| 0 <= c < keys.len() && keys[c] == k && forall|j: int| 0 <= j < c ==> keys[j] != k;
    assert(0 <= c < keys.len() && keys[c] == k);
    if c < i {
        assert(keys[c] != k);
    }
    if i < c {
        assert(keys[i] != k);
    }
}

/// What the first match is.
pub proof fn lemma_first_match_props(keys: Seq<Seq<char>>, k: Seq<char>)
    ensures
        match first_match(keys, k) {
            Some(i) => 0 <= i < keys.len() && keys[i] == k && forall|j: int| 0 <= j < i ==> keys[j] != k,
            None => !keys.contains(k),
        },
{
    reveal(first_match);
    if exists|i: int| 0 <= i < keys.len() && keys[i] == k {
        let i = choose|i: int| 0 <= i < keys.len() && keys[i] == k;
        lemma_least_match(keys, k, i);
    }
}

proof fn lemma_least_match(keys: Seq<Seq<char>>, k: Seq<char>, i: int)
    requires
        0 <= i < keys.len(),
        keys[i] == k,
    ensures
        exists|m: int| 0 <= m < keys.len() && keys[m] == k && forall|j: int| 0 <= j < m ==> keys[j] != k,
    decreases i,
{
    if exists|j: int| 0 <= j < i && keys[j] == k {
        let j = choose|j: int| 0 <= j < i && keys[j] == k;
        lemma_least_match(keys, k, j);
    }
}

pub open spec fn server_ids(s: Seq<ServerEntryV>) -> Seq<Seq<char>> {
    s.map_values(|e: ServerEntryV| e.id)
}

pub open spec fn server_names(s: Seq<ServerEntryV>) -> Seq<Seq<char>> {
    s.map_values(|e: ServerEntryV| e.name)
}

pub open spec fn profile_ids(p: Seq<ProfileV>) -> Seq<Seq<char>> {
    p.map_values(|e: ProfileV| e.id)
}

fn index_of_server_id(servers: &Vec<ServerEntry>, id: &String) -> (r: Option<usize>)
    ensures
        match r {
            Some(i) => first_match(server_ids(server_views(servers@)), id@) == Some(i as int) && i < servers@.len(),
            None => first_match(server_ids(server_views(servers@)), id@) is None,
        },
{
    let ghost keys = server_ids(server_views(servers@));
    let mut i: usize = 0;
    while i < servers.len()
        invariant
            keys == server_ids(server_views(servers@)),
            i <= servers@.len(),
            forall|j: int| 0 <= j < i ==> keys[j] != id@,
        decreases servers@.len() - i,
    {
        assert(keys[i as int] == servers@[i as int].id@);
        if servers[i].id == *id {
            proof {
                lemma_first_match(keys, id@, i as int);
            }
            return Some(i);
        }
        i = i + 1;
    }
    reveal(first_match);
    None
}

fn index_of_server_name(servers: &Vec<ServerEntry>, name: &String) -> (r: Option<usize>)
    ensures
        match r {
            Some(i) => first_match(server_names(server_views(servers@)), name@) == Some(i as int) && i < servers@.len(),
            None => first_match(server_names(server_views(servers@)), name@) is None,
        },
{
    let ghost keys = server_names(server_views(servers@));
    let mut i: usize = 0;
    while i < servers.len()
        invariant
            keys == server_names(server_views(servers@)),
            i <= servers@.len(),
            forall|j: int| 0 <= j < i ==> keys[j] != name@,
        decreases servers@.len() - i,
    {
        assert(keys[i as int] == servers@[i as int].name@);
        if servers[i].name == *name {
            proof {
                lemma_first_match(keys, name@, i as int);
            }
            return Some(i);
        }
        i = i + 1;
    }
    reveal(first_match);
    None
}

fn index_of_profile_id(profiles: &Vec<Profile>, id: &String) -> (r: Option<usize>)
    ensures
        match r {
            Some(i) => first_match(profile_ids(profile_views(profiles@)), id@) == Some(i as int) && i < profiles@.len(),
            None => first_match(profile_ids(profile_views(profiles@)), id@) is None,
        },
{
    let ghost keys = profile_ids(profile_views(profiles@));
    let mut i: usize = 0;
    while i < profiles.len()
        invariant
            keys == profile_ids(profile_views(profiles@)),
            i <= profiles@.len(),
            forall|j: int| 0 <= j < i ==> keys[j] != id@,
        decreases profiles@.len() - i,
    {
        assert(keys[i as int] == profiles@[i as int].id@);
        if profiles[i].id == *id {
            proof {
                lemma_first_match(keys, id@, i as int);
            }
            return Some(i);
        }
        i = i + 1;
    }
    reveal(first_match);
    None
}

// ---------------------------------------------------------------------------
// Which servers are active
// ---------------------------------------------------------------------------

/// The ids of the servers whose manual toggle is on.
pub open spec fn manual_ids(servers: Seq<ServerEntryV>) -> Set<Seq<char>> {
    Set::new(|id: Seq<char>| exists|i: int| 0 <= i < servers.len() && #[trigger] servers[i].active && servers[i].id == id)
}

/// The set of server ids that should be active: the active profile's list,
/// or, with no profile, the manual `active` flags. An active profile id that
/// names no profile activates nothing.
pub open spec fn spec_active_ids(c: ConfigV) -> Set<Seq<char>> {
    match c.active_profile {
        Some(pid) => match first_match(profile_ids(c.profiles), pid) {
            Some(i) => c.profiles[i].active_server_ids.to_set(),
            None => Set::empty(),
        },
        None => manual_ids(c.servers),
    }
}

fn push_unique(out: &mut Vec<String>, id: &String)
    requires
        strs(old(out)@).no_duplicates(),
    ensures
        strs(final(out)@).no_duplicates(),
        strs(final(out)@).to_set() == strs(old(out)@).to_set().insert(id@),
{
    let ghost before = strs(out@);
    let mut i: usize = 0;
    while i < out.len()
        invariant
            before == strs(out@),
            before.no_duplicates(),
            i <= out@.len(),
            forall|k: int| 0 <= k < i ==> out@[k]@ != id@,
        decreases out@.len() - i,
    {
        if out[i] == *id {
            assert(before[i as int] == id@);
            assert(before.to_set().insert(id@) =~= before.to_set());
            return;
        }
        i = i + 1;
    }
    out.push(id.clone());
    assert(strs(out@) =~= before.push(id@));
    proof {
        before.lemma_push_to_set_commute(id@);
        assert forall|a: int, b: int| 0 <= a < b < strs(out@).len() implies strs(out@)[a] != strs(out@)[b] by {
            if b == before.len() {
                assert(strs(out@)[a] == out@[a]@);
            } else {
                assert(strs(out@)[a] == before[a] && strs(out@)[b] == before[b]);
            }
        }
    }
}

proof fn lemma_manual_ids_push(s: Seq<ServerEntryV>, e: ServerEntryV)
    ensures
        manual_ids(s.push(e)) == if e.active {
            manual_ids(s).insert(e.id)
        } else {
            manual_ids(s)
        },
{
    let t = s.push(e);
    let rhs = if e.active { manual_ids(s).insert(e.id) } else { manual_ids(s) };
    assert forall|x: Seq<char>| manual_ids(t).contains(x) <==> rhs.contains(x) by {
        if manual_ids(t).contains(x) {
            let k = choose|k: int| 0 <= k < t.len() && #[trigger] t[k].active && t[k].id == x;
            if k < s.len() {
                assert(s[k] == t[k]);
                assert(manual_ids(s).contains(x));
            }
        }
        if manual_ids(s).contains(x) {
            let k = choose|k: int| 0 <= k < s.len() && #[trigger] s[k].active && s[k].id == x;
            assert(t[k] == s[k]);
            assert(manual_ids(t).contains(x));
        }
        if e.active && x == e.id {
            assert(t[s.len() as int] == e);
            assert(manual_ids(t).contains(x));
        }
    }
    assert(manual_ids(t) =~= rhs);
}

impl Config {
    /// The set of server ids that should be active right now (without
    /// duplicates).
    pub fn active_ids(&self) -> (r: Vec<String>)
        ensures
            strs(r@).to_set() == spec_active_ids(self@),
            strs(r@).no_duplicates(),
    {
        let mut out: Vec<String> = Vec::new();
        assert(strs(out@).to_set() =~= Set::<Seq<char>>::empty());
        match &self.active_profile {
            Some(pid) => {
                match index_of_profile_id(&self.profiles, pid) {
                    Some(pi) => {
                        let ids = &self.profiles[pi].active_server_ids;
                        let ghost target = strs(ids@);
                        assert(target == self@.profiles[pi as int].active_server_ids);
                        let mut i: usize = 0;
                        while i < ids.len()
                            invariant
                                target == strs(ids@),
                                i <= ids@.len(),
                                strs(out@).no_duplicates(),
                                strs(out@).to_set() == target.take(i as int).to_set(),
                            decreases ids@.len() - i,
                        {
                            push_unique(&mut out, &ids[i]);
                            proof {
                                assert(target.take(i + 1) =~= target.take(i as int).push(target[i as int]));
                                target.take(i as int).lemma_push_to_set_commute(target[i as int]);
                            }
                            i = i + 1;
                        }
                        assert(target.take(ids@.len() as int) =~= target);
                    },
                    None => {},
                }
            },
            None => {
                let ghost sv = server_views(self.servers@);
                let mut i: usize = 0;
                while i < self.servers.len()
                    invariant
                        sv == server_views(self.servers@),
                        i <= self.servers@.len(),
                        strs(out@).no_duplicates(),
                        strs(out@).to_set() == manual_ids(sv.take(i as int)),
                    decreases self.servers@.len() - i,
                {
                    proof {
                        assert(sv.take(i + 1) =~= sv.take(i as int).push(sv[i as int]));
                        lemma_manual_ids_push(sv.take(i as int), sv[i as int]);
                    }
                    if self.servers[i].active {
                        push_unique(&mut out, &self.servers[i].id);
                    }
                    i = i + 1;
                }
                assert(sv.take(self.servers@.len() as int) =~= sv);
            },
        }
        out
    }
}

// ---------------------------------------------------------------------------
// Edits made by the UI commands
// ---------------------------------------------------------------------------

/// Replace the first server with the same id, or append.
pub open spec fn upsert_server(s: Seq<ServerEntryV>, e: ServerEntryV) -> Seq<ServerEntryV> {
    match first_match(server_ids(s), e.id) {
        Some(i) => s.update(i, e),
        None => s.push(e),
    }
}

/// Replace the first profile with the same id, or append.
pub open spec fn upsert_profile(p: Seq<ProfileV>, q: ProfileV) -> Seq<ProfileV> {
    match first_match(profile_ids(p), q.id) {
        Some(i) => p.update(i, q),
        None => p.push(q),
    }
}

/// The servers other than `id`, in order.
pub open spec fn servers_without(s: Seq<ServerEntryV>, id: Seq<char>) -> Seq<ServerEntryV>
    decreases s.len(),
{
    if s.len() == 0 {
        Seq::empty()
    } else {
        let p = servers_without(s.drop_last(), id);
        if s.last().id == id { p } else { p.push(s.last()) }
    }
}

/// The ids other than `id`, in order.
pub open spec fn ids_without(s: Seq<Seq<char>>, id: Seq<char>) -> Seq<Seq<char>>
    decreases s.len(),
{
    if s.len() == 0 {
        Seq::empty()
    } else {
        let p = ids_without(s.drop_last(), id);
        if s.last() == id { p } else { p.push(s.last()) }
    }
}

/// Every profile with `id` removed from its server list.
pub open spec fn profiles_forgetting(p: Seq<ProfileV>, id: Seq<char>) -> Seq<ProfileV>
    decreases p.len(),
{
    if p.len() == 0 {
        Seq::empty()
    } else {
        let q = p.last();
        profiles_forgetting(p.drop_last(), id).push(
            ProfileV { id: q.id, name: q.name, active_server_ids: ids_without(q.active_server_ids, id) },
        )
    }
}

/// The profiles other than `id`, in order.
pub open spec fn profiles_without(p: Seq<ProfileV>, id: Seq<char>) -> Seq<ProfileV>
    decreases p.len(),
{
    if p.len() == 0 {
        Seq::empty()
    } else {
        let r = profiles_without(p.drop_last(), id);
        if p.last().id == id { r } else { r.push(p.last()) }
    }
}

pub open spec fn with_id(e: ServerEntryV, id: Seq<char>) -> ServerEntryV {
    ServerEntryV { id: id, ..e }
}

pub open spec fn with_profile_id(p: ProfileV, id: Seq<char>) -> ProfileV {
    ProfileV { id: id, ..p }
}

/// Deleting a server: it leaves the server list and every profile.
pub open spec fn spec_delete_server(c: ConfigV, id: Seq<char>) -> ConfigV {
    ConfigV {
        servers: servers_without(c.servers, id),
        profiles: profiles_forgetting(c.profiles, id),
        active_profile: c.active_profile,
    }
}

/// Toggling a server: the first server with the id gets the new flag.
pub open spec fn spec_set_server_active(c: ConfigV, id: Seq<char>, active: bool) -> ConfigV {
    match first_match(server_ids(c.servers), id) {
        Some(i) => ConfigV { servers: c.servers.update(i, ServerEntryV { active: active, ..c.servers[i] }), ..c },
        None => c,
    }
}

/// Deleting a profile: it leaves the list, and if it was the active one no
/// profile is active any more.
pub open spec fn spec_delete_profile(c: ConfigV, id: Seq<char>) -> ConfigV {
    ConfigV {
        servers: c.servers,
        profiles: profiles_without(c.profiles, id),
        active_profile: if c.active_profile == Some(id) { None } else { c.active_profile },
    }
}

/// Switching profiles never touches the per-server `active` flags.
pub open spec fn spec_set_active_profile(c: ConfigV, pid: Option<Seq<char>>) -> ConfigV {
    ConfigV { active_profile: pid, ..c }
}

/// Registering a server by name: an existing server with the same name is
/// replaced but keeps its id; otherwise the entry is appended.
pub open spec fn register_by_name(s: Seq<ServerEntryV>, e: ServerEntryV) -> (Seq<ServerEntryV>, ServerEntryV) {
    match first_match(server_names(s), e.name) {
        Some(i) => (s.update(i, with_id(e, s[i].id)), with_id(e, s[i].id)),
        None => (s.push(e), e),
    }
}

pub open spec fn with_servers(c: ConfigV, s: Seq<ServerEntryV>) -> ConfigV {
    ConfigV { servers: s, ..c }
}

pub open spec fn with_profiles(c: ConfigV, p: Seq<ProfileV>) -> ConfigV {
    ConfigV { profiles: p, ..c }
}

/// `after` is `before` with `entry` registered by name, `stored` being the
/// entry as stored: a blank id was replaced by a fresh uuid, and a server
/// already holding the name keeps its id.
pub open spec fn registered(before: ConfigV, after: ConfigV, entry: ServerEntryV, stored: ServerEntryV) -> bool {
    let fresh = if is_blank(entry.id) { stored.id } else { entry.id };
    let reg = register_by_name(before.servers, with_id(entry, fresh));
    &&& after == with_servers(before, reg.0)
    &&& stored == reg.1
    &&& (is_blank(entry.id) && first_match(server_names(before.servers), entry.name) is None) ==> is_uuid_v4_text(stored.id)
}

/// A fresh id when the given one is blank.
fn ensure_id(id: &String) -> (r: String)
    ensures
        !is_blank(id@) ==> r@ == id@,
        is_blank(id@) ==> is_uuid_v4_text(r@),
{
    if is_blank_str(id.as_str()) {
        new_uuid_v4()
    } else {
        id.clone()
    }
}

fn filter_ids(ids: &Vec<String>, id: &String) -> (r: Vec<String>)
    ensures
        strs(r@) == ids_without(strs(ids@), id@),
{
    let ghost v = strs(ids@);
    let mut out: Vec<String> = Vec::new();
    let mut i: usize = 0;
    while i < ids.len()
        invariant
            v == strs(ids@),
            i <= ids@.len(),
            strs(out@) == ids_without(v.take(i as int), id@),
        decreases ids@.len() - i,
    {
        assert(v.take(i + 1).drop_last() =~= v.take(i as int));
        assert(v.take(i + 1).last() == ids@[i as int]@);
        if ids[i] != *id {
            let ghost before = strs(out@);
            out.push(ids[i].clone());
            assert(strs(out@) =~= before.push(ids@[i as int]@));
        }
        i = i + 1;
    }
    assert(v.take(ids@.len() as int) =~= v);
    out
}

impl Config {
    /// Add or replace (matched by id) a server; a blank id is replaced by a
    /// fresh uuid first. Returns the id the server is stored under.
    pub fn save_server(&mut self, server: ServerEntry) -> (id: String)
        ensures
            !is_blank(server.id@) ==> id@ == server.id@,
            is_blank(server.id@) ==> is_uuid_v4_text(id@),
            final(self)@ == with_servers(old(self)@, upsert_server(old(self)@.servers, with_id(server@, id@))),
    {
        let id = ensure_id(&server.id);
        let mut server = server;
        server.id = id.clone();
        let ghost e = server@;
        let ghost before = server_views(self.servers@);
        match index_of_server_id(&self.servers, &id) {
            Some(i) => {
                self.servers.set(i, server);
                assert(server_views(self.servers@) =~= before.update(i as int, e));
            },
            None => {
                self.servers.push(server);
                assert(server_views(self.servers@) =~= before.push(e));
            },
        }
        id
    }

    /// Remove a server and drop it from every profile.
    pub fn delete_server(&mut self, id: &String)
        ensures
            final(self)@ == spec_delete_server(old(self)@, id@),
    {
        let ghost sv = server_views(self.servers@);
        let mut servers: Vec<ServerEntry> = Vec::new();
        let mut i: usize = 0;
        while i < self.servers.len()
            invariant
                sv == server_views(self.servers@),
                i <= self.servers@.len(),
                server_views(servers@) == servers_without(sv.take(i as int), id@),
            decreases self.servers@.len() - i,
        {
            assert(sv.take(i + 1).drop_last() =~= sv.take(i as int));
            assert(sv.take(i + 1).last() == self.servers@[i as int]@);
            if self.servers[i].id != *id {
                let ghost before = server_views(servers@);
                let e = self.servers[i].duplicate();
                servers.push(e);
                assert(server_views(servers@) =~= before.push(self.servers@[i as int]@));
            }
            i = i + 1;
        }
        assert(sv.take(self.servers@.len() as int) =~= sv);
        let ghost pv = profile_views(self.profiles@);
        let mut profiles: Vec<Profile> = Vec::new();
        let mut k: usize = 0;
        while k < self.profiles.len()
            invariant
                pv == profile_views(self.profiles@),
                k <= self.profiles@.len(),
                profile_views(profiles@) == profiles_forgetting(pv.take(k as int), id@),
            decreases self.profiles@.len() - k,
        {
            assert(pv.take(k + 1).drop_last() =~= pv.take(k as int));
            assert(pv.take(k + 1).last() == self.profiles@[k as int]@);
            let p = &self.profiles[k];
            let ghost before = profile_views(profiles@);
            profiles.push(Profile { id: p.id.clone(), name: p.name.clone(), active_server_ids: filter_ids(&p.active_server_ids, id) });
            assert(profile_views(profiles@) =~= before.push(profiles@.last()@));
            k = k + 1;
        }
        assert(pv.take(self.profiles@.len() as int) =~= pv);
        self.servers = servers;
        self.profiles = profiles;
    }

    /// Set the manual toggle of the first server with the id.
    pub fn set_server_active(&mut self, id: &String, active: bool)
        ensures
            final(self)@ == spec_set_server_active(old(self)@, id@, active),
    {
        let ghost before = server_views(self.servers@);
        match index_of_server_id(&self.servers, id) {
            Some(i) => {
                let mut e = self.servers[i].duplicate();
                e.active = active;
                let ghost ev = e@;
                self.servers.set(i, e);
                assert(server_views(self.servers@) =~= before.update(i as int, ev));
            },
            None => {},
        }
    }

    /// Add or replace (matched by id) a profile; a blank id is replaced by a
    /// fresh uuid first. Returns the stored id and whether that profile is the
    /// active one (so the active set may have changed).
    pub fn save_profile(&mut self, profile: Profile) -> (r: (String, bool))
        ensures
            !is_blank(profile.id@) ==> r.0@ == profile.id@,
            is_blank(profile.id@) ==> is_uuid_v4_text(r.0@),
            final(self)@ == with_profiles(old(self)@, upsert_profile(old(self)@.profiles, with_profile_id(profile@, r.0@))),
            r.1 == (old(self)@.active_profile == Some(r.0@)),
    {
        let pid = ensure_id(&profile.id);
        let mut profile = profile;
        profile.id = pid.clone();
        let ghost q = profile@;
        let ghost before = profile_views(self.profiles@);
        match index_of_profile_id(&self.profiles, &pid) {
            Some(i) => {
                self.profiles.set(i, profile);
                assert(profile_views(self.profiles@) =~= before.update(i as int, q));
            },
            None => {
                self.profiles.push(profile);
                assert(profile_views(self.profiles@) =~= before.push(q));
            },
        }
        let is_active = match &self.active_profile {
            Some(a) => *a == pid,
            None => false,
        };
        (pid, is_active)
    }

    /// Remove a profile; if it was active, no profile is active afterwards.
    /// Returns whether it was the active one.
    pub fn delete_profile(&mut self, id: &String) -> (was_active: bool)
        ensures
            final(self)@ == spec_delete_profile(old(self)@, id@),
            was_active == (old(self)@.active_profile == Some(id@)),
    {
        let ghost pv = profile_views(self.profiles@);
        let mut profiles: Vec<Profile> = Vec::new();
        let mut k: usize = 0;
        while k < self.profiles.len()
            invariant
                pv == profile_views(self.profiles@),
                k <= self.profiles@.len(),
                profile_views(profiles@) == profiles_without(pv.take(k as int), id@),
            decreases self.profiles@.len() - k,
        {
            assert(pv.take(k + 1).drop_last() =~= pv.take(k as int));
            assert(pv.take(k + 1).last() == self.profiles@[k as int]@);
            if self.profiles[k].id != *id {
                let ghost before = profile_views(profiles@);
                profiles.push(self.profiles[k].duplicate());
                assert(profile_views(profiles@) =~= before.push(self.profiles@[k as int]@));
            }
            k = k + 1;
        }
        assert(pv.take(self.profiles@.len() as int) =~= pv);
        self.profiles = profiles;
        let was_active = match &self.active_profile {
            Some(a) => *a == *id,
            None => false,
        };
        if was_active {
            self.active_profile = None;
        }
        was_active
    }

    /// Select a profile (or none). The per-server `active` flags are left as
    /// they are, so returning to "no profile" restores the manual state.
    pub fn set_active_profile(&mut self, profile_id: Option<String>)
        ensures
            final(self)@ == spec_set_active_profile(old(self)@, opt_str(profile_id)),
    {
        self.active_profile = profile_id;
    }

    /// Add, or update by name, a server registered by another application; a
    /// blank id is replaced by a fresh uuid, and an existing server with the
    /// same name keeps its id. Returns the entry as stored.
    pub fn register_server(&mut self, entry: ServerEntry) -> (r: ServerEntry)
        ensures
            registered(old(self)@, final(self)@, entry@, r@),
    {
        let id = ensure_id(&entry.id);
        let mut entry = entry;
        entry.id = id;
        let ghost before = server_views(self.servers@);
        match index_of_server_name(&self.servers, &entry.name) {
            Some(i) => {
                entry.id = self.servers[i].id.clone();
                let stored = entry.duplicate();
                let ghost ev = entry@;
                self.servers.set(i, entry);
                assert(server_views(self.servers@) =~= before.update(i as int, ev));
                stored
            },
            None => {
                let stored = entry.duplicate();
                let ghost ev = entry@;
                self.servers.push(entry);
                assert(server_views(self.servers@) =~= before.push(ev));
                stored
            },
        }
    }
}

// ---------------------------------------------------------------------------
// Laws
// ---------------------------------------------------------------------------

/// Law: while a profile that exists is active, toggling a server by hand does
/// not change which servers are active (the profile overrides the toggles).
pub proof fn lemma_profile_overrides_toggles(c: ConfigV, id: Seq<char>, active: bool)
    requires
        c.active_profile is Some,
        first_match(profile_ids(c.profiles), c.active_profile->0) is Some,
    ensures
        spec_active_ids(spec_set_server_active(c, id, active)) == spec_active_ids(c),
{
}

/// Law: activating a profile and then clearing it restores the manual
/// toggles: the active set is again the set of servers whose flag is on, as
/// it was before the profile was chosen.
pub proof fn lemma_clearing_profile_restores_toggles(c: ConfigV, pid: Seq<char>)
    ensures
        spec_active_ids(spec_set_active_profile(spec_set_active_profile(c, Some(pid)), None))
            == manual_ids(c.servers),
        spec_active_ids(spec_set_active_profile(spec_set_active_profile(c, Some(pid)), None))
            == spec_active_ids(spec_set_active_profile(c, None)),
{
}

proof fn lemma_servers_without(s: Seq<ServerEntryV>, id: Seq<char>)
    ensures
        forall|i: int| 0 <= i < servers_without(s, id).len() ==> (#[trigger] servers_without(s, id)[i]).id != id,
        forall|e: ServerEntryV| s.contains(e) && e.id != id ==> servers_without(s, id).contains(e),
    decreases s.len(),
{
    if s.len() > 0 {
        lemma_servers_without(s.drop_last(), id);
        let p = servers_without(s.drop_last(), id);
        assert forall|e: ServerEntryV| s.contains(e) && e.id != id implies servers_without(s, id).contains(e) by {
            let k = choose|k: int| 0 <= k < s.len() && s[k] == e;
            if k < s.len() - 1 {
                assert(s.drop_last()[k] == e);
                assert(s.drop_last().contains(e));
                let j = choose|j: int| 0 <= j < p.len() && p[j] == e;
                if s.last().id != id {
                    assert(p.push(s.last())[j] == e);
                }
            } else {
                assert(p.push(s.last())[p.len() as int] == e);
            }
        }
    }
}

proof fn lemma_ids_without(s: Seq<Seq<char>>, id: Seq<char>)
    ensures
        !ids_without(s, id).contains(id),
    decreases s.len(),
{
    if s.len() > 0 {
        lemma_ids_without(s.drop_last(), id);
        let p = ids_without(s.drop_last(), id);
        if s.last() != id {
            assert forall|i: int| 0 <= i < p.push(s.last()).len() implies p.push(s.last())[i] != id by {
                if i < p.len() {
                    assert(p.push(s.last())[i] == p[i]);
                }
            }
        }
    }
}

proof fn lemma_profiles_forgetting(p: Seq<ProfileV>, id: Seq<char>)
    ensures
        profiles_forgetting(p, id).len() == p.len(),
        forall|k: int|
            0 <= k < p.len() ==> !(#[trigger] profiles_forgetting(p, id)[k]).active_server_ids.contains(id)
                && profiles_forgetting(p, id)[k].id == p[k].id && profiles_forgetting(p, id)[k].name == p[k].name,
    decreases p.len(),
{
    if p.len() > 0 {
        lemma_profiles_forgetting(p.drop_last(), id);
        lemma_ids_without(p.last().active_server_ids, id);
        let r = profiles_forgetting(p.drop_last(), id);
        assert forall|k: int| 0 <= k < p.len() implies !(#[trigger] profiles_forgetting(p, id)[k]).active_server_ids.contains(id)
            && profiles_forgetting(p, id)[k].id == p[k].id && profiles_forgetting(p, id)[k].name == p[k].name by {
            if k < p.len() - 1 {
                assert(profiles_forgetting(p, id)[k] == r[k]);
                assert(p.drop_last()[k] == p[k]);
            }
        }
    }
}

/// Law: after deleting a server, no server has its id, no profile lists it,
/// and it is not active; every other server is kept.
pub proof fn lemma_delete_server_forgets(c: ConfigV, id: Seq<char>)
    ensures
        !server_ids(spec_delete_server(c, id).servers).contains(id),
        forall|k: int|
            0 <= k < spec_delete_server(c, id).profiles.len() ==> !(#[trigger] spec_delete_server(c, id).profiles[k]).active_server_ids.contains(id),
        !spec_active_ids(spec_delete_server(c, id)).contains(id),
        forall|e: ServerEntryV| c.servers.contains(e) && e.id != id ==> spec_delete_server(c, id).servers.contains(e),
{
    let d = spec_delete_server(c, id);
    lemma_servers_without(c.servers, id);
    lemma_profiles_forgetting(c.profiles, id);
    assert forall|i: int| 0 <= i < server_ids(d.servers).len() implies server_ids(d.servers)[i] != id by {
        assert(server_ids(d.servers)[i] == d.servers[i].id);
    }
    match d.active_profile {
        Some(pid) => {
            lemma_first_match_props(profile_ids(d.profiles), pid);
            match first_match(profile_ids(d.profiles), pid) {
                Some(i) => {
                    assert(!d.profiles[i].active_server_ids.contains(id));
                },
                None => {},
            }
        },
        None => {
            if manual_ids(d.servers).contains(id) {
                let k = choose|k: int| 0 <= k < d.servers.len() && #[trigger] d.servers[k].active && d.servers[k].id == id;
                assert(d.servers[k].id != id);
            }
        },
    }
}

/// Law: after saving a server, the first server with its id is exactly the
/// saved entry, and every other position is unchanged or the entry was
/// appended.
pub proof fn lemma_saved_server_is_found(s: Seq<ServerEntryV>, e: ServerEntryV)
    ensures
        ({
            let after = upsert_server(s, e);
            &&& first_match(server_ids(after), e.id) matches Some(i) && after[i] == e
            &&& after.len() == s.len() || after.len() == s.len() + 1
        }),
{
    let after = upsert_server(s, e);
    lemma_first_match_props(server_ids(s), e.id);
    match first_match(server_ids(s), e.id) {
        Some(i) => {
            assert(server_ids(after)[i] == e.id);
            assert forall|j: int| 0 <= j < i implies server_ids(after)[j] != e.id by {
                assert(server_ids(after)[j] == server_ids(s)[j]);
            }
            lemma_first_match(server_ids(after), e.id, i);
        },
        None => {
            let n = s.len() as int;
            assert(server_ids(after)[n] == e.id);
            assert forall|j: int| 0 <= j < n implies server_ids(after)[j] != e.id by {
                assert(server_ids(after)[j] == server_ids(s)[j]);
            }
            lemma_first_match(server_ids(after), e.id, n);
        },
    }
}

/// Law: after deleting a profile it is gone, and it is no longer the active
/// profile; the servers are untouched.
pub proof fn lemma_delete_profile_forgets(c: ConfigV, id: Seq<char>)
    ensures
        !profile_ids(spec_delete_profile(c, id).profiles).contains(id),
        spec_delete_profile(c, id).active_profile != Some(id),
        spec_delete_profile(c, id).servers == c.servers,
    decreases c.profiles.len(),
{
    let p = c.profiles;
    if p.len() > 0 {
        let c2 = ConfigV { profiles: p.drop_last(), ..c };
        lemma_delete_profile_forgets(c2, id);
        let r = profiles_without(p.drop_last(), id);
        if p.last().id != id {
            assert forall|i: int| 0 <= i < profile_ids(r.push(p.last())).len() implies profile_ids(r.push(p.last()))[i] != id by {
                if i < r.len() {
                    assert(profile_ids(r.push(p.last()))[i] == profile_ids(r)[i]);
                }
            }
        }
    }
}

proof fn lemma_ids_without_filter(s: Seq<Seq<char>>, id: Seq<char>)
    ensures
        ids_without(s, id) == s.filter(|x: Seq<char>| x != id),
    decreases s.len(),
{
    reveal(Seq::filter);
    if s.len() > 0 {
        lemma_ids_without_filter(s.drop_last(), id);
    }
}

proof fn lemma_servers_without_filter(s: Seq<ServerEntryV>, id: Seq<char>)
    ensures
        servers_without(s, id) == s.filter(|e: ServerEntryV| e.id != id),
    decreases s.len(),
{
    reveal(Seq::filter);
    if s.len() > 0 {
        lemma_servers_without_filter(s.drop_last(), id);
    }
}

proof fn lemma_profiles_without_filter(p: Seq<ProfileV>, id: Seq<char>)
    ensures
        profiles_without(p, id) == p.filter(|q: ProfileV| q.id != id),
    decreases p.len(),
{
    reveal(Seq::filter);
    if p.len() > 0 {
        lemma_profiles_without_filter(p.drop_last(), id);
    }
}

proof fn lemma_profiles_forgetting_each(p: Seq<ProfileV>, id: Seq<char>)
    ensures
        profiles_forgetting(p, id).len() == p.len(),
        forall|k: int|
            0 <= k < p.len() ==> #[trigger] profiles_forgetting(p, id)[k] == (ProfileV {
                id: p[k].id,
                name: p[k].name,
                active_server_ids: p[k].active_server_ids.filter(|x: Seq<char>| x != id),
            }),
    decreases p.len(),
{
    if p.len() > 0 {
        lemma_profiles_forgetting_each(p.drop_last(), id);
        lemma_ids_without_filter(p.last().active_server_ids, id);
        let r = profiles_forgetting(p.drop_last(), id);
        assert forall|k: int| 0 <= k < p.len() implies #[trigger] profiles_forgetting(p, id)[k] == (ProfileV {
            id: p[k].id,
            name: p[k].name,
            active_server_ids: p[k].active_server_ids.filter(|x: Seq<char>| x != id),
        }) by {
            if k < p.len() - 1 {
                assert(profiles_forgetting(p, id)[k] == r[k]);
                assert(p.drop_last()[k] == p[k]);
            }
        }
    }
}

/// Law: deleting a server keeps, in order, exactly the servers with another
/// id; every profile keeps its id, name and position, and its server list is
/// its old list with exactly the entries equal to the id removed (every other
/// entry stays, in order); an id is listed afterwards if and only if it was
/// listed before and is not the deleted one. The active profile is unchanged.
pub proof fn lemma_delete_server_removes_only_it(c: ConfigV, id: Seq<char>)
    ensures
        spec_delete_server(c, id).servers == c.servers.filter(|e: ServerEntryV| e.id != id),
        spec_delete_server(c, id).profiles.len() == c.profiles.len(),
        spec_delete_server(c, id).active_profile == c.active_profile,
        forall|k: int|
            0 <= k < c.profiles.len() ==> (#[trigger] spec_delete_server(c, id).profiles[k]).id == c.profiles[k].id
                && spec_delete_server(c, id).profiles[k].name == c.profiles[k].name
                && spec_delete_server(c, id).profiles[k].active_server_ids == c.profiles[k].active_server_ids.filter(
                |x: Seq<char>| x != id,
            ),
        forall|k: int, x: Seq<char>|
            0 <= k < c.profiles.len() ==> (#[trigger] spec_delete_server(c, id).profiles[k].active_server_ids.contains(x)
                <==> (c.profiles[k].active_server_ids.contains(x) && x != id)),
{
    lemma_servers_without_filter(c.servers, id);
    lemma_profiles_forgetting_each(c.profiles, id);
    let d = spec_delete_server(c, id);
    assert forall|k: int, x: Seq<char>|
        0 <= k < c.profiles.len() implies (#[trigger] d.profiles[k].active_server_ids.contains(x)
            <==> (c.profiles[k].active_server_ids.contains(x) && x != id)) by {
        let s = c.profiles[k].active_server_ids;
        let pred = |y: Seq<char>| y != id;
        assert(d.profiles[k].active_server_ids == s.filter(pred));
        if s.filter(pred).contains(x) {
            s.lemma_filter_contains_rev(pred, x);
            let j = choose|j: int| 0 <= j < s.filter(pred).len() && s.filter(pred)[j] == x;
            s.lemma_filter_pred(pred, j);
        }
        if s.contains(x) && x != id {
            let j = choose|j: int| 0 <= j < s.len() && s[j] == x;
            s.lemma_filter_contains(pred, j);
        }
    }
}

/// Law: deleting a profile keeps, in order, exactly the profiles with another
/// id, and leaves the servers as they were.
pub proof fn lemma_delete_profile_removes_only_it(c: ConfigV, id: Seq<char>)
    ensures
        spec_delete_profile(c, id).profiles == c.profiles.filter(|q: ProfileV| q.id != id),
        spec_delete_profile(c, id).servers == c.servers,
{
    lemma_profiles_without_filter(c.profiles, id);
}

} // verus!
