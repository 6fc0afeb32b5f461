//! The aggregated tool list: every active, connected backend's tools with
//! their names prefixed by the server's slug, plus the slug → server-id table
//! the router uses, and the views of it that the UI and `tools/list` show.
use vstd::prelude::*;

use crate::config::{ServerEntry, ServerEntryV, ServerStatus, ToolWithServer, Transport, server_views, strs};
use crate::json::{
    JsonV, JsonValue, jget, jstr_opt, obj_insert, object_insert, entries_view, lemma_object_view,
    lemma_find_key_props, find_key, lemma_find_key,
};
use crate::routing::{lemma_routing_round_trip, lookup_slug, prefixed_name, sep, spec_prefixed, spec_split};
use crate::text::has_prefix;
use crate::slug::{SlugEntry, contains_id, no_double_underscore, slug_entries};

verus! {

/// One aggregated tool, with everything the proxy and UI need.
pub struct AggregatedTool {
    pub prefixed_name: String,
    pub server_id: String,
    pub server_name: String,
    /// The full tool object as returned by the backend, with `name` rewritten
    /// to the prefixed name.
    pub tool_json: JsonValue,
}

/// The cached tool list plus the slug → server-id table used for routing.
pub struct CachedTools {
    pub tools: Vec<AggregatedTool>,
    pub slug_to_id: Vec<SlugEntry>,
}

/// What one backend answered to `tools/list`.
pub struct ListedTools {
    pub server_id: String,
    pub server_name: String,
    pub slug: String,
    pub tools: Vec<JsonValue>,
}

/// A backend to ask for its tools, with the slug its tools get.
pub struct ListRequest {
    pub server_id: String,
    pub server_name: String,
    pub slug: String,
}

pub struct AggregatedToolV {
    pub prefixed_name: Seq<char>,
    pub server_id: Seq<char>,
    pub server_name: Seq<char>,
    pub tool: JsonV,
}

pub open spec fn agg_view(t: AggregatedTool) -> AggregatedToolV {
    AggregatedToolV {
        prefixed_name: t.prefixed_name@,
        server_id: t.server_id@,
        server_name: t.server_name@,
        tool: t.tool_json.jv(),
    }
}

pub open spec fn agg_views(v: Seq<AggregatedTool>) -> Seq<AggregatedToolV> {
    v.map_values(|t: AggregatedTool| agg_view(t))
}

pub open spec fn tool_views(v: Seq<JsonValue>) -> Seq<JsonV> {
    v.map_values(|t: JsonValue| t.jv())
}

// ---------------------------------------------------------------------------
// Which backends to ask
// ---------------------------------------------------------------------------

/// The slug registered last for a server id.
pub open spec fn slug_for_id(table: Seq<(Seq<char>, Seq<char>)>, id: Seq<char>) -> Option<Seq<char>>
    decreases table.len(),
{
    if table.len() == 0 {
        None
    } else if table.last().0 == id {
        Some(table.last().1)
    } else {
        slug_for_id(table.drop_last(), id)
    }
}

/// The backends to ask for their tools: the active servers in config order
/// that have a slug and a live connection.
pub open spec fn list_plan(
    servers: Seq<ServerEntryV>,
    active: Set<Seq<char>>,
    slugs: Seq<(Seq<char>, Seq<char>)>,
    connected: Set<Seq<char>>,
) -> Seq<(Seq<char>, Seq<char>, Seq<char>)>
    decreases servers.len(),
{
    if servers.len() == 0 {
        Seq::empty()
    } else {
        let prev = list_plan(servers.drop_last(), active, slugs, connected);
        let s = servers.last();
        if active.contains(s.id) && slug_for_id(slugs, s.id) is Some && connected.contains(s.id) {
            prev.push((s.id, s.name, slug_for_id(slugs, s.id)->0))
        } else {
            prev
        }
    }
}

fn slug_for_id_exec(table: &Vec<SlugEntry>, id: &String) -> (r: Option<String>)
    ensures
        match r {
            Some(s) => slug_for_id(slug_entries(table@), id@) == Some(s@),
            None => slug_for_id(slug_entries(table@), id@) is None,
        },
{
    let ghost t = slug_entries(table@);
    let mut i: usize = table.len();
    assert(t.take(i as int) =~= t);
    while i > 0
        invariant
            t == slug_entries(table@),
            i <= table@.len(),
            slug_for_id(t, id@) == slug_for_id(t.take(i as int), id@),
        decreases i,
    {
        assert(t.take(i as int).drop_last() =~= t.take(i - 1));
        if table[i - 1].server_id == *id {
            return Some(table[i - 1].slug.clone());
        }
        i = i - 1;
    }
    None
}

pub open spec fn request_views(v: Seq<ListRequest>) -> Seq<(Seq<char>, Seq<char>, Seq<char>)> {
    v.map_values(|r: ListRequest| (r.server_id@, r.server_name@, r.slug@))
}

/// The backends to ask for their tools, in config order.
pub fn plan_tool_listing(
    servers: &Vec<ServerEntry>,
    active: &Vec<String>,
    slugs: &Vec<SlugEntry>,
    connected: &Vec<String>,
) -> (r: Vec<ListRequest>)
    ensures
        request_views(r@) == list_plan(
            server_views(servers@),
            strs(active@).to_set(),
            slug_entries(slugs@),
            strs(connected@).to_set(),
        ),
{
    let ghost act = strs(active@).to_set();
    let ghost con = strs(connected@).to_set();
    let ghost sv = server_views(servers@);
    let mut out: Vec<ListRequest> = Vec::new();
    let mut i: usize = 0;
    while i < servers.len()
        invariant
            act == strs(active@).to_set(),
            con == strs(connected@).to_set(),
            sv == server_views(servers@),
            i <= servers@.len(),
            request_views(out@) == list_plan(sv.take(i as int), act, slug_entries(slugs@), con),
        decreases servers@.len() - i,
    {
        let s = &servers[i];
        assert(sv.take(i + 1).drop_last() =~= sv.take(i as int));
        assert(sv.take(i + 1).last() == s@);
        if contains_id(active, &s.id) {
            match slug_for_id_exec(slugs, &s.id) {
                Some(slug) => {
                    if contains_id(connected, &s.id) {
                        let ghost before = out@;
                        out.push(ListRequest { server_id: s.id.clone(), server_name: s.name.clone(), slug });
                        assert(request_views(out@) =~= request_views(before).push(
                            (s@.id, s@.name, slug_for_id(slug_entries(slugs@), s@.id)->0),
                        ));
                    }
                },
                None => {},
            }
        }
        i = i + 1;
    }
    assert(sv.take(servers@.len() as int) =~= sv);
    out
}

// ---------------------------------------------------------------------------
// Assembling the cache
// ---------------------------------------------------------------------------

/// A tool as aggregated under `slug`: tools without a non-empty string `name`
/// are dropped; the others get `name` rewritten to `{slug}__{name}`.
pub open spec fn rewrite_tool(slug: Seq<char>, t: JsonV) -> Option<(Seq<char>, JsonV)> {
    match jstr_opt(jget(t, "name"@)) {
        Some(original) => if original.len() > 0 {
            let p = spec_prefixed(slug, original);
            Some(
                (
                    p,
                    match t {
                        JsonV::Object(e) => JsonV::Object(obj_insert(e, "name"@, JsonV::Str(p))),
                        _ => t,
                    },
                ),
            )
        } else {
            None
        },
        None => None,
    }
}

/// The aggregated tools of one backend's answer.
pub open spec fn server_tools(id: Seq<char>, name: Seq<char>, slug: Seq<char>, tools: Seq<JsonV>) -> Seq<AggregatedToolV>
    decreases tools.len(),
{
    if tools.len() == 0 {
        Seq::empty()
    } else {
        let prev = server_tools(id, name, slug, tools.drop_last());
        match rewrite_tool(slug, tools.last()) {
            Some((p, t)) => prev.push(AggregatedToolV { prefixed_name: p, server_id: id, server_name: name, tool: t }),
            None => prev,
        }
    }
}

pub struct ListedToolsV {
    pub server_id: Seq<char>,
    pub server_name: Seq<char>,
    pub slug: Seq<char>,
    pub tools: Seq<JsonV>,
}

pub open spec fn listed_view(l: ListedTools) -> ListedToolsV {
    ListedToolsV { server_id: l.server_id@, server_name: l.server_name@, slug: l.slug@, tools: tool_views(l.tools@) }
}

pub open spec fn listed_views(v: Seq<ListedTools>) -> Seq<ListedToolsV> {
    v.map_values(|l: ListedTools| listed_view(l))
}

/// All aggregated tools, backend by backend.
pub open spec fn all_tools(results: Seq<ListedToolsV>) -> Seq<AggregatedToolV>
    decreases results.len(),
{
    if results.len() == 0 {
        Seq::empty()
    } else {
        let r = results.last();
        all_tools(results.drop_last()) + server_tools(r.server_id, r.server_name, r.slug, r.tools)
    }
}

/// The routing table: one (server id, slug) pair per backend that answered.
pub open spec fn routing_table(results: Seq<ListedToolsV>) -> Seq<(Seq<char>, Seq<char>)> {
    results.map_values(|r: ListedToolsV| (r.server_id, r.slug))
}

fn rewrite_tool_exec(slug: &String, tool: &JsonValue) -> (r: Option<(String, JsonValue)>)
    ensures
        match r {
            Some((p, t)) => rewrite_tool(slug@, tool.jv()) == Some((p@, t.jv())),
            None => rewrite_tool(slug@, tool.jv()) is None,
        },
{
    proof {
        reveal_strlit("name");
    }
    let original = match tool.get("name") {
        Some(n) => match n.as_str() {
            Some(s) => s,
            None => {
                return None;
            },
        },
        None => {
            return None;
        },
    };
    if original.as_str().is_empty() {
        return None;
    }
    let p = prefixed_name(slug.as_str(), original.as_str());
    let copy = tool.deep_clone();
    match copy {
        JsonValue::Object(mut entries) => {
            proof {
                lemma_object_view(entries);
            }
            let ghost before = entries_view(entries@);
            object_insert(&mut entries, "name".to_owned(), JsonValue::String(p.clone()));
            proof {
                lemma_object_view(entries);
            }
            Some((p, JsonValue::Object(entries)))
        },
        other => Some((p, other)),
    }
}

/// Prefix the names of every backend's tools and assemble the cache.
pub fn assemble_cache(results: &Vec<ListedTools>) -> (r: CachedTools)
    ensures
        agg_views(r.tools@) == all_tools(listed_views(results@)),
        slug_entries(r.slug_to_id@) == routing_table(listed_views(results@)),
{
    let ghost lv = listed_views(results@);
    let mut tools: Vec<AggregatedTool> = Vec::new();
    let mut table: Vec<SlugEntry> = Vec::new();
    let mut i: usize = 0;
    while i < results.len()
        invariant
            lv == listed_views(results@),
            i <= results@.len(),
            agg_views(tools@) == all_tools(lv.take(i as int)),
            slug_entries(table@) == routing_table(lv.take(i as int)),
        decreases results@.len() - i,
    {
        let res = &results[i];
        assert(lv.take(i + 1).drop_last() =~= lv.take(i as int));
        assert(lv.take(i + 1).last() == listed_view(*res));
        let ghost before_table = slug_entries(table@);
        table.push(SlugEntry { server_id: res.server_id.clone(), slug: res.slug.clone() });
        assert(slug_entries(table@) =~= before_table.push((res.server_id@, res.slug@)));
        assert(routing_table(lv.take(i + 1)) =~= routing_table(lv.take(i as int)).push(
            (res.server_id@, res.slug@),
        ));
        let ghost tv = tool_views(res.tools@);
        let ghost start = agg_views(tools@);
        let mut k: usize = 0;
        while k < res.tools.len()
            invariant
                tv == tool_views(res.tools@),
                k <= res.tools@.len(),
                agg_views(tools@) == start + server_tools(res.server_id@, res.server_name@, res.slug@, tv.take(k as int)),
            decreases res.tools@.len() - k,
        {
            assert(tv.take(k + 1).drop_last() =~= tv.take(k as int));
            assert(tv.take(k + 1).last() == res.tools@[k as int].jv());
            match rewrite_tool_exec(&res.slug, &res.tools[k]) {
                Some((p, t)) => {
                    let ghost before = agg_views(tools@);
                    tools.push(AggregatedTool {
                        prefixed_name: p,
                        server_id: res.server_id.clone(),
                        server_name: res.server_name.clone(),
                        tool_json: t,
                    });
                    assert(agg_views(tools@) =~= before.push(agg_view(tools@.last())));
                },
                None => {},
            }
            k = k + 1;
        }
        assert(tv.take(res.tools@.len() as int) =~= tv);
        i = i + 1;
    }
    assert(lv.take(results@.len() as int) =~= lv);
    CachedTools { tools, slug_to_id: table }
}

// ---------------------------------------------------------------------------
// Views of the cache
// ---------------------------------------------------------------------------

pub open spec fn ui_tool(t: AggregatedToolV) -> (Seq<char>, Seq<char>, Seq<char>, Option<Seq<char>>) {
    (t.prefixed_name, t.server_id, t.server_name, jstr_opt(jget(t.tool, "description"@)))
}

pub open spec fn ui_tool_view(t: ToolWithServer) -> (Seq<char>, Seq<char>, Seq<char>, Option<Seq<char>>) {
    (
        t.name@,
        t.server_id@,
        t.server_name@,
        match t.description {
            Some(d) => Some(d@),
            None => None,
        },
    )
}

/// The tool list shown in the UI: prefixed name, owning server and the
/// tool's `description` when it is a string.
pub fn tools_for_ui(cache: &CachedTools) -> (r: Vec<ToolWithServer>)
    ensures
        r@.map_values(|t: ToolWithServer| ui_tool_view(t)) == agg_views(cache.tools@).map_values(
            |t: AggregatedToolV| ui_tool(t),
        ),
{
    proof {
        reveal_strlit("description");
    }
    let mut out: Vec<ToolWithServer> = Vec::new();
    let mut i: usize = 0;
    while i < cache.tools.len()
        invariant
            i <= cache.tools@.len(),
            out@.len() == i,
            forall|k: int| 0 <= k < i ==> ui_tool_view(#[trigger] out@[k]) == ui_tool(agg_view(cache.tools@[k])),
        decreases cache.tools@.len() - i,
    {
        let t = &cache.tools[i];
        let description = match t.tool_json.get("description") {
            Some(d) => match d.as_str() {
                Some(s) => Some(s.clone()),
                None => None,
            },
            None => None,
        };
        out.push(
            ToolWithServer {
                name: t.prefixed_name.clone(),
                server_id: t.server_id.clone(),
                server_name: t.server_name.clone(),
                description,
            },
        );
        i = i + 1;
    }
    assert(out@.map_values(|t: ToolWithServer| ui_tool_view(t)) =~= agg_views(cache.tools@).map_values(
        |t: AggregatedToolV| ui_tool(t),
    ));
    out
}

/// The tool objects handed back in `tools/list` (nothing when no cache).
pub fn tools_list_payload(cache: &Option<CachedTools>) -> (r: Vec<JsonValue>)
    ensures
        tool_views(r@) == match cache {
            Some(c) => agg_views(c.tools@).map_values(|t: AggregatedToolV| t.tool),
            None => Seq::empty(),
        },
{
    let mut out: Vec<JsonValue> = Vec::new();
    match cache {
        None => {
            assert(tool_views(out@) =~= Seq::<JsonV>::empty());
        },
        Some(c) => {
            let mut i: usize = 0;
            while i < c.tools.len()
                invariant
                    i <= c.tools@.len(),
                    out@.len() == i,
                    forall|k: int| 0 <= k < i ==> (#[trigger] out@[k]).jv() == c.tools@[k].tool_json.jv(),
                decreases c.tools@.len() - i,
            {
                out.push(c.tools[i].tool_json.deep_clone());
                i = i + 1;
            }
            assert(tool_views(out@) =~= agg_views(c.tools@).map_values(|t: AggregatedToolV| t.tool));
        },
    }
    out
}

// ---------------------------------------------------------------------------
// Per-server status
// ---------------------------------------------------------------------------

/// How many aggregated tools belong to a server.
pub open spec fn tool_count(tools: Seq<AggregatedToolV>, id: Seq<char>) -> nat
    decreases tools.len(),
{
    if tools.len() == 0 {
        0
    } else {
        tool_count(tools.drop_last(), id) + if tools.last().server_id == id {
            1nat
        } else {
            0nat
        }
    }
}

fn count_tools(tools: &Vec<AggregatedTool>, id: &String) -> (r: usize)
    ensures
        r == tool_count(agg_views(tools@), id@),
{
    let ghost tv = agg_views(tools@);
    let mut n: usize = 0;
    let mut i: usize = 0;
    while i < tools.len()
        invariant
            tv == agg_views(tools@),
            i <= tools@.len(),
            n == tool_count(tv.take(i as int), id@),
            n <= i,
        decreases tools@.len() - i,
    {
        assert(tv.take(i + 1).drop_last() =~= tv.take(i as int));
        if tools[i].server_id == *id {
            n = n + 1;
        }
        i = i + 1;
    }
    assert(tv.take(tools@.len() as int) =~= tv);
    n
}

pub struct ServerStatusV {
    pub id: Seq<char>,
    pub active: bool,
    pub connected: bool,
    pub needs_auth: bool,
    pub authenticated: bool,
    pub tool_count: nat,
}

pub open spec fn status_view(s: ServerStatus) -> ServerStatusV {
    ServerStatusV {
        id: s.id@,
        active: s.active,
        connected: s.connected,
        needs_auth: s.needs_auth,
        authenticated: s.authenticated,
        tool_count: s.tool_count as nat,
    }
}

/// The status of one server: whether it is active and connected, whether it
/// has stored OAuth tokens, whether it is an active remote server that failed
/// to connect without them, and how many tools it contributes.
pub open spec fn spec_status(
    s: ServerEntryV,
    active: Set<Seq<char>>,
    connected: Set<Seq<char>>,
    failed: Set<Seq<char>>,
    authed: Set<Seq<char>>,
    tools: Seq<AggregatedToolV>,
) -> ServerStatusV {
    ServerStatusV {
        id: s.id,
        active: active.contains(s.id),
        connected: connected.contains(s.id),
        needs_auth: active.contains(s.id) && failed.contains(s.id) && s.transport != Transport::Stdio
            && !authed.contains(s.id),
        authenticated: authed.contains(s.id),
        tool_count: tool_count(tools, s.id),
    }
}

/// Per-server status for the UI, in config order.
pub fn server_status(
    servers: &Vec<ServerEntry>,
    active: &Vec<String>,
    connected: &Vec<String>,
    failed: &Vec<String>,
    authed: &Vec<String>,
    cache: &Option<CachedTools>,
) -> (r: Vec<ServerStatus>)
    ensures
        r@.len() == servers@.len(),
        forall|i: int|
            0 <= i < servers@.len() ==> status_view(#[trigger] r@[i]) == spec_status(
                servers@[i]@,
                strs(active@).to_set(),
                strs(connected@).to_set(),
                strs(failed@).to_set(),
                strs(authed@).to_set(),
                match cache {
                    Some(c) => agg_views(c.tools@),
                    None => Seq::empty(),
                },
            ),
{
    let mut out: Vec<ServerStatus> = Vec::new();
    let mut i: usize = 0;
    while i < servers.len()
        invariant
            i <= servers@.len(),
            out@.len() == i,
            forall|k: int|
                0 <= k < i ==> status_view(#[trigger] out@[k]) == spec_status(
                    servers@[k]@,
                    strs(active@).to_set(),
                    strs(connected@).to_set(),
                    strs(failed@).to_set(),
                    strs(authed@).to_set(),
                    match cache {
                        Some(c) => agg_views(c.tools@),
                        None => Seq::empty(),
                    },
                ),
        decreases servers@.len() - i,
    {
        let s = &servers[i];
        let count = match cache {
            Some(c) => count_tools(&c.tools, &s.id),
            None => 0,
        };
        let is_active = contains_id(active, &s.id);
        let is_connected = contains_id(connected, &s.id);
        let is_failed = contains_id(failed, &s.id);
        let is_authed = contains_id(authed, &s.id);
        let remote = match s.transport {
            Transport::Stdio => false,
            _ => true,
        };
        out.push(
            ServerStatus {
                id: s.id.clone(),
                active: is_active,
                connected: is_connected,
                needs_auth: is_active && is_failed && remote && !is_authed,
                authenticated: is_authed,
                tool_count: count,
            },
        );
        i = i + 1;
    }
    out
}

// ---------------------------------------------------------------------------
// Laws
// ---------------------------------------------------------------------------

/// Reading back a member just inserted gives the inserted value.
pub proof fn lemma_obj_insert_get(e: Seq<(Seq<char>, JsonV)>, key: Seq<char>, v: JsonV)
    ensures
        jget(JsonV::Object(obj_insert(e, key, v)), key) == Some(v),
{
    lemma_find_key_props(e, key);
    let n = obj_insert(e, key, v);
    match find_key(e, key) {
        Some(i) => {
            assert forall|j: int| 0 <= j < i implies n[j].0 != key by {
                assert(n[j] == e[j]);
            }
            lemma_find_key(n, key, i);
        },
        None => {
            let i = e.len() as int;
            assert forall|j: int| 0 <= j < i implies n[j].0 != key by {
                assert(n[j] == e[j]);
            }
            lemma_find_key(n, key, i);
        },
    }
}

/// Law: every aggregated tool belongs to the backend that listed it, its
/// prefixed name starts with `{slug}__`, and the tool object handed to
/// clients carries the prefixed name as its `name`.
pub proof fn lemma_aggregated_tools_named(id: Seq<char>, name: Seq<char>, slug: Seq<char>, tools: Seq<JsonV>)
    ensures
        forall|k: int|
            0 <= k < server_tools(id, name, slug, tools).len() ==> {
                let t = #[trigger] server_tools(id, name, slug, tools)[k];
                &&& t.server_id == id
                &&& t.server_name == name
                &&& has_prefix(t.prefixed_name, slug + sep())
                &&& jstr_opt(jget(t.tool, "name"@)) == Some(t.prefixed_name)
            },
    decreases tools.len(),
{
    if tools.len() > 0 {
        lemma_aggregated_tools_named(id, name, slug, tools.drop_last());
        let prev = server_tools(id, name, slug, tools.drop_last());
        let t = tools.last();
        match rewrite_tool(slug, t) {
            Some((p, nt)) => {
                let original = jstr_opt(jget(t, "name"@))->0;
                assert(p.subrange(0, (slug + sep()).len() as int) =~= slug + sep());
                match t {
                    JsonV::Object(e) => {
                        lemma_obj_insert_get(e, "name"@, JsonV::Str(p));
                    },
                    _ => {},
                }
                let all = server_tools(id, name, slug, tools);
                assert forall|k: int| 0 <= k < all.len() implies {
                    let u = #[trigger] all[k];
                    &&& u.server_id == id
                    &&& u.server_name == name
                    &&& has_prefix(u.prefixed_name, slug + sep())
                    &&& jstr_opt(jget(u.tool, "name"@)) == Some(u.prefixed_name)
                } by {
                    if k < prev.len() {
                        assert(all[k] == prev[k]);
                    }
                }
            },
            None => {},
        }
    }
}

/// The tool of a backend's answer that an aggregated tool comes from: its
/// position in the answer.
proof fn lemma_server_tool_origin(id: Seq<char>, name: Seq<char>, slug: Seq<char>, tools: Seq<JsonV>, k: int) -> (m: int)
    requires
        0 <= k < server_tools(id, name, slug, tools).len(),
    ensures
        0 <= m < tools.len(),
        jstr_opt(jget(tools[m], "name"@)) is Some,
        server_tools(id, name, slug, tools)[k].prefixed_name == spec_prefixed(
            slug,
            jstr_opt(jget(tools[m], "name"@))->0,
        ),
        server_tools(id, name, slug, tools)[k].server_id == id,
    decreases tools.len(),
{
    let prev = server_tools(id, name, slug, tools.drop_last());
    if k < prev.len() {
        let m = lemma_server_tool_origin(id, name, slug, tools.drop_last(), k);
        match rewrite_tool(slug, tools.last()) {
            Some((p, t)) => {
                assert(server_tools(id, name, slug, tools)[k] == prev[k]);
            },
            None => {},
        }
        assert(tools.drop_last()[m] == tools[m]);
        m
    } else {
        tools.len() - 1
    }
}

/// The backend answer an aggregated tool comes from, and its place there.
proof fn lemma_all_tools_origin(results: Seq<ListedToolsV>, k: int) -> (jk: (int, int))
    requires
        0 <= k < all_tools(results).len(),
    ensures
        0 <= jk.0 < results.len(),
        0 <= jk.1 < server_tools(results[jk.0].server_id, results[jk.0].server_name, results[jk.0].slug, results[jk.0].tools).len(),
        all_tools(results)[k] == server_tools(
            results[jk.0].server_id,
            results[jk.0].server_name,
            results[jk.0].slug,
            results[jk.0].tools,
        )[jk.1],
    decreases results.len(),
{
    let prev = all_tools(results.drop_last());
    let r = results.last();
    if k < prev.len() {
        let (j, i) = lemma_all_tools_origin(results.drop_last(), k);
        assert(results.drop_last()[j] == results[j]);
        (j, i)
    } else {
        (results.len() - 1, k - prev.len())
    }
}

/// Law (what `tools/list` shows, `tools/call` reaches): when the backends'
/// slugs are pairwise distinct, hold no `__` and do not end with `_`, the
/// listed name of every aggregated tool splits back into the slug of the
/// backend that listed it and the name that backend gave the tool, and the
/// routing table leads that slug back to that backend.
pub proof fn lemma_listed_tools_route_home(results: Seq<ListedToolsV>, k: int)
    requires
        0 <= k < all_tools(results).len(),
        forall|a: int, b: int| 0 <= a < b < results.len() ==> results[a].slug != results[b].slug,
        forall|j: int|
            0 <= j < results.len() ==> no_double_underscore(#[trigger] results[j].slug) && (results[j].slug.len() > 0
                ==> results[j].slug.last() != '_'),
    ensures
        ({
            let t = all_tools(results)[k];
            exists|j: int, m: int|
                0 <= j < results.len() && 0 <= m < results[j].tools.len() && results[j].server_id == t.server_id
                    && #[trigger] jstr_opt(jget(results[j].tools[m], "name"@)) is Some && spec_split(t.prefixed_name)
                    == Some((results[j].slug, jstr_opt(jget(results[j].tools[m], "name"@))->0)) && lookup_slug(
                    routing_table(results),
                    results[j].slug,
                ) == Some(t.server_id)
        }),
{
    let (j, i) = lemma_all_tools_origin(results, k);
    let r = results[j];
    let m = lemma_server_tool_origin(r.server_id, r.server_name, r.slug, r.tools, i);
    let table = routing_table(results);
    assert(table[j] == (r.server_id, r.slug));
    let slugs = table.map_values(|p: (Seq<char>, Seq<char>)| p.1);
    assert forall|a: int, b: int| 0 <= a < b < slugs.len() implies slugs[a] != slugs[b] by {
        assert(table[a].1 == results[a].slug && table[b].1 == results[b].slug);
    }
    assert(slugs.no_duplicates());
    assert(no_double_underscore(results[j].slug));
    lemma_routing_round_trip(table, j, jstr_opt(jget(r.tools[m], "name"@))->0);
}

/// Law (only active servers are exposed): every backend asked for its tools
/// is an active, connected server of the config, asked under the slug the
/// slug table gives it.
pub proof fn lemma_listing_only_active(
    servers: Seq<ServerEntryV>,
    active: Set<Seq<char>>,
    slugs: Seq<(Seq<char>, Seq<char>)>,
    connected: Set<Seq<char>>,
)
    ensures
        forall|k: int|
            0 <= k < list_plan(servers, active, slugs, connected).len() ==> {
                let q = #[trigger] list_plan(servers, active, slugs, connected)[k];
                &&& active.contains(q.0)
                &&& connected.contains(q.0)
                &&& slug_for_id(slugs, q.0) == Some(q.2)
                &&& exists|i: int| 0 <= i < servers.len() && servers[i].id == q.0 && servers[i].name == q.1
            },
    decreases servers.len(),
{
    if servers.len() > 0 {
        lemma_listing_only_active(servers.drop_last(), active, slugs, connected);
        let prev = list_plan(servers.drop_last(), active, slugs, connected);
        let plan = list_plan(servers, active, slugs, connected);
        assert forall|k: int| 0 <= k < plan.len() implies {
            let q = #[trigger] plan[k];
            &&& active.contains(q.0)
            &&& connected.contains(q.0)
            &&& slug_for_id(slugs, q.0) == Some(q.2)
            &&& exists|i: int| 0 <= i < servers.len() && servers[i].id == q.0 && servers[i].name == q.1
        } by {
            if k < prev.len() {
                assert(plan[k] == prev[k]);
                let i = choose|i: int|
                    0 <= i < servers.drop_last().len() && servers.drop_last()[i].id == prev[k].0
                        && servers.drop_last()[i].name == prev[k].1;
                assert(servers[i] == servers.drop_last()[i]);
            } else {
                assert(servers[servers.len() - 1] == servers.last());
            }
        }
    }
}

} // verus!
