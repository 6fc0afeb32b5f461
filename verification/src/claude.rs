//! Self-registration into the CLI and the desktop MCP clients: the entries the
//! proxy adds, and the edit of a config document that adds or removes only
//! the `meta-mcp` member of `mcpServers`, preserving everything else.
use vstd::prelude::*;

use crate::endpoints::local_mcp_url;
use crate::json::{
    JsonV, JsonValue, at_most_once, entries_view, entry, entry_index, find_key, items_view, json_array,
    json_object, json_string, lemma_insert_member, lemma_object_view, lemma_remove_once, member,
    obj_insert, obj_remove, object_insert, object_remove,
};

verus! {

/// Whether the proxy is registered in each client's config.
#[derive(Debug, Clone)]
pub struct ClaudeStatus {
    pub code: bool,
    pub desktop: bool,
}

/// The `mcpServers` member the proxy owns.
pub open spec fn server_key() -> Seq<char> {
    "meta-mcp"@
}

/// `{"type": "http", "url": "http://localhost:3663/mcp"}`, the CLI client's
/// entry.
pub fn code_entry() -> (r: JsonValue)
    ensures
        r.jv() == JsonV::Object(seq![("type"@, JsonV::Str("http"@)), ("url"@, JsonV::Str(crate::endpoints::local_mcp_url_v()))]),
{
    let mut v: Vec<(String, JsonValue)> = Vec::new();
    v.push(entry("type", json_string("http")));
    let url = local_mcp_url();
    v.push(entry("url", JsonValue::String(url)));
    let r = json_object(v);
    assert(entries_view(v@) =~= seq![("type"@, JsonV::Str("http"@)), ("url"@, JsonV::Str(crate::endpoints::local_mcp_url_v()))]);
    r
}

/// The command the desktop client launches: this program, or `meta-mcp` when its
/// path is unknown.
pub open spec fn desktop_command(exe: Option<String>) -> Seq<char> {
    match exe {
        Some(e) => e@,
        None => "meta-mcp"@,
    }
}

/// `{"command": <this program, or "meta-mcp">, "args": ["--stdio"]}`, the
/// desktop client's entry that launches the built-in stdio bridge.
pub fn desktop_entry(exe: Option<String>) -> (r: JsonValue)
    ensures
        r.jv() == JsonV::Object(
            seq![
                ("command"@, JsonV::Str(desktop_command(exe))),
                ("args"@, JsonV::Array(seq![JsonV::Str("--stdio"@)])),
            ],
        ),
{
    let ghost cmd = desktop_command(exe);
    let command = match exe {
        Some(e) => e,
        None => "meta-mcp".to_owned(),
    };
    assert(command@ == cmd);
    let mut args: Vec<JsonValue> = Vec::new();
    args.push(json_string("--stdio"));
    assert(items_view(args@) =~= seq![JsonV::Str("--stdio"@)]);
    let arr = json_array(args);
    let mut v: Vec<(String, JsonValue)> = Vec::new();
    v.push(entry("command", JsonValue::String(command)));
    v.push(entry("args", arr));
    assert(entries_view(v@) =~= seq![("command"@, JsonV::Str(cmd)), ("args"@, JsonV::Array(seq![JsonV::Str("--stdio"@)]))]);
    json_object(v)
}

/// The top-level members of a parsed config (none when the file could not be
/// read or parsed, or is not an object).
pub open spec fn doc_members(doc: Option<JsonV>) -> Seq<(Seq<char>, JsonV)> {
    match doc {
        Some(JsonV::Object(m)) => m,
        _ => Seq::empty(),
    }
}

/// The members of `mcpServers` (none when missing or not an object).
pub open spec fn servers_members(top: Seq<(Seq<char>, JsonV)>) -> Seq<(Seq<char>, JsonV)> {
    match member(top, "mcpServers"@) {
        Some(JsonV::Object(m)) => m,
        _ => Seq::empty(),
    }
}

/// Whether a config lists the proxy under `mcpServers`.
pub open spec fn spec_has_entry(top: Seq<(Seq<char>, JsonV)>) -> bool {
    match member(top, "mcpServers"@) {
        Some(JsonV::Object(m)) => find_key(m, server_key()) is Some,
        _ => false,
    }
}

/// The config after the edit: `mcpServers` (created, or replaced by an empty
/// object when it is not one) gets the proxy's entry, or loses it.
pub open spec fn spec_apply(top: Seq<(Seq<char>, JsonV)>, e: Option<JsonV>) -> Seq<(Seq<char>, JsonV)> {
    let servers = servers_members(top);
    obj_insert(
        top,
        "mcpServers"@,
        JsonV::Object(
            match e {
                Some(v) => obj_insert(servers, server_key(), v),
                None => obj_remove(servers, server_key()),
            },
        ),
    )
}

pub open spec fn opt_doc(doc: Option<JsonValue>) -> Option<JsonV> {
    match doc {
        Some(d) => Some(d.jv()),
        None => None,
    }
}

/// The top-level members of a parsed config.
pub fn read_obj(doc: Option<JsonValue>) -> (r: Vec<(String, JsonValue)>)
    ensures
        entries_view(r@) == doc_members(opt_doc(doc)),
{
    match doc {
        Some(JsonValue::Object(m)) => {
            proof {
                lemma_object_view(m);
            }
            m
        },
        _ => {
            let v: Vec<(String, JsonValue)> = Vec::new();
            assert(entries_view(v@) =~= Seq::<(Seq<char>, JsonV)>::empty());
            v
        },
    }
}

/// Whether a parsed config lists the proxy under `mcpServers`.
pub fn has_entry(doc: Option<JsonValue>) -> (r: bool)
    ensures
        r == spec_has_entry(doc_members(opt_doc(doc))),
{
    proof {
        reveal_strlit("mcpServers");
        reveal_strlit("meta-mcp");
    }
    let top = read_obj(doc);
    let obj = json_object(top);
    match obj.get("mcpServers") {
        Some(JsonValue::Object(m)) => {
            proof {
                lemma_object_view(*m);
            }
            crate::json::entry_index(m, "meta-mcp").is_some()
        },
        _ => false,
    }
}

/// Add (`Some`) or remove (`None`) the proxy's entry in a config's
/// top-level members.
pub fn apply_entry(top: Vec<(String, JsonValue)>, e: Option<JsonValue>) -> (r: Vec<(String, JsonValue)>)
    ensures
        entries_view(r@) == spec_apply(entries_view(top@), opt_doc(e)),
{
    proof {
        reveal_strlit("mcpServers");
        reveal_strlit("meta-mcp");
    }
    let mut top = top;
    let ghost tv = entries_view(top@);
    let mut servers: Vec<(String, JsonValue)> = Vec::new();
    assert(entries_view(servers@) =~= Seq::<(Seq<char>, JsonV)>::empty());
    match entry_index(&top, "mcpServers") {
        Some(i) => {
            assert(tv[i as int].1 == top@[i as int].1.jv());
            match top[i].1.deep_clone() {
                JsonValue::Object(v) => {
                    proof {
                        lemma_object_view(v);
                    }
                    servers = v;
                },
                _ => {},
            }
        },
        None => {},
    }
    assert(entries_view(servers@) == servers_members(tv));
    match e {
        Some(v) => {
            object_insert(&mut servers, "meta-mcp".to_owned(), v);
        },
        None => {
            let _ = object_remove(&mut servers, "meta-mcp");
        },
    }
    object_insert(&mut top, "mcpServers".to_owned(), json_object(servers));
    top
}

/// Whether the proxy is registered in the CLI and desktop clients'
/// configs; a config whose path could not be resolved counts as not
/// registered.
pub fn status_of(code_doc: Option<Option<JsonValue>>, desktop_doc: Option<Option<JsonValue>>) -> (r: ClaudeStatus)
    ensures
        r.code == match code_doc {
            Some(d) => spec_has_entry(doc_members(opt_doc(d))),
            None => false,
        },
        r.desktop == match desktop_doc {
            Some(d) => spec_has_entry(doc_members(opt_doc(d))),
            None => false,
        },
{
    let code = match code_doc {
        Some(d) => has_entry(d),
        None => false,
    };
    let desktop = match desktop_doc {
        Some(d) => has_entry(d),
        None => false,
    };
    ClaudeStatus { code, desktop }
}

/// Law: after adding the entry the config lists the proxy with that entry;
/// after removing it, it does not, unless `mcpServers` named the proxy
/// twice (which no parsed document does); either way every other top-level
/// member is untouched, as is every other server of `mcpServers` that is
/// named once.
pub proof fn lemma_apply_preserves_other_content(top: Seq<(Seq<char>, JsonV)>, e: Option<JsonV>, key: Seq<char>, server: Seq<char>)
    ensures
        e is Some ==> spec_has_entry(spec_apply(top, e)),
        e is None && at_most_once(servers_members(top), server_key()) ==> !spec_has_entry(spec_apply(top, e)),
        e matches Some(v) ==> member(servers_members(spec_apply(top, e)), server_key()) == Some(v),
        key != "mcpServers"@ ==> member(spec_apply(top, e), key) == member(top, key),
        server != server_key() && (e is Some || at_most_once(servers_members(top), server)) ==> member(
            servers_members(spec_apply(top, e)),
            server,
        ) == member(servers_members(top), server),
{
    let servers = servers_members(top);
    let edited = match e {
        Some(v) => obj_insert(servers, server_key(), v),
        None => obj_remove(servers, server_key()),
    };
    lemma_insert_member(top, "mcpServers"@, JsonV::Object(edited), key);
    assert(servers_members(spec_apply(top, e)) == edited);
    match e {
        Some(v) => {
            lemma_insert_member(servers, server_key(), v, server);
        },
        None => {
            lemma_remove_once(servers, server_key(), server);
        },
    }
    crate::json::lemma_find_key_props(edited, server_key());
}

} // verus!
