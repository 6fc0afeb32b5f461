//! Importing servers from a `claude_desktop_config.json` document: every
//! entry of `mcpServers` whose name is not configured yet becomes a server
//! entry (not saved; the UI shows a preview first).
use vstd::prelude::*;

use crate::config::{Config, ServerEntry, ServerEntryV, Transport, pairs, server_names, server_views, strs};
use crate::ids::{is_uuid_v4_text, new_uuid_v4};
use crate::json::{JsonV, JsonValue, entries_view, items_view, jget, jstr_opt};

verus! {

/// The string items of an array, in order (other items are dropped).
pub open spec fn string_items(items: Seq<JsonV>) -> Seq<Seq<char>>
    decreases items.len(),
{
    if items.len() == 0 {
        Seq::empty()
    } else {
        let p = string_items(items.drop_last());
        match items.last() {
            JsonV::Str(s) => p.push(s),
            _ => p,
        }
    }
}

/// The members of an object whose value is a string, in order.
pub open spec fn string_members(entries: Seq<(Seq<char>, JsonV)>) -> Seq<(Seq<char>, Seq<char>)>
    decreases entries.len(),
{
    if entries.len() == 0 {
        Seq::empty()
    } else {
        let p = string_members(entries.drop_last());
        match entries.last().1 {
            JsonV::Str(s) => p.push((entries.last().0, s)),
            _ => p,
        }
    }
}

/// The server entry (id left empty) for one `mcpServers` member: a `url`
/// string makes an SSE server; otherwise it is a stdio server with the
/// string `command`, the string items of `args` and the string members of
/// `env`. Imported servers start inactive.
pub open spec fn import_entry(name: Seq<char>, def: JsonV) -> ServerEntryV {
    match jstr_opt(jget(def, "url"@)) {
        Some(url) => ServerEntryV {
            id: Seq::empty(),
            name: name,
            transport: Transport::Sse,
            command: None,
            args: None,
            env: None,
            url: Some(url),
            headers: None,
            active: false,
        },
        None => ServerEntryV {
            id: Seq::empty(),
            name: name,
            transport: Transport::Stdio,
            command: jstr_opt(jget(def, "command"@)),
            args: match jget(def, "args"@) {
                Some(JsonV::Array(items)) => Some(string_items(items)),
                _ => None,
            },
            env: match jget(def, "env"@) {
                Some(JsonV::Object(members)) => Some(string_members(members)),
                _ => None,
            },
            url: None,
            headers: None,
            active: false,
        },
    }
}

/// The entries imported from the members of `mcpServers`, in document order,
/// skipping names that are configured already.
pub open spec fn imports(existing: Seq<Seq<char>>, members: Seq<(Seq<char>, JsonV)>) -> Seq<ServerEntryV>
    decreases members.len(),
{
    if members.len() == 0 {
        Seq::empty()
    } else {
        let p = imports(existing, members.drop_last());
        let (name, def) = members.last();
        if existing.contains(name) { p } else { p.push(import_entry(name, def)) }
    }
}

/// The `mcpServers` members of a document (none when it is not an object).
pub open spec fn server_members(doc: JsonV) -> Seq<(Seq<char>, JsonV)> {
    match jget(doc, "mcpServers"@) {
        Some(JsonV::Object(members)) => members,
        _ => Seq::empty(),
    }
}

pub open spec fn without_id(e: ServerEntryV) -> ServerEntryV {
    ServerEntryV { id: Seq::empty(), ..e }
}

fn string_items_exec(items: &Vec<JsonValue>) -> (r: Vec<String>)
    ensures
        strs(r@) == string_items(items_view(items@)),
{
    let ghost iv = items_view(items@);
    let mut out: Vec<String> = Vec::new();
    let mut i: usize = 0;
    while i < items.len()
        invariant
            iv == items_view(items@),
            i <= items@.len(),
            strs(out@) == string_items(iv.take(i as int)),
        decreases items@.len() - i,
    {
        assert(iv.take(i + 1).drop_last() =~= iv.take(i as int));
        assert(iv.take(i + 1).last() == items@[i as int].jv());
        match items[i].as_str() {
            Some(s) => {
                let ghost before = strs(out@);
                out.push(s.clone());
                assert(strs(out@) =~= before.push(s@));
            },
            None => {},
        }
        i = i + 1;
    }
    assert(iv.take(items@.len() as int) =~= iv);
    out
}

fn string_members_exec(members: &Vec<(String, JsonValue)>) -> (r: Vec<(String, String)>)
    ensures
        pairs(r@) == string_members(entries_view(members@)),
{
    let ghost ev = entries_view(members@);
    let mut out: Vec<(String, String)> = Vec::new();
    let mut i: usize = 0;
    while i < members.len()
        invariant
            ev == entries_view(members@),
            i <= members@.len(),
            pairs(out@) == string_members(ev.take(i as int)),
        decreases members@.len() - i,
    {
        assert(ev.take(i + 1).drop_last() =~= ev.take(i as int));
        assert(ev.take(i + 1).last() == (members@[i as int].0@, members@[i as int].1.jv()));
        match members[i].1.as_str() {
            Some(s) => {
                let ghost before = pairs(out@);
                out.push((members[i].0.clone(), s.clone()));
                assert(pairs(out@) =~= before.push((members@[i as int].0@, s@)));
            },
            None => {},
        }
        i = i + 1;
    }
    assert(ev.take(members@.len() as int) =~= ev);
    out
}

fn import_entry_exec(name: &String, def: &JsonValue) -> (r: ServerEntry)
    ensures
        without_id(r@) == import_entry(name@, def.jv()),
        is_uuid_v4_text(r@.id),
{
    proof {
        reveal_strlit("url");
        reveal_strlit("command");
        reveal_strlit("args");
        reveal_strlit("env");
    }
    let id = new_uuid_v4();
    let url = match def.get("url") {
        Some(u) => match u.as_str() {
            Some(s) => Some(s.clone()),
            None => None,
        },
        None => None,
    };
    match url {
        Some(url) => ServerEntry {
            id,
            name: name.clone(),
            transport: Transport::Sse,
            command: None,
            args: None,
            env: None,
            url: Some(url),
            headers: None,
            active: false,
        },
        None => {
            let command = match def.get("command") {
                Some(c) => match c.as_str() {
                    Some(s) => Some(s.clone()),
                    None => None,
                },
                None => None,
            };
            let args = match def.get("args") {
                Some(a) => match a.as_array() {
                    Some(items) => Some(string_items_exec(items)),
                    None => None,
                },
                None => None,
            };
            let env = match def.get("env") {
                Some(e) => match e.as_object() {
                    Some(members) => Some(string_members_exec(members)),
                    None => None,
                },
                None => None,
            };
            ServerEntry {
                id,
                name: name.clone(),
                transport: Transport::Stdio,
                command,
                args,
                env,
                url: None,
                headers: None,
                active: false,
            }
        },
    }
}

fn contains_name(servers: &Vec<ServerEntry>, name: &String) -> (r: bool)
    ensures
        r == server_names(server_views(servers@)).contains(name@),
{
    let ghost names = server_names(server_views(servers@));
    let mut i: usize = 0;
    while i < servers.len()
        invariant
            names == server_names(server_views(servers@)),
            i <= servers@.len(),
            forall|k: int| 0 <= k < i ==> names[k] != name@,
        decreases servers@.len() - i,
    {
        assert(names[i as int] == servers@[i as int].name@);
        if servers[i].name == *name {
            return true;
        }
        i = i + 1;
    }
    false
}

/// Whether imported entries match the expected ones, up to their fresh ids.
#[verifier::opaque]
pub open spec fn imported_as(r: Seq<ServerEntry>, expected: Seq<ServerEntryV>) -> bool {
    &&& r.len() == expected.len()
    &&& forall|k: int| 0 <= k < r.len() ==> without_id(#[trigger] r[k]@) == expected[k] && is_uuid_v4_text(r[k]@.id)
}

fn import_members(servers: &Vec<ServerEntry>, members: &Vec<(String, JsonValue)>) -> (r: Vec<ServerEntry>)
    ensures
        imported_as(r@, imports(server_names(server_views(servers@)), entries_view(members@))),
{
    let ghost existing = server_names(server_views(servers@));
    let ghost mv = entries_view(members@);
    let mut out: Vec<ServerEntry> = Vec::new();
    let mut i: usize = 0;
    proof {
        reveal(imported_as);
        assert(mv.take(0) =~= Seq::<(Seq<char>, JsonV)>::empty());
    }
    while i < members.len()
        invariant
            existing == server_names(server_views(servers@)),
            mv == entries_view(members@),
            i <= members@.len(),
            imported_as(out@, imports(existing, mv.take(i as int))),
        decreases members@.len() - i,
    {
        proof {
            lemma_imports_step(existing, mv, i as int);
            reveal(imported_as);
        }
        assert(mv[i as int] == (members@[i as int].0@, members@[i as int].1.jv()));
        let name = &members[i].0;
        if !contains_name(servers, name) {
            let e = import_entry_exec(name, &members[i].1);
            let ghost before = out@;
            out.push(e);
            assert forall|k: int| 0 <= k < out@.len() implies without_id(#[trigger] out@[k]@) == imports(existing, mv.take(i + 1))[k]
                && is_uuid_v4_text(out@[k]@.id) by {
                if k < before.len() {
                    assert(out@[k] == before[k]);
                }
            }
        }
        i = i + 1;
    }
    assert(mv.take(members@.len() as int) =~= mv);
    out
}

/// Map the `mcpServers` of a desktop-client config to server entries (each
/// with a fresh uuid), skipping servers whose name already exists. Nothing is
/// saved.
pub fn import_claude_servers(config: &Config, doc: &JsonValue) -> (r: Vec<ServerEntry>)
    ensures
        imported_as(r@, imports(server_names(config@.servers), server_members(doc.jv()))),
{
    proof {
        reveal_strlit("mcpServers");
        reveal(imported_as);
    }
    match doc.get("mcpServers") {
        Some(m) => match m.as_object() {
            Some(members) => import_members(&config.servers, members),
            None => Vec::new(),
        },
        None => Vec::new(),
    }
}

proof fn lemma_imports_step(existing: Seq<Seq<char>>, mv: Seq<(Seq<char>, JsonV)>, i: int)
    requires
        0 <= i < mv.len(),
    ensures
        imports(existing, mv.take(i + 1)) == if existing.contains(mv[i].0) {
            imports(existing, mv.take(i))
        } else {
            imports(existing, mv.take(i)).push(import_entry(mv[i].0, mv[i].1))
        },
{
    assert(mv.take(i + 1).drop_last() =~= mv.take(i));
    assert(mv.take(i + 1).last() == mv[i]);
}

/// Law: no imported server has the name of a configured server, and every
/// imported server starts inactive.
pub proof fn lemma_imports_skip_existing(existing: Seq<Seq<char>>, members: Seq<(Seq<char>, JsonV)>)
    ensures
        forall|k: int|
            0 <= k < imports(existing, members).len() ==> !existing.contains(
                (#[trigger] imports(existing, members)[k]).name,
            ) && !imports(existing, members)[k].active,
    decreases members.len(),
{
    if members.len() > 0 {
        lemma_imports_skip_existing(existing, members.drop_last());
        let p = imports(existing, members.drop_last());
        assert forall|k: int| 0 <= k < imports(existing, members).len() implies !existing.contains(
            (#[trigger] imports(existing, members)[k]).name,
        ) && !imports(existing, members)[k].active by {
            if k < p.len() {
                assert(imports(existing, members)[k] == p[k]);
            }
        }
    }
}

/// Law: the string items of an array are exactly its string items in order:
/// the items that are strings, each taken as its text; a text is among them
/// if and only if the array holds that string.
pub proof fn lemma_string_items_exact(items: Seq<JsonV>)
    ensures
        string_items(items) == items.filter(|v: JsonV| v is Str).map_values(|v: JsonV| v->Str_0),
        forall|s: Seq<char>| #[trigger] string_items(items).contains(s) <==> items.contains(JsonV::Str(s)),
    decreases items.len(),
{
    reveal(Seq::filter);
    if items.len() > 0 {
        lemma_string_items_exact(items.drop_last());
        let f = items.drop_last().filter(|v: JsonV| v is Str);
        match items.last() {
            JsonV::Str(s) => {
                assert(f.push(items.last()).map_values(|v: JsonV| v->Str_0) =~= f.map_values(|v: JsonV| v->Str_0).push(s));
            },
            _ => {},
        }
        assert forall|s: Seq<char>| #[trigger] string_items(items).contains(s) <==> items.contains(JsonV::Str(s)) by {
            let p = string_items(items.drop_last());
            if string_items(items).contains(s) {
                let j = choose|j: int| 0 <= j < string_items(items).len() && string_items(items)[j] == s;
                if j < p.len() {
                    assert(string_items(items)[j] == p[j]);
                    assert(p.contains(s));
                    let i = choose|i: int| 0 <= i < items.drop_last().len() && items.drop_last()[i] == JsonV::Str(s);
                    assert(items[i] == JsonV::Str(s));
                } else {
                    assert(items[items.len() - 1] == JsonV::Str(s));
                }
            }
            if items.contains(JsonV::Str(s)) {
                let i = choose|i: int| 0 <= i < items.len() && items[i] == JsonV::Str(s);
                if i < items.len() - 1 {
                    assert(items.drop_last()[i] == JsonV::Str(s));
                    assert(items.drop_last().contains(JsonV::Str(s)));
                    assert(p.contains(s));
                    let j = choose|j: int| 0 <= j < p.len() && p[j] == s;
                    assert(string_items(items)[j] == s);
                } else {
                    assert(string_items(items)[p.len() as int] == s);
                }
            }
        }
    }
}

/// Law: the string members of an object are exactly its members whose value
/// is a string, in order, each paired with that string; a pair `(k, v)` is
/// among them if and only if the object has a member `k` with the string `v`.
pub proof fn lemma_string_members_exact(entries: Seq<(Seq<char>, JsonV)>)
    ensures
        string_members(entries) == entries.filter(|e: (Seq<char>, JsonV)| e.1 is Str).map_values(
            |e: (Seq<char>, JsonV)| (e.0, e.1->Str_0),
        ),
        forall|k: Seq<char>, v: Seq<char>|
            #[trigger] string_members(entries).contains((k, v)) <==> entries.contains((k, JsonV::Str(v))),
    decreases entries.len(),
{
    reveal(Seq::filter);
    if entries.len() > 0 {
        lemma_string_members_exact(entries.drop_last());
        let f = entries.drop_last().filter(|e: (Seq<char>, JsonV)| e.1 is Str);
        match entries.last().1 {
            JsonV::Str(s) => {
                assert(f.push(entries.last()).map_values(|e: (Seq<char>, JsonV)| (e.0, e.1->Str_0)) =~= f.map_values(
                    |e: (Seq<char>, JsonV)| (e.0, e.1->Str_0),
                ).push((entries.last().0, s)));
            },
            _ => {},
        }
        assert forall|k: Seq<char>, v: Seq<char>|
            #[trigger] string_members(entries).contains((k, v)) <==> entries.contains((k, JsonV::Str(v))) by {
            let p = string_members(entries.drop_last());
            if string_members(entries).contains((k, v)) {
                let j = choose|j: int| 0 <= j < string_members(entries).len() && string_members(entries)[j] == (k, v);
                if j < p.len() {
                    assert(string_members(entries)[j] == p[j]);
                    assert(p.contains((k, v)));
                    let i = choose|i: int|
                        0 <= i < entries.drop_last().len() && entries.drop_last()[i] == (k, JsonV::Str(v));
                    assert(entries[i] == (k, JsonV::Str(v)));
                } else {
                    assert(entries[entries.len() - 1] == (k, JsonV::Str(v)));
                }
            }
            if entries.contains((k, JsonV::Str(v))) {
                let i = choose|i: int| 0 <= i < entries.len() && entries[i] == (k, JsonV::Str(v));
                if i < entries.len() - 1 {
                    assert(entries.drop_last()[i] == (k, JsonV::Str(v)));
                    assert(entries.drop_last().contains((k, JsonV::Str(v))));
                    assert(p.contains((k, v)));
                    let j = choose|j: int| 0 <= j < p.len() && p[j] == (k, v);
                    assert(string_members(entries)[j] == (k, v));
                } else {
                    assert(string_members(entries)[p.len() as int] == (k, v));
                }
            }
        }
    }
}

/// Law: a server imported without a `url` string gets as its environment the
/// members of the document's `env` object that have string values, in order:
/// `(k, v)` is in it if and only if `env` has the member `k` with the string
/// `v`. Likewise its arguments are the string items of `args`, in order.
pub proof fn lemma_imported_env_and_args(name: Seq<char>, def: JsonV)
    requires
        jstr_opt(jget(def, "url"@)) is None,
    ensures
        jget(def, "env"@) matches Some(JsonV::Object(members)) ==> {
            &&& import_entry(name, def).env is Some
            &&& import_entry(name, def).env->Some_0 == members.filter(|e: (Seq<char>, JsonV)| e.1 is Str).map_values(
                |e: (Seq<char>, JsonV)| (e.0, e.1->Str_0),
            )
            &&& forall|k: Seq<char>, v: Seq<char>|
                #[trigger] import_entry(name, def).env->Some_0.contains((k, v)) <==> members.contains(
                    (k, JsonV::Str(v)),
                )
        },
        jget(def, "args"@) matches Some(JsonV::Array(items)) ==> {
            &&& import_entry(name, def).args is Some
            &&& import_entry(name, def).args->Some_0 == items.filter(|v: JsonV| v is Str).map_values(
                |v: JsonV| v->Str_0,
            )
            &&& forall|s: Seq<char>|
                #[trigger] import_entry(name, def).args->Some_0.contains(s) <==> items.contains(JsonV::Str(s))
        },
        import_entry(name, def).transport == Transport::Stdio,
        import_entry(name, def).name == name,
        import_entry(name, def).command == jstr_opt(jget(def, "command"@)),
{
    match jget(def, "env"@) {
        Some(JsonV::Object(members)) => lemma_string_members_exact(members),
        _ => {},
    }
    match jget(def, "args"@) {
        Some(JsonV::Array(items)) => lemma_string_items_exact(items),
        _ => {},
    }
}

/// Law: the imported entries are, in document order, one for each member of
/// `mcpServers` whose name is not configured, made from that member alone.
pub proof fn lemma_imports_in_order(existing: Seq<Seq<char>>, members: Seq<(Seq<char>, JsonV)>)
    ensures
        imports(existing, members) == members.filter(|m: (Seq<char>, JsonV)| !existing.contains(m.0)).map_values(
            |m: (Seq<char>, JsonV)| import_entry(m.0, m.1),
        ),
    decreases members.len(),
{
    reveal(Seq::filter);
    if members.len() > 0 {
        lemma_imports_in_order(existing, members.drop_last());
        let f = members.drop_last().filter(|m: (Seq<char>, JsonV)| !existing.contains(m.0));
        let m = members.last();
        if !existing.contains(m.0) {
            assert(f.push(m).map_values(|m: (Seq<char>, JsonV)| import_entry(m.0, m.1)) =~= f.map_values(
                |m: (Seq<char>, JsonV)| import_entry(m.0, m.1),
            ).push(import_entry(m.0, m.1)));
        }
    }
}

} // verus!
