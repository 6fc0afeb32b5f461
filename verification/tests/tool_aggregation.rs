use meta_mcp::aggregate::{assemble_cache, plan_tool_listing, server_status, tools_for_ui, tools_list_payload, CachedTools, ListedTools};
use meta_mcp::config::{ServerEntry, Transport};
use meta_mcp::json::JsonValue;
use meta_mcp::routing::{find_server_for_slug, prefixed_name, resolve_tool, split_prefixed, RouteError};
use meta_mcp::slug::{build_slugs, contains_id, slugify, SlugEntry};

fn s(x: &str) -> String {
    x.to_string()
}

fn obj(members: Vec<(&str, JsonValue)>) -> JsonValue {
    JsonValue::Object(members.into_iter().map(|(k, v)| (k.to_string(), v)).collect())
}

fn text(x: &str) -> JsonValue {
    JsonValue::String(x.to_string())
}

fn server(id: &str, name: &str, transport: Transport) -> ServerEntry {
    ServerEntry {
        id: s(id),
        name: s(name),
        transport,
        command: None,
        args: None,
        env: None,
        url: None,
        headers: None,
        active: true,
    }
}

#[test]
fn slugs_are_lowercase_words_joined_once() {
    assert_eq!(slugify("GitHub Tools"), "github_tools");
    assert_eq!(slugify("  --My__Server!! 2 "), "my_server_2");
    assert_eq!(slugify("A.B"), "a_b");
    assert_eq!(slugify("äöü"), "");
    assert_eq!(slugify(""), "");
    assert!(!slugify("x  __  y").contains("__"));
}

#[test]
fn slug_collisions_get_suffixes() {
    let servers = vec![
        server("1111-aaaa", "Files", Transport::Stdio),
        server("2222-bbbb", "files", Transport::Stdio),
        server("3333-cccc", "!!!", Transport::Stdio),
        server("4444-dddd", "Files", Transport::Stdio),
        server("5555-eeee", "Inactive", Transport::Stdio),
    ];
    let active = vec![s("1111-aaaa"), s("2222-bbbb"), s("3333-cccc"), s("4444-dddd")];
    let t = build_slugs(&servers, &active);
    let pairs: Vec<(String, String)> = t.iter().map(|e| (e.server_id.clone(), e.slug.clone())).collect();
    assert_eq!(
        pairs,
        vec![
            (s("1111-aaaa"), s("files")),
            (s("2222-bbbb"), s("files_2")),
            (s("3333-cccc"), s("server_3333")),
            (s("4444-dddd"), s("files_3")),
        ]
    );
    assert!(contains_id(&active, &s("3333-cccc")));
    assert!(!contains_id(&active, &s("5555-eeee")));
}

#[test]
fn prefix_and_split_round_trip() {
    let p = prefixed_name("github", "create__issue");
    assert_eq!(p, "github__create__issue");
    assert_eq!(split_prefixed(&p), Some((s("github"), s("create__issue"))));
    assert_eq!(split_prefixed("noprefix"), None);
    assert_eq!(split_prefixed("__x"), Some((s(""), s("x"))));
}

#[test]
fn routing_errors() {
    let table = vec![SlugEntry { server_id: s("id-1"), slug: s("files") }];
    assert_eq!(find_server_for_slug(&table, &s("files")), Some(s("id-1")));
    let t = resolve_tool(&table, "files__read").ok().unwrap();
    assert_eq!((t.server_id.as_str(), t.slug.as_str(), t.original.as_str()), ("id-1", "files", "read"));
    match resolve_tool(&table, "read") {
        Err(e @ RouteError::NoPrefix(_)) => assert_eq!(e.message(), "tool name 'read' has no server prefix"),
        _ => panic!("expected NoPrefix"),
    }
    match resolve_tool(&table, "web__get") {
        Err(e @ RouteError::NoActiveServer(_)) => assert_eq!(e.message(), "no active server for prefix 'web'"),
        _ => panic!("expected NoActiveServer"),
    }
    assert_eq!(RouteError::NotConnected(s("files")).message(), "server 'files' is not connected");
}

fn listed() -> Vec<ListedTools> {
    vec![
        ListedTools {
            server_id: s("id-1"),
            server_name: s("Files"),
            slug: s("files"),
            tools: vec![
                obj(vec![("name", text("read")), ("description", text("Read a file"))]),
                obj(vec![("description", text("nameless"))]),
                obj(vec![("name", text(""))]),
            ],
        },
        ListedTools { server_id: s("id-2"), server_name: s("Web"), slug: s("web"), tools: vec![obj(vec![("name", text("get"))])] },
    ]
}

#[test]
fn cache_prefixes_tool_names() {
    let cache = assemble_cache(&listed());
    let names: Vec<&str> = cache.tools.iter().map(|t| t.prefixed_name.as_str()).collect();
    assert_eq!(names, vec!["files__read", "web__get"]);
    assert_eq!(cache.tools[0].tool_json.get("name").unwrap().as_str().unwrap(), "files__read");
    assert_eq!(cache.tools[0].tool_json.get("description").unwrap().as_str().unwrap(), "Read a file");
    assert_eq!(cache.slug_to_id.len(), 2);
    let ui = tools_for_ui(&cache);
    assert_eq!(ui[0].description.as_deref(), Some("Read a file"));
    assert_eq!(ui[1].description, None);
    assert_eq!(ui[1].server_name, "Web");
    let payload = tools_list_payload(&Some(cache));
    assert_eq!(payload.len(), 2);
    assert!(tools_list_payload(&None).is_empty());
}

#[test]
fn listing_asks_active_connected_servers() {
    let servers = vec![server("a", "A", Transport::Stdio), server("b", "B", Transport::Http), server("c", "C", Transport::Sse)];
    let active = vec![s("a"), s("b")];
    let slugs = build_slugs(&servers, &active);
    let connected = vec![s("b"), s("c")];
    let plan = plan_tool_listing(&servers, &active, &slugs, &connected);
    assert_eq!(plan.len(), 1);
    assert_eq!((plan[0].server_id.as_str(), plan[0].server_name.as_str(), plan[0].slug.as_str()), ("b", "B", "b"));
}

#[test]
fn status_per_server() {
    let servers = vec![server("id-1", "Files", Transport::Stdio), server("id-2", "Web", Transport::Http), server("id-3", "Off", Transport::Sse)];
    let cache: Option<CachedTools> = Some(assemble_cache(&listed()));
    let st = server_status(
        &servers,
        &vec![s("id-1"), s("id-2")],
        &vec![s("id-1")],
        &vec![s("id-2")],
        &vec![],
        &cache,
    );
    assert_eq!(st.len(), 3);
    assert!(st[0].active && st[0].connected && !st[0].needs_auth);
    assert_eq!(st[0].tool_count, 1);
    assert!(st[1].active && !st[1].connected && st[1].needs_auth && !st[1].authenticated);
    assert_eq!(st[1].tool_count, 1);
    assert!(!st[2].active && st[2].tool_count == 0);
}

#[test]
fn listed_tools_route_home() {
    let cache = assemble_cache(&listed());
    for t in &cache.tools {
        let target = resolve_tool(&cache.slug_to_id, &t.prefixed_name).ok().unwrap();
        assert_eq!(target.server_id, t.server_id);
    }
    let target = resolve_tool(&cache.slug_to_id, "files__read").ok().unwrap();
    assert_eq!(target.original, "read");
    // A fallback slug that ends with `_` does not route back.
    let odd = vec![ListedTools { server_id: s(""), server_name: s("!!!"), slug: s("server_"), tools: vec![obj(vec![("name", text("t"))])] }];
    let cache = assemble_cache(&odd);
    assert_eq!(cache.tools[0].prefixed_name, "server___t");
    assert!(resolve_tool(&cache.slug_to_id, "server___t").is_err());
}

#[test]
fn slugify_is_idempotent_and_ignores_case() {
    for name in ["GitHub Tools", "  --My__Server!! 2 ", "äöü x", "", "a_b__c", "Files 2_"] {
        let slug = slugify(name);
        assert_eq!(slugify(&slug), slug);
        assert_eq!(slugify(&name.to_ascii_uppercase()), slug);
    }
}

#[test]
fn fallback_slugs_route_when_the_short_id_is_usable() {
    let servers = vec![server("ab12-cd", "!!!", Transport::Stdio), server("-x", "???", Transport::Stdio)];
    let active = vec![s("ab12-cd"), s("-x")];
    let t = build_slugs(&servers, &active);
    assert_eq!(t[0].slug, "server_ab12");
    assert_eq!(split_prefixed(&prefixed_name(&t[0].slug, "read__x")), Some((s("server_ab12"), s("read__x"))));
    // An empty short id gives `server_`, which does not split back.
    assert_eq!(t[1].slug, "server_");
    assert_ne!(split_prefixed(&prefixed_name(&t[1].slug, "t")), Some((s("server_"), s("t"))));
}
