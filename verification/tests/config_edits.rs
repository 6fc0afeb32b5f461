use meta_mcp::reconcile::note_connect_result;
use meta_mcp::change::{same_config, same_server};
use meta_mcp::config::{Config, Profile, ServerEntry, Transport};

fn s(x: &str) -> String {
    x.to_string()
}

fn server(id: &str, name: &str, active: bool) -> ServerEntry {
    ServerEntry {
        id: s(id),
        name: s(name),
        transport: Transport::Stdio,
        command: Some(s("run")),
        args: None,
        env: None,
        url: None,
        headers: None,
        active,
    }
}

fn empty() -> Config {
    Config { servers: vec![], profiles: vec![], active_profile: None }
}

fn is_uuid(x: &str) -> bool {
    x.len() == 36 && x.as_bytes()[14] == b'4' && x.chars().filter(|c| *c == '-').count() == 4
}

#[test]
fn save_server_assigns_and_keeps_ids() {
    let mut c = empty();
    let id = c.save_server(server("", "A", true));
    assert!(is_uuid(&id));
    let id2 = c.save_server(server("fixed", "B", false));
    assert_eq!(id2, "fixed");
    let again = c.save_server(server(&id, "A2", false));
    assert_eq!(again, id);
    assert_eq!(c.servers.len(), 2);
    assert_eq!(c.servers[0].name, "A2");
}

#[test]
fn active_ids_follow_profile_or_toggles() {
    let mut c = empty();
    c.save_server(server("a", "A", true));
    c.save_server(server("b", "B", false));
    assert_eq!(c.active_ids(), vec![s("a")]);
    let (pid, was_active) = c.save_profile(Profile { id: s("p"), name: s("P"), active_server_ids: vec![s("b"), s("b")] });
    assert_eq!(pid, "p");
    assert!(!was_active);
    c.set_active_profile(Some(s("p")));
    assert_eq!(c.active_ids(), vec![s("b")]);
    c.set_active_profile(None);
    assert_eq!(c.active_ids(), vec![s("a")]);
    c.set_active_profile(Some(s("missing")));
    assert!(c.active_ids().is_empty());
}

#[test]
fn deleting_a_server_forgets_it_everywhere() {
    let mut c = empty();
    c.save_server(server("a", "A", true));
    c.save_server(server("b", "B", true));
    c.save_profile(Profile { id: s("p"), name: s("P"), active_server_ids: vec![s("a"), s("b")] });
    c.delete_server(&s("a"));
    assert_eq!(c.servers.len(), 1);
    assert_eq!(c.profiles[0].active_server_ids, vec![s("b")]);
    c.set_server_active(&s("b"), false);
    assert!(!c.servers[0].active);
    c.set_server_active(&s("zzz"), true);
    assert!(!c.servers[0].active);
}

#[test]
fn deleting_the_active_profile_clears_it() {
    let mut c = empty();
    c.save_profile(Profile { id: s("p"), name: s("P"), active_server_ids: vec![] });
    c.set_active_profile(Some(s("p")));
    let (_, is_active) = c.save_profile(Profile { id: s("p"), name: s("P2"), active_server_ids: vec![] });
    assert!(is_active);
    assert!(c.delete_profile(&s("p")));
    assert!(c.profiles.is_empty());
    assert!(c.active_profile.is_none());
    assert!(!c.delete_profile(&s("p")));
}

#[test]
fn register_matches_by_name() {
    let mut c = empty();
    c.save_server(server("a", "Notes", false));
    let stored = c.register_server(server("", "Notes", true));
    assert_eq!(stored.id, "a");
    assert!(stored.active);
    assert_eq!(c.servers.len(), 1);
    let other = c.register_server(server("", "Other", true));
    assert!(is_uuid(&other.id));
    assert_eq!(c.servers.len(), 2);
}

#[test]
fn configs_compare_by_value() {
    let mut a = empty();
    a.save_server(server("a", "A", true));
    let mut b = empty();
    b.save_server(server("a", "A", true));
    assert!(same_config(&a, &b));
    assert!(same_server(&a.servers[0], &b.servers[0]));
    b.set_server_active(&s("a"), false);
    assert!(!same_config(&a, &b));
    let mut c = empty();
    c.save_server(server("a", "A", true));
    c.set_active_profile(Some(s("p")));
    assert!(!same_config(&a, &c));
    let mut d = empty();
    d.save_server(ServerEntry { env: Some(vec![(s("K"), s("V"))]), ..server("a", "A", true) });
    assert!(!same_config(&a, &d));
    // Environments compare as maps: order does not matter, a later pair wins.
    let mut e = empty();
    e.save_server(ServerEntry { env: Some(vec![(s("A"), s("1")), (s("B"), s("2"))]), ..server("a", "A", true) });
    let mut f = empty();
    f.save_server(ServerEntry { env: Some(vec![(s("B"), s("2")), (s("A"), s("0")), (s("A"), s("1"))]), ..server("a", "A", true) });
    assert!(same_config(&e, &f));
    assert!(same_server(&e.servers[0], &f.servers[0]));
    let mut g = empty();
    g.save_server(ServerEntry { env: Some(vec![(s("A"), s("1"))]), ..server("a", "A", true) });
    assert!(!same_config(&e, &g));
}

#[test]
fn failed_set_tracks_connection_attempts() {
    let mut failed: Vec<String> = vec![];
    note_connect_result(&mut failed, &s("a"), false);
    note_connect_result(&mut failed, &s("a"), false);
    note_connect_result(&mut failed, &s("b"), false);
    assert_eq!(failed, vec![s("a"), s("b")]);
    note_connect_result(&mut failed, &s("a"), true);
    assert_eq!(failed, vec![s("b")]);
    note_connect_result(&mut failed, &s("zzz"), true);
    assert_eq!(failed, vec![s("b")]);
}
