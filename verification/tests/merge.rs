use rmule::{candidates_deduplicated, ParsedServer, Server, ServerList, ServerPriority};

fn candidate(ip: u32, port: u16, name: &str, source: &str) -> ParsedServer {
    ParsedServer {
        source: source.to_string(),
        ip_addr: ip,
        port,
        name: Some(name.to_string()),
        description: None,
        user_count: None,
        low_id_user_count: None,
        ping: None,
        country: None,
        max_user_count: None,
        file_count: None,
        soft_file_limit: None,
        hard_file_limit: None,
        udp_flags: None,
        version: None,
        last_ping_time: None,
        udp_key: None,
        udp_key_ip_addr: None,
        tcp_obfuscation_port: None,
        udp_obfuscation_port: None,
        dns: None,
        priority: None,
        aux_ports_list: None,
        fail_count: None,
    }
}

fn names_of(list: &ServerList) -> Vec<Option<String>> {
    list.servers().iter().map(|s| s.name.clone()).collect()
}

#[test]
fn merge_inserts_new_and_updates_existing() {
    let mut list = ServerList::new();
    let batch = vec![candidate(10, 4661, "a", "s1"), candidate(20, 4662, "b", "s1")];
    let (inserted, updated) = list.merge_parsed_servers(&batch, 1000);
    assert_eq!((inserted, updated), (2, 0));
    assert_eq!(list.len(), 2);

    // IP 10 changes its fields, IP 30 is new: exactly 1 update, 1 insert.
    let batch2 = vec![candidate(10, 5000, "a2", "s2"), candidate(30, 4663, "c", "s2")];
    let (inserted2, updated2) = list.merge_parsed_servers(&batch2, 2000);
    assert_eq!((inserted2, updated2), (1, 1));
    assert_eq!(list.len(), 3);
    let servers = list.servers();
    assert_eq!(servers[0].ip_addr, 10);
    assert_eq!(servers[0].port, 5000);
    assert_eq!(servers[0].name.as_deref(), Some("a2"));
    assert_eq!(servers[0].source, "s2");
    assert_eq!(servers[2].ip_addr, 30);
}

#[test]
fn merging_the_same_batch_twice_changes_nothing() {
    let mut list = ServerList::new();
    let batch = vec![
        candidate(10, 4661, "a", "s1"),
        candidate(20, 4662, "b", "s1"),
        candidate(30, 4663, "c", "s1"),
    ];
    let (i1, u1) = list.merge_parsed_servers(&batch, 1000);
    assert_eq!((i1, u1), (3, 0));
    let first_names = names_of(&list);
    let first_len = list.len();

    let (i2, u2) = list.merge_parsed_servers(&batch, 2000);
    assert_eq!(i2, 0);
    assert_eq!(u2, 3);
    assert_eq!(list.len(), first_len);
    assert_eq!(names_of(&list), first_names);
}

#[test]
fn merge_fully_overwrites_fields() {
    let mut list = ServerList::new();
    let mut rich = candidate(10, 4661, "a", "s1");
    rich.description = Some("described".to_string());
    rich.user_count = Some(5);
    rich.last_ping_time = Some(777);
    rich.priority = Some(ServerPriority::High);
    list.merge_parsed_servers(&[rich], 1000);
    assert_eq!(list.servers()[0].description.as_deref(), Some("described"));
    assert_eq!(list.servers()[0].user_count, Some(5));
    assert_eq!(list.servers()[0].last_ping_time, Some(777));
    assert_eq!(list.servers()[0].priority, Some(ServerPriority::High));

    // The next candidate for the same address lacks those fields, so the
    // stored entry loses them too: a full overwrite, never a sparse merge.
    let sparse = candidate(10, 4661, "a2", "s2");
    let (inserted, updated) = list.merge_parsed_servers(&[sparse], 2000);
    assert_eq!((inserted, updated), (0, 1));
    assert_eq!(list.servers()[0].description, None);
    assert_eq!(list.servers()[0].user_count, None);
    assert_eq!(list.servers()[0].last_ping_time, None);
    assert_eq!(list.servers()[0].priority, None);
    assert_eq!(list.servers()[0].name.as_deref(), Some("a2"));
}

#[test]
fn inserted_entries_are_active_with_creation_time() {
    let mut list = ServerList::new();
    list.merge_parsed_servers(&[candidate(10, 4661, "a", "s1")], 1234);
    let s = &list.servers()[0];
    assert!(s.active);
    assert_eq!(s.created, 1234);
    assert_eq!(s.updated, 1234);
    assert_eq!(s.id, 0);

    // An update does not touch the identity or the timestamps.
    let mut list2 = ServerList::new();
    list2.merge_parsed_servers(&[candidate(10, 4661, "a", "s1")], 1234);
    list2.merge_parsed_servers(&[candidate(10, 4661, "b", "s2")], 9999);
    let s2 = &list2.servers()[0];
    assert_eq!(s2.created, 1234);
    assert_eq!(s2.updated, 1234);
}

#[test]
fn from_parsed_builds_an_active_unsaved_entry() {
    let c = candidate(77, 4661, "x", "src");
    let s = Server::from_parsed(&c, 55);
    assert_eq!(s.ip_addr, 77);
    assert_eq!(s.port, 4661);
    assert!(s.active);
    assert_eq!(s.id, 0);
    assert_eq!(s.created, 55);
    assert_eq!(s.name.as_deref(), Some("x"));
    assert_eq!(s.source, "src");
    assert_eq!(s.aux_ports_list, Vec::<u16>::new());
}

#[test]
fn default_server_is_inactive_and_empty() {
    let s = Server::default();
    assert!(!s.active);
    assert_eq!(s.ip_addr, 0);
    assert_eq!(s.name, None);
    assert_eq!(s.created, 0);
}

#[test]
fn update_from_keeps_identity_fields() {
    let mut s = Server::from_parsed(&candidate(10, 4661, "a", "s1"), 100);
    s.id = 42;
    s.update_from(&candidate(99, 5000, "b", "s2"));
    // The IP address is the identity key and is never overwritten.
    assert_eq!(s.ip_addr, 10);
    assert_eq!(s.id, 42);
    assert_eq!(s.port, 5000);
    assert_eq!(s.name.as_deref(), Some("b"));
}

#[test]
fn deduplicated_guard_detects_shared_ips() {
    let good = vec![candidate(10, 1, "a", "s"), candidate(20, 2, "b", "s")];
    assert!(candidates_deduplicated(&good));
    let bad = vec![candidate(10, 1, "a", "s"), candidate(10, 2, "b", "s")];
    assert!(!candidates_deduplicated(&bad));
}

#[test]
fn server_priority_wire_round_trip() {
    for p in [ServerPriority::Low, ServerPriority::Normal, ServerPriority::High] {
        assert_eq!(ServerPriority::from_wire(p.to_wire()), Ok(p));
    }
    assert_eq!(ServerPriority::from_wire(0), Ok(ServerPriority::Normal));
    assert_eq!(ServerPriority::from_wire(1), Ok(ServerPriority::High));
    assert_eq!(ServerPriority::from_wire(2), Ok(ServerPriority::Low));
    assert!(ServerPriority::from_wire(3).is_err());
}
