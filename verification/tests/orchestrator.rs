use rmule::{collect_candidates, process_source_response, ParsedServer, ServerList};

fn candidate(ip: u32, name: &str, source: &str) -> ParsedServer {
    ParsedServer {
        source: source.to_string(),
        ip_addr: ip,
        port: 4661,
        name: Some(name.to_string()),
        description: None,
        user_count: None,
        low_id_user_count: None,
        ping: None,
        country: None,
        max_user_count: None,
        file_count: None,
        soft_file_limit: None,
        hard_file_limit: None,
        udp_flags: None,
        version: None,
        last_ping_time: None,
        udp_key: None,
        udp_key_ip_addr: None,
        tcp_obfuscation_port: None,
        udp_obfuscation_port: None,
        dns: None,
        priority: None,
        aux_ports_list: None,
        fail_count: None,
    }
}

fn one_server_file(ip: [u8; 4], name: &str) -> Vec<u8> {
    let mut out = vec![0x0E, 1, 0, 0, 0];
    out.extend_from_slice(&ip);
    out.extend_from_slice(&[0x35, 0x12]);  // port 4661 little-endian
    out.extend_from_slice(&[1, 0, 0, 0]);  // one tag
    out.push(0x82);
    out.push(0x01);
    out.extend_from_slice(&[name.len() as u16 as u8, 0]);
    out.extend_from_slice(name.as_bytes());
    out
}

fn ip_u32(o: [u8; 4]) -> u32 {
    u32::from_be_bytes(o)
}

#[test]
fn transport_failure_yields_empty_unsuccessful_outcome() {
    let r = process_source_response("http://down.example", None);
    assert!(r.servers.is_empty());
    assert!(!r.ok);
}

#[test]
fn empty_body_yields_empty_successful_outcome() {
    let r = process_source_response("http://empty.example", Some(Vec::new()));
    assert!(r.servers.is_empty());
    assert!(r.ok);
}

#[test]
fn decode_failure_is_downgraded_to_empty_outcome() {
    let r = process_source_response("http://bad.example", Some(vec![0x42, 1, 2, 3]));
    assert!(r.servers.is_empty());
    assert!(!r.ok);
}

#[test]
fn good_body_yields_its_servers() {
    let r = process_source_response("http://ok.example", Some(one_server_file([9, 8, 7, 6], "n")));
    assert!(r.ok);
    assert_eq!(r.servers.len(), 1);
    assert_eq!(r.servers[0].ip_addr, ip_u32([9, 8, 7, 6]));
    assert_eq!(r.servers[0].source, "http://ok.example");
}

#[test]
fn one_failed_source_leaves_the_others_in_the_candidate_list() {
    let s1 = process_source_response("http://one.example", Some(one_server_file([1, 0, 0, 1], "one")));
    let s2 = process_source_response("http://two.example", None);  // timed out
    let s3 = process_source_response(
        "http://three.example",
        Some(one_server_file([3, 0, 0, 3], "three")),
    );
    let failed = [&s1, &s2, &s3].iter().filter(|o| !o.ok).count();
    assert_eq!(failed, 1);
    let merged = collect_candidates(vec![s1.servers, s2.servers, s3.servers]);
    let ips: Vec<u32> = merged.iter().map(|s| s.ip_addr).collect();
    assert_eq!(ips, vec![ip_u32([1, 0, 0, 1]), ip_u32([3, 0, 0, 3])]);
}

#[test]
fn collect_sorts_by_ip_and_drops_duplicates() {
    let lists = vec![
        vec![candidate(30, "c", "s1"), candidate(10, "a", "s1")],
        vec![candidate(20, "b", "s2"), candidate(10, "dup", "s2")],
    ];
    let merged = collect_candidates(lists);
    let ips: Vec<u32> = merged.iter().map(|s| s.ip_addr).collect();
    assert_eq!(ips, vec![10, 20, 30]);
    // The surviving entry for IP 10 is the first in concatenated order.
    assert_eq!(merged[0].name.as_deref(), Some("a"));
}

#[test]
fn tie_break_prefers_the_first_listed_source() {
    let a = candidate(10, "from first", "s1");
    let b = candidate(10, "from second", "s2");
    let merged = collect_candidates(vec![vec![a.clone_entry()], vec![b.clone_entry()]]);
    assert_eq!(merged.len(), 1);
    assert_eq!(merged[0].name.as_deref(), Some("from first"));
    assert_eq!(merged[0].source, "s1");

    // Swapping the input order swaps the winner: the tie-break depends
    // only on the order of the lists, nothing else.
    let merged2 = collect_candidates(vec![vec![b], vec![a]]);
    assert_eq!(merged2.len(), 1);
    assert_eq!(merged2[0].name.as_deref(), Some("from second"));
    assert_eq!(merged2[0].source, "s2");
}

#[test]
fn whole_refresh_reports_inserts_updates_and_failures() {
    // An existing collection with one known server.
    let mut collection = ServerList::new();
    collection.merge_parsed_servers(&[candidate(0x01000001, "known", "manual")], 100);

    // Three sources: one brings the known address with new fields, one
    // times out, one brings a new address.
    let s1 = process_source_response(
        "http://one.example",
        Some(one_server_file([1, 0, 0, 1], "known, renamed")),
    );
    let s2 = process_source_response("http://two.example", None);
    let s3 = process_source_response(
        "http://three.example",
        Some(one_server_file([2, 0, 0, 2], "brand new")),
    );
    let failed = [&s1, &s2, &s3].iter().filter(|o| !o.ok).count();
    let candidates = collect_candidates(vec![s1.servers, s2.servers, s3.servers]);
    let (inserted, updated) = collection.merge_parsed_servers(&candidates, 200);
    assert_eq!((inserted, updated, failed), (1, 1, 1));
    assert_eq!(collection.len(), 2);
    assert_eq!(collection.servers()[0].name.as_deref(), Some("known, renamed"));
    assert_eq!(collection.servers()[0].created, 100);
    assert_eq!(collection.servers()[1].name.as_deref(), Some("brand new"));
    assert_eq!(collection.servers()[1].created, 200);
}

#[test]
fn equal_ips_within_one_source_keep_the_earliest_entry() {
    let lists = vec![vec![
        candidate(10, "early", "s1"),
        candidate(10, "late", "s1"),
        candidate(5, "small", "s1"),
    ]];
    let merged = collect_candidates(lists);
    let ips: Vec<u32> = merged.iter().map(|s| s.ip_addr).collect();
    assert_eq!(ips, vec![5, 10]);
    assert_eq!(merged[1].name.as_deref(), Some("early"));
}
