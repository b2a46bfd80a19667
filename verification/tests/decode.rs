use rmule::{parse_servers, DecodeError, ServerPriority, ServerUdpFlags};

fn push_u16_le(out: &mut Vec<u8>, v: u16) {
    out.push((v & 0xFF) as u8);
    out.push((v >> 8) as u8);
}

fn push_u32_le(out: &mut Vec<u8>, v: u32) {
    out.push((v & 0xFF) as u8);
    out.push(((v >> 8) & 0xFF) as u8);
    out.push(((v >> 16) & 0xFF) as u8);
    out.push(((v >> 24) & 0xFF) as u8);
}

fn push_file_header(out: &mut Vec<u8>, header: u8, count: u32) {
    out.push(header);
    push_u32_le(out, count);
}

fn push_server_header(out: &mut Vec<u8>, ip: [u8; 4], port: u16, tag_count: u32) {
    out.extend_from_slice(&ip);
    push_u16_le(out, port);
    push_u32_le(out, tag_count);
}

/// A string tag in the short form: type byte with the high bit set,
/// then the one-byte numeric name.
fn push_string_tag_short(out: &mut Vec<u8>, id: u8, s: &str) {
    out.push(0x82);
    out.push(id);
    push_u16_le(out, s.len() as u16);
    out.extend_from_slice(s.as_bytes());
}

fn push_num_tag_short(out: &mut Vec<u8>, id: u8, v: u32) {
    out.push(0x83);
    out.push(id);
    push_u32_le(out, v);
}

/// A string tag in the long form with a one-byte numeric name.
fn push_string_tag_long(out: &mut Vec<u8>, id: u8, s: &str) {
    out.push(0x02);
    push_u16_le(out, 1);
    out.push(id);
    push_u16_le(out, s.len() as u16);
    out.extend_from_slice(s.as_bytes());
}

fn push_num_tag_long(out: &mut Vec<u8>, id: u8, v: u32) {
    out.push(0x03);
    push_u16_le(out, 1);
    out.push(id);
    push_u32_le(out, v);
}

/// A string tag with a textual name.
fn push_string_tag_named(out: &mut Vec<u8>, name: &str, s: &str) {
    out.push(0x02);
    push_u16_le(out, name.len() as u16);
    out.extend_from_slice(name.as_bytes());
    push_u16_le(out, s.len() as u16);
    out.extend_from_slice(s.as_bytes());
}

fn push_num_tag_named(out: &mut Vec<u8>, name: &str, v: u32) {
    out.push(0x03);
    push_u16_le(out, name.len() as u16);
    out.extend_from_slice(name.as_bytes());
    push_u32_le(out, v);
}

fn ip_u32(octets: [u8; 4]) -> u32 {
    ((octets[0] as u32) << 24) | ((octets[1] as u32) << 16) | ((octets[2] as u32) << 8)
        | (octets[3] as u32)
}

/// A file equivalent in decoded content to the six-entry minimal list,
/// carrying only server names and descriptions.
fn minimal_six_entry_file() -> Vec<u8> {
    let entries: [([u8; 4], u16, &str, &str); 6] = [
        ([212, 83, 184, 152], 7111, "PeerBooter", "eDonkey bridge for kademlia users"),
        ([183, 136, 232, 234], 4244, "WEB", "eserver 17.15"),
        ([80, 208, 228, 241], 8369, "eMule Security", "www.emule-security.org"),
        ([62, 210, 28, 77], 7111, "PEERATES.NET", "http://edk.peerates.net"),
        ([47, 37, 145, 12], 28288, "new server", "edonkey server"),
        ([91, 208, 184, 143], 4232, "!! Sharing-Devils No.1 !!", "https://forum.sharing-devils.to"),
    ];
    let mut out = Vec::new();
    push_file_header(&mut out, 0x0E, 6);
    for (i, (ip, port, name, desc)) in entries.iter().enumerate() {
        push_server_header(&mut out, *ip, *port, 2);
        if i % 2 == 0 {
            push_string_tag_short(&mut out, 0x01, name);
            push_string_tag_long(&mut out, 0x0B, desc);
        } else {
            push_string_tag_long(&mut out, 0x01, name);
            push_string_tag_short(&mut out, 0x0B, desc);
        }
    }
    out
}

/// A ten-entry file whose first entry carries most known tags, matching
/// the maximal fixture's decoded content.
fn maximal_ten_entry_file() -> Vec<u8> {
    let mut out = Vec::new();
    push_file_header(&mut out, 0xE0, 10);
    push_server_header(&mut out, [176, 123, 5, 89], 4725, 12);
    push_string_tag_short(&mut out, 0x01, "eMule Sunrise");
    push_string_tag_short(&mut out, 0x0B, "Not perfect, but real");
    push_num_tag_named(&mut out, "users", 10_114);
    push_num_tag_named(&mut out, "lowusers", 7_583);
    push_num_tag_named(&mut out, "files", 5_120_913);
    push_num_tag_named(&mut out, "maxusers", 50_000);
    push_string_tag_named(&mut out, "country", "md");
    push_num_tag_short(&mut out, 0x88, 100_000);
    push_num_tag_short(&mut out, 0x89, 100_001);
    push_num_tag_short(&mut out, 0x92, 6139);
    push_num_tag_long(&mut out, 0x91, (17 << 16) | 15);
    push_num_tag_short(&mut out, 0x0C, 47);
    for i in 0..9u8 {
        push_server_header(&mut out, [10, 0, 0, i], 4661, 1);
        push_string_tag_short(&mut out, 0x01, "filler");
    }
    out
}

#[test]
fn test_parse_of_valid_server_data_minimal() {
    let input = minimal_six_entry_file();
    let servers = parse_servers("test.com", &input).unwrap();
    assert_eq!(servers.len(), 6);

    let s = &servers[0];
    assert_eq!(s.ip_addr, ip_u32([212, 83, 184, 152]));
    assert_eq!(s.port, 7111);
    assert_eq!(s.name.as_deref(), Some("PeerBooter"));
    assert_eq!(s.description.as_deref(), Some("eDonkey bridge for kademlia users"));

    let s = &servers[1];
    assert_eq!(s.ip_addr, ip_u32([183, 136, 232, 234]));
    assert_eq!(s.port, 4244);
    assert_eq!(s.name.as_deref(), Some("WEB"));
    assert_eq!(s.description.as_deref(), Some("eserver 17.15"));

    let s = &servers[2];
    assert_eq!(s.ip_addr, ip_u32([80, 208, 228, 241]));
    assert_eq!(s.port, 8369);
    assert_eq!(s.name.as_deref(), Some("eMule Security"));
    assert_eq!(s.description.as_deref(), Some("www.emule-security.org"));

    let s = &servers[3];
    assert_eq!(s.ip_addr, ip_u32([62, 210, 28, 77]));
    assert_eq!(s.port, 7111);
    assert_eq!(s.name.as_deref(), Some("PEERATES.NET"));
    assert_eq!(s.description.as_deref(), Some("http://edk.peerates.net"));

    let s = &servers[4];
    assert_eq!(s.ip_addr, ip_u32([47, 37, 145, 12]));
    assert_eq!(s.port, 28288);
    assert_eq!(s.name.as_deref(), Some("new server"));
    assert_eq!(s.description.as_deref(), Some("edonkey server"));

    let s = &servers[5];
    assert_eq!(s.ip_addr, ip_u32([91, 208, 184, 143]));
    assert_eq!(s.port, 4232);
    assert_eq!(s.name.as_deref(), Some("!! Sharing-Devils No.1 !!"));
    assert_eq!(s.description.as_deref(), Some("https://forum.sharing-devils.to"));
}

#[test]
fn parsing_test_parse_of_valid_server_data_maximal() {
    let input = maximal_ten_entry_file();
    let servers = parse_servers("test.com", &input).unwrap();
    assert_eq!(servers.len(), 10);

    let s = &servers[0];
    assert_eq!(s.ip_addr, ip_u32([176, 123, 5, 89]));
    assert_eq!(s.port, 4725);
    assert_eq!(s.name.as_deref(), Some("eMule Sunrise"));
    assert_eq!(s.description.as_deref(), Some("Not perfect, but real"));
    assert_eq!(s.user_count, Some(10_114));
    assert_eq!(s.low_id_user_count, Some(7_583));
    assert_eq!(s.file_count, Some(5_120_913));
    assert_eq!(s.max_user_count, Some(50_000));
    assert_eq!(s.country.as_deref(), Some("md"));
    assert_eq!(s.soft_file_limit, Some(100_000));
    assert_eq!(s.hard_file_limit, Some(100_001));
    assert_eq!(s.udp_flags, Some(ServerUdpFlags::from_bits_truncate(6139)));
    assert_eq!(s.version.as_deref(), Some("17.15"));
    assert_eq!(s.ping, Some(47));
}

#[test]
fn mod_test_parse_of_valid_server_data_maximal() {
    let input = maximal_ten_entry_file();
    let servers = parse_servers("shortypower.org.server.met", &input).unwrap();
    assert_eq!(servers.len(), 10);

    let s = &servers[0];
    assert_eq!(s.ip_addr, ip_u32([176, 123, 5, 89]));
    assert_eq!(s.port, 4725);
    assert_eq!(s.name.as_deref(), Some("eMule Sunrise"));
    assert_eq!(s.description.as_deref(), Some("Not perfect, but real"));
    assert_eq!(s.user_count, Some(10_114));
    assert_eq!(s.low_id_user_count, Some(7_583));
    assert_eq!(s.file_count, Some(5_120_913));
    assert_eq!(s.max_user_count, Some(50_000));
    assert_eq!(s.soft_file_limit, Some(100_000));
    assert_eq!(s.hard_file_limit, Some(100_001));
    assert_eq!(s.udp_flags, Some(ServerUdpFlags::from_bits_truncate(6139)));
    assert_eq!(s.version.as_deref(), Some("17.15"));
    assert_eq!(s.ping, Some(47));
}

#[test]
fn zero_count_decodes_to_empty_list() {
    let mut input = Vec::new();
    push_file_header(&mut input, 0x0E, 0);
    let servers = parse_servers("test.com", &input).unwrap();
    assert!(servers.is_empty());
}

#[test]
fn minimal_record_leaves_other_fields_absent() {
    let mut input = Vec::new();
    push_file_header(&mut input, 0x0E, 1);
    push_server_header(&mut input, [1, 2, 3, 4], 4661, 2);
    push_string_tag_short(&mut input, 0x01, "X");
    push_string_tag_short(&mut input, 0x0B, "Y");
    let servers = parse_servers("test.com", &input).unwrap();
    assert_eq!(servers.len(), 1);
    let s = &servers[0];
    assert_eq!(s.name.as_deref(), Some("X"));
    assert_eq!(s.description.as_deref(), Some("Y"));
    assert_eq!(s.user_count, None);
    assert_eq!(s.low_id_user_count, None);
    assert_eq!(s.ping, None);
    assert_eq!(s.country, None);
    assert_eq!(s.max_user_count, None);
    assert_eq!(s.file_count, None);
    assert_eq!(s.soft_file_limit, None);
    assert_eq!(s.hard_file_limit, None);
    assert_eq!(s.udp_flags, None);
    assert_eq!(s.version, None);
    assert_eq!(s.last_ping_time, None);
    assert_eq!(s.udp_key, None);
    assert_eq!(s.udp_key_ip_addr, None);
    assert_eq!(s.tcp_obfuscation_port, None);
    assert_eq!(s.udp_obfuscation_port, None);
    assert_eq!(s.dns, None);
    assert_eq!(s.priority, None);
    assert_eq!(s.aux_ports_list, None);
    assert_eq!(s.fail_count, None);
}

#[test]
fn bad_header_byte_fails_deterministically() {
    let mut input = Vec::new();
    push_file_header(&mut input, 0x42, 1);
    let r = parse_servers("test.com", &input);
    assert_eq!(r.err(), Some(DecodeError::HeaderInvalid(0x42)));
    // Decoding the same bytes again gives the same failure.
    let r2 = parse_servers("test.com", &input);
    assert_eq!(r2.err(), Some(DecodeError::HeaderInvalid(0x42)));
}

#[test]
fn empty_input_is_truncated() {
    let r = parse_servers("test.com", &[]);
    assert_eq!(r.err(), Some(DecodeError::Truncated));
}

#[test]
fn truncated_record_fails_whole_file() {
    let mut input = Vec::new();
    push_file_header(&mut input, 0x0E, 2);
    push_server_header(&mut input, [1, 2, 3, 4], 4661, 0);
    // The second promised record is missing entirely.
    let r = parse_servers("test.com", &input);
    assert_eq!(r.err(), Some(DecodeError::Truncated));
}

#[test]
fn unknown_tags_are_ignored_and_decoding_continues() {
    let mut input = Vec::new();
    push_file_header(&mut input, 0x0E, 2);
    push_server_header(&mut input, [1, 2, 3, 4], 4661, 3);
    push_num_tag_short(&mut input, 0x50, 123);
    push_string_tag_named(&mut input, "zzz", "whatever");
    push_string_tag_short(&mut input, 0x01, "still here");
    push_server_header(&mut input, [5, 6, 7, 8], 4662, 1);
    push_string_tag_short(&mut input, 0x01, "second");
    let servers = parse_servers("test.com", &input).unwrap();
    assert_eq!(servers.len(), 2);
    assert_eq!(servers[0].name.as_deref(), Some("still here"));
    assert_eq!(servers[1].name.as_deref(), Some("second"));
}

#[test]
fn invalid_tag_type_is_fatal() {
    let mut input = Vec::new();
    push_file_header(&mut input, 0x0E, 1);
    push_server_header(&mut input, [1, 2, 3, 4], 4661, 1);
    input.push(0x84);  // type 4 in short form
    input.push(0x01);
    push_u32_le(&mut input, 0);
    let r = parse_servers("test.com", &input);
    assert_eq!(r.err(), Some(DecodeError::InvalidTagType(4)));
}

#[test]
fn priority_wire_values_decode_exactly() {
    for (wire, expected) in [
        (0u32, ServerPriority::Normal),
        (1, ServerPriority::High),
        (2, ServerPriority::Low),
    ] {
        let mut input = Vec::new();
        push_file_header(&mut input, 0x0E, 1);
        push_server_header(&mut input, [1, 2, 3, 4], 4661, 1);
        push_num_tag_short(&mut input, 0x0E, wire);
        let servers = parse_servers("test.com", &input).unwrap();
        assert_eq!(servers[0].priority, Some(expected));
    }
}

#[test]
fn out_of_range_priority_is_fatal() {
    let mut input = Vec::new();
    push_file_header(&mut input, 0x0E, 1);
    push_server_header(&mut input, [1, 2, 3, 4], 4661, 1);
    push_num_tag_short(&mut input, 0x0E, 3);
    let r = parse_servers("test.com", &input);
    assert_eq!(r.err(), Some(DecodeError::InvalidPriority(3)));
}

#[test]
fn string_value_on_numeric_tag_is_fatal() {
    let mut input = Vec::new();
    push_file_header(&mut input, 0x0E, 1);
    push_server_header(&mut input, [1, 2, 3, 4], 4661, 1);
    push_num_tag_short(&mut input, 0x01, 7);  // server name with a number
    let r = parse_servers("test.com", &input);
    assert_eq!(r.err(), Some(DecodeError::TagValueMismatch));
}

#[test]
fn invalid_utf8_in_string_value_is_fatal() {
    let mut input = Vec::new();
    push_file_header(&mut input, 0x0E, 1);
    push_server_header(&mut input, [1, 2, 3, 4], 4661, 1);
    input.push(0x82);
    input.push(0x01);
    push_u16_le(&mut input, 2);
    input.push(0xFF);
    input.push(0xFE);
    let r = parse_servers("test.com", &input);
    assert_eq!(r.err(), Some(DecodeError::InvalidUtf8));
}

#[test]
fn obfuscation_port_out_of_range_is_fatal() {
    let mut input = Vec::new();
    push_file_header(&mut input, 0x0E, 1);
    push_server_header(&mut input, [1, 2, 3, 4], 4661, 1);
    push_num_tag_short(&mut input, 0x97, 70_000);
    let r = parse_servers("test.com", &input);
    assert_eq!(r.err(), Some(DecodeError::PortOutOfRange(70_000)));
}

#[test]
fn aux_ports_list_skips_blank_pieces() {
    let mut input = Vec::new();
    push_file_header(&mut input, 0x0E, 1);
    push_server_header(&mut input, [1, 2, 3, 4], 4661, 1);
    push_string_tag_short(&mut input, 0x93, "10,20,,30");
    let servers = parse_servers("test.com", &input).unwrap();
    assert_eq!(servers[0].aux_ports_list, Some(vec![10, 20, 30]));
}

#[test]
fn whitespace_padded_aux_port_is_fatal() {
    let mut input = Vec::new();
    push_file_header(&mut input, 0x0E, 1);
    push_server_header(&mut input, [1, 2, 3, 4], 4661, 1);
    push_string_tag_short(&mut input, 0x93, "10, 20");
    let r = parse_servers("test.com", &input);
    assert_eq!(r.err(), Some(DecodeError::InvalidAuxPorts));
}

#[test]
fn malformed_aux_ports_list_is_fatal() {
    let mut input = Vec::new();
    push_file_header(&mut input, 0x0E, 1);
    push_server_header(&mut input, [1, 2, 3, 4], 4661, 1);
    push_string_tag_short(&mut input, 0x93, "12,abc");
    let r = parse_servers("test.com", &input);
    assert_eq!(r.err(), Some(DecodeError::InvalidAuxPorts));
}

#[test]
fn numeric_version_renders_major_dot_minor() {
    let mut input = Vec::new();
    push_file_header(&mut input, 0x0E, 1);
    push_server_header(&mut input, [1, 2, 3, 4], 4661, 1);
    push_num_tag_short(&mut input, 0x91, (3 << 16) | 1415);
    let servers = parse_servers("test.com", &input).unwrap();
    assert_eq!(servers[0].version.as_deref(), Some("3.1415"));
}

#[test]
fn udp_flags_truncate_unknown_bits() {
    let mut input = Vec::new();
    push_file_header(&mut input, 0x0E, 1);
    push_server_header(&mut input, [1, 2, 3, 4], 4661, 1);
    push_num_tag_short(&mut input, 0x92, 6139);
    let servers = parse_servers("test.com", &input).unwrap();
    let flags = servers[0].udp_flags.unwrap();
    assert_eq!(flags.bits(), 1851);

    let mut input2 = Vec::new();
    push_file_header(&mut input2, 0x0E, 1);
    push_server_header(&mut input2, [1, 2, 3, 4], 4661, 1);
    push_num_tag_short(&mut input2, 0x92, 0x10000);
    let servers2 = parse_servers("test.com", &input2).unwrap();
    assert_eq!(servers2[0].udp_flags.unwrap().bits(), 0);
}

#[test]
fn repeated_tags_keep_the_last_value() {
    let mut input = Vec::new();
    push_file_header(&mut input, 0x0E, 1);
    push_server_header(&mut input, [1, 2, 3, 4], 4661, 2);
    push_string_tag_short(&mut input, 0x01, "first");
    push_string_tag_short(&mut input, 0x01, "second");
    let servers = parse_servers("test.com", &input).unwrap();
    assert_eq!(servers[0].name.as_deref(), Some("second"));
}

#[test]
fn both_header_bytes_are_accepted() {
    for header in [0x0Eu8, 0xE0] {
        let mut input = Vec::new();
        push_file_header(&mut input, header, 0);
        assert!(parse_servers("test.com", &input).is_ok());
    }
}

#[test]
fn source_label_is_recorded_on_every_entry() {
    let input = minimal_six_entry_file();
    let servers = parse_servers("http://example.org/server.met", &input).unwrap();
    for s in &servers {
        assert_eq!(s.source, "http://example.org/server.met");
    }
}
