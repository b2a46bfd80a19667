use vstd::prelude::*;

use vstd::string::StringExecFns;

use crate::cursor::{u16_le_at, u32_be_at, u32_le_at, ByteCursor};
use crate::error::DecodeError;
use crate::server::{ServerPriority, ServerUdpFlags};
use crate::tags::{parse_tag, spec_parse_tag, TagField, TagFieldView};

verus! {

/// One server entry decoded from a server.met file.  The address and port
/// are always present; every other field appears only when the file
/// carried the matching tag.  The IP address is held as the 32-bit value
/// of its four big-endian octets, so that numeric order is octet order.
pub struct ParsedServer {
    /// The label of the source this entry came from, usually its URL.
    pub source: String,
    pub ip_addr: u32,
    pub port: u16,
    pub name: Option<String>,
    pub description: Option<String>,
    pub user_count: Option<u32>,
    pub low_id_user_count: Option<u32>,
    pub ping: Option<u32>,
    pub country: Option<String>,
    pub max_user_count: Option<u32>,
    pub file_count: Option<u32>,
    pub soft_file_limit: Option<u32>,
    pub hard_file_limit: Option<u32>,
    pub udp_flags: Option<ServerUdpFlags>,
    pub version: Option<String>,
    pub last_ping_time: Option<u32>,
    pub udp_key: Option<u32>,
    pub udp_key_ip_addr: Option<u32>,
    pub tcp_obfuscation_port: Option<u16>,
    pub udp_obfuscation_port: Option<u16>,
    pub dns: Option<String>,
    pub priority: Option<ServerPriority>,
    pub aux_ports_list: Option<Vec<u16>>,
    pub fail_count: Option<u32>,
}

/// The mathematical value of a decoded server entry.
pub struct ParsedServerView {
    pub source: Seq<char>,
    pub ip_addr: u32,
    pub port: u16,
    pub name: Option<Seq<char>>,
    pub description: Option<Seq<char>>,
    pub user_count: Option<u32>,
    pub low_id_user_count: Option<u32>,
    pub ping: Option<u32>,
    pub country: Option<Seq<char>>,
    pub max_user_count: Option<u32>,
    pub file_count: Option<u32>,
    pub soft_file_limit: Option<u32>,
    pub hard_file_limit: Option<u32>,
    pub udp_flags: Option<ServerUdpFlags>,
    pub version: Option<Seq<char>>,
    pub last_ping_time: Option<u32>,
    pub udp_key: Option<u32>,
    pub udp_key_ip_addr: Option<u32>,
    pub tcp_obfuscation_port: Option<u16>,
    pub udp_obfuscation_port: Option<u16>,
    pub dns: Option<Seq<char>>,
    pub priority: Option<ServerPriority>,
    pub aux_ports_list: Option<Seq<u16>>,
    pub fail_count: Option<u32>,
}

/// The characters of an optional string.
pub open spec fn opt_view(o: Option<String>) -> Option<Seq<char>> {
    match o {
        Some(s) => Some(s@),
        None => None,
    }
}

/// The values of an optional port list.
pub open spec fn opt_ports_view(o: Option<Vec<u16>>) -> Option<Seq<u16>> {
    match o {
        Some(v) => Some(v@),
        None => None,
    }
}

/// Copies an optional string.
pub(crate) fn clone_opt_string(o: &Option<String>) -> (r: Option<String>)
    ensures
        opt_view(r) == opt_view(*o),
{
    match o {
        Some(s) => Some(s.clone()),
        None => None,
    }
}

/// Copies a port list.
pub(crate) fn clone_ports(v: &Vec<u16>) -> (r: Vec<u16>)
    ensures
        r@ == v@,
{
    let mut r: Vec<u16> = Vec::new();
    let mut i: usize = 0;
    while i < v.len()
        invariant
            0 <= i <= v@.len(),
            r@ == v@.take(i as int),
        decreases v@.len() - i,
    {
        r.push(v[i]);
        proof {
            assert(v@.take(i + 1) =~= v@.take(i as int).push(v@[i as int]));
        }
        i = i + 1;
    }
    proof {
        assert(v@.take(v@.len() as int) =~= v@);
    }
    r
}

impl View for ParsedServer {
    type V = ParsedServerView;

    open spec fn view(&self) -> ParsedServerView {
        ParsedServerView {
            source: self.source@,
            ip_addr: self.ip_addr,
            port: self.port,
            name: opt_view(self.name),
            description: opt_view(self.description),
            user_count: self.user_count,
            low_id_user_count: self.low_id_user_count,
            ping: self.ping,
            country: opt_view(self.country),
            max_user_count: self.max_user_count,
            file_count: self.file_count,
            soft_file_limit: self.soft_file_limit,
            hard_file_limit: self.hard_file_limit,
            udp_flags: self.udp_flags,
            version: opt_view(self.version),
            last_ping_time: self.last_ping_time,
            udp_key: self.udp_key,
            udp_key_ip_addr: self.udp_key_ip_addr,
            tcp_obfuscation_port: self.tcp_obfuscation_port,
            udp_obfuscation_port: self.udp_obfuscation_port,
            dns: opt_view(self.dns),
            priority: self.priority,
            aux_ports_list: opt_ports_view(self.aux_ports_list),
            fail_count: self.fail_count,
        }
    }
}

impl ParsedServer {
    /// Copies this entry.
    pub fn clone_entry(&self) -> (r: ParsedServer)
        ensures
            r@ == self@,
    {
        ParsedServer {
            source: self.source.clone(),
            ip_addr: self.ip_addr,
            port: self.port,
            name: clone_opt_string(&self.name),
            description: clone_opt_string(&self.description),
            user_count: self.user_count,
            low_id_user_count: self.low_id_user_count,
            ping: self.ping,
            country: clone_opt_string(&self.country),
            max_user_count: self.max_user_count,
            file_count: self.file_count,
            soft_file_limit: self.soft_file_limit,
            hard_file_limit: self.hard_file_limit,
            udp_flags: self.udp_flags,
            version: clone_opt_string(&self.version),
            last_ping_time: self.last_ping_time,
            udp_key: self.udp_key,
            udp_key_ip_addr: self.udp_key_ip_addr,
            tcp_obfuscation_port: self.tcp_obfuscation_port,
            udp_obfuscation_port: self.udp_obfuscation_port,
            dns: clone_opt_string(&self.dns),
            priority: self.priority,
            aux_ports_list: match &self.aux_ports_list {
                Some(p) => Some(clone_ports(p)),
                None => None,
            },
            fail_count: self.fail_count,
        }
    }
}

/// A freshly read entry, before any tag has been folded in: address and
/// port set, everything optional absent.
pub open spec fn spec_empty_server(src: Seq<char>, ip: u32, port: u16) -> ParsedServerView {
    ParsedServerView {
        source: src,
        ip_addr: ip,
        port: port,
        name: None,
        description: None,
        user_count: None,
        low_id_user_count: None,
        ping: None,
        country: None,
        max_user_count: None,
        file_count: None,
        soft_file_limit: None,
        hard_file_limit: None,
        udp_flags: None,
        version: None,
        last_ping_time: None,
        udp_key: None,
        udp_key_ip_addr: None,
        tcp_obfuscation_port: None,
        udp_obfuscation_port: None,
        dns: None,
        priority: None,
        aux_ports_list: None,
        fail_count: None,
    }
}

/// Folds one resolved tag into an entry.  A repeated tag of the same field
/// overwrites the earlier one: last write wins.
pub open spec fn spec_apply_tag(acc: ParsedServerView, f: TagFieldView) -> ParsedServerView {
    match f {
        TagFieldView::NoTag => acc,
        TagFieldView::ServerName(s) => ParsedServerView { name: Some(s), ..acc },
        TagFieldView::Description(s) => ParsedServerView { description: Some(s), ..acc },
        TagFieldView::Ping(n) => ParsedServerView { ping: Some(n), ..acc },
        TagFieldView::FailCount(n) => ParsedServerView { fail_count: Some(n), ..acc },
        TagFieldView::Preference(p) => ParsedServerView { priority: Some(p), ..acc },
        TagFieldView::Dns(s) => ParsedServerView { dns: Some(s), ..acc },
        TagFieldView::MaxUsers(n) => ParsedServerView { max_user_count: Some(n), ..acc },
        TagFieldView::SoftFiles(n) => ParsedServerView { soft_file_limit: Some(n), ..acc },
        TagFieldView::HardFiles(n) => ParsedServerView { hard_file_limit: Some(n), ..acc },
        TagFieldView::LastPingTime(n) => ParsedServerView { last_ping_time: Some(n), ..acc },
        TagFieldView::Version(s) => ParsedServerView { version: Some(s), ..acc },
        TagFieldView::UdpFlags(fl) => ParsedServerView { udp_flags: Some(fl), ..acc },
        TagFieldView::AuxPortsList(v) => ParsedServerView { aux_ports_list: Some(v), ..acc },
        TagFieldView::FileCount(n) => ParsedServerView { file_count: Some(n), ..acc },
        TagFieldView::UserCount(n) => ParsedServerView { user_count: Some(n), ..acc },
        TagFieldView::LowIdUserCount(n) => ParsedServerView { low_id_user_count: Some(n), ..acc },
        TagFieldView::Country(s) => ParsedServerView { country: Some(s), ..acc },
        TagFieldView::UdpKey(n) => ParsedServerView { udp_key: Some(n), ..acc },
        TagFieldView::UdpKeyIpAddr(n) => ParsedServerView { udp_key_ip_addr: Some(n), ..acc },
        TagFieldView::TcpObfuscationPort(n) => ParsedServerView {
            tcp_obfuscation_port: Some(n),
            ..acc
        },
        TagFieldView::UdpObfuscationPort(n) => ParsedServerView {
            udp_obfuscation_port: Some(n),
            ..acc
        },
    }
}

/// Decodes `n` tags starting at `i` and folds each into `acc`, with the
/// position just past the last tag.  The first failing tag aborts.
pub open spec fn spec_parse_tags(b: Seq<u8>, i: int, n: nat, acc: ParsedServerView) -> Result<
    (ParsedServerView, int),
    DecodeError,
>
    decreases n,
{
    if n == 0 {
        Ok((acc, i))
    } else {
        match spec_parse_tag(b, i) {
            Err(e) => Err(e),
            Ok((f, j)) => spec_parse_tags(b, j, (n - 1) as nat, spec_apply_tag(acc, f)),
        }
    }
}

/// Decodes one server entry starting at `i`: four bytes of IP address in
/// big-endian octet order, a little-endian port, a little-endian tag
/// count, then that many tags.
pub open spec fn spec_parse_server(b: Seq<u8>, i: int, src: Seq<char>) -> Result<
    (ParsedServerView, int),
    DecodeError,
> {
    if i + 10 > b.len() {
        Err(DecodeError::Truncated)
    } else {
        let ip = u32_be_at(b, i);
        let port = u16_le_at(b, i + 4);
        let tag_count = u32_le_at(b, i + 6);
        spec_parse_tags(b, i + 10, tag_count as nat, spec_empty_server(src, ip, port))
    }
}

/// Decodes `n` consecutive server entries starting at `i`.
pub open spec fn spec_parse_list(b: Seq<u8>, i: int, n: nat, src: Seq<char>) -> Result<
    Seq<ParsedServerView>,
    DecodeError,
>
    decreases n,
{
    if n == 0 {
        Ok(Seq::<ParsedServerView>::empty())
    } else {
        match spec_parse_server(b, i, src) {
            Err(e) => Err(e),
            Ok((s, j)) => match spec_parse_list(b, j, (n - 1) as nat, src) {
                Err(e) => Err(e),
                Ok(rest) => Ok(seq![s] + rest),
            },
        }
    }
}

/// Decodes a whole server.met file: a header byte that must be 0x0E or
/// 0xE0, a little-endian record count, then that many entries.  A count
/// of zero is a valid, empty file.
pub open spec fn spec_parse_servers(src: Seq<char>, b: Seq<u8>) -> Result<
    Seq<ParsedServerView>,
    DecodeError,
> {
    if b.len() < 1 {
        Err(DecodeError::Truncated)
    } else if b[0] != 0x0E && b[0] != 0xE0 {
        Err(DecodeError::HeaderInvalid(b[0]))
    } else if b.len() < 5 {
        Err(DecodeError::Truncated)
    } else {
        spec_parse_list(b, 5, u32_le_at(b, 1) as nat, src)
    }
}

/// A header byte other than 0x0E or 0xE0 fails deterministically, with
/// that byte reported, whatever else the file holds.
pub proof fn lemma_bad_header_fails(src: Seq<char>, b: Seq<u8>)
    requires
        b.len() >= 1,
        b[0] != 0x0E,
        b[0] != 0xE0,
    ensures
        spec_parse_servers(src, b) == Err::<Seq<ParsedServerView>, DecodeError>(
            DecodeError::HeaderInvalid(b[0]),
        ),
{
}

/// An unrecognised tag never aborts the rest of its record: when the next
/// unit resolves to no known field, decoding the remaining `n + 1` tags
/// equals decoding `n` tags from just past that unit with the entry
/// untouched — exactly as if the unit had been removed from the file and
/// the record's tag count lowered by one.  Together with the tag decoder's
/// law that every unrecognised name resolves this way whatever value it
/// carries, this is why unknown names are never a parse failure.
pub proof fn lemma_ignored_tag_changes_nothing(b: Seq<u8>, i: int, n: nat, acc: ParsedServerView)
    requires
        spec_parse_tag(b, i) is Ok,
        (spec_parse_tag(b, i)->Ok_0).0 is NoTag,
    ensures
        spec_parse_tags(b, i, n + 1, acc) == spec_parse_tags(
            b,
            (spec_parse_tag(b, i)->Ok_0).1,
            n,
            acc,
        ),
{
    assert(spec_apply_tag(acc, TagFieldView::NoTag) == acc);
}

/// The entry-by-entry mathematical values of a decoded list.
pub open spec fn server_views(s: Seq<ParsedServer>) -> Seq<ParsedServerView> {
    Seq::new(s.len(), |k: int| s[k]@)
}

/// Appends a decoded suffix to an already-decoded prefix, propagating a
/// failure of the suffix.
pub open spec fn combine_servers(
    prefix: Seq<ParsedServerView>,
    rest: Result<Seq<ParsedServerView>, DecodeError>,
) -> Result<Seq<ParsedServerView>, DecodeError> {
    match rest {
        Err(e) => Err(e),
        Ok(r) => Ok(prefix + r),
    }
}

/// Folds one resolved tag into the entry being decoded.
fn apply_tag(server: &mut ParsedServer, f: TagField)
    ensures
        final(server)@ == spec_apply_tag(old(server)@, f@),
{
    match f {
        TagField::NoTag => {},
        TagField::ServerName(s) => server.name = Some(s),
        TagField::Description(s) => server.description = Some(s),
        TagField::Ping(n) => server.ping = Some(n),
        TagField::FailCount(n) => server.fail_count = Some(n),
        TagField::Preference(p) => server.priority = Some(p),
        TagField::Dns(s) => server.dns = Some(s),
        TagField::MaxUsers(n) => server.max_user_count = Some(n),
        TagField::SoftFiles(n) => server.soft_file_limit = Some(n),
        TagField::HardFiles(n) => server.hard_file_limit = Some(n),
        TagField::LastPingTime(n) => server.last_ping_time = Some(n),
        TagField::Version(s) => server.version = Some(s),
        TagField::UdpFlags(fl) => server.udp_flags = Some(fl),
        TagField::AuxPortsList(v) => server.aux_ports_list = Some(v),
        TagField::FileCount(n) => server.file_count = Some(n),
        TagField::UserCount(n) => server.user_count = Some(n),
        TagField::LowIdUserCount(n) => server.low_id_user_count = Some(n),
        TagField::Country(s) => server.country = Some(s),
        TagField::UdpKey(n) => server.udp_key = Some(n),
        TagField::UdpKeyIpAddr(n) => server.udp_key_ip_addr = Some(n),
        TagField::TcpObfuscationPort(n) => server.tcp_obfuscation_port = Some(n),
        TagField::UdpObfuscationPort(n) => server.udp_obfuscation_port = Some(n),
    }
}

/// Decodes one server entry from the cursor.
fn parse_server(source: &str, cur: &mut ByteCursor) -> (r: Result<ParsedServer, DecodeError>)
    requires
        old(cur).wf(),
    ensures
        final(cur).wf(),
        final(cur).bytes() == old(cur).bytes(),
        match spec_parse_server(old(cur).bytes(), old(cur).pos(), source@) {
            Ok((s, end)) => (r matches Ok(p) && p@ == s) && final(cur).pos() == end,
            Err(e) => r == Err::<ParsedServer, DecodeError>(e),
        },
{
    let ghost b = old(cur).bytes();
    let ghost pos0 = old(cur).pos();
    let ip_addr = match cur.read_u32_be() {
        Ok(v) => v,
        Err(e) => {
            return Err(e);
        },
    };
    let port = match cur.read_u16_le() {
        Ok(v) => v,
        Err(e) => {
            return Err(e);
        },
    };
    let tag_count = match cur.read_u32_le() {
        Ok(v) => v,
        Err(e) => {
            return Err(e);
        },
    };
    let mut server = ParsedServer {
        source: String::from_str(source),
        ip_addr,
        port,
        name: None,
        description: None,
        user_count: None,
        low_id_user_count: None,
        ping: None,
        country: None,
        max_user_count: None,
        file_count: None,
        soft_file_limit: None,
        hard_file_limit: None,
        udp_flags: None,
        version: None,
        last_ping_time: None,
        udp_key: None,
        udp_key_ip_addr: None,
        tcp_obfuscation_port: None,
        udp_obfuscation_port: None,
        dns: None,
        priority: None,
        aux_ports_list: None,
        fail_count: None,
    };
    let ghost acc0 = spec_empty_server(source@, ip_addr, port);
    let mut t: u32 = 0;
    while t < tag_count
        invariant
            cur.wf(),
            b == old(cur).bytes(),
            pos0 == old(cur).pos(),
            cur.bytes() == b,
            0 <= t <= tag_count,
            pos0 + 10 <= b.len(),
            ip_addr == u32_be_at(b, pos0),
            port == u16_le_at(b, pos0 + 4),
            tag_count == u32_le_at(b, pos0 + 6),
            acc0 == spec_empty_server(source@, ip_addr, port),
            spec_parse_tags(b, pos0 + 10, tag_count as nat, acc0) == spec_parse_tags(
                b,
                cur.pos(),
                (tag_count - t) as nat,
                server@,
            ),
        decreases tag_count - t,
    {
        let tag = match parse_tag(cur) {
            Ok(v) => v,
            Err(e) => {
                return Err(e);
            },
        };
        apply_tag(&mut server, tag);
        t = t + 1;
    }
    Ok(server)
}

/// Decodes a whole server.met file fetched from `source`, the single
/// entry point for one source's bytes.  Returns the entries in file
/// order; the first structural failure aborts the entire file, so partial
/// results from a damaged file are never returned.
pub fn parse_servers(source: &str, input: &[u8]) -> (r: Result<Vec<ParsedServer>, DecodeError>)
    ensures
        match spec_parse_servers(source@, input@) {
            Ok(l) => r matches Ok(v) && server_views(v@) == l,
            Err(e) => r == Err::<Vec<ParsedServer>, DecodeError>(e),
        },
{
    let mut cur = ByteCursor::new(input);
    let ghost b = input@;
    let header_byte = match cur.read_u8() {
        Ok(v) => v,
        Err(e) => {
            return Err(e);
        },
    };
    if !(header_byte == 0x0E || header_byte == 0xE0) {
        return Err(DecodeError::HeaderInvalid(header_byte));
    }
    let server_count = match cur.read_u32_le() {
        Ok(v) => v,
        Err(e) => {
            return Err(e);
        },
    };
    let mut servers: Vec<ParsedServer> = Vec::new();
    proof {
        assert(server_views(servers@) =~= Seq::<ParsedServerView>::empty());
    }
    let mut t: u32 = 0;
    while t < server_count
        invariant
            cur.wf(),
            b == input@,
            cur.bytes() == b,
            0 <= t <= server_count,
            b.len() >= 5,
            b[0] == 0x0E || b[0] == 0xE0,
            server_count == u32_le_at(b, 1),
            spec_parse_list(b, 5, server_count as nat, source@) == combine_servers(
                server_views(servers@),
                spec_parse_list(b, cur.pos(), (server_count - t) as nat, source@),
            ),
        decreases server_count - t,
    {
        let s = match parse_server(source, &mut cur) {
            Ok(v) => v,
            Err(e) => {
                return Err(e);
            },
        };
        let ghost old_views = server_views(servers@);
        let ghost srv_view = s@;
        servers.push(s);
        proof {
            assert(server_views(servers@) =~= old_views + seq![srv_view]);
            match spec_parse_list(b, cur.pos(), (server_count - t - 1) as nat, source@) {
                Ok(rest) => {
                    assert(old_views + (seq![srv_view] + rest) =~= server_views(servers@) + rest);
                },
                Err(_) => {},
            }
        }
        t = t + 1;
    }
    proof {
        match spec_parse_list(b, 5, server_count as nat, source@) {
            Ok(l) => {
                assert(server_views(servers@) + Seq::<ParsedServerView>::empty() =~= server_views(
                    servers@,
                ));
            },
            Err(_) => {},
        }
    }
    Ok(servers)
}

} // verus!
