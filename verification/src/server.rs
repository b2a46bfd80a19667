use vstd::prelude::*;

use crate::error::DecodeError;
use crate::parsing::{clone_opt_string, clone_ports, opt_view, server_views, ParsedServer,
    ParsedServerView};

verus! {

/// Server priority.
///
/// The wire encoding is fixed but not the natural ordering: a preference
/// tag of 0 means `Normal`, 1 means `High` and 2 means `Low`.
#[derive(Debug, Clone, Copy, PartialEq, Eq, Structural)]
pub enum ServerPriority {
    Low,
    Normal,
    High,
}

/// The wire value a priority decodes from, when it decodes at all.
pub open spec fn spec_priority_from_wire(v: u32) -> Result<ServerPriority, DecodeError> {
    if v == 0 {
        Ok(ServerPriority::Normal)
    } else if v == 1 {
        Ok(ServerPriority::High)
    } else if v == 2 {
        Ok(ServerPriority::Low)
    } else {
        Err(DecodeError::InvalidPriority(v))
    }
}

impl ServerPriority {
    /// Decodes a priority from its wire value: 0 is `Normal`, 1 is `High`,
    /// 2 is `Low`, anything else is rejected.
    pub fn from_wire(v: u32) -> (r: Result<ServerPriority, DecodeError>)
        ensures
            r == spec_priority_from_wire(v),
    {
        if v == 0 {
            Ok(ServerPriority::Normal)
        } else if v == 1 {
            Ok(ServerPriority::High)
        } else if v == 2 {
            Ok(ServerPriority::Low)
        } else {
            Err(DecodeError::InvalidPriority(v))
        }
    }

    /// The wire value this priority encodes to.
    pub fn to_wire(&self) -> (v: u32)
        ensures
            spec_priority_from_wire(v) == Ok::<ServerPriority, DecodeError>(*self),
    {
        match self {
            ServerPriority::Normal => 0,
            ServerPriority::High => 1,
            ServerPriority::Low => 2,
        }
    }
}

/// The actions a server supports over UDP, one bit each.
pub const UDP_FLAG_GET_SOURCES: u32 = 0x0001;

pub const UDP_FLAG_GET_FILES: u32 = 0x0002;

pub const UDP_FLAG_NEW_TAGS: u32 = 0x0008;

pub const UDP_FLAG_UNICODE: u32 = 0x0010;

pub const UDP_FLAG_GET_EXTENDED_SOURCES: u32 = 0x0020;

pub const UDP_FLAG_LARGE_FILES: u32 = 0x0100;

pub const UDP_FLAG_UDP_OBFUSCATION: u32 = 0x0200;

pub const UDP_FLAG_TCP_OBFUSCATION: u32 = 0x0400;

/// Every bit this library understands; all other bits are dropped by the
/// truncating constructor.
pub const UDP_FLAGS_MASK: u32 = 0x073B;

/// What actions a server supports via UDP.  A set of bit flags over a
/// fixed vocabulary; unknown bits are silently discarded, never rejected,
/// so that newer wire data keeps decoding.
#[derive(Debug, Clone, Copy, PartialEq, Eq, Structural)]
pub struct ServerUdpFlags {
    pub bits: u32,
}

impl ServerUdpFlags {
    /// A well-formed flag set carries only known bits.
    pub open spec fn wf(&self) -> bool {
        self.bits & UDP_FLAGS_MASK == self.bits
    }

    /// Keeps the known bits of `v` and drops the rest.
    pub fn from_bits_truncate(v: u32) -> (r: ServerUdpFlags)
        ensures
            r.bits == v & UDP_FLAGS_MASK,
            r.wf(),
    {
        let bits = v & UDP_FLAGS_MASK;
        proof {
            assert((v & 0x073Bu32) & 0x073Bu32 == v & 0x073Bu32) by (bit_vector);
        }
        ServerUdpFlags { bits }
    }

    /// The raw bit pattern.
    pub fn bits(&self) -> (v: u32)
        ensures
            v == self.bits,
    {
        self.bits
    }

    /// Whether every flag in `other` is present in `self`.
    pub fn contains(&self, other: ServerUdpFlags) -> (r: bool)
        ensures
            r == (self.bits & other.bits == other.bits),
    {
        self.bits & other.bits == other.bits
    }
}

/// A server known to the collection.  The IP address is the identity key:
/// the merge engine keeps exactly one entry per address.  Entries are
/// deactivated, never deleted.
pub struct Server {
    /// When the entry was first created, as a plain timestamp.
    pub created: u64,
    /// When the entry was last written, as a plain timestamp.
    pub updated: u64,
    /// The persisted row id; zero until the entry has been saved.
    pub id: i64,
    /// The download URL, or "manual", this entry originated from.
    pub source: String,
    /// Whether the entry is live.  Turning this off is the logical delete.
    pub active: bool,
    /// The IP address, as the 32-bit value of its big-endian octets.
    pub ip_addr: u32,
    pub port: u16,
    pub name: Option<String>,
    pub description: Option<String>,
    pub user_count: Option<u32>,
    pub low_id_user_count: Option<u32>,
    pub max_user_count: Option<u32>,
    pub ping_ms: Option<u32>,
    pub file_count: Option<u32>,
    pub soft_file_limit: Option<u32>,
    pub hard_file_limit: Option<u32>,
    pub udp_flags: Option<ServerUdpFlags>,
    pub version: Option<String>,
    pub last_ping_time: Option<u32>,
    pub udp_key: Option<u32>,
    pub udp_key_ip_addr: Option<u32>,
    pub tcp_obfuscation_port: Option<u16>,
    pub udp_obfuscation_port: Option<u16>,
    pub dns_name: Option<String>,
    pub priority: Option<ServerPriority>,
    pub aux_ports_list: Vec<u16>,
    pub fail_count: Option<u32>,
}

/// The mathematical value of a server entry.
pub struct ServerView {
    pub created: u64,
    pub updated: u64,
    pub id: i64,
    pub source: Seq<char>,
    pub active: bool,
    pub ip_addr: u32,
    pub port: u16,
    pub name: Option<Seq<char>>,
    pub description: Option<Seq<char>>,
    pub user_count: Option<u32>,
    pub low_id_user_count: Option<u32>,
    pub max_user_count: Option<u32>,
    pub ping_ms: Option<u32>,
    pub file_count: Option<u32>,
    pub soft_file_limit: Option<u32>,
    pub hard_file_limit: Option<u32>,
    pub udp_flags: Option<ServerUdpFlags>,
    pub version: Option<Seq<char>>,
    pub last_ping_time: Option<u32>,
    pub udp_key: Option<u32>,
    pub udp_key_ip_addr: Option<u32>,
    pub tcp_obfuscation_port: Option<u16>,
    pub udp_obfuscation_port: Option<u16>,
    pub dns_name: Option<Seq<char>>,
    pub priority: Option<ServerPriority>,
    pub aux_ports_list: Seq<u16>,
    pub fail_count: Option<u32>,
}

impl View for Server {
    type V = ServerView;

    open spec fn view(&self) -> ServerView {
        ServerView {
            created: self.created,
            updated: self.updated,
            id: self.id,
            source: self.source@,
            active: self.active,
            ip_addr: self.ip_addr,
            port: self.port,
            name: opt_view(self.name),
            description: opt_view(self.description),
            user_count: self.user_count,
            low_id_user_count: self.low_id_user_count,
            max_user_count: self.max_user_count,
            ping_ms: self.ping_ms,
            file_count: self.file_count,
            soft_file_limit: self.soft_file_limit,
            hard_file_limit: self.hard_file_limit,
            udp_flags: self.udp_flags,
            version: opt_view(self.version),
            last_ping_time: self.last_ping_time,
            udp_key: self.udp_key,
            udp_key_ip_addr: self.udp_key_ip_addr,
            tcp_obfuscation_port: self.tcp_obfuscation_port,
            udp_obfuscation_port: self.udp_obfuscation_port,
            dns_name: opt_view(self.dns_name),
            priority: self.priority,
            aux_ports_list: self.aux_ports_list@,
            fail_count: self.fail_count,
        }
    }
}

/// The entry with every field at its resting value.
pub open spec fn spec_default_server() -> ServerView {
    ServerView {
        created: 0,
        updated: 0,
        id: 0,
        source: Seq::<char>::empty(),
        active: false,
        ip_addr: 0,
        port: 0,
        name: None,
        description: None,
        user_count: None,
        low_id_user_count: None,
        max_user_count: None,
        ping_ms: None,
        file_count: None,
        soft_file_limit: None,
        hard_file_limit: None,
        udp_flags: None,
        version: None,
        last_ping_time: None,
        udp_key: None,
        udp_key_ip_addr: None,
        tcp_obfuscation_port: None,
        udp_obfuscation_port: None,
        dns_name: None,
        priority: None,
        aux_ports_list: Seq::<u16>::empty(),
        fail_count: None,
    }
}

/// A full field overwrite of `s` from the candidate `p`: every optional
/// field takes the candidate's value, so fields absent in the candidate
/// become absent on the stored entry too.  Only identity (IP address,
/// row id), the timestamps and the active flag are untouched.
pub open spec fn spec_update_from(s: ServerView, p: ParsedServerView) -> ServerView {
    ServerView {
        source: p.source,
        port: p.port,
        name: p.name,
        description: p.description,
        user_count: p.user_count,
        low_id_user_count: p.low_id_user_count,
        max_user_count: p.max_user_count,
        ping_ms: p.ping,
        file_count: p.file_count,
        soft_file_limit: p.soft_file_limit,
        hard_file_limit: p.hard_file_limit,
        udp_flags: p.udp_flags,
        version: p.version,
        last_ping_time: p.last_ping_time,
        udp_key: p.udp_key,
        udp_key_ip_addr: p.udp_key_ip_addr,
        tcp_obfuscation_port: p.tcp_obfuscation_port,
        udp_obfuscation_port: p.udp_obfuscation_port,
        dns_name: p.dns,
        priority: p.priority,
        aux_ports_list: match p.aux_ports_list {
            Some(v) => v,
            None => Seq::<u16>::empty(),
        },
        fail_count: p.fail_count,
        ..s
    }
}

/// A brand-new entry for a candidate with no existing match: unsaved
/// identity, active, created now, and every field from the candidate.
pub open spec fn spec_new_server(p: ParsedServerView, now: u64) -> ServerView {
    spec_update_from(
        ServerView {
            created: now,
            updated: now,
            id: 0,
            active: true,
            ip_addr: p.ip_addr,
            ..spec_default_server()
        },
        p,
    )
}

impl Default for Server {
    /// An entry with every field at its resting value.
    fn default() -> (s: Server)
        ensures
            s@ == spec_default_server(),
    {
        Server {
            created: 0,
            updated: 0,
            id: 0,
            source: String::new(),
            active: false,
            ip_addr: 0,
            port: 0,
            name: None,
            description: None,
            user_count: None,
            low_id_user_count: None,
            max_user_count: None,
            ping_ms: None,
            file_count: None,
            soft_file_limit: None,
            hard_file_limit: None,
            udp_flags: None,
            version: None,
            last_ping_time: None,
            udp_key: None,
            udp_key_ip_addr: None,
            tcp_obfuscation_port: None,
            udp_obfuscation_port: None,
            dns_name: None,
            priority: None,
            aux_ports_list: Vec::new(),
            fail_count: None,
        }
    }
}

impl Server {
    /// Overwrites every candidate-carried field of this entry from `ps`,
    /// absent fields included: a full overwrite, never a sparse merge.
    /// Only identity, the timestamps and the active flag keep their
    /// values.
    pub fn update_from(&mut self, ps: &ParsedServer)
        ensures
            final(self)@ == spec_update_from(old(self)@, ps@),
    {
        self.source = ps.source.clone();
        self.port = ps.port;
        self.name = clone_opt_string(&ps.name);
        self.description = clone_opt_string(&ps.description);
        self.user_count = ps.user_count;
        self.low_id_user_count = ps.low_id_user_count;
        self.max_user_count = ps.max_user_count;
        self.ping_ms = ps.ping;
        self.file_count = ps.file_count;
        self.soft_file_limit = ps.soft_file_limit;
        self.hard_file_limit = ps.hard_file_limit;
        self.udp_flags = ps.udp_flags;
        self.version = clone_opt_string(&ps.version);
        self.last_ping_time = ps.last_ping_time;
        self.udp_key = ps.udp_key;
        self.udp_key_ip_addr = ps.udp_key_ip_addr;
        self.tcp_obfuscation_port = ps.tcp_obfuscation_port;
        self.udp_obfuscation_port = ps.udp_obfuscation_port;
        self.dns_name = clone_opt_string(&ps.dns);
        self.priority = ps.priority;
        self.aux_ports_list = match &ps.aux_ports_list {
            Some(v) => clone_ports(v),
            None => Vec::new(),
        };
        self.fail_count = ps.fail_count;
    }

    /// Builds a brand-new entry from a candidate with no existing match:
    /// unsaved identity, active, created at `now`.
    pub fn from_parsed(ps: &ParsedServer, now: u64) -> (s: Server)
        ensures
            s@ == spec_new_server(ps@, now),
    {
        let mut s = Server::default();
        s.update_from(ps);
        s.id = 0;
        s.active = true;
        s.ip_addr = ps.ip_addr;
        s.created = now;
        s.updated = now;
        s
    }
}

/// Whether the collection holds at most one entry per IP address.
pub open spec fn ips_unique(l: Seq<ServerView>) -> bool {
    forall|i: int, j: int|
        0 <= i < j < l.len() ==> l[i].ip_addr != l[j].ip_addr
}

/// Whether a candidate batch holds at most one candidate per IP address,
/// as a deduplicated batch must.
pub open spec fn distinct_candidate_ips(c: Seq<ParsedServerView>) -> bool {
    forall|i: int, j: int|
        0 <= i < j < c.len() ==> c[i].ip_addr != c[j].ip_addr
}

/// The index of the first entry with the given IP address, or -1 when
/// there is none.
pub open spec fn spec_find_ip(l: Seq<ServerView>, ip: u32) -> int
    decreases l.len(),
{
    if l.len() == 0 {
        -1
    } else if l[0].ip_addr == ip {
        0
    } else {
        let r = spec_find_ip(l.drop_first(), ip);
        if r < 0 {
            -1
        } else {
            r + 1
        }
    }
}

/// What the first-match lookup returns, pinned down by a scan: no match
/// before `k`, and a match (or the end) at `k`.
pub proof fn lemma_find_ip_determined(l: Seq<ServerView>, ip: u32, k: int)
    requires
        0 <= k <= l.len(),
        forall|j: int| 0 <= j < k ==> l[j].ip_addr != ip,
        k < l.len() ==> l[k].ip_addr == ip,
    ensures
        spec_find_ip(l, ip) == if k == l.len() {
            -1int
        } else {
            k
        },
    decreases l.len(),
{
    if l.len() > 0 && k > 0 {
        lemma_find_ip_determined(l.drop_first(), ip, k - 1);
    }
}

/// The first-match lookup really is a first match.
pub proof fn lemma_find_ip_properties(l: Seq<ServerView>, ip: u32)
    ensures
        spec_find_ip(l, ip) == -1 ==> forall|j: int| 0 <= j < l.len() ==> l[j].ip_addr != ip,
        spec_find_ip(l, ip) != -1 ==> {
            &&& 0 <= spec_find_ip(l, ip) < l.len()
            &&& l[spec_find_ip(l, ip)].ip_addr == ip
            &&& forall|j: int| 0 <= j < spec_find_ip(l, ip) ==> l[j].ip_addr != ip
        },
    decreases l.len(),
{
    if l.len() > 0 && l[0].ip_addr != ip {
        lemma_find_ip_properties(l.drop_first(), ip);
        assert(forall|j: int| 1 <= j < l.len() ==> l[j] == l.drop_first()[j - 1]);
    }
}

/// One merge step: an existing entry with the candidate's IP is fully
/// overwritten in place, otherwise a new entry is appended.  The flag
/// says whether an insert happened.
pub open spec fn spec_merge_one(l: Seq<ServerView>, c: ParsedServerView, now: u64) -> (
    Seq<ServerView>,
    bool,
) {
    let k = spec_find_ip(l, c.ip_addr);
    if k >= 0 {
        (l.update(k, spec_update_from(l[k], c)), false)
    } else {
        (l.push(spec_new_server(c, now)), true)
    }
}

/// Merges a candidate batch into the collection, one candidate at a time
/// in batch order, counting inserts and updates.
pub open spec fn spec_merge(l: Seq<ServerView>, c: Seq<ParsedServerView>, now: u64) -> (
    Seq<ServerView>,
    int,
    int,
)
    decreases c.len(),
{
    if c.len() == 0 {
        (l, 0int, 0int)
    } else {
        let (l1, inserted) = spec_merge_one(l, c[0], now);
        let r = spec_merge(l1, c.drop_first(), now);
        (
            r.0,
            r.1 + if inserted {
                1int
            } else {
                0int
            },
            r.2 + if inserted {
                0int
            } else {
                1int
            },
        )
    }
}

/// The entry-by-entry mathematical values of a list of server entries.
pub open spec fn entity_views(s: Seq<Server>) -> Seq<ServerView> {
    Seq::new(s.len(), |k: int| s[k]@)
}

/// The persisted collection of servers, one entry per IP address.  Only
/// the merge engine mutates it; persisting it is an explicit, separate
/// step left to a gateway outside this library.
pub struct ServerList {
    servers: Vec<Server>,
}

impl View for ServerList {
    type V = Seq<ServerView>;

    closed spec fn view(&self) -> Seq<ServerView> {
        entity_views(self.servers@)
    }
}

impl ServerList {
    /// An empty collection.
    pub fn new() -> (r: ServerList)
        ensures
            r@ == Seq::<ServerView>::empty(),
    {
        let r = ServerList { servers: Vec::new() };
        proof {
            assert(r@ =~= Seq::<ServerView>::empty());
        }
        r
    }

    /// Takes ownership of already-loaded entries, as a persistence gateway
    /// hands them back.
    pub fn from_servers(servers: Vec<Server>) -> (r: ServerList)
        ensures
            r@ == entity_views(servers@),
    {
        ServerList { servers }
    }

    /// The entries, for reading and for handing to a persistence gateway.
    pub fn servers(&self) -> (r: &Vec<Server>)
        ensures
            r@.len() == self@.len(),
            entity_views(r@) == self@,
    {
        &self.servers
    }

    pub fn len(&self) -> (n: usize)
        ensures
            n == self@.len(),
    {
        self.servers.len()
    }

    pub fn is_empty(&self) -> (r: bool)
        ensures
            r == (self@.len() == 0),
    {
        self.servers.len() == 0
    }

    /// The index of the first entry with the given IP address.
    fn find_index_by_ip(&self, ip: u32) -> (r: Option<usize>)
        ensures
            match r {
                Some(k) => 0 <= k < self@.len() && spec_find_ip(self@, ip) == k,
                None => spec_find_ip(self@, ip) == -1,
            },
    {
        let n = self.servers.len();
        let mut i: usize = 0;
        while i < n
            invariant
                0 <= i <= n,
                n == self@.len(),
                self@.len() == self.servers@.len(),
                forall|j: int| 0 <= j < i ==> self@[j].ip_addr != ip,
            decreases n - i,
        {
            if self.servers[i].ip_addr == ip {
                proof {
                    lemma_find_ip_determined(self@, ip, i as int);
                }
                return Some(i);
            }
            i = i + 1;
        }
        proof {
            lemma_find_ip_determined(self@, ip, n as int);
        }
        None
    }

    /// Merges a deduplicated candidate batch into the collection.  Each
    /// candidate with an existing entry of the same IP address fully
    /// overwrites that entry's fields; each candidate with no match
    /// becomes a new, active entry created at `now`.  Returns how many
    /// entries were inserted and how many updated; nothing is persisted.
    pub fn merge_parsed_servers(&mut self, parsed: &[ParsedServer], now: u64) -> (counts: (
        usize,
        usize,
    ))
        ensures
            ({
                let m = spec_merge(old(self)@, server_views(parsed@), now);
                &&& final(self)@ == m.0
                &&& counts.0 == m.1
                &&& counts.1 == m.2
            }),
            counts.0 + counts.1 == parsed@.len(),
            ips_unique(old(self)@) ==> ips_unique(final(self)@),
    {
        proof {
            if ips_unique(old(self)@) {
                lemma_merge_preserves_unique(old(self)@, server_views(parsed@), now);
            }
        }
        let ghost l0 = old(self)@;
        let ghost cands = server_views(parsed@);
        let mut num_inserted: usize = 0;
        let mut num_updated: usize = 0;
        let mut i: usize = 0;
        proof {
            assert(cands.skip(0) =~= cands);
        }
        while i < parsed.len()
            invariant
                l0 == old(self)@,
                cands == server_views(parsed@),
                0 <= i <= parsed@.len(),
                cands.len() == parsed@.len(),
                num_inserted + num_updated == i,
                spec_merge(l0, cands, now) == ({
                    let r = spec_merge(self@, cands.skip(i as int), now);
                    (r.0, num_inserted + r.1, num_updated + r.2)
                }),
            decreases parsed@.len() - i,
        {
            let ghost rem = cands.skip(i as int);
            let ghost prev = self@;
            proof {
                assert(rem[0] == parsed@[i as int]@);
                assert(rem.drop_first() =~= cands.skip(i + 1));
            }
            let ip = parsed[i].ip_addr;
            match self.find_index_by_ip(ip) {
                Some(k) => {
                    self.servers[k].update_from(&parsed[i]);
                    proof {
                        assert(self@ =~= prev.update(
                            k as int,
                            spec_update_from(prev[k as int], parsed@[i as int]@),
                        ));
                    }
                    num_updated = num_updated + 1;
                },
                None => {
                    self.servers.push(Server::from_parsed(&parsed[i], now));
                    proof {
                        assert(self@ =~= prev.push(spec_new_server(parsed@[i as int]@, now)));
                    }
                    num_inserted = num_inserted + 1;
                },
            }
            i = i + 1;
        }
        proof {
            assert(cands.skip(cands.len() as int) =~= Seq::<ParsedServerView>::empty());
        }
        (num_inserted, num_updated)
    }
}

/// Whether the collection has fully taken a candidate in: an entry with
/// the candidate's IP address exists, and overwriting it from the
/// candidate again would change nothing.
pub open spec fn absorbed(l: Seq<ServerView>, c: ParsedServerView) -> bool {
    let k = spec_find_ip(l, c.ip_addr);
    0 <= k < l.len() && spec_update_from(l[k], c) == l[k]
}

/// The first-match lookup sees only IP addresses, so two collections that
/// agree on them agree on every lookup.
proof fn lemma_find_same_ips(l1: Seq<ServerView>, l2: Seq<ServerView>, ip: u32)
    requires
        l1.len() == l2.len(),
        forall|j: int| 0 <= j < l1.len() ==> l1[j].ip_addr == l2[j].ip_addr,
    ensures
        spec_find_ip(l1, ip) == spec_find_ip(l2, ip),
    decreases l1.len(),
{
    if l1.len() > 0 {
        assert(forall|j: int|
            0 <= j < l1.len() - 1 ==> l1.drop_first()[j].ip_addr == l2.drop_first()[j].ip_addr);
        lemma_find_same_ips(l1.drop_first(), l2.drop_first(), ip);
    }
}

/// One merge step never changes which IP address sits at which index,
/// except for appending the new candidate's address.
proof fn lemma_merge_one_ips(l: Seq<ServerView>, c: ParsedServerView, now: u64)
    ensures
        ({
            let m = spec_merge_one(l, c, now).0;
            &&& m.len() >= l.len()
            &&& forall|j: int| 0 <= j < l.len() ==> m[j].ip_addr == l[j].ip_addr
            &&& forall|j: int| l.len() <= j < m.len() ==> m[j].ip_addr == c.ip_addr
        }),
{
    let k = spec_find_ip(l, c.ip_addr);
    lemma_find_ip_properties(l, c.ip_addr);
    if k >= 0 {
        let m = l.update(k, spec_update_from(l[k], c));
        assert(forall|j: int| 0 <= j < l.len() ==> m[j].ip_addr == l[j].ip_addr);
    }
}

/// One merge step keeps the one-entry-per-address invariant.
proof fn lemma_merge_one_preserves_unique(l: Seq<ServerView>, c: ParsedServerView, now: u64)
    requires
        ips_unique(l),
    ensures
        ips_unique(spec_merge_one(l, c, now).0),
{
    let k = spec_find_ip(l, c.ip_addr);
    lemma_find_ip_properties(l, c.ip_addr);
    if k >= 0 {
        let m = l.update(k, spec_update_from(l[k], c));
        assert(forall|j: int| 0 <= j < l.len() ==> m[j].ip_addr == l[j].ip_addr);
    }
}

/// Merging keeps the collection's invariant: at most one entry per IP
/// address, however many candidates arrive.
pub proof fn lemma_merge_preserves_unique(
    l: Seq<ServerView>,
    c: Seq<ParsedServerView>,
    now: u64,
)
    requires
        ips_unique(l),
    ensures
        ips_unique(spec_merge(l, c, now).0),
    decreases c.len(),
{
    if c.len() > 0 {
        lemma_merge_one_preserves_unique(l, c[0], now);
        lemma_merge_preserves_unique(spec_merge_one(l, c[0], now).0, c.drop_first(), now);
    }
}

/// Overwriting an entry from the same candidate twice is the same as
/// overwriting it once.
proof fn lemma_update_from_idempotent(s: ServerView, c: ParsedServerView)
    ensures
        spec_update_from(spec_update_from(s, c), c) == spec_update_from(s, c),
{
}

/// After one merge step, the candidate is fully taken in.
proof fn lemma_merge_one_absorbs(l: Seq<ServerView>, c: ParsedServerView, now: u64)
    ensures
        absorbed(spec_merge_one(l, c, now).0, c),
{
    let k = spec_find_ip(l, c.ip_addr);
    lemma_find_ip_properties(l, c.ip_addr);
    if k >= 0 {
        let m = l.update(k, spec_update_from(l[k], c));
        assert(forall|j: int| 0 <= j < l.len() ==> m[j].ip_addr == l[j].ip_addr);
        lemma_find_same_ips(l, m, c.ip_addr);
        lemma_update_from_idempotent(l[k], c);
    } else {
        let m = l.push(spec_new_server(c, now));
        lemma_find_ip_determined(m, c.ip_addr, l.len() as int);
        lemma_update_from_idempotent(
            ServerView {
                created: now,
                updated: now,
                id: 0,
                active: true,
                ip_addr: c.ip_addr,
                ..spec_default_server()
            },
            c,
        );
    }
}

/// A merge step for a candidate with a different IP address leaves an
/// absorbed candidate absorbed.
proof fn lemma_merge_one_keeps_absorbed(
    l: Seq<ServerView>,
    c: ParsedServerView,
    now: u64,
    x: ParsedServerView,
)
    requires
        absorbed(l, x),
        c.ip_addr != x.ip_addr,
    ensures
        absorbed(spec_merge_one(l, c, now).0, x),
{
    let kx = spec_find_ip(l, x.ip_addr);
    let k = spec_find_ip(l, c.ip_addr);
    lemma_find_ip_properties(l, c.ip_addr);
    lemma_find_ip_properties(l, x.ip_addr);
    if k >= 0 {
        let m = l.update(k, spec_update_from(l[k], c));
        assert(forall|j: int| 0 <= j < l.len() ==> m[j].ip_addr == l[j].ip_addr);
        lemma_find_same_ips(l, m, x.ip_addr);
        assert(l[k].ip_addr == c.ip_addr);
        assert(m[kx] == l[kx]);
    } else {
        let m = l.push(spec_new_server(c, now));
        lemma_find_ip_properties(l, x.ip_addr);
        lemma_find_ip_determined(m, x.ip_addr, kx);
    }
}

/// Merging candidates with other IP addresses leaves an absorbed
/// candidate absorbed.
proof fn lemma_merge_keeps_absorbed(
    l: Seq<ServerView>,
    c: Seq<ParsedServerView>,
    now: u64,
    x: ParsedServerView,
)
    requires
        absorbed(l, x),
        forall|i: int| 0 <= i < c.len() ==> c[i].ip_addr != x.ip_addr,
    ensures
        absorbed(spec_merge(l, c, now).0, x),
    decreases c.len(),
{
    if c.len() > 0 {
        lemma_merge_one_keeps_absorbed(l, c[0], now, x);
        lemma_merge_keeps_absorbed(spec_merge_one(l, c[0], now).0, c.drop_first(), now, x);
    }
}

/// After merging a deduplicated batch, every candidate of the batch is
/// fully taken in.
proof fn lemma_merge_absorbs(l: Seq<ServerView>, c: Seq<ParsedServerView>, now: u64)
    requires
        distinct_candidate_ips(c),
    ensures
        forall|i: int| 0 <= i < c.len() ==> absorbed(#[trigger] spec_merge(l, c, now).0, c[i]),
    decreases c.len(),
{
    if c.len() > 0 {
        let l1 = spec_merge_one(l, c[0], now).0;
        lemma_merge_one_absorbs(l, c[0], now);
        lemma_merge_keeps_absorbed(l1, c.drop_first(), now, c[0]);
        lemma_merge_absorbs(l1, c.drop_first(), now);
        assert forall|i: int| 0 <= i < c.len() implies absorbed(
            #[trigger] spec_merge(l, c, now).0,
            c[i],
        ) by {
            if i > 0 {
                assert(c.drop_first()[i - 1] == c[i]);
                assert(absorbed(spec_merge(l1, c.drop_first(), now).0, c.drop_first()[i - 1]));
            }
        }
    }
}

/// Merging a batch of fully absorbed candidates changes nothing and
/// inserts nothing: every candidate counts as an update.
proof fn lemma_merge_absorbed_batch(l: Seq<ServerView>, c: Seq<ParsedServerView>, now: u64)
    requires
        forall|i: int| 0 <= i < c.len() ==> absorbed(l, #[trigger] c[i]),
    ensures
        spec_merge(l, c, now) == (l, 0int, c.len() as int),
    decreases c.len(),
{
    if c.len() > 0 {
        let k = spec_find_ip(l, c[0].ip_addr);
        assert(absorbed(l, c[0]));
        assert(l.update(k, spec_update_from(l[k], c[0])) =~= l);
        assert(spec_merge_one(l, c[0], now) == (l, false));
        assert(forall|i: int| 0 <= i < c.len() - 1 ==> c.drop_first()[i] == c[i + 1]);
        lemma_merge_absorbed_batch(l, c.drop_first(), now);
    }
}

/// Merging the same deduplicated candidate batch twice yields the same
/// collection as merging it once: the second merge changes nothing and
/// inserts nothing, whatever timestamps the two rounds carry.
pub proof fn lemma_merge_idempotent(
    l: Seq<ServerView>,
    c: Seq<ParsedServerView>,
    now1: u64,
    now2: u64,
)
    requires
        distinct_candidate_ips(c),
    ensures
        ({
            let once = spec_merge(l, c, now1);
            let twice = spec_merge(once.0, c, now2);
            &&& twice.0 == once.0
            &&& twice.1 == 0
            &&& twice.2 == c.len()
        }),
{
    lemma_merge_absorbs(l, c, now1);
    lemma_merge_absorbed_batch(spec_merge(l, c, now1).0, c, now2);
}

/// Merging a batch of one matched and one new candidate yields exactly
/// one update and one insert.
pub proof fn lemma_merge_update_and_insert(
    l: Seq<ServerView>,
    ca: ParsedServerView,
    cb: ParsedServerView,
    now: u64,
)
    requires
        spec_find_ip(l, ca.ip_addr) >= 0,
        spec_find_ip(l, cb.ip_addr) == -1,
        ca.ip_addr != cb.ip_addr,
    ensures
        ({
            let m = spec_merge(l, seq![ca, cb], now);
            &&& m.1 == 1
            &&& m.2 == 1
        }),
{
    let c = seq![ca, cb];
    assert(c[0] == ca);
    let k = spec_find_ip(l, ca.ip_addr);
    lemma_find_ip_properties(l, ca.ip_addr);
    let l1 = spec_merge_one(l, ca, now).0;
    assert(l1 == l.update(k, spec_update_from(l[k], ca)));
    assert(l1.len() == l.len());
    assert(forall|j: int| 0 <= j < l.len() ==> l1[j].ip_addr == l[j].ip_addr);
    lemma_find_same_ips(l, l1, cb.ip_addr);
    assert(c.drop_first() =~= seq![cb]);
    assert(c.drop_first()[0] == cb);
    let l2 = spec_merge_one(l1, cb, now).0;
    assert(spec_merge_one(l1, cb, now) == (l1.push(spec_new_server(cb, now)), true));
    assert(seq![cb].drop_first() =~= Seq::<ParsedServerView>::empty());
    let m2 = spec_merge(l2, Seq::<ParsedServerView>::empty(), now);
    assert(m2 == (l2, 0int, 0int));
    let m1 = spec_merge(l1, seq![cb], now);
    assert(m1 == (l2, 1int, 0int));
    let m = spec_merge(l, c, now);
    assert(m == (l2, 1int, 1int));
}

/// The merge's report always accounts for every candidate: inserts plus
/// updates equal the batch size.
pub proof fn lemma_merge_counts(l: Seq<ServerView>, c: Seq<ParsedServerView>, now: u64)
    ensures
        ({
            let m = spec_merge(l, c, now);
            &&& 0 <= m.1
            &&& 0 <= m.2
            &&& m.1 + m.2 == c.len()
        }),
    decreases c.len(),
{
    if c.len() > 0 {
        lemma_merge_counts(spec_merge_one(l, c[0], now).0, c.drop_first(), now);
    }
}

/// The defensive guard the merge relies on: whether a candidate batch
/// holds at most one candidate per IP address.  A batch that has been
/// through the sort-and-deduplicate step always does.
pub fn candidates_deduplicated(parsed: &[ParsedServer]) -> (r: bool)
    ensures
        r == distinct_candidate_ips(server_views(parsed@)),
{
    let n = parsed.len();
    let mut i: usize = 0;
    while i < n
        invariant
            0 <= i <= n,
            n == parsed@.len(),
            forall|a: int, b: int|
                0 <= a < b < n && a < i ==> server_views(parsed@)[a].ip_addr != server_views(
                    parsed@,
                )[b].ip_addr,
        decreases n - i,
    {
        let mut j = i + 1;
        while j < n
            invariant
                0 <= i < j <= n,
                n == parsed@.len(),
                forall|b: int|
                    i < b < j ==> server_views(parsed@)[i as int].ip_addr != server_views(
                        parsed@,
                    )[b].ip_addr,
            decreases n - j,
        {
            if parsed[i].ip_addr == parsed[j].ip_addr {
                proof {
                    assert(server_views(parsed@)[i as int].ip_addr == server_views(
                        parsed@,
                    )[j as int].ip_addr);
                    assert(!distinct_candidate_ips(server_views(parsed@)));
                }
                return false;
            }
            j = j + 1;
        }
        i = i + 1;
    }
    true
}

} // verus!
