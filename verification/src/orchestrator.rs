use vstd::prelude::*;

use crate::parsing::{parse_servers, server_views, spec_parse_servers, ParsedServer,
    ParsedServerView};
use crate::server::distinct_candidate_ips;

verus! {

/// What one source's bytes contribute to the candidate list.  A transport
/// failure (no body) or a decode failure contributes nothing; an empty
/// body is an empty list.  Failures are contained to their source and
/// never abort the whole refresh.
pub open spec fn spec_source_servers(src: Seq<char>, body: Option<Seq<u8>>) -> Seq<
    ParsedServerView,
> {
    match body {
        None => Seq::<ParsedServerView>::empty(),
        Some(b) => if b.len() == 0 {
            Seq::<ParsedServerView>::empty()
        } else {
            match spec_parse_servers(src, b) {
                Ok(l) => l,
                Err(_) => Seq::<ParsedServerView>::empty(),
            }
        },
    }
}

/// Whether one source counts as a success: its body arrived and, when it
/// was not empty, it decoded.
pub open spec fn spec_source_ok(src: Seq<char>, body: Option<Seq<u8>>) -> bool {
    match body {
        None => false,
        Some(b) => b.len() == 0 || spec_parse_servers(src, b) is Ok,
    }
}

/// The byte content of one source's optional body.
pub open spec fn opt_body_view(body: Option<Vec<u8>>) -> Option<Seq<u8>> {
    match body {
        Some(b) => Some(b@),
        None => None,
    }
}

/// One source's result: its decoded entries and whether it succeeded.
pub struct SourceOutcome {
    pub servers: Vec<ParsedServer>,
    pub ok: bool,
}

/// Turns one source's fetched body into its candidate contribution.
/// `None` stands for a transport failure or timeout; a decode failure is
/// caught here and downgraded to an empty contribution, so one bad source
/// never fails the whole refresh.
pub fn process_source_response(source: &str, body: Option<Vec<u8>>) -> (r: SourceOutcome)
    ensures
        server_views(r.servers@) == spec_source_servers(source@, opt_body_view(body)),
        r.ok == spec_source_ok(source@, opt_body_view(body)),
{
    match body {
        None => {
            let r = SourceOutcome { servers: Vec::new(), ok: false };
            proof {
                assert(server_views(r.servers@) =~= Seq::<ParsedServerView>::empty());
            }
            r
        },
        Some(bytes) => {
            if bytes.len() == 0 {
                let r = SourceOutcome { servers: Vec::new(), ok: true };
                proof {
                    assert(server_views(r.servers@) =~= Seq::<ParsedServerView>::empty());
                }
                r
            } else {
                match parse_servers(source, bytes.as_slice()) {
                    Ok(servers) => SourceOutcome { servers, ok: true },
                    Err(_) => {
                        let r = SourceOutcome { servers: Vec::new(), ok: false };
                        proof {
                            assert(server_views(r.servers@) =~= Seq::<ParsedServerView>::empty());
                        }
                        r
                    },
                }
            }
        },
    }
}

/// The per-source candidate lists, in source order, laid end to end.
pub open spec fn spec_concat(ls: Seq<Seq<ParsedServerView>>) -> Seq<ParsedServerView>
    decreases ls.len(),
{
    if ls.len() == 0 {
        Seq::<ParsedServerView>::empty()
    } else {
        ls[0] + spec_concat(ls.drop_first())
    }
}

/// The entry-by-entry values of a list of per-source lists.
pub open spec fn lists_views(v: Seq<Vec<ParsedServer>>) -> Seq<Seq<ParsedServerView>> {
    Seq::new(v.len(), |k: int| server_views(v[k]@))
}

/// Inserts `x` after every entry whose IP address is less than or equal
/// to its own, so that entries with equal addresses keep their arrival
/// order.
pub open spec fn spec_insert_by_ip(sorted: Seq<ParsedServerView>, x: ParsedServerView) -> Seq<
    ParsedServerView,
>
    decreases sorted.len(),
{
    if sorted.len() == 0 {
        seq![x]
    } else if sorted.last().ip_addr <= x.ip_addr {
        sorted.push(x)
    } else {
        spec_insert_by_ip(sorted.drop_last(), x).push(sorted.last())
    }
}

/// Insertion sort by IP address.  Insertion keeps the arrival order of
/// entries with equal addresses, which is what makes the later
/// deduplication tie-break deterministic.
pub open spec fn spec_sort_by_ip(s: Seq<ParsedServerView>) -> Seq<ParsedServerView>
    decreases s.len(),
{
    if s.len() == 0 {
        Seq::<ParsedServerView>::empty()
    } else {
        spec_insert_by_ip(spec_sort_by_ip(s.drop_last()), s.last())
    }
}

/// Removes every entry whose IP address equals that of the entry just
/// before it, keeping the first entry of each adjacent run.
pub open spec fn spec_dedup_adjacent(s: Seq<ParsedServerView>) -> Seq<ParsedServerView>
    decreases s.len(),
{
    if s.len() == 0 {
        Seq::<ParsedServerView>::empty()
    } else {
        let d = spec_dedup_adjacent(s.drop_last());
        if s.len() == 1 || s[s.len() - 2].ip_addr != s.last().ip_addr {
            d.push(s.last())
        } else {
            d
        }
    }
}

/// The whole post-fetch aggregation: lay the per-source lists end to end,
/// sort by IP address keeping arrival order among equals, then drop
/// adjacent duplicates keeping the first.
pub open spec fn spec_collect(ls: Seq<Seq<ParsedServerView>>) -> Seq<ParsedServerView> {
    spec_dedup_adjacent(spec_sort_by_ip(spec_concat(ls)))
}

/// Where the exec scan left off is exactly where the insertion spec puts
/// the new entry.
proof fn lemma_insert_position(sorted: Seq<ParsedServerView>, x: ParsedServerView, k: int)
    requires
        0 <= k <= sorted.len(),
        forall|j: int| k <= j < sorted.len() ==> sorted[j].ip_addr > x.ip_addr,
        k > 0 ==> sorted[k - 1].ip_addr <= x.ip_addr,
    ensures
        spec_insert_by_ip(sorted, x) == sorted.take(k) + seq![x] + sorted.skip(k),
    decreases sorted.len(),
{
    if k == sorted.len() {
        if sorted.len() == 0 {
            assert(spec_insert_by_ip(sorted, x) =~= sorted.take(k) + seq![x] + sorted.skip(k));
        } else {
            assert(sorted.take(k) =~= sorted);
            assert(sorted.skip(k) =~= Seq::<ParsedServerView>::empty());
            assert(sorted.push(x) =~= sorted.take(k) + seq![x] + sorted.skip(k));
        }
    } else {
        lemma_insert_position(sorted.drop_last(), x, k);
        assert(sorted.drop_last().take(k) =~= sorted.take(k));
        assert(spec_insert_by_ip(sorted.drop_last(), x).push(sorted.last()) =~= sorted.take(k)
            + seq![x] + sorted.skip(k));
    }
}

/// Inserts one entry into an already-sorted vector, after every entry
/// whose IP address is less than or equal to its own.
fn insert_by_ip(out: &mut Vec<ParsedServer>, x: ParsedServer)
    ensures
        server_views(final(out)@) == spec_insert_by_ip(server_views(old(out)@), x@),
{
    let ghost sorted = server_views(old(out)@);
    let mut k = out.len();
    while k > 0 && out[k - 1].ip_addr > x.ip_addr
        invariant
            0 <= k <= out@.len(),
            sorted == server_views(out@),
            forall|j: int| k <= j < out@.len() ==> sorted[j].ip_addr > x@.ip_addr,
        decreases k,
    {
        k = k - 1;
    }
    proof {
        lemma_insert_position(sorted, x@, k as int);
    }
    let ghost xv = x@;
    out.insert(k, x);
    proof {
        assert(server_views(out@) =~= sorted.take(k as int) + seq![xv] + sorted.skip(k as int));
    }
}

/// Concatenates the per-source candidate lists, sorts the result by IP
/// address (keeping arrival order among equal addresses) and removes
/// adjacent duplicate addresses, keeping the first survivor.  This makes
/// the final candidate list, and with it the answer to "which source wins
/// for a given address", deterministic: the outcome depends only on the
/// content and order of the input lists, never on completion timing.
pub fn collect_candidates(lists: Vec<Vec<ParsedServer>>) -> (r: Vec<ParsedServer>)
    ensures
        server_views(r@) == spec_collect(lists_views(lists@)),
        distinct_candidate_ips(server_views(r@)),
{
    proof {
        lemma_collect_tie_break(lists_views(lists@));
    }
    // Lay the lists end to end.
    let ghost lsv = lists_views(lists@);
    let mut flat: Vec<ParsedServer> = Vec::new();
    let mut li: usize = 0;
    proof {
        assert(server_views(flat@) =~= Seq::<ParsedServerView>::empty());
        assert(lsv.skip(0) =~= lsv);
    }
    while li < lists.len()
        invariant
            lsv == lists_views(lists@),
            0 <= li <= lists@.len(),
            lsv.len() == lists@.len(),
            spec_concat(lsv) == server_views(flat@) + spec_concat(lsv.skip(li as int)),
        decreases lists@.len() - li,
    {
        let ghost pre_flat = server_views(flat@);
        let mut ei: usize = 0;
        let n = lists[li].len();
        while ei < n
            invariant
                lsv == lists_views(lists@),
                0 <= li < lists@.len(),
                0 <= ei <= n,
                n == lists@[li as int]@.len(),
                server_views(flat@) == pre_flat + lsv[li as int].take(ei as int),
            decreases n - ei,
        {
            let ghost pre = server_views(flat@);
            let x = clone_parsed(&lists[li], ei);
            let ghost xv = x@;
            flat.push(x);
            proof {
                assert(server_views(flat@) =~= pre.push(xv));
                assert(xv == lsv[li as int][ei as int]);
                assert(pre_flat + lsv[li as int].take(ei + 1) =~= (pre_flat + lsv[li as int].take(
                    ei as int,
                )).push(lsv[li as int][ei as int]));
            }
            ei = ei + 1;
        }
        proof {
            assert(lsv[li as int].take(n as int) =~= lsv[li as int]);
            assert(lsv.skip(li as int).drop_first() =~= lsv.skip(li + 1));
            assert(spec_concat(lsv.skip(li as int)) == lsv[li as int] + spec_concat(
                lsv.skip(li + 1),
            ));
            assert((pre_flat + lsv[li as int]) + spec_concat(lsv.skip(li + 1)) =~= pre_flat + (
            lsv[li as int] + spec_concat(lsv.skip(li + 1))));
        }
        li = li + 1;
    }
    proof {
        assert(lsv.skip(lsv.len() as int) =~= Seq::<Seq<ParsedServerView>>::empty());
        assert(server_views(flat@) + Seq::<ParsedServerView>::empty() =~= server_views(flat@));
    }
    let ghost catv = server_views(flat@);
    // Sort by IP address, stably.
    let mut sorted: Vec<ParsedServer> = Vec::new();
    let mut i: usize = 0;
    proof {
        assert(server_views(sorted@) =~= Seq::<ParsedServerView>::empty());
        assert(catv.take(0) =~= Seq::<ParsedServerView>::empty());
    }
    while i < flat.len()
        invariant
            catv == server_views(flat@),
            0 <= i <= flat@.len(),
            catv.len() == flat@.len(),
            server_views(sorted@) == spec_sort_by_ip(catv.take(i as int)),
        decreases flat@.len() - i,
    {
        let x = clone_parsed(&flat, i);
        proof {
            assert(x@ == catv[i as int]);
            assert(catv.take(i + 1).drop_last() =~= catv.take(i as int));
            assert(catv.take(i + 1).last() == catv[i as int]);
        }
        insert_by_ip(&mut sorted, x);
        i = i + 1;
    }
    proof {
        assert(catv.take(catv.len() as int) =~= catv);
    }
    let ghost sortv = server_views(sorted@);
    // Drop adjacent duplicate addresses, keeping the first.
    let mut out: Vec<ParsedServer> = Vec::new();
    let mut i: usize = 0;
    proof {
        assert(server_views(out@) =~= Seq::<ParsedServerView>::empty());
        assert(sortv.take(0) =~= Seq::<ParsedServerView>::empty());
    }
    while i < sorted.len()
        invariant
            sortv == server_views(sorted@),
            0 <= i <= sorted@.len(),
            sortv.len() == sorted@.len(),
            server_views(out@) == spec_dedup_adjacent(sortv.take(i as int)),
            i > 0 ==> out@.len() > 0 && server_views(out@).last().ip_addr == sortv[i - 1].ip_addr,
        decreases sorted@.len() - i,
    {
        proof {
            assert(sortv.take(i + 1).drop_last() =~= sortv.take(i as int));
            assert(sortv.take(i + 1).last() == sortv[i as int]);
        }
        let keep = if out.len() == 0 {
            true
        } else {
            out[out.len() - 1].ip_addr != sorted[i].ip_addr
        };
        if keep {
            let x = clone_parsed(&sorted, i);
            let ghost pre = server_views(out@);
            let ghost xv = x@;
            out.push(x);
            proof {
                assert(server_views(out@) =~= pre.push(xv));
            }
        }
        i = i + 1;
    }
    proof {
        assert(sortv.take(sortv.len() as int) =~= sortv);
    }
    out
}

/// Whether some entry of `s` carries the given IP address.
pub open spec fn has_ip(s: Seq<ParsedServerView>, ip: u32) -> bool {
    exists|i: int| 0 <= i < s.len() && (#[trigger] s[i]).ip_addr == ip
}

/// The index of the first entry with the given IP address, or -1 when
/// there is none.
pub open spec fn spec_first_with_ip(s: Seq<ParsedServerView>, ip: u32) -> int
    decreases s.len(),
{
    if s.len() == 0 {
        -1
    } else if s[0].ip_addr == ip {
        0
    } else {
        let r = spec_first_with_ip(s.drop_first(), ip);
        if r < 0 {
            -1
        } else {
            r + 1
        }
    }
}

/// Whether the entries are in non-decreasing IP address order.
pub open spec fn sorted_by_ip(s: Seq<ParsedServerView>) -> bool {
    forall|i: int, j: int| 0 <= i < j < s.len() ==> (#[trigger] s[i]).ip_addr <= (#[trigger] s[j]).ip_addr
}

/// The first-occurrence lookup really is a first occurrence, and it
/// succeeds exactly when the address is present.
proof fn lemma_first_with_ip_properties(s: Seq<ParsedServerView>, ip: u32)
    ensures
        (spec_first_with_ip(s, ip) >= 0) == has_ip(s, ip),
        spec_first_with_ip(s, ip) >= 0 ==> {
            &&& spec_first_with_ip(s, ip) < s.len()
            &&& s[spec_first_with_ip(s, ip)].ip_addr == ip
            &&& forall|j: int| 0 <= j < spec_first_with_ip(s, ip) ==> (#[trigger] s[j]).ip_addr != ip
        },
    decreases s.len(),
{
    if s.len() == 0 {
    } else if s[0].ip_addr == ip {
        assert(has_ip(s, ip));
    } else {
        lemma_first_with_ip_properties(s.drop_first(), ip);
        assert(forall|j: int| 1 <= j < s.len() ==> s[j] == (#[trigger] s.drop_first()[j - 1]));
        if has_ip(s, ip) {
            let w = choose|i: int| 0 <= i < s.len() && (#[trigger] s[i]).ip_addr == ip;
            assert(s.drop_first()[w - 1].ip_addr == ip);
            assert(has_ip(s.drop_first(), ip));
        }
        if has_ip(s.drop_first(), ip) {
            let w = choose|i: int|
                0 <= i < s.drop_first().len() && (#[trigger] s.drop_first()[i]).ip_addr == ip;
            assert(s[w + 1].ip_addr == ip);
            assert(has_ip(s, ip));
        }
        let r = spec_first_with_ip(s.drop_first(), ip);
        if r >= 0 {
            assert forall|j: int| 0 <= j < r + 1 implies (#[trigger] s[j]).ip_addr != ip by {
                if j > 0 {
                    assert(s.drop_first()[j - 1].ip_addr != ip);
                }
            }
        }
    }
}

/// The first occurrence is pinned down by a scan: no occurrence before
/// `k`, and an occurrence (or the end) at `k`.
proof fn lemma_first_with_ip_determined(s: Seq<ParsedServerView>, ip: u32, k: int)
    requires
        0 <= k <= s.len(),
        forall|j: int| 0 <= j < k ==> (#[trigger] s[j]).ip_addr != ip,
        k < s.len() ==> s[k].ip_addr == ip,
    ensures
        spec_first_with_ip(s, ip) == if k == s.len() {
            -1int
        } else {
            k
        },
    decreases s.len(),
{
    if s.len() > 0 && k > 0 {
        lemma_first_with_ip_determined(s.drop_first(), ip, k - 1);
    }
}

/// Where a new entry lands in a sorted list: the index of the first entry
/// with a strictly greater address.
spec fn spec_upper(s: Seq<ParsedServerView>, ip: u32) -> int
    decreases s.len(),
{
    if s.len() == 0 {
        0
    } else if s[0].ip_addr <= ip {
        1 + spec_upper(s.drop_first(), ip)
    } else {
        0
    }
}

proof fn lemma_upper_properties(s: Seq<ParsedServerView>, ip: u32)
    requires
        sorted_by_ip(s),
    ensures
        0 <= spec_upper(s, ip) <= s.len(),
        forall|j: int| 0 <= j < spec_upper(s, ip) ==> (#[trigger] s[j]).ip_addr <= ip,
        forall|j: int| spec_upper(s, ip) <= j < s.len() ==> (#[trigger] s[j]).ip_addr > ip,
    decreases s.len(),
{
    if s.len() == 0 {
    } else if s[0].ip_addr <= ip {
        assert(forall|i: int, j: int|
            0 <= i < j < s.drop_first().len() ==> (#[trigger] s.drop_first()[i]).ip_addr <= (
            #[trigger] s.drop_first()[j]).ip_addr);
        lemma_upper_properties(s.drop_first(), ip);
        assert(forall|j: int| 1 <= j < s.len() ==> s[j] == (#[trigger] s.drop_first()[j - 1]));
        let p = spec_upper(s, ip);
        assert forall|j: int| 0 <= j < p implies (#[trigger] s[j]).ip_addr <= ip by {
            if j > 0 {
                assert(s.drop_first()[j - 1].ip_addr <= ip);
            }
        }
        assert forall|j: int| p <= j < s.len() implies (#[trigger] s[j]).ip_addr > ip by {
            assert(s.drop_first()[j - 1].ip_addr > ip);
        }
    } else {
        assert forall|j: int| 0 <= j < s.len() implies (#[trigger] s[j]).ip_addr > ip by {
            if j > 0 {
                assert(s[0].ip_addr <= s[j].ip_addr);
            }
        }
    }
}

/// In a sorted list, the insertion really is "take, the new entry, skip"
/// at the upper position.
proof fn lemma_insert_decompose(s: Seq<ParsedServerView>, x: ParsedServerView)
    requires
        sorted_by_ip(s),
    ensures
        ({
            let p = spec_upper(s, x.ip_addr);
            spec_insert_by_ip(s, x) == s.take(p) + seq![x] + s.skip(p)
        }),
{
    let p = spec_upper(s, x.ip_addr);
    lemma_upper_properties(s, x.ip_addr);
    lemma_insert_position(s, x, p);
}

/// An address occurs in a list exactly when it occurs in the list
/// without its last entry, or belongs to that last entry.
proof fn lemma_has_ip_drop_last(s: Seq<ParsedServerView>, ip: u32)
    requires
        s.len() > 0,
    ensures
        has_ip(s, ip) == (has_ip(s.drop_last(), ip) || s.last().ip_addr == ip),
{
    if has_ip(s, ip) {
        let w = choose|i: int| 0 <= i < s.len() && (#[trigger] s[i]).ip_addr == ip;
        if w < s.len() - 1 {
            assert(s.drop_last()[w].ip_addr == ip);
            assert(has_ip(s.drop_last(), ip));
        }
    }
    if has_ip(s.drop_last(), ip) {
        let w = choose|i: int|
            0 <= i < s.drop_last().len() && (#[trigger] s.drop_last()[i]).ip_addr == ip;
        assert(s[w].ip_addr == ip);
        assert(has_ip(s, ip));
    }
    if s.last().ip_addr == ip {
        assert(s[s.len() - 1].ip_addr == ip);
        assert(has_ip(s, ip));
    }
}

/// Dropping the last entry moves the first occurrence of an address only
/// when that occurrence was the last entry itself.
proof fn lemma_first_drop_last(s: Seq<ParsedServerView>, ip: u32)
    requires
        s.len() > 0,
    ensures
        has_ip(s.drop_last(), ip) ==> spec_first_with_ip(s, ip) == spec_first_with_ip(
            s.drop_last(),
            ip,
        ),
        !has_ip(s.drop_last(), ip) && s.last().ip_addr == ip ==> spec_first_with_ip(s, ip)
            == s.len() - 1,
{
    lemma_first_with_ip_properties(s.drop_last(), ip);
    if has_ip(s.drop_last(), ip) {
        let f = spec_first_with_ip(s.drop_last(), ip);
        assert(s[f] == s.drop_last()[f]);
        assert forall|j: int| 0 <= j < f implies (#[trigger] s[j]).ip_addr != ip by {
            assert(s[j] == s.drop_last()[j]);
        }
        lemma_first_with_ip_determined(s, ip, f);
    } else if s.last().ip_addr == ip {
        assert forall|j: int| 0 <= j < s.len() - 1 implies (#[trigger] s[j]).ip_addr != ip by {
            assert(s[j] == s.drop_last()[j]);
            if s[j].ip_addr == ip {
                assert(has_ip(s.drop_last(), ip));
            }
        }
        lemma_first_with_ip_determined(s, ip, s.len() - 1);
    }
}

/// Inserting into a sorted list keeps it sorted.
proof fn lemma_insert_sorted(t: Seq<ParsedServerView>, x: ParsedServerView)
    requires
        sorted_by_ip(t),
    ensures
        sorted_by_ip(spec_insert_by_ip(t, x)),
        spec_insert_by_ip(t, x).len() == t.len() + 1,
{
    let p = spec_upper(t, x.ip_addr);
    lemma_upper_properties(t, x.ip_addr);
    lemma_insert_decompose(t, x);
    let m = spec_insert_by_ip(t, x);
    assert forall|i: int, j: int|
        0 <= i < j < m.len() implies (#[trigger] m[i]).ip_addr <= (#[trigger] m[j]).ip_addr by {
        let a = if i < p {
            t[i]
        } else if i == p {
            x
        } else {
            t[i - 1]
        };
        let b = if j < p {
            t[j]
        } else if j == p {
            x
        } else {
            t[j - 1]
        };
        assert(m[i] == a);
        assert(m[j] == b);
    }
}

/// Insertion adds the new entry's address and, because the new entry
/// lands after every entry with the same address, never changes which
/// entry is the first for any address.
proof fn lemma_insert_first(t: Seq<ParsedServerView>, x: ParsedServerView, ip: u32)
    requires
        sorted_by_ip(t),
    ensures
        has_ip(spec_insert_by_ip(t, x), ip) == (has_ip(t, ip) || x.ip_addr == ip),
        has_ip(t, ip) ==> spec_insert_by_ip(t, x)[spec_first_with_ip(
            spec_insert_by_ip(t, x),
            ip,
        )] == t[spec_first_with_ip(t, ip)],
        !has_ip(t, ip) && x.ip_addr == ip ==> spec_insert_by_ip(t, x)[spec_first_with_ip(
            spec_insert_by_ip(t, x),
            ip,
        )] == x,
{
    let p = spec_upper(t, x.ip_addr);
    lemma_upper_properties(t, x.ip_addr);
    lemma_insert_decompose(t, x);
    lemma_first_with_ip_properties(t, ip);
    let m = spec_insert_by_ip(t, x);
    assert(m[p] == x);
    assert(forall|i: int| 0 <= i < p ==> #[trigger] m[i] == t[i]);
    assert(forall|i: int| p < i < m.len() ==> #[trigger] m[i] == t[i - 1]);
    if has_ip(t, ip) {
        let f = spec_first_with_ip(t, ip);
        if f < p {
            assert forall|j: int| 0 <= j < f implies (#[trigger] m[j]).ip_addr != ip by {
                assert(m[j] == t[j]);
            }
            assert(m[f] == t[f]);
            lemma_first_with_ip_determined(m, ip, f);
            assert(has_ip(m, ip));
        } else {
            // The first occurrence sits at or past the insertion point,
            // so the new entry's address differs from `ip`.
            assert(t[f].ip_addr > x.ip_addr);
            assert forall|j: int| 0 <= j < f + 1 implies (#[trigger] m[j]).ip_addr != ip by {
                if j < p {
                    assert(m[j] == t[j]);
                } else if j == p {
                    assert(m[j] == x);
                } else {
                    assert(m[j] == t[j - 1]);
                }
            }
            assert(m[f + 1] == t[f]);
            lemma_first_with_ip_determined(m, ip, f + 1);
            assert(has_ip(m, ip));
        }
    } else if x.ip_addr == ip {
        assert forall|j: int| 0 <= j < p implies (#[trigger] m[j]).ip_addr != ip by {
            assert(m[j] == t[j]);
            if t[j].ip_addr == ip {
                assert(has_ip(t, ip));
            }
        }
        lemma_first_with_ip_determined(m, ip, p);
        assert(has_ip(m, ip));
    } else {
        if has_ip(m, ip) {
            let w = choose|i: int| 0 <= i < m.len() && (#[trigger] m[i]).ip_addr == ip;
            if w < p {
                assert(t[w].ip_addr == ip);
                assert(has_ip(t, ip));
            } else if w == p {
            } else {
                assert(t[w - 1].ip_addr == ip);
                assert(has_ip(t, ip));
            }
        }
    }
}

/// Sorting keeps every address present and keeps, for each address, the
/// earliest-arrived entry as the first one: the sort is stable.
proof fn lemma_sort_first(s: Seq<ParsedServerView>, ip: u32)
    ensures
        sorted_by_ip(spec_sort_by_ip(s)),
        has_ip(spec_sort_by_ip(s), ip) == has_ip(s, ip),
        has_ip(s, ip) ==> spec_sort_by_ip(s)[spec_first_with_ip(spec_sort_by_ip(s), ip)]
            == s[spec_first_with_ip(s, ip)],
    decreases s.len(),
{
    if s.len() == 0 {
        // An empty list has no addresses: the witness bound is absurd.
        assert(!has_ip(s, ip)) by {
            if has_ip(s, ip) {
                let w = choose|i: int| 0 <= i < s.len() && (#[trigger] s[i]).ip_addr == ip;
            }
        }
    } else {
        let sp = s.drop_last();
        let x = s.last();
        let t = spec_sort_by_ip(sp);
        lemma_sort_first(sp, ip);
        lemma_insert_sorted(t, x);
        lemma_insert_first(t, x, ip);
        lemma_has_ip_drop_last(s, ip);
        lemma_first_drop_last(s, ip);
        lemma_first_with_ip_properties(sp, ip);
        lemma_first_with_ip_properties(t, ip);
        if has_ip(sp, ip) {
            assert(s[spec_first_with_ip(s, ip)] == sp[spec_first_with_ip(sp, ip)]);
        } else if x.ip_addr == ip {
            assert(s[spec_first_with_ip(s, ip)] == x);
        }
    }
}

/// Adjacent deduplication of a sorted list keeps every address present
/// exactly once, and keeps for each address its first entry.
proof fn lemma_dedup_first(s: Seq<ParsedServerView>, ip: u32)
    requires
        sorted_by_ip(s),
    ensures
        has_ip(spec_dedup_adjacent(s), ip) == has_ip(s, ip),
        has_ip(s, ip) ==> spec_dedup_adjacent(s)[spec_first_with_ip(spec_dedup_adjacent(s), ip)]
            == s[spec_first_with_ip(s, ip)],
    decreases s.len(),
{
    if s.len() == 0 {
        // An empty list has no addresses: the witness bound is absurd.
        assert(!has_ip(s, ip)) by {
            if has_ip(s, ip) {
                let w = choose|i: int| 0 <= i < s.len() && (#[trigger] s[i]).ip_addr == ip;
            }
        }
    } else {
        let sp = s.drop_last();
        let x = s.last();
        let dp = spec_dedup_adjacent(sp);
        assert(forall|j: int| 0 <= j < sp.len() ==> #[trigger] sp[j] == s[j]);
        assert(forall|i: int, j: int|
            0 <= i < j < sp.len() ==> (#[trigger] sp[i]).ip_addr <= (#[trigger] sp[j]).ip_addr);
        lemma_dedup_first(sp, ip);
        lemma_has_ip_drop_last(s, ip);
        lemma_first_drop_last(s, ip);
        lemma_first_with_ip_properties(sp, ip);
        lemma_first_with_ip_properties(dp, ip);
        if s.len() == 1 || s[s.len() - 2].ip_addr != x.ip_addr {
            // The last entry starts a new run and is kept.
            let d = dp.push(x);
            assert(spec_dedup_adjacent(s) == d);
            assert(d.drop_last() =~= dp);
            lemma_has_ip_drop_last(d, ip);
            lemma_first_drop_last(d, ip);
            // No earlier entry carries the last entry's address: in a
            // sorted list an equal address would also appear just before
            // the end.
            assert(!has_ip(sp, x.ip_addr)) by {
                if has_ip(sp, x.ip_addr) {
                    let w = choose|i: int|
                        0 <= i < sp.len() && (#[trigger] sp[i]).ip_addr == x.ip_addr;
                    assert(s.len() >= 2);
                    assert(s[w].ip_addr == x.ip_addr);
                    assert(s[w].ip_addr <= s[s.len() - 2].ip_addr);
                    assert(s[s.len() - 2].ip_addr <= s[s.len() - 1].ip_addr);
                }
            }
            lemma_dedup_first(sp, x.ip_addr);
            if ip == x.ip_addr {
                assert(!has_ip(dp, ip));
                assert(spec_first_with_ip(d, ip) == d.len() - 1);
                assert(d[d.len() - 1] == x);
                assert(spec_first_with_ip(s, ip) == s.len() - 1);
            } else {
                if has_ip(s, ip) {
                    assert(has_ip(sp, ip));
                    assert(has_ip(dp, ip));
                    assert(spec_first_with_ip(d, ip) == spec_first_with_ip(dp, ip));
                    assert(d[spec_first_with_ip(d, ip)] == dp[spec_first_with_ip(dp, ip)]);
                }
                if has_ip(d, ip) {
                    assert(has_ip(dp, ip));
                }
            }
        } else {
            // The last entry repeats the address just before it and is
            // dropped.
            assert(spec_dedup_adjacent(s) == dp);
            assert(s.len() >= 2);
            if ip == x.ip_addr {
                assert(sp[s.len() - 2].ip_addr == ip);
                assert(has_ip(sp, ip));
            }
            if has_ip(s, ip) {
                assert(has_ip(sp, ip));
            }
        }
    }
}

/// Adjacent deduplication of a sorted list leaves no two entries with the
/// same address.
proof fn lemma_dedup_distinct(s: Seq<ParsedServerView>)
    requires
        sorted_by_ip(s),
    ensures
        distinct_candidate_ips(spec_dedup_adjacent(s)),
    decreases s.len(),
{
    if s.len() > 0 {
        let sp = s.drop_last();
        let x = s.last();
        let dp = spec_dedup_adjacent(sp);
        assert(forall|j: int| 0 <= j < sp.len() ==> #[trigger] sp[j] == s[j]);
        assert(forall|i: int, j: int|
            0 <= i < j < sp.len() ==> (#[trigger] sp[i]).ip_addr <= (#[trigger] sp[j]).ip_addr);
        lemma_dedup_distinct(sp);
        if s.len() == 1 || s[s.len() - 2].ip_addr != x.ip_addr {
            let d = dp.push(x);
            assert(!has_ip(sp, x.ip_addr)) by {
                if has_ip(sp, x.ip_addr) {
                    let w = choose|i: int|
                        0 <= i < sp.len() && (#[trigger] sp[i]).ip_addr == x.ip_addr;
                    assert(s.len() >= 2);
                    assert(s[w].ip_addr <= s[s.len() - 2].ip_addr);
                    assert(s[s.len() - 2].ip_addr <= s[s.len() - 1].ip_addr);
                }
            }
            lemma_dedup_first(sp, x.ip_addr);
            assert(!has_ip(dp, x.ip_addr));
            assert forall|i: int, j: int| 0 <= i < j < d.len() implies (#[trigger] d[i]).ip_addr
                != (#[trigger] d[j]).ip_addr by {
                if j == d.len() - 1 {
                    assert(d[i] == dp[i]);
                    if d[i].ip_addr == x.ip_addr {
                        assert(has_ip(dp, x.ip_addr));
                    }
                } else {
                    assert(d[i] == dp[i]);
                    assert(d[j] == dp[j]);
                }
            }
        }
    }
}

/// Every record of every source list keeps its IP address present in the
/// laid-out whole.
proof fn lemma_concat_contains(ls: Seq<Seq<ParsedServerView>>, i: int, j: int)
    requires
        0 <= i < ls.len(),
        0 <= j < ls[i].len(),
    ensures
        has_ip(spec_concat(ls), ls[i][j].ip_addr),
    decreases i,
{
    let c = spec_concat(ls);
    if i == 0 {
        assert(c[j] == ls[0][j]);
        assert(has_ip(c, ls[i][j].ip_addr));
    } else {
        lemma_concat_contains(ls.drop_first(), i - 1, j);
        let rest = spec_concat(ls.drop_first());
        let w = choose|k: int|
            0 <= k < rest.len() && (#[trigger] rest[k]).ip_addr == ls.drop_first()[i - 1][j].ip_addr;
        assert(c[ls[0].len() + w] == rest[w]);
        assert(has_ip(c, ls[i][j].ip_addr));
    }
}

/// Per-source failure isolation, seen from the final list: whatever any
/// other source did, every record a surviving source contributed keeps
/// its IP address present in the final candidate list.
pub proof fn lemma_source_records_survive(ls: Seq<Seq<ParsedServerView>>, i: int, j: int)
    requires
        0 <= i < ls.len(),
        0 <= j < ls[i].len(),
    ensures
        has_ip(spec_collect(ls), ls[i][j].ip_addr),
{
    let ip = ls[i][j].ip_addr;
    lemma_concat_contains(ls, i, j);
    lemma_sort_first(spec_concat(ls), ip);
    lemma_dedup_first(spec_sort_by_ip(spec_concat(ls)), ip);
}

/// The deterministic tie-break: the final candidate list holds exactly
/// one entry per IP address, and for each address the surviving entry is
/// the first entry with that address in the concatenated input order, so
/// which source wins depends only on the content and order of the input
/// lists.
pub proof fn lemma_collect_tie_break(ls: Seq<Seq<ParsedServerView>>)
    ensures
        distinct_candidate_ips(spec_collect(ls)),
        forall|k: int|
            0 <= k < spec_collect(ls).len() ==> {
                &&& has_ip(spec_concat(ls), (#[trigger] spec_collect(ls)[k]).ip_addr)
                &&& spec_collect(ls)[k] == spec_concat(ls)[spec_first_with_ip(
                    spec_concat(ls),
                    spec_collect(ls)[k].ip_addr,
                )]
            },
{
    let s = spec_concat(ls);
    let t = spec_sort_by_ip(s);
    let r = spec_collect(ls);
    lemma_sort_first(s, 0);
    lemma_dedup_distinct(t);
    assert forall|k: int| 0 <= k < spec_collect(ls).len() implies {
        &&& has_ip(spec_concat(ls), (#[trigger] spec_collect(ls)[k]).ip_addr)
        &&& spec_collect(ls)[k] == spec_concat(ls)[spec_first_with_ip(
            spec_concat(ls),
            spec_collect(ls)[k].ip_addr,
        )]
    } by {
        let ip = r[k].ip_addr;
        assert(has_ip(r, ip));
        lemma_dedup_first(t, ip);
        lemma_sort_first(s, ip);
        assert forall|j: int| 0 <= j < k implies (#[trigger] r[j]).ip_addr != ip by {
            assert(r[j].ip_addr != r[k].ip_addr);
        }
        lemma_first_with_ip_determined(r, ip, k);
        assert(r[k] == r[spec_first_with_ip(r, ip)]);
        assert(r[spec_first_with_ip(r, ip)] == t[spec_first_with_ip(t, ip)]);
        assert(t[spec_first_with_ip(t, ip)] == s[spec_first_with_ip(s, ip)]);
    }
}

/// Copies the entry at one index of a list.
fn clone_parsed(v: &Vec<ParsedServer>, i: usize) -> (r: ParsedServer)
    requires
        i < v@.len(),
    ensures
        r@ == v@[i as int]@,
{
    v[i].clone_entry()
}

} // verus!
