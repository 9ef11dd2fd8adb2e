//! Real servers in the text of `/proc/net/ip_vs`.
//!
//! A real server stands on a line such as
//! `-> AC102014:0015      Masq    1      5          2`: address and port in
//! hexadecimal, forwarding method, weight, active and inactive connections.

use vstd::prelude::*;

use crate::infra::ipv4::Ipv4;
use crate::order;
use crate::scale::snapshot::IpvsBackend;
use crate::text;

verus! {

/// A connection count; 0 where it is no 32-bit number.
pub open spec fn count_or_zero(s: Seq<char>) -> u32 {
    match text::parse_max(s, u32::MAX as nat) {
        Some(n) => n as u32,
        None => 0,
    }
}

/// The address that eight hexadecimal digits write.
pub open spec fn hex_ip(s: Seq<char>) -> Option<Ipv4> {
    match text::parse_hex(s) {
        Some(n) => Some(Ipv4 { bits: n as u32 }),
        None => None,
    }
}

/// The real server on a line; `None` where the line holds none.
pub open spec fn real_server(line: Seq<char>) -> Option<IpvsBackend> {
    let t = text::trim(line);
    let w = text::words(t);
    if !text::starts_with(t, "->"@) || w.len() < 6 {
        None
    } else {
        match text::split_once(w[1], ':') {
            None => None,
            Some(p) => match hex_ip(p.0) {
                None => None,
                Some(ip) => Some(
                    IpvsBackend {
                        ip,
                        active_connections: count_or_zero(w[4]),
                        inactive_connections: count_or_zero(w[5]),
                    },
                ),
            },
        }
    }
}

/// The real servers on a list of lines.
pub open spec fn real_servers(lines: Seq<Seq<char>>) -> Seq<IpvsBackend>
    decreases lines.len(),
{
    if lines.len() == 0 {
        Seq::empty()
    } else {
        let rest = real_servers(lines.drop_last());
        match real_server(lines.last()) {
            Some(b) => rest.push(b),
            None => rest,
        }
    }
}

/// The addresses of a list of servers, as sort keys.
pub open spec fn ip_keys(list: Seq<IpvsBackend>) -> Seq<u64> {
    Seq::new(list.len(), |i: int| list[i].ip.bits as u64)
}

/// Whether `out` is `list` sorted by address, equal addresses in their order.
pub open spec fn sorted_by_ip(list: Seq<IpvsBackend>, out: Seq<IpvsBackend>) -> bool {
    exists|p: Seq<usize>|
        #[trigger] order::is_stable_order(ip_keys(list), p) && out == order::permuted(list, p)
}

/// The address that hexadecimal digits write, such as `AC102014` for
/// 172.16.32.20.
pub fn parse_hex_ip(hex: &str) -> (ip: Option<Ipv4>)
    ensures
        ip == hex_ip(hex@),
{
    match text::parse_hex_u32(hex) {
        Some(n) => Some(Ipv4 { bits: n }),
        None => None,
    }
}

fn count_of(s: &str) -> (n: u32)
    ensures
        n == count_or_zero(s@),
{
    match text::parse_up_to(s, u32::MAX as u64) {
        Some(n) => n as u32,
        None => 0,
    }
}

fn parse_line(line: &str) -> (r: Option<IpvsBackend>)
    ensures
        r == real_server(line@),
{
    let t = text::trimmed(line);
    if !text::begins(t.as_str(), "->") {
        return None;
    }
    let w = text::words_of(t.as_str());
    let ghost ws = text::words(t@);
    assert(ws == text::texts(w@));
    if w.len() < 6 {
        return None;
    }
    assert(ws[1] == w@[1]@ && ws[4] == w@[4]@ && ws[5] == w@[5]@);
    match text::cut_once(w[1].as_str(), ':') {
        None => None,
        Some((hex, _)) => match parse_hex_ip(hex.as_str()) {
            None => None,
            Some(ip) => Some(
                IpvsBackend {
                    ip,
                    active_connections: count_of(w[4].as_str()),
                    inactive_connections: count_of(w[5].as_str()),
                },
            ),
        },
    }
}

/// The real servers in the text of `/proc/net/ip_vs`, sorted by address.
///
/// Lines of virtual services, the column header and lines with too few columns
/// are passed over.
pub fn parse(content: &str) -> (out: Vec<IpvsBackend>)
    ensures
        sorted_by_ip(real_servers(text::lines(content@)), out@),
{
    let lines = text::lines_of(content);
    let ghost all = text::lines(content@);
    let mut found: Vec<IpvsBackend> = Vec::new();
    let mut keys: Vec<u64> = Vec::new();
    let mut i: usize = 0;
    assert(all.take(0) =~= Seq::<Seq<char>>::empty());
    assert(found@ =~= real_servers(all.take(0)));
    while i < lines.len()
        invariant
            i <= lines@.len(),
            all == text::texts(lines@),
            found@ == real_servers(all.take(i as int)),
            keys@ == ip_keys(found@),
        decreases lines@.len() - i,
    {
        proof {
            assert(all.take(i + 1).drop_last() =~= all.take(i as int));
            assert(all.take(i + 1).last() == lines@[i as int]@);
        }
        match parse_line(lines[i].as_str()) {
            Some(b) => {
                found.push(b);
                keys.push(b.ip.bits as u64);
                assert(keys@ =~= ip_keys(found@));
            },
            None => {},
        }
        i = i + 1;
    }
    assert(all.take(i as int) =~= all);
    let p = order::stable_order(&keys);
    let mut out: Vec<IpvsBackend> = Vec::new();
    let mut k: usize = 0;
    while k < p.len()
        invariant
            k <= p@.len(),
            order::is_stable_order(ip_keys(found@), p@),
            out@.len() == k,
            forall|j: int| 0 <= j < k ==> #[trigger] out@[j] == found@[p@[j] as int],
        decreases p@.len() - k,
    {
        assert(p@[k as int] < found@.len());
        out.push(found[p[k]]);
        k = k + 1;
    }
    assert(out@ =~= order::permuted(found@, p@));
    out
}

/// The servers of two texts are those of one and then those of the other, and a
/// line is worth at most one server.
pub proof fn law_servers_line_by_line(a: Seq<Seq<char>>, b: Seq<Seq<char>>, line: Seq<char>)
    ensures
        real_servers(a + b) == real_servers(a) + real_servers(b),
        real_server(line) is None ==> real_servers(seq![line]) == Seq::<IpvsBackend>::empty(),
        real_server(line) is Some ==> real_servers(seq![line]) == seq![real_server(line)->0],
    decreases b.len(),
{
    reveal_with_fuel(real_servers, 2);
    assert(seq![line].drop_last() =~= Seq::<Seq<char>>::empty());
    if b.len() == 0 {
        assert(a + b =~= a);
        assert(real_servers(a) + real_servers(b) =~= real_servers(a));
    } else {
        law_servers_line_by_line(a, b.drop_last(), line);
        assert((a + b).drop_last() =~= a + b.drop_last());
        assert(real_servers(a + b) =~= real_servers(a) + real_servers(b));
    }
}

/// What a line of a real server says: its second word is the address in
/// hexadecimal with a port behind it, its fifth and sixth are the active and the
/// inactive connections. A line that does not begin with an arrow, has fewer words
/// or no such address holds no server.
pub proof fn law_line_of_a_server(line: Seq<char>)
    ensures
        ({
            let w = text::words(text::trim(line));
            let arrow = text::trim(line).len() >= 2 && text::trim(line)[0] == '-' && text::trim(
                line,
            )[1] == '>';
            match real_server(line) {
                None => !arrow || w.len() < 6 || (match text::split_once(w[1], ':') {
                    Some(p) => text::parse_hex(p.0) is None,
                    None => true,
                }),
                Some(s) => {
                    &&& arrow && w.len() >= 6
                    &&& text::split_once(w[1], ':') is Some
                    &&& text::parse_hex((text::split_once(w[1], ':')->0).0) == Some(
                        s.ip.bits as nat,
                    )
                    &&& text::parse_max(w[4], u32::MAX as nat) matches Some(n)
                        ==> s.active_connections == n
                    &&& text::parse_max(w[4], u32::MAX as nat) is None ==> s.active_connections == 0
                    &&& text::parse_max(w[5], u32::MAX as nat) matches Some(n)
                        ==> s.inactive_connections == n
                    &&& text::parse_max(w[5], u32::MAX as nat) is None ==> s.inactive_connections
                        == 0
                },
            }
        }),
{
    reveal_strlit("->");
    let t = text::trim(line);
    let head = t.subrange(0, 2);
    if t.len() >= 2 {
        assert(head[0] == t[0] && head[1] == t[1]);
        if t[0] == '-' && t[1] == '>' {
            assert(head =~= "->"@);
        }
    }
}

/// A sorted list has all servers, by address.
pub proof fn law_servers_are_sorted(list: Seq<IpvsBackend>, out: Seq<IpvsBackend>)
    requires
        sorted_by_ip(list, out),
    ensures
        out.len() == list.len(),
        forall|k: int| 0 <= k < list.len() ==> out.contains(#[trigger] list[k]),
        forall|i: int, j: int|
            0 <= i < j < out.len() ==> (#[trigger] out[i]).ip.bits <= (#[trigger] out[j]).ip.bits,
{
    let p = choose|p: Seq<usize>|
        #[trigger] order::is_stable_order(ip_keys(list), p) && out == order::permuted(list, p);
    order::law_stable_order_sorts(list, ip_keys(list), p);
    assert forall|i: int, j: int| 0 <= i < j < out.len() implies (#[trigger] out[i]).ip.bits <= (
    #[trigger] out[j]).ip.bits by {
        assert(p[i] < list.len() && p[j] < list.len());
        assert(ip_keys(list)[p[i] as int] <= ip_keys(list)[p[j] as int]);
    }
}

} // verus!
