//! Deterministic slot → address mapping.
//!
//! Every backend occupies a numbered slot and its address is
//! `base + offset + slot`. With base 172.16.32.0 and offset 20, slot 0 is
//! 172.16.32.20 and slot 19 is 172.16.32.39.

use vstd::prelude::*;

use crate::infra::ipv4;
use crate::infra::ipv4::Ipv4;
use crate::text;

verus! {

/// Where the slots lie in the backend subnet.
#[derive(Debug, Clone, Copy, PartialEq, Eq, Structural)]
pub struct SlotNetwork {
    /// Network base address of the backend subnet.
    pub base: Ipv4,
    /// Distance of slot 0 from `base`.
    pub offset: u32,
    /// Subnet prefix length; not part of the mapping.
    pub prefix_len: u8,
}

/// Why the slot network could not be read from the instance metadata.
#[derive(Debug, Clone, Copy, PartialEq, Eq, Structural)]
pub enum SlotNetworkError {
    /// The subnet is not written as `base/prefix`.
    InvalidCidr,
    /// What stands before the slash is no address.
    InvalidBase,
    /// What stands behind the slash is no number up to 255.
    InvalidPrefix,
    /// The offset tag is no 32-bit number.
    InvalidOffset,
}

/// The network that a subnet in CIDR notation and an offset describe.
pub open spec fn network_of(cidr: Seq<char>, offset: Seq<char>) -> Result<
    SlotNetwork,
    SlotNetworkError,
> {
    match text::split_once(text::trim(cidr), '/') {
        None => Err(SlotNetworkError::InvalidCidr),
        Some(p) => match ipv4::parse_dotted(p.0) {
            None => Err(SlotNetworkError::InvalidBase),
            Some(base) => match text::parse_max(p.1, 255) {
                None => Err(SlotNetworkError::InvalidPrefix),
                Some(prefix) => match text::parse_max(text::trim(offset), u32::MAX as nat) {
                    None => Err(SlotNetworkError::InvalidOffset),
                    Some(n) => Ok(
                        SlotNetwork { base, offset: n as u32, prefix_len: prefix as u8 },
                    ),
                },
            },
        },
    }
}

impl SlotNetwork {
    /// Whether slot 0 has an address at all.
    pub open spec fn valid(self) -> bool {
        self.base.bits + self.offset <= u32::MAX
    }

    /// Whether a slot has an address.
    pub open spec fn fits(self, slot: int) -> bool {
        0 <= slot && self.base.bits + self.offset + slot <= u32::MAX
    }

    /// The address of a slot.
    pub open spec fn slot_ip(self, slot: u32) -> Ipv4 {
        Ipv4 { bits: (self.base.bits + self.offset + slot) as u32 }
    }

    /// The slot at an address.
    pub open spec fn ip_slot(self, ip: Ipv4) -> Option<u32> {
        if ip.bits >= self.base.bits + self.offset {
            Some((ip.bits - (self.base.bits + self.offset)) as u32)
        } else {
            None
        }
    }

    /// A network from explicit values.
    pub fn new(base: Ipv4, offset: u32, prefix_len: u8) -> (net: SlotNetwork)
        ensures
            net == (SlotNetwork { base, offset, prefix_len }),
    {
        SlotNetwork { base, offset, prefix_len }
    }

    /// The network from the metadata of the inside interface: its subnet in
    /// CIDR notation, and the offset tag of the instance.
    pub fn from_imds(cidr: &str, offset: &str) -> (r: Result<SlotNetwork, SlotNetworkError>)
        ensures
            r == network_of(cidr@, offset@),
    {
        let cidr = text::trimmed(cidr);
        let (base_text, prefix_text) = match text::cut_once(cidr.as_str(), '/') {
            Some(p) => p,
            None => return Err(SlotNetworkError::InvalidCidr),
        };
        let base = match Ipv4::parse(base_text.as_str()) {
            Some(ip) => ip,
            None => return Err(SlotNetworkError::InvalidBase),
        };
        let prefix: u64 = match text::parse_up_to(prefix_text.as_str(), 255) {
            Some(n) => n,
            None => return Err(SlotNetworkError::InvalidPrefix),
        };
        let offset = text::trimmed(offset);
        match text::parse_up_to(offset.as_str(), u32::MAX as u64) {
            Some(n) => Ok(SlotNetwork { base, offset: n as u32, prefix_len: prefix as u8 }),
            None => Err(SlotNetworkError::InvalidOffset),
        }
    }

    /// The address of a slot.
    pub fn ip_for_slot(&self, slot: u32) -> (ip: Ipv4)
        requires
            self.fits(slot as int),
        ensures
            ip == self.slot_ip(slot),
            ip.bits == self.base.bits + self.offset + slot,
    {
        Ipv4 { bits: self.base.bits + self.offset + slot }
    }

    /// The slot at an address, or `None` where the address lies before the
    /// first slot.
    pub fn slot_for_ip(&self, ip: Ipv4) -> (slot: Option<u32>)
        requires
            self.valid(),
        ensures
            slot == self.ip_slot(ip),
    {
        ip.bits.checked_sub(self.base.bits + self.offset)
    }
}

/// The slot at the address of a slot is that slot.
pub proof fn law_slot_round_trip(net: SlotNetwork, slot: u32)
    requires
        net.fits(slot as int),
    ensures
        net.ip_slot(net.slot_ip(slot)) == Some(slot),
{
}

/// The address of the slot at an address is that address.
pub proof fn law_address_round_trip(net: SlotNetwork, ip: Ipv4)
    requires
        net.ip_slot(ip) is Some,
    ensures
        net.fits(net.ip_slot(ip)->0 as int),
        net.slot_ip(net.ip_slot(ip)->0) == ip,
{
}

/// Different slots have different addresses.
pub proof fn law_slots_distinct(net: SlotNetwork, a: u32, b: u32)
    requires
        net.fits(a as int),
        net.fits(b as int),
        a != b,
    ensures
        net.slot_ip(a) != net.slot_ip(b),
{
}

// ── Hardware addresses in the metadata listing ────────────────────────────

/// How many slashes `s` ends with.
pub open spec fn trailing_slashes(s: Seq<char>) -> nat
    decreases s.len(),
{
    if s.len() > 0 && s.last() == '/' {
        1 + trailing_slashes(s.drop_last())
    } else {
        0
    }
}

/// One line of the listing without the slashes and spaces round the name.
pub open spec fn mac_name(line: Seq<char>) -> Seq<char> {
    text::trim(line.take(line.len() - trailing_slashes(line)))
}

/// The names in the lines of the listing that are not empty.
pub open spec fn mac_names(lines: Seq<Seq<char>>) -> Seq<Seq<char>>
    decreases lines.len(),
{
    if lines.len() == 0 {
        Seq::empty()
    } else {
        let rest = mac_names(lines.drop_last());
        let name = mac_name(lines.last());
        if name.len() > 0 {
            rest.push(name)
        } else {
            rest
        }
    }
}

fn name_of_line(line: &str) -> (name: String)
    ensures
        name@ == mac_name(line@),
{
    let cs = text::chars_of(line);
    let n: usize = cs.len();
    let mut b: usize = n;
    assert(line@.take(n as int) =~= line@);
    while b > 0 && cs[b - 1] == '/'
        invariant
            b <= n == cs@.len(),
            cs@ == line@,
            trailing_slashes(line@) == (n - b) + trailing_slashes(line@.take(b as int)),
        decreases b,
    {
        assert(line@.take(b as int).drop_last() =~= line@.take(b - 1));
        assert(line@.take(b as int).last() == cs@[b - 1]);
        b = b - 1;
    }
    if b > 0 {
        assert(line@.take(b as int).last() == cs@[b - 1]);
    }
    let r = text::trim_bounds(&cs, 0, b);
    assert(cs@.subrange(0, b as int) =~= line@.take(line@.len() - trailing_slashes(line@)));
    text::string_of(&cs, r.0, r.1)
}

/// The hardware addresses that the metadata service lists, one per line.
pub fn macs_of(listing: &str) -> (names: Vec<String>)
    ensures
        text::texts(names@) == mac_names(text::lines(listing@)),
{
    let lines = text::lines_of(listing);
    let ghost all = text::lines(listing@);
    let mut names: Vec<String> = Vec::new();
    let mut i: usize = 0;
    assert(all.take(0) =~= Seq::<Seq<char>>::empty());
    assert(text::texts(names@) =~= mac_names(all.take(0)));
    while i < lines.len()
        invariant
            i <= lines@.len(),
            all == text::texts(lines@),
            text::texts(names@) == mac_names(all.take(i as int)),
        decreases lines@.len() - i,
    {
        let name = name_of_line(lines[i].as_str());
        proof {
            assert(all.take(i + 1).drop_last() =~= all.take(i as int));
            assert(all.take(i + 1).last() == lines@[i as int]@);
        }
        if name.as_str().unicode_len() > 0 {
            proof {
                text::lemma_texts_push(names@, name);
            }
            names.push(name);
        }
        i = i + 1;
    }
    assert(all.take(i as int) =~= all);
    names
}

/// Whether a device number, as the metadata service writes it, is that of the
/// inside interface.
pub fn is_inside_device(number: &str) -> (yes: bool)
    ensures
        yes == (text::trim(number@) == "1"@),
{
    let n = text::trimmed(number);
    text::str_eq(n.as_str(), "1")
}

/// The network that is written down is the one that is read.
pub proof fn law_network_round_trip(net: SlotNetwork)
    ensures
        network_of(
            ipv4::dotted(net.base).push('/') + text::decimal(net.prefix_len as nat),
            text::decimal(net.offset as nat),
        ) == Ok::<SlotNetwork, SlotNetworkError>(net),
{
    let address = ipv4::dotted(net.base);
    let prefix = text::decimal(net.prefix_len as nat);
    let offset = text::decimal(net.offset as nat);
    let cidr = address.push('/') + prefix;
    ipv4::law_dotted_round_trip(net.base);
    text::law_decimal_round_trip(net.prefix_len as nat);
    text::law_decimal_round_trip(net.offset as nat);
    text::lemma_decimal_value(net.prefix_len as nat);
    text::lemma_decimal_value(net.offset as nat);
    let o0 = text::decimal(ipv4::octet(net.base.bits, 0));
    let o1 = text::decimal(ipv4::octet(net.base.bits, 1));
    let o2 = text::decimal(ipv4::octet(net.base.bits, 2));
    let o3 = text::decimal(ipv4::octet(net.base.bits, 3));
    text::lemma_decimal_value(ipv4::octet(net.base.bits, 0));
    text::lemma_decimal_value(ipv4::octet(net.base.bits, 1));
    text::lemma_decimal_value(ipv4::octet(net.base.bits, 2));
    text::lemma_decimal_value(ipv4::octet(net.base.bits, 3));
    reveal_strlit(".");
    assert forall|i: int| 0 <= i < address.len() implies #[trigger] address[i] == '.'
        || text::is_digit(address[i]) by {
        let n0 = o0.len() as int;
        let n1 = n0 + 1 + o1.len();
        let n2 = n1 + 1 + o2.len();
        if i < n0 {
            assert(address[i] == o0[i]);
        } else if i == n0 {
        } else if i < n1 {
            assert(address[i] == o1[i - n0 - 1]);
        } else if i == n1 {
        } else if i < n2 {
            assert(address[i] == o2[i - n1 - 1]);
        } else if i == n2 {
        } else {
            assert(address[i] == o3[i - n2 - 1]);
        }
    }
    let e = Seq::<char>::empty();
    assert(text::is_digit(prefix.last()));
    assert(text::is_digit(offset[0]) && text::is_digit(offset.last()));
    assert(cidr[0] == address[0]);
    assert(cidr.last() == prefix.last());
    text::law_trim_takes_white_space(e, cidr, e);
    text::law_trim_takes_white_space(e, offset, e);
    assert(e + cidr + e =~= cidr);
    assert(e + offset + e =~= offset);
    assert(!address.contains('/')) by {
        if address.contains('/') {
            let k = choose|k: int| 0 <= k < address.len() && address[k] == '/';
            assert(address[k] == '.' || text::is_digit(address[k]));
        }
    }
    text::law_split_once_undoes_joining(cidr, '/', address, prefix);
}

/// Each way to fail says what is the matter with the subnet or with the offset.
pub proof fn law_network_errors_are_true(cidr: Seq<char>, offset: Seq<char>, e: SlotNetworkError)
    requires
        network_of(cidr, offset) == Err::<SlotNetwork, SlotNetworkError>(e),
    ensures
        match e {
            SlotNetworkError::InvalidCidr => !text::trim(cidr).contains('/'),
            SlotNetworkError::InvalidBase => forall|a: Seq<char>, b: Seq<char>|
                text::trim(cidr) == #[trigger] (a.push('/') + b) && !a.contains('/')
                    ==> ipv4::parse_dotted(a) is None,
            SlotNetworkError::InvalidPrefix => forall|a: Seq<char>, b: Seq<char>|
                text::trim(cidr) == #[trigger] (a.push('/') + b) && !a.contains('/')
                    ==> text::parse_max(b, 255) is None,
            SlotNetworkError::InvalidOffset => text::parse_max(
                text::trim(offset),
                u32::MAX as nat,
            ) is None,
        },
{
    let s = text::trim(cidr);
    text::law_split_once_undoes_joining(s, '/', s, s);
    assert forall|a: Seq<char>, b: Seq<char>|
        s == #[trigger] (a.push('/') + b) && !a.contains('/') implies text::split_once(s, '/')
        == Some((a, b)) by {
        text::law_split_once_undoes_joining(s, '/', a, b);
    }
}

/// The names in two listings follow each other. A line has at most one name, which
/// is what is left of it without the slashes at its end and the spaces.
pub proof fn law_names_line_by_line(
    a: Seq<Seq<char>>,
    b: Seq<Seq<char>>,
    name: Seq<char>,
    slashes: Seq<char>,
)
    requires
        name.len() > 0,
        !text::is_space(name[0]) && !text::is_space(name.last()),
        name.last() != '/',
        forall|i: int| 0 <= i < slashes.len() ==> #[trigger] slashes[i] == '/',
    ensures
        mac_names(a + b) == mac_names(a) + mac_names(b),
        mac_names(seq![name + slashes]) == seq![name],
        mac_names(seq![slashes]).len() == 0,
    decreases b.len(),
{
    reveal_with_fuel(mac_names, 2);
    let e = Seq::<char>::empty();
    assert(seq![slashes].drop_last() =~= Seq::<Seq<char>>::empty());
    assert(seq![name + slashes].drop_last() =~= Seq::<Seq<char>>::empty());
    lemma_slashes(name, slashes);
    lemma_slashes(e, slashes);
    assert(e + slashes =~= slashes);
    assert((name + slashes).take(name.len() as int) =~= name);
    assert(slashes.take(0) =~= e);
    text::law_trim_takes_white_space(e, name, e);
    text::law_trim_takes_white_space(e, e, e);
    assert(e + name + e =~= name);
    assert(e + e + e =~= e);
    if b.len() == 0 {
        assert(a + b =~= a);
        assert(mac_names(a) + mac_names(b) =~= mac_names(a));
    } else {
        law_names_line_by_line(a, b.drop_last(), name, slashes);
        assert((a + b).drop_last() =~= a + b.drop_last());
        assert(mac_names(a + b) =~= mac_names(a) + mac_names(b));
    }
}

proof fn lemma_slashes(name: Seq<char>, slashes: Seq<char>)
    requires
        name.len() > 0 ==> name.last() != '/',
        forall|i: int| 0 <= i < slashes.len() ==> #[trigger] slashes[i] == '/',
    ensures
        trailing_slashes(name + slashes) == slashes.len(),
    decreases slashes.len(),
{
    if slashes.len() > 0 {
        let d = slashes.drop_last();
        assert forall|i: int| 0 <= i < d.len() implies #[trigger] d[i] == '/' by {
            assert(d[i] == slashes[i]);
        }
        lemma_slashes(name, d);
        assert((name + slashes).drop_last() =~= name + d);
        assert((name + slashes).last() == slashes.last());
    } else {
        assert(name + slashes =~= name);
    }
}

} // verus!
