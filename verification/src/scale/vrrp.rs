//! Which of the two load balancers this one is.
//!
//! The active one holds the inside virtual address on one of its interfaces, so
//! the listing of its addresses tells.

use vstd::prelude::*;

use crate::infra::ipv4;
use crate::infra::ipv4::Ipv4;
use crate::text;

verus! {

/// Whether a character can be part of an address.
pub open spec fn is_address_char(c: char) -> bool {
    text::is_digit(c) || c == '.'
}

fn address_char(c: char) -> (yes: bool)
    ensures
        yes == is_address_char(c),
{
    ('0' <= c && c <= '9') || c == '.'
}

/// Whether an address stands at a place of a text, and not as part of a longer
/// one.
pub open spec fn address_at(s: Seq<char>, a: Seq<char>, i: int) -> bool {
    &&& text::stands_at(s, a, i)
    &&& i > 0 ==> !is_address_char(s[i - 1])
    &&& i + a.len() < s.len() ==> !is_address_char(s[i + a.len()])
}

/// Whether a listing names an address.
pub open spec fn names_address(listing: Seq<char>, a: Seq<char>) -> bool {
    exists|i: int| 0 <= i <= listing.len() && #[trigger] address_at(listing, a, i)
}

/// Whether this node is the active load balancer: the listing of its addresses
/// could be had and names the inside virtual address. Any failure counts as
/// standby, so that a node that is not sure of its state does no harm.
pub fn is_master(listing: &Option<String>, vip_inside: Ipv4) -> (yes: bool)
    ensures
        yes == (listing is Some && names_address((listing->0)@, ipv4::dotted(vip_inside))),
{
    match listing {
        Some(s) => {
            let cs = text::chars_of(s.as_str());
            let vip = vip_inside.to_text();
            let pat = text::chars_of(vip.as_str());
            let n: usize = cs.len();
            let m: usize = pat.len();
            let mut i: usize = 0;
            loop
                invariant
                    n == cs@.len(),
                    m == pat@.len(),
                    listing is Some,
                    cs@ == (listing->0)@,
                    pat@ == ipv4::dotted(vip_inside),
                    i <= n,
                    forall|k: int| 0 <= k < i ==> !#[trigger] address_at(cs@, pat@, k),
                decreases n - i,
            {
                if text::at(&cs, &pat, i) {
                    let before: bool = i > 0 && address_char(cs[i - 1]);
                    let after: bool = m < n - i && address_char(cs[i + m]);
                    if !before && !after {
                        assert(address_at(cs@, pat@, i as int));
                        return true;
                    }
                }
                if i == n {
                    return false;
                }
                i = i + 1;
            }
        },
        None => false,
    }
}

/// The inside virtual address: the one that was given, or else the one in the
/// tag of the instance, where it can be read.
pub fn resolve_vip(given: Option<Ipv4>, tag: &Option<String>) -> (r: Option<Ipv4>)
    ensures
        r == (match given {
            Some(ip) => Some(ip),
            None => match *tag {
                Some(s) => ipv4::parse_dotted(text::trim(s@)),
                None => None,
            },
        }),
{
    match given {
        Some(ip) => Some(ip),
        None => match tag {
            Some(s) => Ipv4::parse(text::trimmed(s.as_str()).as_str()),
            None => None,
        },
    }
}

/// The role of this node. Without a virtual address there is only one node, and
/// it is the active one.
pub fn role(vip: Option<Ipv4>, listing: &Option<String>) -> (master: bool)
    ensures
        master == (match vip {
            Some(ip) => listing is Some && names_address((listing->0)@, ipv4::dotted(ip)),
            None => true,
        }),
{
    match vip {
        Some(ip) => is_master(listing, ip),
        None => true,
    }
}

/// An address is named in a listing exactly where it stands between two texts of
/// which neither continues it by a digit or a dot.
pub proof fn law_address_stands_alone(listing: Seq<char>, a: Seq<char>)
    ensures
        names_address(listing, a) <==> exists|before: Seq<char>, after: Seq<char>|
            #![trigger before + a + after]
            {
                &&& listing == before + a + after
                &&& before.len() > 0 ==> before.last() != '.' && !('0' <= before.last() <= '9')
                &&& after.len() > 0 ==> after[0] != '.' && !('0' <= after[0] <= '9')
            },
{
    if names_address(listing, a) {
        let i = choose|i: int| 0 <= i <= listing.len() && #[trigger] address_at(listing, a, i);
        let before = listing.take(i);
        let after = listing.skip(i + a.len());
        assert(listing =~= before + a + after);
    }
    if exists|before: Seq<char>, after: Seq<char>|
        #![trigger before + a + after]
        {
            &&& listing == before + a + after
            &&& before.len() > 0 ==> before.last() != '.' && !('0' <= before.last() <= '9')
            &&& after.len() > 0 ==> after[0] != '.' && !('0' <= after[0] <= '9')
        } {
        let (before, after) = choose|before: Seq<char>, after: Seq<char>|
            #![trigger before + a + after]
            {
                &&& listing == before + a + after
                &&& before.len() > 0 ==> before.last() != '.' && !('0' <= before.last() <= '9')
                &&& after.len() > 0 ==> after[0] != '.' && !('0' <= after[0] <= '9')
            };
        let i = before.len() as int;
        assert(listing.subrange(i, i + a.len()) =~= a);
        if i > 0 {
            assert(listing[i - 1] == before.last());
        }
        if i + a.len() < listing.len() {
            assert(listing[i + a.len()] == after[0]);
        }
        assert(address_at(listing, a, i));
    }
}

} // verus!
