//! IPv4 addresses as 32-bit numbers, with their dotted-quad text.

use vstd::prelude::*;

use crate::text;

verus! {

/// An IPv4 address; `bits` holds its four octets, the first one highest.
#[derive(Debug, Clone, Copy, PartialEq, Eq, PartialOrd, Ord, Hash, Structural)]
pub struct Ipv4 {
    pub bits: u32,
}

/// Octet `k` (0 to 3, from the left) of an address.
pub open spec fn octet(bits: u32, k: int) -> nat {
    if k == 0 {
        bits as nat / 0x1000000
    } else if k == 1 {
        bits as nat / 0x10000 % 0x100
    } else if k == 2 {
        bits as nat / 0x100 % 0x100
    } else {
        bits as nat % 0x100
    }
}

/// The dotted-quad text of an address.
pub open spec fn dotted(ip: Ipv4) -> Seq<char> {
    text::decimal(octet(ip.bits, 0)) + "."@ + text::decimal(octet(ip.bits, 1)) + "."@
        + text::decimal(octet(ip.bits, 2)) + "."@ + text::decimal(octet(ip.bits, 3))
}

/// The parts of `s` between the dots.
pub open spec fn dot_parts(s: Seq<char>) -> Seq<Seq<char>>
    decreases s.len(),
    via dot_parts_decreases
{
    match text::split_once(s, '.') {
        Some(p) => seq![p.0] + dot_parts(p.1),
        None => seq![s],
    }
}

#[via_fn]
proof fn dot_parts_decreases(s: Seq<char>) {
    text::lemma_index_of(s, '.');
}

/// One octet in decimal: one to three digits, no leading zero, at most 255.
pub open spec fn octet_value(s: Seq<char>) -> Option<nat> {
    if text::all_digits(s) && s.len() <= 3 && (s.len() == 1 || s[0] != '0') && text::digits_value(s)
        <= 255 {
        Some(text::digits_value(s))
    } else {
        None
    }
}

/// The address that a dotted quad writes.
pub open spec fn parse_dotted(s: Seq<char>) -> Option<Ipv4> {
    let p = dot_parts(s);
    if p.len() == 4 && octet_value(p[0]) is Some && octet_value(p[1]) is Some && octet_value(
        p[2],
    ) is Some && octet_value(p[3]) is Some {
        Some(
            Ipv4 {
                bits: (octet_value(p[0])->0 * 0x1000000 + octet_value(p[1])->0 * 0x10000
                    + octet_value(p[2])->0 * 0x100 + octet_value(p[3])->0) as u32,
            },
        )
    } else {
        None
    }
}

fn parse_octet(s: &str) -> (r: Option<u32>)
    ensures
        match r {
            Some(v) => octet_value(s@) == Some(v as nat) && v <= 255,
            None => octet_value(s@) is None,
        },
{
    let cs = text::chars_of(s);
    if cs.len() == 0 || cs.len() > 3 {
        return None;
    }
    if cs.len() > 1 && cs[0] == '0' {
        return None;
    }
    if cs[0] == '+' {
        assert(!text::is_digit(s@[0]));
        return None;
    }
    match text::parse_up_to(s, 255) {
        Some(v) => Some(v as u32),
        None => None,
    }
}

impl Ipv4 {
    /// The address with these four octets.
    pub fn new(a: u8, b: u8, c: u8, d: u8) -> (ip: Ipv4)
        ensures
            ip.bits == a * 0x1000000 + b * 0x10000 + c * 0x100 + d,
    {
        Ipv4 { bits: a as u32 * 0x1000000 + b as u32 * 0x10000 + c as u32 * 0x100 + d as u32 }
    }

    /// The dotted-quad text of this address.
    pub fn to_text(&self) -> (s: String)
        ensures
            s@ == dotted(*self),
    {
        let b: u32 = self.bits;
        let mut s = text::decimal_of((b / 0x1000000) as u64);
        s.push_str(".");
        s.push_str(text::decimal_of((b / 0x10000 % 0x100) as u64).as_str());
        s.push_str(".");
        s.push_str(text::decimal_of((b / 0x100 % 0x100) as u64).as_str());
        s.push_str(".");
        s.push_str(text::decimal_of((b % 0x100) as u64).as_str());
        s
    }

    /// The address that a dotted quad writes, if it is one.
    pub fn parse(s: &str) -> (r: Option<Ipv4>)
        ensures
            r == parse_dotted(s@),
    {
        let ghost p = dot_parts(s@);
        proof {
            reveal_with_fuel(dot_parts, 5);
        }
        match text::cut_once(s, '.') {
            None => None,
            Some((a, rest)) => match text::cut_once(rest.as_str(), '.') {
                None => None,
                Some((b, rest2)) => match text::cut_once(rest2.as_str(), '.') {
                    None => None,
                    Some((c, d)) => match text::cut_once(d.as_str(), '.') {
                        Some((e, f)) => {
                            proof {
                                assert(dot_parts(f@).len() >= 1);
                            }
                            None
                        },
                        None => {
                            assert(p =~= seq![a@, b@, c@, d@]);
                            match (
                                parse_octet(a.as_str()),
                                parse_octet(b.as_str()),
                                parse_octet(c.as_str()),
                                parse_octet(d.as_str()),
                            ) {
                                (Some(x), Some(y), Some(z), Some(w)) => Some(
                                    Ipv4 { bits: x * 0x1000000 + y * 0x10000 + z * 0x100 + w },
                                ),
                                _ => None,
                            }
                        },
                    },
                },
            },
        }
    }
}

/// The text of a number has at most three digits where the number is below
/// 1000, and no leading zero where it has more than one.
proof fn lemma_octet_text(n: nat)
    requires
        n <= 255,
    ensures
        octet_value(text::decimal(n)) == Some(n),
        forall|i: int| 0 <= i < text::decimal(n).len() ==> text::decimal(n)[i] != '.',
{
    reveal_with_fuel(text::decimal, 4);
    text::lemma_decimal_value(n);
    let s = text::decimal(n);
    assert(s.len() <= 3);
    assert(s.len() == 1 || s[0] != '0');
    assert forall|i: int| 0 <= i < s.len() implies s[i] != '.' by {
        assert(text::is_digit(s[i]));
    }
}

/// Splitting at the first dot of `a + "." + rest`, where `a` has no dot.
proof fn lemma_split_dot(a: Seq<char>, rest: Seq<char>)
    requires
        forall|i: int| 0 <= i < a.len() ==> a[i] != '.',
    ensures
        text::split_once(a + "."@ + rest, '.') == Some((a, rest)),
{
    reveal_strlit(".");
    let s = a + "."@ + rest;
    text::lemma_index_of(s, '.');
    let i = text::index_of(s, '.') as int;
    assert(s[a.len() as int] == '.');
    assert(i == a.len()) by {
        if i < a.len() {
            assert(s[i] == a[i]);
        }
    }
    assert(s.take(i) =~= a);
    assert(s.skip(i + 1) =~= rest);
}

/// A text without a dot has no part to split off.
proof fn lemma_no_dot(a: Seq<char>)
    requires
        forall|i: int| 0 <= i < a.len() ==> a[i] != '.',
    ensures
        text::split_once(a, '.') is None,
{
    text::lemma_index_of(a, '.');
}

/// The parts of four dotless texts joined with dots.
proof fn lemma_four_parts(a: Seq<char>, b: Seq<char>, c: Seq<char>, d: Seq<char>)
    requires
        forall|i: int| 0 <= i < a.len() ==> a[i] != '.',
        forall|i: int| 0 <= i < b.len() ==> b[i] != '.',
        forall|i: int| 0 <= i < c.len() ==> c[i] != '.',
        forall|i: int| 0 <= i < d.len() ==> d[i] != '.',
    ensures
        dot_parts(a + "."@ + b + "."@ + c + "."@ + d) == seq![a, b, c, d],
{
    let t3 = c + "."@ + d;
    let t2 = b + "."@ + t3;
    let t1 = a + "."@ + t2;
    assert(a + "."@ + b + "."@ + c + "."@ + d =~= t1);
    lemma_split_dot(a, t2);
    lemma_split_dot(b, t3);
    lemma_split_dot(c, d);
    lemma_no_dot(d);
    assert(dot_parts(d) =~= seq![d]);
    assert(dot_parts(t3) =~= seq![c, d]);
    assert(dot_parts(t2) =~= seq![b, c, d]);
    assert(dot_parts(t1) =~= seq![a, b, c, d]);
}

/// The octets of an address make up the address.
proof fn lemma_octets(bits: u32)
    ensures
        octet(bits, 0) <= 255,
        octet(bits, 1) <= 255,
        octet(bits, 2) <= 255,
        octet(bits, 3) <= 255,
        octet(bits, 0) * 0x1000000 + octet(bits, 1) * 0x10000 + octet(bits, 2) * 0x100 + octet(
            bits,
            3,
        ) == bits,
{
}

/// Printing an address and parsing the text gives the address back.
pub proof fn law_dotted_round_trip(ip: Ipv4)
    ensures
        parse_dotted(dotted(ip)) == Some(ip),
{
    let a = octet(ip.bits, 0);
    let b = octet(ip.bits, 1);
    let c = octet(ip.bits, 2);
    let d = octet(ip.bits, 3);
    lemma_octets(ip.bits);
    lemma_octet_text(a);
    lemma_octet_text(b);
    lemma_octet_text(c);
    lemma_octet_text(d);
    lemma_four_parts(text::decimal(a), text::decimal(b), text::decimal(c), text::decimal(d));
    let p = dot_parts(dotted(ip));
    assert(p[0] == text::decimal(a) && p[1] == text::decimal(b) && p[2] == text::decimal(c) && p[3]
        == text::decimal(d));
}

proof fn lemma_four_octets(a: nat, b: nat, c: nat, d: nat)
    requires
        a < 256,
        b < 256,
        c < 256,
        d < 256,
    ensures
        ({
            let n = a * 0x1000000 + b * 0x10000 + c * 0x100 + d;
            &&& n <= u32::MAX
            &&& n / 0x1000000 == a
            &&& n / 0x10000 % 0x100 == b
            &&& n / 0x100 % 0x100 == c
            &&& n % 0x100 == d
        }),
{
    let n = a * 0x1000000 + b * 0x10000 + c * 0x100 + d;
    assert(n / 0x10000 == a * 0x100 + b);
    assert(n / 0x100 == a * 0x10000 + b * 0x100 + c);
    let m = a * 0x10000 + b * 0x100 + c;
    assert(m == (a * 0x100 + b) * 0x100 + c);
    assert(m % 0x100 == c);
    assert(n == m * 0x100 + d);
    assert(n % 0x100 == d);
}

/// An address is written as its four octets, the highest first.
pub proof fn law_dotted_quad(a: nat, b: nat, c: nat, d: nat)
    requires
        a < 256,
        b < 256,
        c < 256,
        d < 256,
    ensures
        dotted(Ipv4 { bits: (a * 0x1000000 + b * 0x10000 + c * 0x100 + d) as u32 })
            == text::decimal(a) + "."@ + text::decimal(b) + "."@ + text::decimal(c) + "."@
            + text::decimal(d),
{
    lemma_four_octets(a, b, c, d);
}

proof fn lemma_octet_is_printed(s: Seq<char>)
    requires
        octet_value(s) is Some,
    ensures
        s == text::decimal(octet_value(s)->0),
{
    reveal_with_fuel(text::digits_value, 4);
    reveal_with_fuel(text::decimal, 3);
    let v = octet_value(s)->0;
    assert(text::is_digit(s[0]));
    if s.len() == 1 {
        assert(s.drop_last() =~= Seq::<char>::empty());
        assert(s =~= text::decimal(v));
    } else if s.len() == 2 {
        assert(text::is_digit(s[1]));
        assert(s.drop_last().drop_last() =~= Seq::<char>::empty());
        assert(s.drop_last().last() == s[0]);
        assert(v == (s[0] as nat - '0' as nat) * 10 + (s[1] as nat - '0' as nat));
        assert(v / 10 == s[0] as nat - '0' as nat);
        assert(v % 10 == s[1] as nat - '0' as nat);
        assert(s =~= text::decimal(v));
    } else {
        assert(text::is_digit(s[1]) && text::is_digit(s[2]));
        assert(s.drop_last().drop_last().drop_last() =~= Seq::<char>::empty());
        assert(s.drop_last().drop_last().last() == s[0]);
        assert(s.drop_last().last() == s[1]);
        assert(v == (s[0] as nat - '0' as nat) * 100 + (s[1] as nat - '0' as nat) * 10 + (s[2] as nat
            - '0' as nat));
        assert(v / 10 / 10 == s[0] as nat - '0' as nat);
        assert(v / 10 % 10 == s[1] as nat - '0' as nat);
        assert(v % 10 == s[2] as nat - '0' as nat);
        assert(s =~= text::decimal(v));
    }
}

proof fn lemma_first_part(s: Seq<char>)
    ensures
        dot_parts(s).len() >= 1,
        dot_parts(s).len() == 1 ==> dot_parts(s)[0] == s,
        dot_parts(s).len() > 1 ==> {
            let q = text::split_once(s, '.')->0;
            &&& s == q.0.push('.') + q.1
            &&& dot_parts(s)[0] == q.0
            &&& dot_parts(s).skip(1) == dot_parts(q.1)
        },
{
    match text::split_once(s, '.') {
        Some(q) => {
            text::law_split_once_undoes_joining(s, '.', q.0, q.1);
            text::lemma_index_of(s, '.');
            assert(dot_parts(s) == seq![q.0] + dot_parts(q.1));
            assert(dot_parts(s).skip(1) =~= dot_parts(q.1));
            assert(dot_parts(q.1).len() >= 1) by {
                assert(text::split_once(q.1, '.') is Some || dot_parts(q.1) == seq![q.1]);
            }
        },
        None => {},
    }
}

proof fn lemma_joined_parts(s: Seq<char>)
    requires
        dot_parts(s).len() == 4,
    ensures
        ({
            let p = dot_parts(s);
            s == p[0] + "."@ + p[1] + "."@ + p[2] + "."@ + p[3]
        }),
{
    reveal_strlit(".");
    let p = dot_parts(s);
    lemma_first_part(s);
    let q0 = text::split_once(s, '.')->0;
    lemma_first_part(q0.1);
    let q1 = text::split_once(q0.1, '.')->0;
    lemma_first_part(q1.1);
    let q2 = text::split_once(q1.1, '.')->0;
    lemma_first_part(q2.1);
    let t1 = dot_parts(q0.1);
    let t2 = dot_parts(q1.1);
    let t3 = dot_parts(q2.1);
    assert(p.skip(1) == t1 && t1.skip(1) == t2 && t2.skip(1) == t3);
    assert(p[1] == p.skip(1)[0]);
    assert(p[2] == p.skip(1)[1] && t1[1] == t1.skip(1)[0]);
    assert(p[3] == p.skip(1)[2] && t1[2] == t1.skip(1)[1] && t2[1] == t2.skip(1)[0]);
    assert(s =~= p[0] + "."@ + p[1] + "."@ + p[2] + "."@ + p[3]);
}

/// No other text than its dotted quad is read as an address.
pub proof fn law_only_dotted_quads_are_read(s: Seq<char>)
    ensures
        parse_dotted(s) matches Some(ip) ==> s == dotted(ip),
{
    if parse_dotted(s) is Some {
        let p = dot_parts(s);
        lemma_octet_is_printed(p[0]);
        lemma_octet_is_printed(p[1]);
        lemma_octet_is_printed(p[2]);
        lemma_octet_is_printed(p[3]);
        lemma_joined_parts(s);
        law_dotted_quad(
            octet_value(p[0])->0,
            octet_value(p[1])->0,
            octet_value(p[2])->0,
            octet_value(p[3])->0,
        );
    }
}

} // verus!
