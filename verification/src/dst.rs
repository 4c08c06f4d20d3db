//! Routing keys and socket addresses.
//!
//! A routing key (`Dst`) is a `name:port` pair and identifies one
//! discoverable target. An `Address` is an IPv4 socket address held as
//! plain integers, so that snapshots can be compared and keyed by value.

use vstd::prelude::*;
use vstd::string::StrSliceExecFns;
use vstd::string::StringExecFns;
use crate::config::ParseError;
use crate::text::{
    all_dec_digits, dec_str, dec_val, first_ix, has_char, lemma_first_ix, find_char, parse_u16,
    push_dec, spec_parse_u16,
};

verus! {

/// An IPv4 socket address: four octets and a port.
#[derive(Clone, Copy, PartialEq, Eq, Structural, Hash, Debug)]
pub struct Address {
    pub o0: u8,
    pub o1: u8,
    pub o2: u8,
    pub o3: u8,
    pub port: u16,
}

// --- address grammar ---

/// One dotted-quad octet: one to three digits, no leading zero, at most 255.
pub open spec fn spec_parse_octet(s: Seq<char>) -> Option<u8> {
    if 1 <= s.len() <= 3 && all_dec_digits(s) && (s.len() == 1 || s[0] != '0') && dec_val(s) <= 255 {
        Some(dec_val(s) as u8)
    } else {
        None
    }
}

/// A dotted quad: exactly four octets separated by `.`.
pub open spec fn spec_parse_ipv4(s: Seq<char>) -> Option<(u8, u8, u8, u8)> {
    let i1 = first_ix(s, '.');
    let r1 = s.skip(i1 + 1);
    let i2 = first_ix(r1, '.');
    let r2 = r1.skip(i2 + 1);
    let i3 = first_ix(r2, '.');
    let p4 = r2.skip(i3 + 1);
    if i1 == s.len() || i2 == r1.len() || i3 == r2.len() || has_char(p4, '.') {
        None
    } else {
        match (spec_parse_octet(s.take(i1)), spec_parse_octet(r1.take(i2)),
            spec_parse_octet(r2.take(i3)), spec_parse_octet(p4)) {
            (Some(a), Some(b), Some(c), Some(d)) => Some((a, b, c, d)),
            _ => None,
        }
    }
}

/// `ipv4:port`, the socket-address grammar of this crate.
pub open spec fn spec_parse_addr(s: Seq<char>) -> Option<Address> {
    let i = first_ix(s, ':');
    if i == s.len() {
        None
    } else {
        match (spec_parse_ipv4(s.take(i)), spec_parse_u16(s.skip(i + 1))) {
            (Some((a, b, c, d)), Some(p)) => Some(
                Address { o0: a, o1: b, o2: c, o3: d, port: p },
            ),
            _ => None,
        }
    }
}

/// Parses one octet group.
fn parse_octet(s: &str) -> (r: Option<u8>)
    ensures
        r == spec_parse_octet(s@),
{
    let n: usize = s.unicode_len();
    if n < 1 || n > 3 {
        return None;
    }
    if n > 1 && s.get_char(0) == '0' {
        return None;
    }
    match crate::text::parse_u32(s) {
        None => None,
        Some(v) => {
            if v <= 255 {
                Some(v as u8)
            } else {
                None
            }
        },
    }
}

/// Parses a dotted quad.
fn parse_ipv4(s: &str) -> (r: Option<(u8, u8, u8, u8)>)
    ensures
        r == spec_parse_ipv4(s@),
{
    let n: usize = s.unicode_len();
    let i1: usize = find_char(s, '.');
    if i1 == n {
        return None;
    }
    let p1: &str = s.substring_char(0, i1);
    let r1: &str = s.substring_char(i1 + 1, n);
    proof {
        assert(p1@ =~= s@.take(i1 as int));
        assert(r1@ =~= s@.skip(i1 + 1));
    }
    let n1: usize = s.unicode_len() - i1 - 1;
    let i2: usize = find_char(r1, '.');
    if i2 == n1 {
        return None;
    }
    let p2: &str = r1.substring_char(0, i2);
    let r2: &str = r1.substring_char(i2 + 1, n1);
    proof {
        assert(p2@ =~= r1@.take(i2 as int));
        assert(r2@ =~= r1@.skip(i2 + 1));
    }
    let n2: usize = n1 - i2 - 1;
    let i3: usize = find_char(r2, '.');
    if i3 == n2 {
        return None;
    }
    let p3: &str = r2.substring_char(0, i3);
    let p4: &str = r2.substring_char(i3 + 1, n2);
    proof {
        assert(p3@ =~= r2@.take(i3 as int));
        assert(p4@ =~= r2@.skip(i3 + 1));
    }
    let i4: usize = find_char(p4, '.');
    if i4 != n2 - i3 - 1 {
        proof {
            lemma_first_ix(p4@, '.');
            assert(p4@[first_ix(p4@, '.')] == '.');
            assert(has_char(p4@, '.'));
        }
        return None;
    }
    proof {
        lemma_first_ix(p4@, '.');
        if has_char(p4@, '.') {
            let w = choose|i: int| 0 <= i < p4@.len() && p4@[i] == '.';
            assert(w >= first_ix(p4@, '.'));
        }
    }
    match (parse_octet(p1), parse_octet(p2), parse_octet(p3), parse_octet(p4)) {
        (Some(a), Some(b), Some(c), Some(d)) => Some((a, b, c, d)),
        _ => None,
    }
}

impl Address {
    /// Parses `a.b.c.d:port`; the accepted strings are exactly those of
    /// `spec_parse_addr`.
    pub fn from_str(s: &str) -> (r: Option<Address>)
        ensures
            r == spec_parse_addr(s@),
    {
        let n: usize = s.unicode_len();
        let i: usize = find_char(s, ':');
        if i == n {
            return None;
        }
        let ip: &str = s.substring_char(0, i);
        let rest: &str = s.substring_char(i + 1, n);
        proof {
            assert(ip@ =~= s@.take(i as int));
            assert(rest@ =~= s@.skip(i + 1));
        }
        match (parse_ipv4(ip), parse_u16(rest)) {
            (Some((a, b, c, d)), Some(p)) => Some(
                Address { o0: a, o1: b, o2: c, o3: d, port: p },
            ),
            _ => None,
        }
    }

    /// The canonical rendering `a.b.c.d:port`.
    pub open spec fn spec_str(self) -> Seq<char> {
        dec_str(self.o0 as nat) + seq!['.'] + dec_str(self.o1 as nat) + seq!['.'] + dec_str(
            self.o2 as nat,
        ) + seq!['.'] + dec_str(self.o3 as nat) + seq![':'] + dec_str(self.port as nat)
    }

    /// Renders the address as `a.b.c.d:port`.
    pub fn render(&self) -> (r: String)
        ensures
            r@ == self.spec_str(),
    {
        proof {
            reveal_strlit(".");
            reveal_strlit(":");
        }
        let mut out: String = String::new();
        push_dec(self.o0 as u32, &mut out);
        out.append(".");
        push_dec(self.o1 as u32, &mut out);
        out.append(".");
        push_dec(self.o2 as u32, &mut out);
        out.append(".");
        push_dec(self.o3 as u32, &mut out);
        out.append(":");
        push_dec(self.port as u32, &mut out);
        proof {
            assert(out@ =~= self.spec_str());
        }
        out
    }
}

/// A routing key: a name and a port, the sole key into the endpoint and
/// the override namespaces.
#[derive(Debug)]
pub struct Dst {
    pub name: String,
    pub port: u16,
}

/// The mathematical value of a routing key.
#[verifier::ext_equal]
pub ghost struct DstV {
    pub name: Seq<char>,
    pub port: u16,
}

impl View for Dst {
    type V = DstV;

    open spec fn view(&self) -> DstV {
        DstV { name: self.name@, port: self.port }
    }
}

/// `name:port`: everything before the first `:` is the name; the rest must
/// be a decimal port.
pub open spec fn spec_parse_dst(s: Seq<char>) -> Option<DstV> {
    let i = first_ix(s, ':');
    if i == s.len() {
        None
    } else {
        match spec_parse_u16(s.skip(i + 1)) {
            Some(p) => Some(DstV { name: s.take(i), port: p }),
            None => None,
        }
    }
}

/// The canonical rendering of a routing key.
pub open spec fn dst_spec_str(d: DstV) -> Seq<char> {
    d.name + seq![':'] + dec_str(d.port as nat)
}

/// A rendered routing key parses back to itself, provided the name holds
/// no `:` — as every parsed name does. A subscriber that publishes under
/// a key can therefore look that key up by its rendering.
pub proof fn lemma_dst_render_parses_back(d: DstV)
    requires
        !has_char(d.name, ':'),
    ensures
        spec_parse_dst(dst_spec_str(d)) == Some(d),
{
    let s = dst_spec_str(d);
    crate::text::lemma_dec_str_val(d.port as nat);
    let digits = crate::text::dec_str(d.port as nat);
    assert(s.len() == d.name.len() + 1 + digits.len());
    assert(s[d.name.len() as int] == ':');
    lemma_first_ix(s, ':');
    assert(first_ix(s, ':') <= d.name.len()) by {
        if first_ix(s, ':') > d.name.len() {
            assert(s[d.name.len() as int] != ':');
        }
    }
    assert(first_ix(s, ':') >= d.name.len()) by {
        if first_ix(s, ':') < d.name.len() {
            assert(s[first_ix(s, ':')] == ':');
            assert(s[first_ix(s, ':')] == d.name[first_ix(s, ':')]);
            assert(has_char(d.name, ':'));
        }
    }
    assert(s.take(d.name.len() as int) =~= d.name);
    assert(s.skip(d.name.len() as int + 1) =~= digits);
    assert(spec_parse_u16(digits) == Some(d.port)) by {
        assert(crate::text::dec_val(digits) == d.port as nat);
    }
    assert(spec_parse_dst(s) == Some(DstV { name: d.name, port: d.port }));
    assert(DstV { name: d.name, port: d.port } =~= d);
}

impl Dst {
    /// Builds a routing key from its parts.
    pub fn new(name: String, port: u16) -> (r: Dst)
        ensures
            r@ == (DstV { name: name@, port }),
    {
        Dst { name, port }
    }

    /// Parses `name:port`. Absence of `:` rejects the key; a remainder
    /// that is not a port number rejects it too, each with its own reason.
    pub fn from_str(s: &str) -> (r: Result<Dst, ParseError>)
        ensures
            match r {
                Ok(d) => spec_parse_dst(s@) == Some(d@),
                Err(e) => spec_parse_dst(s@) is None && (e.reason@ == (
                if first_ix(s@, ':') == s@.len() {
                    "invalid destination"@
                } else {
                    "invalid port"@
                })),
            },
{
        let n: usize = s.unicode_len();
        let i: usize = find_char(s, ':');
        if i == n {
            return Err(ParseError { reason: "invalid destination" });
        }
        let name: &str = s.substring_char(0, i);
        let rest: &str = s.substring_char(i + 1, n);
        proof {
            assert(name@ =~= s@.take(i as int));
            assert(rest@ =~= s@.skip(i + 1));
        }
        match parse_u16(rest) {
            Some(p) => Ok(Dst { name: name.to_owned(), port: p }),
            None => Err(ParseError { reason: "invalid port" }),
        }
    }

    /// Renders the key as `name:port`.
    pub fn render(&self) -> (r: String)
        ensures
            r@ == dst_spec_str(self@),
    {
        proof {
            reveal_strlit(":");
        }
        let mut out: String = self.name.clone();
        out.append(":");
        push_dec(self.port as u32, &mut out);
        proof {
            assert(out@ =~= dst_spec_str(self@));
        }
        out
    }

    /// Value equality of two routing keys.
    pub fn key_eq(&self, other: &Dst) -> (r: bool)
        ensures
            r == (self@ == other@),
    {
        let same: bool = self.name == other.name && self.port == other.port;
        proof {
            if self.name@ == other.name@ && self.port == other.port {
                assert(self@ =~= other@);
            }
        }
        same
    }
}

} // verus!
