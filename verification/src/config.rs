//! Startup-configuration grammars.
//!
//! Two independent grammars seed the snapshot store before any watcher
//! runs; both are `;`-separated lists of `key=value` entries whose key is
//! a `name:port` routing key. The endpoints value is a comma-separated
//! list of `address[#protocolTag[#identity]]` items; the overrides value
//! a comma-separated list of `target[*weight]` items. A rejected string
//! is fatal at startup: no partial configuration is ever served.

use vstd::prelude::*;
use vstd::string::StrSliceExecFns;
use crate::dst::{spec_parse_addr, spec_parse_dst, Address, Dst, DstV};
use crate::endpoints::{meta_pairs, ovr_pairs, EndpointMeta, Endpoints, MetaV, Overrides};
use crate::kv::{kv_map, kv_unique, lemma_kv_map_push, lemma_kv_map_update, lemma_kv_unique_push,
    lemma_kv_unique_update};
use crate::text::{first_ix, has_char, lemma_first_ix, find_char, spec_parse_u32};

verus! {

/// Why a configuration string was rejected.
#[derive(Debug)]
pub struct ParseError {
    pub reason: &'static str,
}

impl ParseError {
    /// The human-readable reason, for callers that report the failure.
    pub fn reason(&self) -> (r: &'static str)
        ensures
            r == self.reason,
    {
        self.reason
    }
}

// --- the endpoints grammar, item by item ---

/// `address[#protocolTag[#identity]]`: the protocol tag `h2` switches the
/// upgrade hint on; a third part names the TLS identity. The default
/// weight applies and the labels start empty.
pub open spec fn spec_parse_ep_item(s: Seq<char>) -> Option<MetaV> {
    let i = first_ix(s, '#');
    let addr_part = if i == s.len() {
        s
    } else {
        s.take(i)
    };
    let rest = s.skip(i + 1);
    let j = first_ix(rest, '#');
    let h2_flag = if i == s.len() {
        false
    } else if j == rest.len() {
        rest == "h2"@
    } else {
        rest.take(j) == "h2"@
    };
    let tls = if i == s.len() || j == rest.len() {
        None
    } else {
        Some(rest.skip(j + 1))
    };
    match spec_parse_addr(addr_part) {
        Some(a) => Some(
            MetaV {
                address: a,
                h2: h2_flag,
                weight: 10000,
                metric_labels: Seq::empty(),
                tls_identity: tls,
                authority_override: None,
            },
        ),
        None => None,
    }
}

/// A nonempty comma-separated list of endpoint items.
pub open spec fn spec_parse_ep_list(s: Seq<char>) -> Option<Seq<MetaV>>
    decreases s.len(),
    via spec_parse_ep_list_dec
{
    let i = first_ix(s, ',');
    if i == s.len() {
        match spec_parse_ep_item(s) {
            Some(m) => Some(seq![m]),
            None => None,
        }
    } else {
        match (spec_parse_ep_item(s.take(i)), spec_parse_ep_list(s.skip(i + 1))) {
            (Some(m), Some(rest)) => Some(seq![m] + rest),
            _ => None,
        }
    }
}

#[via_fn]
proof fn spec_parse_ep_list_dec(s: Seq<char>) {
    lemma_first_ix(s, ',');
}

/// One `destination=endpoints` entry: exactly one `=`.
pub open spec fn spec_parse_ep_entry(s: Seq<char>) -> Option<(DstV, Seq<MetaV>)> {
    let i = first_ix(s, '=');
    if i == s.len() || has_char(s.skip(i + 1), '=') {
        None
    } else {
        match (spec_parse_dst(s.take(i)), spec_parse_ep_list(s.skip(i + 1))) {
            (Some(d), Some(ms)) => Some((d, ms)),
            _ => None,
        }
    }
}

/// A nonempty semicolon-separated list of entries.
pub open spec fn spec_parse_ep_entries(s: Seq<char>) -> Option<Seq<(DstV, Seq<MetaV>)>>
    decreases s.len(),
    via spec_parse_ep_entries_dec
{
    let i = first_ix(s, ';');
    if i == s.len() {
        match spec_parse_ep_entry(s) {
            Some(e) => Some(seq![e]),
            None => None,
        }
    } else {
        match (spec_parse_ep_entry(s.take(i)), spec_parse_ep_entries(s.skip(i + 1))) {
            (Some(e), Some(rest)) => Some(seq![e] + rest),
            _ => None,
        }
    }
}

#[via_fn]
proof fn spec_parse_ep_entries_dec(s: Seq<char>) {
    lemma_first_ix(s, ';');
}

/// The whole endpoints grammar; the empty string is an empty
/// configuration.
pub open spec fn spec_parse_eps_spec(s: Seq<char>) -> Option<Seq<(DstV, Seq<MetaV>)>> {
    if s.len() == 0 {
        Some(Seq::empty())
    } else {
        spec_parse_ep_entries(s)
    }
}

/// Each parsed entry as a key/snapshot pair; within one entry the last
/// record of an address wins.
pub open spec fn ep_entry_pairs(entries: Seq<(DstV, Seq<MetaV>)>) -> Seq<(DstV, Map<Address, MetaV>)> {
    entries.map_values(|e: (DstV, Seq<MetaV>)| (e.0, kv_map(meta_pairs(e.1))))
}

/// The map a parsed entry list denotes: across entries the last entry of
/// a key wins.
pub open spec fn eps_entries_map(entries: Seq<(DstV, Seq<MetaV>)>) -> Map<DstV, Map<Address, MetaV>> {
    kv_map(ep_entry_pairs(entries))
}

// --- the overrides grammar ---

/// `target[*weight]`: the weight defaults to `1000`.
pub open spec fn spec_parse_ovr_item(s: Seq<char>) -> Option<(DstV, u32)> {
    let i = first_ix(s, '*');
    if i == s.len() {
        match spec_parse_dst(s) {
            Some(d) => Some((d, 1000u32)),
            None => None,
        }
    } else {
        match (spec_parse_dst(s.take(i)), spec_parse_u32(s.skip(i + 1))) {
            (Some(d), Some(w)) => Some((d, w)),
            _ => None,
        }
    }
}

/// A nonempty comma-separated list of override items.
pub open spec fn spec_parse_ovr_list(s: Seq<char>) -> Option<Seq<(DstV, u32)>>
    decreases s.len(),
    via spec_parse_ovr_list_dec
{
    let i = first_ix(s, ',');
    if i == s.len() {
        match spec_parse_ovr_item(s) {
            Some(p) => Some(seq![p]),
            None => None,
        }
    } else {
        match (spec_parse_ovr_item(s.take(i)), spec_parse_ovr_list(s.skip(i + 1))) {
            (Some(p), Some(rest)) => Some(seq![p] + rest),
            _ => None,
        }
    }
}

#[via_fn]
proof fn spec_parse_ovr_list_dec(s: Seq<char>) {
    lemma_first_ix(s, ',');
}

/// One `destination=overrides` entry: exactly one `=`.
pub open spec fn spec_parse_ovr_entry(s: Seq<char>) -> Option<(DstV, Seq<(DstV, u32)>)> {
    let i = first_ix(s, '=');
    if i == s.len() || has_char(s.skip(i + 1), '=') {
        None
    } else {
        match (spec_parse_dst(s.take(i)), spec_parse_ovr_list(s.skip(i + 1))) {
            (Some(d), Some(ps)) => Some((d, ps)),
            _ => None,
        }
    }
}

/// A nonempty semicolon-separated list of entries.
pub open spec fn spec_parse_ovr_entries(s: Seq<char>) -> Option<Seq<(DstV, Seq<(DstV, u32)>)>>
    decreases s.len(),
    via spec_parse_ovr_entries_dec
{
    let i = first_ix(s, ';');
    if i == s.len() {
        match spec_parse_ovr_entry(s) {
            Some(e) => Some(seq![e]),
            None => None,
        }
    } else {
        match (spec_parse_ovr_entry(s.take(i)), spec_parse_ovr_entries(s.skip(i + 1))) {
            (Some(e), Some(rest)) => Some(seq![e] + rest),
            _ => None,
        }
    }
}

#[via_fn]
proof fn spec_parse_ovr_entries_dec(s: Seq<char>) {
    lemma_first_ix(s, ';');
}

/// The whole overrides grammar; the empty string is an empty
/// configuration.
pub open spec fn spec_parse_ovr_spec(s: Seq<char>) -> Option<Seq<(DstV, Seq<(DstV, u32)>)>> {
    if s.len() == 0 {
        Some(Seq::empty())
    } else {
        spec_parse_ovr_entries(s)
    }
}

/// Each parsed override entry as a key/snapshot pair; within one entry
/// the last weight of a target wins.
pub open spec fn ovr_entry_pairs(entries: Seq<(DstV, Seq<(DstV, u32)>)>) -> Seq<(DstV, Map<DstV, u32>)> {
    entries.map_values(|e: (DstV, Seq<(DstV, u32)>)| (e.0, kv_map(e.1)))
}

/// The map a parsed override entry list denotes.
pub open spec fn ovr_entries_map(entries: Seq<(DstV, Seq<(DstV, u32)>)>) -> Map<DstV, Map<DstV, u32>> {
    kv_map(ovr_entry_pairs(entries))
}

// --- exec parsing ---

/// Whether a string is exactly `h2`.
fn is_h2(s: &str) -> (r: bool)
    ensures
        r == (s@ == "h2"@),
{
    proof {
        reveal_strlit("h2");
    }
    let n: usize = s.unicode_len();
    if n != 2 {
        return false;
    }
    let c0: char = s.get_char(0);
    let c1: char = s.get_char(1);
    let same: bool = c0 == 'h' && c1 == '2';
    proof {
        if same {
            assert(s@ =~= "h2"@);
        }
    }
    same
}

/// Parses one endpoint item.
fn parse_ep_item(s: &str) -> (r: Result<EndpointMeta, ParseError>)
    ensures
        match r {
            Ok(m) => spec_parse_ep_item(s@) == Some(m@),
            Err(_) => spec_parse_ep_item(s@) is None,
        },
{
    let n: usize = s.unicode_len();
    let i: usize = find_char(s, '#');
    let addr_part: &str = if i == n {
        s
    } else {
        s.substring_char(0, i)
    };
    proof {
        if i < n {
            assert(addr_part@ =~= s@.take(i as int));
        }
    }
    let addr: Address = match Address::from_str(addr_part) {
        Some(a) => a,
        None => {
            return Err(ParseError { reason: "invalid socket address" });
        },
    };
    let mut h2_flag: bool = false;
    let mut tls: Option<String> = None;
    if i < n {
        let rest: &str = s.substring_char(i + 1, n);
        proof {
            assert(rest@ =~= s@.skip(i + 1));
        }
        let rn: usize = n - i - 1;
        let j: usize = find_char(rest, '#');
        if j == rn {
            h2_flag = is_h2(rest);
        } else {
            let h2_part: &str = rest.substring_char(0, j);
            let id_part: &str = rest.substring_char(j + 1, rn);
            proof {
                assert(h2_part@ =~= rest@.take(j as int));
                assert(id_part@ =~= rest@.skip(j + 1));
            }
            h2_flag = is_h2(h2_part);
            tls = Some(id_part.to_owned());
        }
    }
    let m = EndpointMeta::new(addr, h2_flag, 10000, Vec::new(), tls, None);
    proof {
        assert(crate::endpoints::labels_view(Seq::<(String, String)>::empty())
            =~= Seq::<(Seq<char>, Seq<char>)>::empty());
        assert(m@ =~= spec_parse_ep_item(s@).unwrap());
    }
    Ok(m)
}

/// Parses a comma-separated endpoint list.
fn parse_ep_list(s: &str) -> (r: Result<Vec<EndpointMeta>, ParseError>)
    ensures
        match r {
            Ok(v) => spec_parse_ep_list(s@) matches Some(items) && v@.map_values(
                |m: EndpointMeta| m@,
            ) == items,
            Err(_) => spec_parse_ep_list(s@) is None,
        },
    decreases s@.len(),
{
    let n: usize = s.unicode_len();
    let i: usize = find_char(s, ',');
    if i == n {
        let m: EndpointMeta = match parse_ep_item(s) {
            Ok(m) => m,
            Err(e) => {
                return Err(e);
            },
        };
        let mut v: Vec<EndpointMeta> = Vec::new();
        v.push(m);
        proof {
            assert(v@.map_values(|m: EndpointMeta| m@) =~= seq![m@]);
        }
        Ok(v)
    } else {
        let head: &str = s.substring_char(0, i);
        let tail: &str = s.substring_char(i + 1, n);
        proof {
            assert(head@ =~= s@.take(i as int));
            assert(tail@ =~= s@.skip(i + 1));
        }
        let m: EndpointMeta = match parse_ep_item(head) {
            Ok(m) => m,
            Err(e) => {
                return Err(e);
            },
        };
        let mut v: Vec<EndpointMeta> = match parse_ep_list(tail) {
            Ok(v) => v,
            Err(e) => {
                return Err(e);
            },
        };
        let ghost v0 = v@;
        v.insert(0, m);
        proof {
            assert(v@ =~= seq![m] + v0);
            assert(v@.map_values(|m: EndpointMeta| m@) =~= seq![m@] + v0.map_values(
                |m: EndpointMeta| m@,
            ));
        }
        Ok(v)
    }
}

/// Parses one `destination=endpoints` entry into a key and a folded
/// snapshot.
fn parse_ep_entry(s: &str) -> (r: Result<(Dst, Endpoints), ParseError>)
    ensures
        match r {
            Ok(p) => spec_parse_ep_entry(s@) matches Some(e) && p.0@ == e.0 && p.1@ == kv_map(
                meta_pairs(e.1),
            ) && p.1.wf(),
            Err(_) => spec_parse_ep_entry(s@) is None,
        },
{
    let n: usize = s.unicode_len();
    let i: usize = find_char(s, '=');
    if i == n {
        return Err(ParseError { reason: "no destination or endpoints" });
    }
    let dst_part: &str = s.substring_char(0, i);
    let rest: &str = s.substring_char(i + 1, n);
    proof {
        assert(dst_part@ =~= s@.take(i as int));
        assert(rest@ =~= s@.skip(i + 1));
    }
    let j: usize = find_char(rest, '=');
    if j != n - i - 1 {
        proof {
            lemma_first_ix(rest@, '=');
        }
        return Err(ParseError { reason: "too many '='s" });
    }
    proof {
        lemma_first_ix(rest@, '=');
        if has_char(rest@, '=') {
            let w = choose|w: int| 0 <= w < rest@.len() && rest@[w] == '=';
            assert(w >= first_ix(rest@, '='));
        }
    }
    let dst: Dst = match Dst::from_str(dst_part) {
        Ok(d) => d,
        Err(e) => {
            return Err(e);
        },
    };
    let items: Vec<EndpointMeta> = match parse_ep_list(rest) {
        Ok(v) => v,
        Err(e) => {
            return Err(e);
        },
    };
    let ghost items_view = items@.map_values(|m: EndpointMeta| m@);
    let eps: Endpoints = Endpoints::from_records(items);
    proof {
        assert(crate::endpoints::eps_pairs(items@) =~= meta_pairs(items_view));
    }
    Ok((dst, eps))
}

/// A list of destinations and their endpoint snapshots, as seeded from
/// the startup configuration.
#[derive(Debug)]
pub struct EndpointsSpec {
    dsts: Vec<(Dst, Endpoints)>,
}

impl View for EndpointsSpec {
    type V = Map<DstV, Map<Address, MetaV>>;

    open spec fn view(&self) -> Map<DstV, Map<Address, MetaV>> {
        kv_map(self.spec_entries())
    }
}

impl EndpointsSpec {
    /// The entries in configuration order.
    pub closed spec fn spec_entries(&self) -> Seq<(DstV, Map<Address, MetaV>)> {
        self.dsts@.map_values(|p: (Dst, Endpoints)| (p.0@, p.1@))
    }

    /// Keys are unique and every snapshot is well formed.
    pub closed spec fn wf(&self) -> bool {
        kv_unique(self.spec_entries()) && (forall|i: int|
            0 <= i < self.dsts@.len() ==> (#[trigger] self.dsts@[i]).1.wf())
    }

    /// Read access to the entries.
    pub fn entries(&self) -> (r: &Vec<(Dst, Endpoints)>)
        ensures
            r@.map_values(|p: (Dst, Endpoints)| (p.0@, p.1@)) == self.spec_entries(),
            kv_map(r@.map_values(|p: (Dst, Endpoints)| (p.0@, p.1@))) == self@,
            self.wf() ==> forall|i: int| 0 <= i < r@.len() ==> (#[trigger] r@[i]).1.wf(),
            self.wf() ==> kv_unique(r@.map_values(|p: (Dst, Endpoints)| (p.0@, p.1@))),
    {
        &self.dsts
    }

    /// Consumes the configuration, yielding its entries.
    pub fn into_entries(self) -> (r: Vec<(Dst, Endpoints)>)
        ensures
            r@.map_values(|p: (Dst, Endpoints)| (p.0@, p.1@)) == self.spec_entries(),
            kv_map(r@.map_values(|p: (Dst, Endpoints)| (p.0@, p.1@))) == self@,
            self.wf() ==> forall|i: int| 0 <= i < r@.len() ==> (#[trigger] r@[i]).1.wf(),
            self.wf() ==> kv_unique(r@.map_values(|p: (Dst, Endpoints)| (p.0@, p.1@))),
    {
        self.dsts
    }

    /// Inserts or replaces one key's snapshot.
    fn insert(&mut self, dst: Dst, eps: Endpoints)
        requires
            old(self).wf(),
            eps.wf(),
        ensures
            final(self).wf(),
            final(self)@ == old(self)@.insert(dst@, eps@),
    {
        let n: usize = self.dsts.len();
        let mut i: usize = 0;
        while i < n
            invariant
                0 <= i <= n,
                n == self.dsts@.len(),
                self.wf(),
                eps.wf(),
                self.dsts@ == old(self).dsts@,
                forall|j: int| 0 <= j < i ==> (#[trigger] self.dsts@[j]).0@ != dst@,
            decreases n - i,
        {
            if self.dsts[i].0.key_eq(&dst) {
                let ghost old_pairs = self.spec_entries();
                let ghost pre = self.dsts@;
                let ghost eps_g = eps;
                proof {
                    assert(old_pairs[i as int].0 == dst@);
                }
                self.dsts.set(i, (dst, eps));
                proof {
                    assert(self.dsts@ == pre.update(i as int, self.dsts@[i as int]));
                    assert(self.dsts@[i as int].1 == eps_g);
                    assert(self.spec_entries() =~= old_pairs.update(i as int, (dst@, eps_g@)));
                    lemma_kv_map_update(old_pairs, i as int, eps_g@);
                    lemma_kv_unique_update(old_pairs, i as int, eps_g@);
                    assert forall|j: int|
                        0 <= j < self.dsts@.len() implies (#[trigger] self.dsts@[j]).1.wf() by {
                        if j != i {
                            assert(self.dsts@[j] == pre[j]);
                            assert(pre[j] == old(self).dsts@[j]);
                        } else {
                            assert(self.dsts@[j].1 == eps_g);
                            assert(eps_g.wf());
                        }
                    }
                }
                return ;
            }
            i = i + 1;
        }
        let ghost old_pairs = self.spec_entries();
        self.dsts.push((dst, eps));
        proof {
            assert(self.spec_entries() =~= old_pairs.push((dst@, eps@)));
            lemma_kv_map_push(old_pairs, dst@, eps@);
            lemma_kv_unique_push(old_pairs, dst@, eps@);
        }
    }

    /// Parses the whole endpoints grammar. The accepted strings are
    /// exactly those of `spec_parse_eps_spec`, and the parsed value is
    /// the map the entry list denotes, later entries winning.
    pub fn from_str(s: &str) -> (r: Result<EndpointsSpec, ParseError>)
        ensures
            match r {
                Ok(sp) => sp.wf() && (spec_parse_eps_spec(s@) matches Some(entries) && sp@
                    == eps_entries_map(entries)),
                Err(_) => spec_parse_eps_spec(s@) is None,
            },
    {
        let mut out = EndpointsSpec { dsts: Vec::new() };
        proof {
            assert(out.spec_entries() =~= Seq::<(DstV, Map<Address, MetaV>)>::empty());
            assert(out@ =~= Map::<DstV, Map<Address, MetaV>>::empty());
        }
        let n: usize = s.unicode_len();
        if n == 0 {
            proof {
                assert(ep_entry_pairs(Seq::empty()) =~= Seq::<(DstV, Map<Address, MetaV>)>::empty());
            }
            return Ok(out);
        }
        match Self::parse_entries_into(s, &mut out) {
            Ok(_) => {
                proof {
                    let entries = spec_parse_ep_entries(s@).unwrap();
                    crate::kv::lemma_kv_fold_is_map(ep_entry_pairs(entries));
                }
                Ok(out)
            },
            Err(e) => Err(e),
        }
    }

    /// Parses a semicolon-separated entry list into `out`.
    fn parse_entries_into(s: &str, out: &mut EndpointsSpec) -> (r: Result<(), ParseError>)
        requires
            old(out).wf(),
        ensures
            match r {
                Ok(_) => final(out).wf() && (spec_parse_ep_entries(s@) matches Some(entries)
                    && final(out)@ == crate::kv::kv_fold(old(out)@, ep_entry_pairs(entries))),
                Err(_) => spec_parse_ep_entries(s@) is None,
            },
        decreases s@.len(),
    {
        let n: usize = s.unicode_len();
        let i: usize = find_char(s, ';');
        if i == n {
            match parse_ep_entry(s) {
                Ok(p) => {
                    let ghost pv = (p.0@, p.1@);
                    out.insert(p.0, p.1);
                    proof {
                        let e = spec_parse_ep_entry(s@).unwrap();
                        assert(ep_entry_pairs(seq![e]) =~= seq![pv]);
                        assert(seq![pv].skip(1) =~= Seq::<(DstV, Map<Address, MetaV>)>::empty());
                        assert(crate::kv::kv_fold(old(out)@, seq![pv]) == crate::kv::kv_fold(
                            old(out)@.insert(pv.0, pv.1),
                            Seq::<(DstV, Map<Address, MetaV>)>::empty(),
                        ));
                    }
                    Ok(())
                },
                Err(e) => Err(e),
            }
        } else {
            let head: &str = s.substring_char(0, i);
            let tail: &str = s.substring_char(i + 1, n);
            proof {
                assert(head@ =~= s@.take(i as int));
                assert(tail@ =~= s@.skip(i + 1));
            }
            match parse_ep_entry(head) {
                Ok(p) => {
                    let ghost pv = (p.0@, p.1@);
                    out.insert(p.0, p.1);
                    let ghost mid = out@;
                    match Self::parse_entries_into(tail, out) {
                        Ok(_) => {
                            proof {
                                let e = spec_parse_ep_entry(head@).unwrap();
                                let rest = spec_parse_ep_entries(tail@).unwrap();
                                let all = ep_entry_pairs(seq![e] + rest);
                                assert(all =~= seq![pv] + ep_entry_pairs(rest));
                                assert(all[0] == pv);
                                assert(all.skip(1) =~= ep_entry_pairs(rest));
                                assert(crate::kv::kv_fold(old(out)@, all) == crate::kv::kv_fold(
                                    mid,
                                    ep_entry_pairs(rest),
                                ));
                            }
                            Ok(())
                        },
                        Err(e) => Err(e),
                    }
                },
                Err(e) => Err(e),
            }
        }
    }
}

/// Parses one override item.
fn parse_ovr_item(s: &str) -> (r: Result<(Dst, u32), ParseError>)
    ensures
        match r {
            Ok(p) => spec_parse_ovr_item(s@) == Some((p.0@, p.1)),
            Err(_) => spec_parse_ovr_item(s@) is None,
        },
{
    let n: usize = s.unicode_len();
    let i: usize = find_char(s, '*');
    if i == n {
        match Dst::from_str(s) {
            Ok(d) => Ok((d, 1000)),
            Err(_) => Err(ParseError { reason: "invalid socket address" }),
        }
    } else {
        let dst_part: &str = s.substring_char(0, i);
        let w_part: &str = s.substring_char(i + 1, n);
        proof {
            assert(dst_part@ =~= s@.take(i as int));
            assert(w_part@ =~= s@.skip(i + 1));
        }
        match Dst::from_str(dst_part) {
            Err(_) => Err(ParseError { reason: "invalid socket address" }),
            Ok(d) => {
                match crate::text::parse_u32(w_part) {
                    Some(w) => Ok((d, w)),
                    None => Err(ParseError { reason: "invalid weight" }),
                }
            },
        }
    }
}

/// Parses a comma-separated override list.
fn parse_ovr_list(s: &str) -> (r: Result<Vec<(Dst, u32)>, ParseError>)
    ensures
        match r {
            Ok(v) => spec_parse_ovr_list(s@) matches Some(items) && ovr_pairs(v@) == items,
            Err(_) => spec_parse_ovr_list(s@) is None,
        },
    decreases s@.len(),
{
    let n: usize = s.unicode_len();
    let i: usize = find_char(s, ',');
    if i == n {
        let p: (Dst, u32) = match parse_ovr_item(s) {
            Ok(p) => p,
            Err(e) => {
                return Err(e);
            },
        };
        let ghost pv = (p.0@, p.1);
        let mut v: Vec<(Dst, u32)> = Vec::new();
        v.push(p);
        proof {
            assert(ovr_pairs(v@) =~= seq![pv]);
        }
        Ok(v)
    } else {
        let head: &str = s.substring_char(0, i);
        let tail: &str = s.substring_char(i + 1, n);
        proof {
            assert(head@ =~= s@.take(i as int));
            assert(tail@ =~= s@.skip(i + 1));
        }
        let p: (Dst, u32) = match parse_ovr_item(head) {
            Ok(p) => p,
            Err(e) => {
                return Err(e);
            },
        };
        let ghost pv = (p.0@, p.1);
        let mut v: Vec<(Dst, u32)> = match parse_ovr_list(tail) {
            Ok(v) => v,
            Err(e) => {
                return Err(e);
            },
        };
        let ghost v0 = v@;
        v.insert(0, p);
        proof {
            assert(v@ =~= seq![(p.0, p.1)] + v0);
            assert(ovr_pairs(v@) =~= seq![pv] + ovr_pairs(v0));
        }
        Ok(v)
    }
}

/// Parses one `destination=overrides` entry into a key and a folded
/// override snapshot.
fn parse_ovr_entry(s: &str) -> (r: Result<(Dst, Overrides), ParseError>)
    ensures
        match r {
            Ok(p) => spec_parse_ovr_entry(s@) matches Some(e) && p.0@ == e.0 && p.1@ == kv_map(
                e.1,
            ) && p.1.wf(),
            Err(_) => spec_parse_ovr_entry(s@) is None,
        },
{
    let n: usize = s.unicode_len();
    let i: usize = find_char(s, '=');
    if i == n {
        return Err(ParseError { reason: "no destination or endpoints" });
    }
    let dst_part: &str = s.substring_char(0, i);
    let rest: &str = s.substring_char(i + 1, n);
    proof {
        assert(dst_part@ =~= s@.take(i as int));
        assert(rest@ =~= s@.skip(i + 1));
    }
    let j: usize = find_char(rest, '=');
    if j != n - i - 1 {
        proof {
            lemma_first_ix(rest@, '=');
        }
        return Err(ParseError { reason: "too many '='s" });
    }
    proof {
        lemma_first_ix(rest@, '=');
        if has_char(rest@, '=') {
            let w = choose|w: int| 0 <= w < rest@.len() && rest@[w] == '=';
            assert(w >= first_ix(rest@, '='));
        }
    }
    let dst: Dst = match Dst::from_str(dst_part) {
        Ok(d) => d,
        Err(e) => {
            return Err(e);
        },
    };
    let items: Vec<(Dst, u32)> = match parse_ovr_list(rest) {
        Ok(v) => v,
        Err(e) => {
            return Err(e);
        },
    };
    let ovr: Overrides = Overrides::new(items);
    Ok((dst, ovr))
}

/// A list of destinations and their traffic-split snapshots, as seeded
/// from the startup configuration.
#[derive(Debug)]
pub struct OverridesSpec {
    dsts: Vec<(Dst, Overrides)>,
}

impl View for OverridesSpec {
    type V = Map<DstV, Map<DstV, u32>>;

    open spec fn view(&self) -> Map<DstV, Map<DstV, u32>> {
        kv_map(self.spec_entries())
    }
}

impl OverridesSpec {
    /// The entries in configuration order.
    pub closed spec fn spec_entries(&self) -> Seq<(DstV, Map<DstV, u32>)> {
        self.dsts@.map_values(|p: (Dst, Overrides)| (p.0@, p.1@))
    }

    /// Keys are unique and every snapshot is well formed.
    pub closed spec fn wf(&self) -> bool {
        kv_unique(self.spec_entries()) && (forall|i: int|
            0 <= i < self.dsts@.len() ==> (#[trigger] self.dsts@[i]).1.wf())
    }

    /// Read access to the entries.
    pub fn entries(&self) -> (r: &Vec<(Dst, Overrides)>)
        ensures
            r@.map_values(|p: (Dst, Overrides)| (p.0@, p.1@)) == self.spec_entries(),
            kv_map(r@.map_values(|p: (Dst, Overrides)| (p.0@, p.1@))) == self@,
            self.wf() ==> forall|i: int| 0 <= i < r@.len() ==> (#[trigger] r@[i]).1.wf(),
            self.wf() ==> kv_unique(r@.map_values(|p: (Dst, Overrides)| (p.0@, p.1@))),
    {
        &self.dsts
    }

    /// Consumes the configuration, yielding its entries.
    pub fn into_entries(self) -> (r: Vec<(Dst, Overrides)>)
        ensures
            r@.map_values(|p: (Dst, Overrides)| (p.0@, p.1@)) == self.spec_entries(),
            kv_map(r@.map_values(|p: (Dst, Overrides)| (p.0@, p.1@))) == self@,
            self.wf() ==> forall|i: int| 0 <= i < r@.len() ==> (#[trigger] r@[i]).1.wf(),
            self.wf() ==> kv_unique(r@.map_values(|p: (Dst, Overrides)| (p.0@, p.1@))),
    {
        self.dsts
    }

    /// Inserts or replaces one key's snapshot.
    fn insert(&mut self, dst: Dst, ovr: Overrides)
        requires
            old(self).wf(),
            ovr.wf(),
        ensures
            final(self).wf(),
            final(self)@ == old(self)@.insert(dst@, ovr@),
    {
        let n: usize = self.dsts.len();
        let mut i: usize = 0;
        while i < n
            invariant
                0 <= i <= n,
                n == self.dsts@.len(),
                self.wf(),
                ovr.wf(),
                self.dsts@ == old(self).dsts@,
                forall|j: int| 0 <= j < i ==> (#[trigger] self.dsts@[j]).0@ != dst@,
            decreases n - i,
        {
            if self.dsts[i].0.key_eq(&dst) {
                let ghost old_pairs = self.spec_entries();
                let ghost pre = self.dsts@;
                let ghost ovr_g = ovr;
                proof {
                    assert(old_pairs[i as int].0 == dst@);
                }
                self.dsts.set(i, (dst, ovr));
                proof {
                    assert(self.dsts@ == pre.update(i as int, self.dsts@[i as int]));
                    assert(self.dsts@[i as int].1 == ovr_g);
                    assert(self.spec_entries() =~= old_pairs.update(i as int, (dst@, ovr_g@)));
                    lemma_kv_map_update(old_pairs, i as int, ovr_g@);
                    lemma_kv_unique_update(old_pairs, i as int, ovr_g@);
                    assert forall|j: int|
                        0 <= j < self.dsts@.len() implies (#[trigger] self.dsts@[j]).1.wf() by {
                        if j != i {
                            assert(self.dsts@[j] == pre[j]);
                            assert(pre[j] == old(self).dsts@[j]);
                        } else {
                            assert(self.dsts@[j].1 == ovr_g);
                            assert(ovr_g.wf());
                        }
                    }
                }
                return ;
            }
            i = i + 1;
        }
        let ghost old_pairs = self.spec_entries();
        self.dsts.push((dst, ovr));
        proof {
            assert(self.spec_entries() =~= old_pairs.push((dst@, ovr@)));
            lemma_kv_map_push(old_pairs, dst@, ovr@);
            lemma_kv_unique_push(old_pairs, dst@, ovr@);
        }
    }

    /// Parses the whole overrides grammar. The accepted strings are
    /// exactly those of `spec_parse_ovr_spec`, and the parsed value is
    /// the map the entry list denotes, later entries winning.
    pub fn from_str(s: &str) -> (r: Result<OverridesSpec, ParseError>)
        ensures
            match r {
                Ok(sp) => sp.wf() && (spec_parse_ovr_spec(s@) matches Some(entries) && sp@
                    == ovr_entries_map(entries)),
                Err(_) => spec_parse_ovr_spec(s@) is None,
            },
    {
        let mut out = OverridesSpec { dsts: Vec::new() };
        proof {
            assert(out.spec_entries() =~= Seq::<(DstV, Map<DstV, u32>)>::empty());
            assert(out@ =~= Map::<DstV, Map<DstV, u32>>::empty());
        }
        let n: usize = s.unicode_len();
        if n == 0 {
            proof {
                assert(ovr_entry_pairs(Seq::empty()) =~= Seq::<(DstV, Map<DstV, u32>)>::empty());
            }
            return Ok(out);
        }
        match Self::parse_entries_into(s, &mut out) {
            Ok(_) => {
                proof {
                    let entries = spec_parse_ovr_entries(s@).unwrap();
                    crate::kv::lemma_kv_fold_is_map(ovr_entry_pairs(entries));
                }
                Ok(out)
            },
            Err(e) => Err(e),
        }
    }

    /// Parses a semicolon-separated entry list into `out`.
    fn parse_entries_into(s: &str, out: &mut OverridesSpec) -> (r: Result<(), ParseError>)
        requires
            old(out).wf(),
        ensures
            match r {
                Ok(_) => final(out).wf() && (spec_parse_ovr_entries(s@) matches Some(entries)
                    && final(out)@ == crate::kv::kv_fold(old(out)@, ovr_entry_pairs(entries))),
                Err(_) => spec_parse_ovr_entries(s@) is None,
            },
        decreases s@.len(),
    {
        let n: usize = s.unicode_len();
        let i: usize = find_char(s, ';');
        if i == n {
            match parse_ovr_entry(s) {
                Ok(p) => {
                    let ghost pv = (p.0@, p.1@);
                    out.insert(p.0, p.1);
                    proof {
                        let e = spec_parse_ovr_entry(s@).unwrap();
                        assert(ovr_entry_pairs(seq![e]) =~= seq![pv]);
                        assert(seq![pv].skip(1) =~= Seq::<(DstV, Map<DstV, u32>)>::empty());
                        assert(crate::kv::kv_fold(old(out)@, seq![pv]) == crate::kv::kv_fold(
                            old(out)@.insert(pv.0, pv.1),
                            Seq::<(DstV, Map<DstV, u32>)>::empty(),
                        ));
                    }
                    Ok(())
                },
                Err(e) => Err(e),
            }
        } else {
            let head: &str = s.substring_char(0, i);
            let tail: &str = s.substring_char(i + 1, n);
            proof {
                assert(head@ =~= s@.take(i as int));
                assert(tail@ =~= s@.skip(i + 1));
            }
            match parse_ovr_entry(head) {
                Ok(p) => {
                    let ghost pv = (p.0@, p.1@);
                    out.insert(p.0, p.1);
                    let ghost mid = out@;
                    match Self::parse_entries_into(tail, out) {
                        Ok(_) => {
                            proof {
                                let e = spec_parse_ovr_entry(head@).unwrap();
                                let rest = spec_parse_ovr_entries(tail@).unwrap();
                                let all = ovr_entry_pairs(seq![e] + rest);
                                assert(all =~= seq![pv] + ovr_entry_pairs(rest));
                                assert(all[0] == pv);
                                assert(all.skip(1) =~= ovr_entry_pairs(rest));
                                assert(crate::kv::kv_fold(old(out)@, all) == crate::kv::kv_fold(
                                    mid,
                                    ovr_entry_pairs(rest),
                                ));
                            }
                            Ok(())
                        },
                        Err(e) => Err(e),
                    }
                },
                Err(e) => Err(e),
            }
        }
    }
}

} // verus!
