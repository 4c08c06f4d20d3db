//! The diff engine: one instance per subscriber stream.
//!
//! Each instance keeps a private cursor (the last snapshot it observed)
//! and turns every newly observed snapshot into zero or more protocol
//! events: an Add of the records that are new or changed, then a Remove
//! of the addresses that vanished — in that fixed order — or a single
//! no-endpoints marker when the snapshot is empty.

use vstd::prelude::*;
use vstd::string::StrSliceExecFns;
use crate::dst::{Address, Dst, DstV, dst_spec_str};
use crate::kv::kv_map;
use crate::endpoints::{
    clone_labels, clone_meta, clone_opt_str, labels_view, meta_eq, opt_str_view, EndpointMeta,
    Endpoints, MetaV, Overrides,
};

verus! {

// --- labels carried by an encoded record ---

/// Index of the first pair whose key is `k`, or `s.len()` when absent.
pub open spec fn pair_ix(s: Seq<(Seq<char>, Seq<char>)>, k: Seq<char>) -> int
    decreases s.len(),
{
    if s.len() == 0 {
        0
    } else if s[0].0 == k {
        0
    } else {
        1 + pair_ix(s.subrange(1, s.len() as int), k)
    }
}

pub proof fn lemma_pair_ix(s: Seq<(Seq<char>, Seq<char>)>, k: Seq<char>)
    ensures
        0 <= pair_ix(s, k) <= s.len(),
        pair_ix(s, k) < s.len() ==> s[pair_ix(s, k)].0 == k,
        forall|j: int| 0 <= j < pair_ix(s, k) ==> (#[trigger] s[j]).0 != k,
    decreases s.len(),
{
    if s.len() > 0 && s[0].0 != k {
        let t = s.subrange(1, s.len() as int);
        lemma_pair_ix(t, k);
        assert forall|j: int| 0 <= j < pair_ix(s, k) implies (#[trigger] s[j]).0 != k by {
            if j > 0 {
                assert(t[j - 1] == s[j]);
            }
        }
    }
}

/// Replaces the first pair keyed `k`, or appends one when `k` is absent.
pub open spec fn set_pair(
    s: Seq<(Seq<char>, Seq<char>)>,
    k: Seq<char>,
    v: Seq<char>,
) -> Seq<(Seq<char>, Seq<char>)> {
    if pair_ix(s, k) < s.len() {
        s.update(pair_ix(s, k), (k, v))
    } else {
        s.push((k, v))
    }
}

/// Sets label `key` to `value`, replacing an existing entry in place.
fn set_label(labels: &mut Vec<(String, String)>, key: String, value: String)
    ensures
        labels_view(final(labels)@) == set_pair(labels_view(old(labels)@), key@, value@),
{
    let ghost s0 = labels_view(labels@);
    proof {
        lemma_pair_ix(s0, key@);
    }
    let n: usize = labels.len();
    let mut i: usize = 0;
    while i < n
        invariant
            0 <= i <= n,
            n == labels@.len(),
            labels@ == old(labels)@,
            s0 == labels_view(labels@),
            forall|j: int| 0 <= j < i ==> (#[trigger] s0[j]).0 != key@,
        decreases n - i,
    {
        proof {
            assert(s0[i as int] == (labels@[i as int].0@, labels@[i as int].1@));
        }
        if labels[i].0 == key {
            proof {
                lemma_pair_ix(s0, key@);
                assert(pair_ix(s0, key@) >= i) by {
                    if pair_ix(s0, key@) < i {
                        assert(s0[pair_ix(s0, key@)].0 == key@);
                    }
                }
                assert(pair_ix(s0, key@) <= i) by {
                    if pair_ix(s0, key@) > i {
                        assert(s0[i as int].0 != key@);
                    }
                }
            }
            labels.set(i, (key, value));
            proof {
                assert(labels_view(labels@) =~= s0.update(i as int, (key@, value@)));
            }
            return ;
        }
        i = i + 1;
    }
    proof {
        lemma_pair_ix(s0, key@);
        assert(pair_ix(s0, key@) == n) by {
            if pair_ix(s0, key@) < n {
                assert(s0[pair_ix(s0, key@)].0 == key@);
            }
        }
    }
    labels.push((key, value));
    proof {
        assert(labels_view(labels@) =~= s0.push((key@, value@)));
    }
}

/// The rendering of a boolean as a metric-label value.
pub open spec fn bool_str(b: bool) -> Seq<char> {
    if b {
        "true"@
    } else {
        "false"@
    }
}

fn bool_string(b: bool) -> (r: String)
    ensures
        r@ == bool_str(b),
{
    if b {
        "true".to_owned()
    } else {
        "false".to_owned()
    }
}

// --- encoded records ---

/// One record as it appears inside an Add event: the record's own fields
/// plus the synthesized `addr` and `h2` metric labels.
#[derive(Debug)]
pub struct WeightedAddr {
    pub addr: Address,
    pub weight: u32,
    pub h2_hint: bool,
    pub labels: Vec<(String, String)>,
    pub tls_identity: Option<String>,
    pub authority_override: Option<String>,
}

/// The mathematical value of an encoded record.
#[verifier::ext_equal]
pub ghost struct WAddrV {
    pub addr: Address,
    pub weight: u32,
    pub h2_hint: bool,
    pub labels: Seq<(Seq<char>, Seq<char>)>,
    pub tls_identity: Option<Seq<char>>,
    pub authority_override: Option<Seq<char>>,
}

impl View for WeightedAddr {
    type V = WAddrV;

    open spec fn view(&self) -> WAddrV {
        WAddrV {
            addr: self.addr,
            weight: self.weight,
            h2_hint: self.h2_hint,
            labels: labels_view(self.labels@),
            tls_identity: opt_str_view(self.tls_identity),
            authority_override: opt_str_view(self.authority_override),
        }
    }
}

/// How one record is encoded: weight and flags are carried over, the
/// `addr` label holds the rendered address and the `h2` label the
/// upgrade flag, both overriding record labels of the same name.
pub open spec fn spec_encode_meta(m: MetaV) -> WAddrV {
    WAddrV {
        addr: m.address,
        weight: m.weight,
        h2_hint: m.h2,
        labels: set_pair(
            set_pair(m.metric_labels, "addr"@, m.address.spec_str()),
            "h2"@,
            bool_str(m.h2),
        ),
        tls_identity: m.tls_identity,
        authority_override: m.authority_override,
    }
}

/// Encodes one record for the wire.
pub fn encode_meta(m: &EndpointMeta) -> (r: WeightedAddr)
    ensures
        r@ == spec_encode_meta(m@),
{
    let mut labels: Vec<(String, String)> = clone_labels(&m.metric_labels);
    let addr_s: String = m.address.render();
    set_label(&mut labels, "addr".to_owned(), addr_s);
    set_label(&mut labels, "h2".to_owned(), bool_string(m.h2));
    let r = WeightedAddr {
        addr: m.address,
        weight: m.weight,
        h2_hint: m.h2,
        labels,
        tls_identity: clone_opt_str(&m.tls_identity),
        authority_override: clone_opt_str(&m.authority_override),
    };
    proof {
        assert(r@ =~= spec_encode_meta(m@));
    }
    r
}

// --- protocol events ---

/// One protocol event of an endpoint stream.
#[derive(Debug)]
pub enum Update {
    /// Records that are new or changed, with stream-level labels.
    Add { addrs: Vec<WeightedAddr>, labels: Vec<(String, String)> },
    /// Addresses that vanished.
    Remove { addresses: Vec<Address> },
    /// The key has no endpoints; `key_exists` tells a configured-but-empty
    /// key apart from an unknown or retracted one.
    NoEndpoints { key_exists: bool },
}

/// The mathematical value of a protocol event.
#[verifier::ext_equal]
pub ghost enum UpdateV {
    Add { addrs: Seq<WAddrV>, labels: Seq<(Seq<char>, Seq<char>)> },
    Remove { addresses: Seq<Address> },
    NoEndpoints { key_exists: bool },
}

impl View for Update {
    type V = UpdateV;

    open spec fn view(&self) -> UpdateV {
        match self {
            Update::Add { addrs, labels } => UpdateV::Add {
                addrs: addrs@.map_values(|w: WeightedAddr| w@),
                labels: labels_view(labels@),
            },
            Update::Remove { addresses } => UpdateV::Remove { addresses: addresses@ },
            Update::NoEndpoints { key_exists } => UpdateV::NoEndpoints { key_exists: *key_exists },
        }
    }
}

/// The view of a whole event sequence.
pub open spec fn updates_view(out: Seq<Update>) -> Seq<UpdateV> {
    out.map_values(|u: Update| u@)
}

// --- the diff itself ---

/// Addresses whose record is new in `curr` or differs from `prev`.
pub open spec fn added_set(prev: Map<Address, MetaV>, curr: Map<Address, MetaV>) -> Set<Address> {
    Set::new(
        |a: Address| curr.contains_key(a) && (!prev.contains_key(a) || prev[a] != curr[a]),
    )
}

/// Addresses present in `prev` but absent from `curr`.
pub open spec fn removed_set(prev: Map<Address, MetaV>, curr: Map<Address, MetaV>) -> Set<Address> {
    Set::new(|a: Address| prev.contains_key(a) && !curr.contains_key(a))
}

/// Whether some record in `s` has the address `a`.
pub open spec fn addr_in_metas(s: Seq<EndpointMeta>, a: Address) -> bool {
    exists|i: int| 0 <= i < s.len() && (#[trigger] s[i]).address == a
}

/// Whether `mv` is new or changed relative to `prev`.
pub open spec fn changed_from(prev: Map<Address, MetaV>, mv: MetaV) -> bool {
    !prev.contains_key(mv.address) || prev[mv.address] != mv
}

/// The records to add, in the order of the new snapshot.
pub open spec fn spec_added(prev: Map<Address, MetaV>, currs: Seq<MetaV>) -> Seq<MetaV> {
    currs.filter(|mv: MetaV| changed_from(prev, mv))
}

/// The records of the old snapshot whose address vanished.
pub open spec fn gone_filter(prev_recs: Seq<MetaV>, curr: Map<Address, MetaV>) -> Seq<MetaV> {
    prev_recs.filter(|mv: MetaV| !curr.contains_key(mv.address))
}

/// The addresses to remove, in the order of the old snapshot.
pub open spec fn spec_removed(prev_recs: Seq<MetaV>, curr: Map<Address, MetaV>) -> Seq<Address> {
    gone_filter(prev_recs, curr).map_values(|mv: MetaV| mv.address)
}

/// The records to add, encoded for the wire, in snapshot order.
pub open spec fn encoded_added(prev: Map<Address, MetaV>, currs: Seq<MetaV>) -> Seq<WAddrV> {
    spec_added(prev, currs).map_values(|mv: MetaV| spec_encode_meta(mv))
}

/// Publishing a snapshot identical to the cursor adds and removes nothing.
pub proof fn lemma_diff_idempotent(m: Map<Address, MetaV>)
    ensures
        added_set(m, m) =~= Set::<Address>::empty(),
        removed_set(m, m) =~= Set::<Address>::empty(),
{
}

/// Computes the records to add and the addresses to remove between two
/// snapshots. The added records are exactly the records of `curr` whose
/// address is absent from `prev` or whose value changed; the removed
/// addresses are exactly those of `prev` that are absent from `curr`.
#[verifier::rlimit(60)]
pub fn diff_endpoints(prev: &Endpoints, curr: &Endpoints) -> (r: (Vec<EndpointMeta>, Vec<Address>))
    requires
        prev.wf(),
        curr.wf(),
    ensures
        forall|i: int|
            0 <= i < r.0@.len() ==> added_set(prev@, curr@).contains(
                (#[trigger] r.0@[i]).address,
            ) && r.0@[i]@ == curr@[r.0@[i].address],
        forall|a: Address| added_set(prev@, curr@).contains(a) ==> addr_in_metas(r.0@, a),
        forall|i: int, j: int|
            0 <= i < j < r.0@.len() ==> (#[trigger] r.0@[i]).address != (#[trigger] r.0@[j]).address,
        forall|i: int|
            0 <= i < r.1@.len() ==> removed_set(prev@, curr@).contains(#[trigger] r.1@[i]),
        forall|a: Address| removed_set(prev@, curr@).contains(a) ==> r.1@.contains(a),
        forall|i: int, j: int| 0 <= i < j < r.1@.len() ==> r.1@[i] != r.1@[j],
        r.0@.map_values(|m: EndpointMeta| m@) == spec_added(prev@, curr.spec_records()),
        r.1@ == spec_removed(prev.spec_records(), curr@),
{
    let cr: &Vec<EndpointMeta> = curr.records();
    let pr: &Vec<EndpointMeta> = prev.records();
    let mut added: Vec<EndpointMeta> = Vec::new();
    proof {
        reveal(Seq::filter);
        assert(curr.spec_records().take(0) =~= Seq::<MetaV>::empty());
        assert(spec_added(prev@, curr.spec_records().take(0)) =~= Seq::<MetaV>::empty());
        assert(added@.map_values(|m: EndpointMeta| m@) =~= Seq::<MetaV>::empty());
    }
    let cn: usize = cr.len();
    let mut i: usize = 0;
    while i < cn
        invariant
            0 <= i <= cn,
            cn == cr@.len(),
            prev.wf(),
            curr.wf(),
            eps_pairs_of(cr@) == crate::endpoints::meta_pairs(curr.spec_records()),
            cr@.map_values(|m: EndpointMeta| m@) == curr.spec_records(),
            added@.map_values(|m: EndpointMeta| m@) == spec_added(
                prev@,
                curr.spec_records().take(i as int),
            ),
            forall|j: int|
                0 <= j < added@.len() ==> added_set(prev@, curr@).contains(
                    (#[trigger] added@[j]).address,
                ) && added@[j]@ == curr@[added@[j].address],
            forall|j: int|
                0 <= j < i ==> (added_set(prev@, curr@).contains((#[trigger] cr@[j]).address)
                    ==> exists|l: int|
                    0 <= l < added@.len() && (#[trigger] added@[l]).address == cr@[j].address),
            forall|j: int|
                0 <= j < added@.len() ==> exists|l: int|
                    0 <= l < i && (#[trigger] added@[j]).address == cr@[l].address,
            forall|j: int, l: int|
                0 <= j < l < added@.len() ==> (#[trigger] added@[j]).address != (
                #[trigger] added@[l]).address,
        decreases cn - i,
    {
        let m: &EndpointMeta = &cr[i];
        proof {
            crate::kv::lemma_kv_map_get(eps_pairs_of(cr@), i as int);
            assert(curr@.contains_key(m.address));
            assert(curr@[m.address] == m@);
        }
        let is_added: bool = match prev.find(m.address) {
            None => true,
            Some(pm) => !meta_eq(pm, m),
        };
        if is_added {
            let ghost added0 = added@;
            let copied: EndpointMeta = clone_meta(m);
            added.push(copied);
            proof {
                assert(added@ == added0.push(copied));
                assert(forall|l: int| 0 <= l < added0.len() ==> #[trigger] added@[l] == added0[l]);
                assert(added@[added0.len() as int].address == cr@[i as int].address);
                assert forall|j: int, l: int|
                    0 <= j < l < added@.len() implies (#[trigger] added@[j]).address != (
                #[trigger] added@[l]).address by {
                    if l == added@.len() - 1 {
                        let w = choose|w: int|
                            0 <= w < i && (#[trigger] added0[j]).address == cr@[w].address;
                        assert(cr@[w].address != cr@[i as int].address) by {
                            if cr@[w].address == cr@[i as int].address {
                                assert(eps_pairs_of(cr@)[w].0 == eps_pairs_of(cr@)[i as int].0);
                            }
                        }
                    }
                }
                assert forall|j: int|
                    0 <= j < i + 1 && added_set(prev@, curr@).contains(
                    (#[trigger] cr@[j]).address,
                ) implies exists|l: int|
                    0 <= l < added@.len() && (#[trigger] added@[l]).address == cr@[j].address by {
                    if j < i {
                        let l = choose|l: int|
                            0 <= l < added0.len() && (#[trigger] added0[l]).address
                                == cr@[j].address;
                        assert(added@[l].address == cr@[j].address);
                    } else {
                        assert(added@[added0.len() as int].address == cr@[j].address);
                    }
                }
                reveal(Seq::filter);
                let srecs = curr.spec_records();
                let t = srecs.take(i + 1);
                assert(t.drop_last() =~= srecs.take(i as int));
                assert(t.last() == srecs[i as int]);
                assert(srecs[i as int] == cr@[i as int]@);
                assert(changed_from(prev@, srecs[i as int]));
                assert(spec_added(prev@, t) == spec_added(prev@, srecs.take(i as int)).push(
                    srecs[i as int],
                ));
                assert(added@.map_values(|m: EndpointMeta| m@) =~= added0.map_values(
                    |m: EndpointMeta| m@,
                ).push(copied@));
            }
        } else {
            proof {
                assert(!added_set(prev@, curr@).contains(cr@[i as int].address));
                reveal(Seq::filter);
                let srecs = curr.spec_records();
                let t = srecs.take(i + 1);
                assert(t.drop_last() =~= srecs.take(i as int));
                assert(t.last() == srecs[i as int]);
                assert(srecs[i as int] == cr@[i as int]@);
                assert(!changed_from(prev@, srecs[i as int]));
                assert(spec_added(prev@, t) == spec_added(prev@, srecs.take(i as int)));
            }
        }
        i = i + 1;
    }
    proof {
        assert(curr.spec_records().take(cn as int) =~= curr.spec_records());
    }
    let mut removed: Vec<Address> = Vec::new();
    proof {
        reveal(Seq::filter);
        assert(prev.spec_records().take(0) =~= Seq::<MetaV>::empty());
        assert(spec_removed(prev.spec_records().take(0), curr@) =~= Seq::<Address>::empty());
    }
    let pn: usize = pr.len();
    let mut k: usize = 0;
    while k < pn
        invariant
            0 <= k <= pn,
            pn == pr@.len(),
            prev.wf(),
            curr.wf(),
            eps_pairs_of(pr@) == crate::endpoints::meta_pairs(prev.spec_records()),
            pr@.map_values(|m: EndpointMeta| m@) == prev.spec_records(),
            removed@ == spec_removed(prev.spec_records().take(k as int), curr@),
            forall|j: int|
                0 <= j < removed@.len() ==> removed_set(prev@, curr@).contains(
                    #[trigger] removed@[j],
                ),
            forall|j: int|
                0 <= j < k ==> (removed_set(prev@, curr@).contains((#[trigger] pr@[j]).address)
                    ==> exists|l: int| 0 <= l < removed@.len() && removed@[l] == pr@[j].address),
            forall|j: int|
                0 <= j < removed@.len() ==> exists|l: int|
                    0 <= l < k && #[trigger] removed@[j] == pr@[l].address,
            forall|j: int, l: int| 0 <= j < l < removed@.len() ==> removed@[j] != removed@[l],
        decreases pn - k,
    {
        let pm: &EndpointMeta = &pr[k];
        proof {
            crate::kv::lemma_kv_map_get(eps_pairs_of(pr@), k as int);
            assert(prev@.contains_key(pm.address));
        }
        let gone: bool = match curr.find(pm.address) {
            None => true,
            Some(_) => false,
        };
        if gone {
            let ghost removed0 = removed@;
            removed.push(pm.address);
            proof {
                assert(forall|l: int|
                    0 <= l < removed0.len() ==> #[trigger] removed@[l] == removed0[l]);
                assert(removed@[removed0.len() as int] == pr@[k as int].address);
                assert forall|j: int, l: int|
                    0 <= j < l < removed@.len() implies removed@[j] != removed@[l] by {
                    if l == removed@.len() - 1 {
                        let w = choose|w: int|
                            0 <= w < k && #[trigger] removed0[j] == pr@[w].address;
                        assert(pr@[w].address != pr@[k as int].address) by {
                            if pr@[w].address == pr@[k as int].address {
                                assert(eps_pairs_of(pr@)[w].0 == eps_pairs_of(pr@)[k as int].0);
                            }
                        }
                    }
                }
                assert forall|j: int|
                    0 <= j < k + 1 && removed_set(prev@, curr@).contains(
                    (#[trigger] pr@[j]).address,
                ) implies exists|l: int|
                    0 <= l < removed@.len() && removed@[l] == pr@[j].address by {
                    if j < k {
                        let l = choose|l: int|
                            0 <= l < removed0.len() && #[trigger] removed0[l] == pr@[j].address;
                        assert(removed@[l] == pr@[j].address);
                    } else {
                        assert(removed@[removed0.len() as int] == pr@[j].address);
                    }
                }
                reveal(Seq::filter);
                let srecs = prev.spec_records();
                let t = srecs.take(k + 1);
                assert(t.drop_last() =~= srecs.take(k as int));
                assert(t.last() == srecs[k as int]);
                assert(srecs[k as int] == pr@[k as int]@);
                assert(!curr@.contains_key(srecs[k as int].address));
                assert(gone_filter(t, curr@) == gone_filter(srecs.take(k as int), curr@).push(
                    srecs[k as int],
                ));
                assert(spec_removed(t, curr@) =~= spec_removed(srecs.take(k as int), curr@).push(
                    srecs[k as int].address,
                ));
                assert(removed@ =~= removed0.push(pr@[k as int].address));
            }
        } else {
            proof {
                assert(!removed_set(prev@, curr@).contains(pr@[k as int].address));
                reveal(Seq::filter);
                let srecs = prev.spec_records();
                let t = srecs.take(k + 1);
                assert(t.drop_last() =~= srecs.take(k as int));
                assert(t.last() == srecs[k as int]);
                assert(srecs[k as int] == pr@[k as int]@);
                assert(curr@.contains_key(srecs[k as int].address));
                assert(gone_filter(t, curr@) == gone_filter(srecs.take(k as int), curr@));
                assert(spec_removed(t, curr@) =~= spec_removed(srecs.take(k as int), curr@));
            }
        }
        k = k + 1;
    }
    proof {
        assert(prev.spec_records().take(pn as int) =~= prev.spec_records());
        assert forall|a: Address| added_set(prev@, curr@).contains(a) implies addr_in_metas(
            added@,
            a,
        ) by {
            crate::kv::lemma_kv_map_dom(crate::endpoints::meta_pairs(curr.spec_records()), a);
            let l = choose|l: int|
                0 <= l < crate::endpoints::meta_pairs(curr.spec_records()).len() && (
                #[trigger] crate::endpoints::meta_pairs(curr.spec_records())[l]).0 == a;
            assert(cr@[l].address == a);
            let w = choose|w: int|
                0 <= w < added@.len() && (#[trigger] added@[w]).address == cr@[l].address;
            assert(added@[w].address == a);
        }
        assert forall|a: Address| removed_set(prev@, curr@).contains(a) implies removed@.contains(
            a,
        ) by {
            crate::kv::lemma_kv_map_dom(crate::endpoints::meta_pairs(prev.spec_records()), a);
            let l = choose|l: int|
                0 <= l < crate::endpoints::meta_pairs(prev.spec_records()).len() && (
                #[trigger] crate::endpoints::meta_pairs(prev.spec_records())[l]).0 == a;
            assert(pr@[l].address == a);
            let w = choose|w: int| 0 <= w < removed@.len() && #[trigger] removed@[w] == pr@[
                l].address;
            assert(removed@[w] == a);
        }
    }
    (added, removed)
}

/// Shorthand for the pair sequence of a record vector.
pub open spec fn eps_pairs_of(records: Seq<EndpointMeta>) -> Seq<(Address, MetaV)> {
    crate::endpoints::eps_pairs(records)
}

// --- one observation step ---

/// Whether some encoded record in `s` has the address `a`.
pub open spec fn waddr_in(s: Seq<WAddrV>, a: Address) -> bool {
    exists|i: int| 0 <= i < s.len() && (#[trigger] s[i]).addr == a
}

/// An Add event for the step from `prev` to `curr` on the stream of
/// `key`: it carries exactly the added records, each encoded from its
/// record in `curr`, plus the stream-level `concrete` label.
pub open spec fn is_add_event(
    u: UpdateV,
    prev: Map<Address, MetaV>,
    curr: Map<Address, MetaV>,
    key: DstV,
) -> bool {
    match u {
        UpdateV::Add { addrs, labels } => {
            &&& labels == seq![("concrete"@, dst_spec_str(key))]
            &&& forall|j: int|
                0 <= j < addrs.len() ==> added_set(prev, curr).contains(
                    (#[trigger] addrs[j]).addr,
                ) && addrs[j] == spec_encode_meta(curr[addrs[j].addr])
            &&& forall|a: Address| added_set(prev, curr).contains(a) ==> waddr_in(addrs, a)
            &&& forall|j: int, l: int|
                0 <= j < l < addrs.len() ==> (#[trigger] addrs[j]).addr != (
                #[trigger] addrs[l]).addr
        },
        _ => false,
    }
}

/// A Remove event for the step from `prev` to `curr`: it carries exactly
/// the removed addresses.
pub open spec fn is_remove_event(
    u: UpdateV,
    prev: Map<Address, MetaV>,
    curr: Map<Address, MetaV>,
) -> bool {
    match u {
        UpdateV::Remove { addresses } => {
            &&& forall|j: int|
                0 <= j < addresses.len() ==> removed_set(prev, curr).contains(
                    #[trigger] addresses[j],
                )
            &&& forall|a: Address| removed_set(prev, curr).contains(a) ==> addresses.contains(a)
            &&& forall|j: int, l: int| 0 <= j < l < addresses.len() ==> addresses[j] != addresses[l]
        },
        _ => false,
    }
}

/// What one observed snapshot emits. An empty snapshot emits exactly one
/// configured-but-empty marker; otherwise the Add event (when nonempty)
/// comes strictly before the Remove event (when nonempty), and an
/// unchanged snapshot emits nothing.
pub open spec fn spec_step(
    prev: Map<Address, MetaV>,
    curr: Map<Address, MetaV>,
    key: DstV,
    out: Seq<UpdateV>,
) -> bool {
    if curr == Map::<Address, MetaV>::empty() {
        out == seq![UpdateV::NoEndpoints { key_exists: true }]
    } else {
        let has_add = exists|a: Address| added_set(prev, curr).contains(a);
        let has_rem = exists|a: Address| removed_set(prev, curr).contains(a);
        if has_add && has_rem {
            out.len() == 2 && is_add_event(out[0], prev, curr, key) && is_remove_event(
                out[1],
                prev,
                curr,
            )
        } else if has_add {
            out.len() == 1 && is_add_event(out[0], prev, curr, key)
        } else if has_rem {
            out.len() == 1 && is_remove_event(out[0], prev, curr)
        } else {
            out == Seq::<UpdateV>::empty()
        }
    }
}

/// Publishing a snapshot identical to the last observed one emits no Add
/// and no Remove event: an unchanged nonempty snapshot emits nothing at
/// all, and an unchanged empty snapshot emits only the
/// configured-but-empty marker.
pub proof fn lemma_observe_idempotent(m: Map<Address, MetaV>, key: DstV, out: Seq<UpdateV>)
    requires
        spec_step(m, m, key, out),
    ensures
        forall|i: int|
            0 <= i < out.len() ==> !((#[trigger] out[i]) is Add) && !(out[i] is Remove),
{
    lemma_diff_idempotent(m);
    if m != Map::<Address, MetaV>::empty() {
        assert(!(exists|a: Address| added_set(m, m).contains(a)));
        assert(!(exists|a: Address| removed_set(m, m).contains(a)));
        assert(out == Seq::<UpdateV>::empty());
    }
}

/// Builds the Add event for a list of added records.
fn make_add_event(dst: &Dst, added: Vec<EndpointMeta>) -> (r: Update)
    ensures
        r@ matches UpdateV::Add { addrs, labels } && labels == seq![
            ("concrete"@, dst_spec_str(dst@)),
        ] && addrs.len() == added@.len() && (forall|j: int|
            0 <= j < addrs.len() ==> addrs[j] == spec_encode_meta((#[trigger] added@[j])@)
                && addrs[j].addr == added@[j].address),
{
    let mut waddrs: Vec<WeightedAddr> = Vec::new();
    let n: usize = added.len();
    let mut i: usize = 0;
    while i < n
        invariant
            0 <= i <= n,
            n == added@.len(),
            waddrs@.len() == i,
            forall|j: int|
                0 <= j < i ==> (#[trigger] waddrs@[j])@ == spec_encode_meta(added@[j]@)
                    && waddrs@[j].addr == added@[j].address,
        decreases n - i,
    {
        let w: WeightedAddr = encode_meta(&added[i]);
        waddrs.push(w);
        i = i + 1;
    }
    let mut labels: Vec<(String, String)> = Vec::new();
    labels.push(("concrete".to_owned(), dst.render()));
    let r = Update::Add { addrs: waddrs, labels };
    proof {
        assert(labels_view(labels@) =~= seq![("concrete"@, dst_spec_str(dst@))]);
        match r@ {
            UpdateV::Add { addrs, labels: ls } => {
                assert(addrs.len() == added@.len());
                assert forall|j: int| 0 <= j < addrs.len() implies addrs[j] == spec_encode_meta(
                    (#[trigger] added@[j])@,
                ) && addrs[j].addr == added@[j].address by {
                    assert(addrs[j] == waddrs@[j]@);
                    assert(spec_encode_meta(added@[j]@).addr == added@[j].address);
                }
            },
            _ => {
                assert(false);
            },
        }
    }
    r
}

// --- the per-subscriber engine ---

/// One subscriber's diff engine: the routing key it serves, the last
/// snapshot it observed, and whether its stream has ended.
#[derive(Debug)]
pub struct Subscriber {
    dst: Dst,
    cursor: Endpoints,
    closed: bool,
}

impl Subscriber {
    /// The key this stream serves.
    pub closed spec fn spec_dst(&self) -> DstV {
        self.dst@
    }

    /// The records of the last snapshot this stream observed, in
    /// snapshot order.
    pub closed spec fn spec_cursor_records(&self) -> Seq<MetaV> {
        self.cursor.spec_records()
    }

    /// The last snapshot this stream observed.
    pub open spec fn spec_cursor(&self) -> Map<Address, MetaV> {
        kv_map(crate::endpoints::meta_pairs(self.spec_cursor_records()))
    }

    /// Whether the stream has ended.
    pub closed spec fn spec_closed(&self) -> bool {
        self.closed
    }

    /// The cursor holds one record per address.
    pub closed spec fn wf(&self) -> bool {
        self.cursor.wf()
    }

    /// The key this stream serves.
    pub fn dst(&self) -> (r: &Dst)
        ensures
            r@ == self.spec_dst(),
    {
        &self.dst
    }

    /// Whether the stream has ended.
    pub fn is_closed(&self) -> (r: bool)
        ensures
            r == self.spec_closed(),
    {
        self.closed
    }

    /// Attaches a new subscriber. A key the store does not hold yields a
    /// single terminal not-configured marker and a closed stream; a held
    /// key yields the events of a first observation from an empty cursor,
    /// so the subscriber starts with a full Add burst unless the current
    /// snapshot is empty.
    pub fn attach(dst: Dst, current: Option<&Endpoints>) -> (r: (Subscriber, Vec<Update>))
        requires
            match current {
                Some(e) => e.wf(),
                None => true,
            },
        ensures
            r.0.wf(),
            r.0.spec_dst() == dst@,
            match current {
                None => r.0.spec_closed() && updates_view(r.1@) == seq![
                    UpdateV::NoEndpoints { key_exists: false },
                ],
                Some(e) => {
                    &&& !r.0.spec_closed()
                    &&& r.0.spec_cursor() == e@
                    &&& spec_step(
                        Map::<Address, MetaV>::empty(),
                        e@,
                        dst@,
                        updates_view(r.1@),
                    )
                    &&& forall|i: int|
                        0 <= i < updates_view(r.1@).len() ==> ((#[trigger] updates_view(
                            r.1@,
                        )[i]) matches UpdateV::Add { addrs, .. } ==> addrs == encoded_added(
                            Map::<Address, MetaV>::empty(),
                            e.spec_records(),
                        ))
                },
            },
    {
        match current {
            None => {
                let sub = Subscriber { dst, cursor: Endpoints::empty(), closed: true };
                let mut out: Vec<Update> = Vec::new();
                out.push(Update::NoEndpoints { key_exists: false });
                proof {
                    assert(updates_view(out@) =~= seq![
                        UpdateV::NoEndpoints { key_exists: false },
                    ]);
                }
                (sub, out)
            },
            Some(e) => {
                let mut sub = Subscriber { dst, cursor: Endpoints::empty(), closed: false };
                proof {
                    assert(sub.spec_cursor_records() =~= Seq::<MetaV>::empty());
                    assert(crate::endpoints::meta_pairs(sub.spec_cursor_records())
                        =~= Seq::<(Address, MetaV)>::empty());
                    assert(sub.spec_cursor() =~= Map::<Address, MetaV>::empty());
                }
                let ghost sub0 = sub;
                let out: Vec<Update> = sub.observe(e);
                proof {
                    assert(sub0.spec_cursor() == Map::<Address, MetaV>::empty());
                }
                (sub, out)
            },
        }
    }

    /// Observes a newly published snapshot and emits its events; the
    /// cursor becomes the observed snapshot.
    pub fn observe(&mut self, curr: &Endpoints) -> (out: Vec<Update>)
        requires
            !old(self).spec_closed(),
            old(self).wf(),
            curr.wf(),
        ensures
            final(self).wf(),
            !final(self).spec_closed(),
            final(self).spec_dst() == old(self).spec_dst(),
            final(self).spec_cursor() == curr@,
            spec_step(
                old(self).spec_cursor(),
                curr@,
                old(self).spec_dst(),
                updates_view(out@),
            ),
            forall|i: int|
                0 <= i < updates_view(out@).len() ==> ((#[trigger] updates_view(out@)[i]) matches
                    UpdateV::Add { addrs, .. } ==> addrs == encoded_added(
                    old(self).spec_cursor(),
                    curr.spec_records(),
                )),
            forall|i: int|
                0 <= i < updates_view(out@).len() ==> ((#[trigger] updates_view(out@)[i]) matches
                    UpdateV::Remove { addresses } ==> addresses == spec_removed(
                    old(self).spec_cursor_records(),
                    curr@,
                )),
    {
        if curr.is_empty() {
            self.cursor = Endpoints::empty();
            let mut out: Vec<Update> = Vec::new();
            out.push(Update::NoEndpoints { key_exists: true });
            proof {
                assert(updates_view(out@) =~= seq![UpdateV::NoEndpoints { key_exists: true }]);
            }
            out
        } else {
            let ghost prev_map = self.cursor@;
            let ghost prev_recs = self.cursor.spec_records();
            proof {
                assert(prev_map == old(self).spec_cursor());
                assert(prev_recs == old(self).spec_cursor_records());
            }
            let pair: (Vec<EndpointMeta>, Vec<Address>) = diff_endpoints(&self.cursor, curr);
            let added: Vec<EndpointMeta> = pair.0;
            let removed: Vec<Address> = pair.1;
            let ghost added_seq = added@;
            let ghost removed_seq = removed@;
            let mut out: Vec<Update> = Vec::new();
            let has_added: bool = added.len() > 0;
            let has_removed: bool = removed.len() > 0;
            proof {
                if added_seq.len() > 0 {
                    assert(added_set(prev_map, curr@).contains(added_seq[0].address));
                }
                if exists|a: Address| added_set(prev_map, curr@).contains(a) {
                    let a = choose|a: Address| added_set(prev_map, curr@).contains(a);
                    assert(addr_in_metas(added_seq, a));
                }
                if removed_seq.len() > 0 {
                    assert(removed_set(prev_map, curr@).contains(removed_seq[0]));
                }
                if exists|a: Address| removed_set(prev_map, curr@).contains(a) {
                    let a = choose|a: Address| removed_set(prev_map, curr@).contains(a);
                    assert(removed_seq.contains(a));
                }
            }
            if has_added {
                let ev: Update = make_add_event(&self.dst, added);
                proof {
                    assert(is_add_event(ev@, prev_map, curr@, self.dst@)) by {
                        match ev@ {
                            UpdateV::Add { addrs, labels } => {
                                assert forall|j: int|
                                    0 <= j < addrs.len() implies added_set(
                                    prev_map,
                                    curr@,
                                ).contains((#[trigger] addrs[j]).addr) && addrs[j]
                                    == spec_encode_meta(curr@[addrs[j].addr]) by {
                                    assert(addrs[j] == spec_encode_meta(added_seq[j]@));
                                    assert(added_seq[j]@ == curr@[added_seq[j].address]);
                                }
                                assert forall|a: Address|
                                    added_set(prev_map, curr@).contains(a) implies waddr_in(
                                    addrs,
                                    a,
                                ) by {
                                    assert(addr_in_metas(added_seq, a));
                                    let w = choose|w: int|
                                        0 <= w < added_seq.len() && (
                                        #[trigger] added_seq[w]).address == a;
                                    assert(addrs[w].addr == a);
                                }
                                assert forall|j: int, l: int|
                                    0 <= j < l < addrs.len() implies (#[trigger] addrs[j]).addr
                                    != (#[trigger] addrs[l]).addr by {
                                    assert(addrs[j].addr == added_seq[j].address);
                                    assert(addrs[l].addr == added_seq[l].address);
                                }
                            },
                            _ => {
                                assert(false);
                            },
                        }
                    }
                    match ev@ {
                        UpdateV::Add { addrs, labels } => {
                            assert forall|j: int|
                                0 <= j < addrs.len() implies addrs[j] == encoded_added(
                                prev_map,
                                curr.spec_records(),
                            )[j] by {
                                assert(addrs[j] == spec_encode_meta(added_seq[j]@));
                                assert(spec_added(prev_map, curr.spec_records())[j]
                                    == added_seq[j]@);
                            }
                            assert(addrs =~= encoded_added(prev_map, curr.spec_records()));
                        },
                        _ => {
                            assert(false);
                        },
                    }
                }
                out.push(ev);
                proof {
                    assert(out@[0] == ev);
                }
            }
            if has_removed {
                let ev: Update = Update::Remove { addresses: removed };
                proof {
                    assert(is_remove_event(ev@, prev_map, curr@));
                    assert(ev@ == (UpdateV::Remove { addresses: removed_seq }));
                    assert(removed_seq == spec_removed(prev_recs, curr@));
                }
                out.push(ev);
                proof {
                    assert(out@[out@.len() - 1] == ev);
                }
            }
            self.cursor = curr.deep_clone();
            proof {
                let ov = updates_view(out@);
                if has_added && has_removed {
                    assert(ov.len() == 2);
                } else if has_added || has_removed {
                    assert(ov.len() == 1);
                } else {
                    assert(ov =~= Seq::<UpdateV>::empty());
                }
                assert(spec_step(prev_map, curr@, old(self).spec_dst(), ov));
                assert forall|i: int|
                    0 <= i < ov.len() implies ((#[trigger] ov[i]) matches UpdateV::Add {
                        addrs,
                        ..
                    } ==> addrs == encoded_added(
                        old(self).spec_cursor(),
                        curr.spec_records(),
                    )) && (ov[i] matches UpdateV::Remove { addresses } ==> addresses
                    == spec_removed(old(self).spec_cursor_records(), curr@)) by {
                    if has_added && i == 0 {
                        assert(ov[0] is Add);
                    } else {
                        assert(ov[i] is Remove);
                        assert(ov[i] == (UpdateV::Remove { addresses: removed_seq }));
                    }
                }
            }
            out
        }
    }

    /// The upstream channel closed: the key was retracted or the store is
    /// gone. Emits the terminal not-configured marker and ends the stream.
    pub fn on_closed(&mut self) -> (out: Vec<Update>)
        requires
            !old(self).spec_closed(),
        ensures
            final(self).spec_closed(),
            final(self).spec_dst() == old(self).spec_dst(),
            updates_view(out@) == seq![UpdateV::NoEndpoints { key_exists: false }],
    {
        self.closed = true;
        let mut out: Vec<Update> = Vec::new();
        out.push(Update::NoEndpoints { key_exists: false });
        proof {
            assert(updates_view(out@) =~= seq![UpdateV::NoEndpoints { key_exists: false }]);
        }
        out
    }
}

// --- traffic-split profiles ---

/// A whole profile message: each override key rendered as an authority,
/// with its weight, in snapshot order.
#[derive(Debug)]
pub struct ProfileMsg {
    pub dst_overrides: Vec<(String, u32)>,
}

/// The rendering an override snapshot gets on the wire.
pub open spec fn profile_of(entries: Seq<(DstV, u32)>) -> Seq<(Seq<char>, u32)> {
    entries.map_values(|p: (DstV, u32)| (dst_spec_str(p.0), p.1))
}

/// The mathematical value of a profile message.
pub open spec fn profile_view(s: Seq<(String, u32)>) -> Seq<(Seq<char>, u32)> {
    s.map_values(|p: (String, u32)| (p.0@, p.1))
}

/// Re-encodes an override snapshot wholesale; there is no add/remove
/// distinction for overrides.
pub fn encode_profile(ovr: &Overrides) -> (r: ProfileMsg)
    ensures
        profile_view(r.dst_overrides@) == profile_of(ovr.spec_entries()),
{
    let entries: &Vec<(Dst, u32)> = ovr.entries();
    let mut out: Vec<(String, u32)> = Vec::new();
    let n: usize = entries.len();
    let mut i: usize = 0;
    while i < n
        invariant
            0 <= i <= n,
            n == entries@.len(),
            crate::endpoints::ovr_pairs(entries@) == ovr.spec_entries(),
            out@.len() == i,
            forall|j: int|
                0 <= j < i ==> (#[trigger] profile_view(out@)[j]) == profile_of(
                    ovr.spec_entries(),
                )[j],
        decreases n - i,
    {
        let authority: String = entries[i].0.render();
        let w: u32 = entries[i].1;
        let ghost out0 = out@;
        out.push((authority, w));
        proof {
            assert(ovr.spec_entries()[i as int] == (entries@[i as int].0@, entries@[i as int].1));
            assert forall|j: int|
                0 <= j < i + 1 implies (#[trigger] profile_view(out@)[j]) == profile_of(
                ovr.spec_entries(),
            )[j] by {
                if j < i {
                    assert(out@[j] == out0[j]);
                    assert(profile_view(out0)[j] == profile_of(ovr.spec_entries())[j]);
                } else {
                    assert(out@[j] == (authority, w));
                }
            }
        }
        i = i + 1;
    }
    proof {
        assert(profile_view(out@) =~= profile_of(ovr.spec_entries()));
    }
    ProfileMsg { dst_overrides: out }
}

} // verus!
