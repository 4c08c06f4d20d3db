//! Endpoint records and whole-key snapshots.
//!
//! A snapshot is a complete replacement value for one routing key: a map
//! from socket address to endpoint record. Publishing never merges; full
//! record equality is what drives change detection.

use vstd::prelude::*;
use crate::dst::{Address, Dst, DstV};
use crate::kv::{
    kv_map, kv_unique, lemma_kv_map_get, lemma_kv_map_push, lemma_kv_map_update,
    lemma_kv_unique_push, lemma_kv_unique_update, lemma_kv_map_dom,
};

verus! {

/// One backend endpoint: the full value compared for change detection.
#[derive(Debug)]
pub struct EndpointMeta {
    pub address: Address,
    pub h2: bool,
    pub weight: u32,
    pub metric_labels: Vec<(String, String)>,
    pub tls_identity: Option<String>,
    pub authority_override: Option<String>,
}

/// The mathematical value of an endpoint record.
#[verifier::ext_equal]
pub ghost struct MetaV {
    pub address: Address,
    pub h2: bool,
    pub weight: u32,
    pub metric_labels: Seq<(Seq<char>, Seq<char>)>,
    pub tls_identity: Option<Seq<char>>,
    pub authority_override: Option<Seq<char>>,
}

pub open spec fn labels_view(labels: Seq<(String, String)>) -> Seq<(Seq<char>, Seq<char>)> {
    labels.map_values(|p: (String, String)| (p.0@, p.1@))
}

pub open spec fn opt_str_view(o: Option<String>) -> Option<Seq<char>> {
    match o {
        Some(s) => Some(s@),
        None => None,
    }
}

impl View for EndpointMeta {
    type V = MetaV;

    open spec fn view(&self) -> MetaV {
        MetaV {
            address: self.address,
            h2: self.h2,
            weight: self.weight,
            metric_labels: labels_view(self.metric_labels@),
            tls_identity: opt_str_view(self.tls_identity),
            authority_override: opt_str_view(self.authority_override),
        }
    }
}

impl EndpointMeta {
    /// Builds a record from its parts.
    pub fn new(
        address: Address,
        h2: bool,
        weight: u32,
        metric_labels: Vec<(String, String)>,
        tls_identity: Option<String>,
        authority_override: Option<String>,
    ) -> (r: EndpointMeta)
        ensures
            r@ == (MetaV {
                address,
                h2,
                weight,
                metric_labels: labels_view(metric_labels@),
                tls_identity: opt_str_view(tls_identity),
                authority_override: opt_str_view(authority_override),
            }),
    {
        EndpointMeta { address, h2, weight, metric_labels, tls_identity, authority_override }
    }
}

/// Value equality of two optional strings.
fn opt_str_eq(a: &Option<String>, b: &Option<String>) -> (r: bool)
    ensures
        r == (opt_str_view(*a) == opt_str_view(*b)),
{
    match (a, b) {
        (None, None) => true,
        (Some(x), Some(y)) => {
            let e: bool = *x == *y;
            proof {
                assert(opt_str_view(*a) == Some(x@));
                assert(opt_str_view(*b) == Some(y@));
            }
            e
        },
        (Some(x), None) => {
            proof {
                assert(opt_str_view(*a) == Some(x@));
                assert(opt_str_view(*b) is None);
            }
            false
        },
        (None, Some(y)) => {
            proof {
                assert(opt_str_view(*a) is None);
                assert(opt_str_view(*b) == Some(y@));
            }
            false
        },
    }
}

/// Value equality of two label lists, order included.
fn labels_eq(a: &Vec<(String, String)>, b: &Vec<(String, String)>) -> (r: bool)
    ensures
        r == (labels_view(a@) == labels_view(b@)),
{
    if a.len() != b.len() {
        proof {
            assert(labels_view(a@).len() != labels_view(b@).len());
        }
        return false;
    }
    let n: usize = a.len();
    let mut i: usize = 0;
    while i < n
        invariant
            0 <= i <= n,
            n == a@.len() == b@.len(),
            forall|j: int| 0 <= j < i ==> labels_view(a@)[j] == labels_view(b@)[j],
        decreases n - i,
    {
        let keys_same: bool = a[i].0 == b[i].0;
        let vals_same: bool = a[i].1 == b[i].1;
        proof {
            assert(labels_view(a@)[i as int] == (a@[i as int].0@, a@[i as int].1@));
            assert(labels_view(b@)[i as int] == (b@[i as int].0@, b@[i as int].1@));
        }
        if !(keys_same && vals_same) {
            proof {
                if labels_view(a@) == labels_view(b@) {
                    assert(labels_view(a@)[i as int] == labels_view(b@)[i as int]);
                }
            }
            return false;
        }
        i = i + 1;
    }
    proof {
        assert(labels_view(a@) =~= labels_view(b@));
    }
    true
}

/// Full-value equality of two records: any field difference counts as a
/// replacement of that address.
pub fn meta_eq(a: &EndpointMeta, b: &EndpointMeta) -> (r: bool)
    ensures
        r == (a@ == b@),
{
    let same: bool = a.address == b.address && a.h2 == b.h2 && a.weight == b.weight && labels_eq(
        &a.metric_labels,
        &b.metric_labels,
    ) && opt_str_eq(&a.tls_identity, &b.tls_identity) && opt_str_eq(
        &a.authority_override,
        &b.authority_override,
    );
    proof {
        if same {
            assert(a@ =~= b@);
        }
    }
    same
}

/// A complete endpoint snapshot for one routing key, keyed by address.
#[derive(Debug)]
pub struct Endpoints {
    records: Vec<EndpointMeta>,
}

/// The association sequence a list of records denotes.
pub open spec fn eps_pairs(records: Seq<EndpointMeta>) -> Seq<(Address, MetaV)> {
    records.map_values(|m: EndpointMeta| (m.address, m@))
}

/// The association sequence a list of record values denotes.
pub open spec fn meta_pairs(records: Seq<MetaV>) -> Seq<(Address, MetaV)> {
    records.map_values(|mv: MetaV| (mv.address, mv))
}

impl View for Endpoints {
    type V = Map<Address, MetaV>;

    open spec fn view(&self) -> Map<Address, MetaV> {
        kv_map(meta_pairs(self.spec_records()))
    }
}

impl Endpoints {
    /// No two records share an address.
    pub open spec fn wf(&self) -> bool {
        kv_unique(meta_pairs(self.spec_records()))
    }

    /// The records in snapshot order.
    pub closed spec fn spec_records(&self) -> Seq<MetaV> {
        self.records@.map_values(|m: EndpointMeta| m@)
    }

    /// Inside the module the two pair sequences coincide.
    proof fn lemma_pairs_agree(&self)
        ensures
            meta_pairs(self.spec_records()) =~= eps_pairs(self.records@),
    {
    }

    /// The empty snapshot.
    pub fn empty() -> (r: Endpoints)
        ensures
            r@ == Map::<Address, MetaV>::empty(),
            r.wf(),
            r.spec_records().len() == 0,
    {
        let r = Endpoints { records: Vec::new() };
        proof {
            assert(r.spec_records() =~= Seq::<MetaV>::empty());
            assert(meta_pairs(r.spec_records()) =~= Seq::<(Address, MetaV)>::empty());
        }
        r
    }

    pub fn len(&self) -> (r: usize)
        ensures
            r == self.spec_records().len(),
    {
        self.records.len()
    }

    /// Whether the snapshot has no endpoints.
    pub fn is_empty(&self) -> (r: bool)
        requires
            self.wf(),
        ensures
            r == (self@ == Map::<Address, MetaV>::empty()),
            r == (self.spec_records().len() == 0),
    {
        proof {
            if self.records@.len() > 0 {
                lemma_kv_map_get(meta_pairs(self.spec_records()), 0);
                assert(self@.contains_key(self.spec_records()[0].address));
            } else {
                assert(meta_pairs(self.spec_records()) =~= Seq::<(Address, MetaV)>::empty());
            }
        }
        self.records.len() == 0
    }

    /// Read access to the records, in snapshot order.
    pub fn records(&self) -> (r: &Vec<EndpointMeta>)
        ensures
            r@.map_values(|m: EndpointMeta| m@) == self.spec_records(),
            eps_pairs(r@) == meta_pairs(self.spec_records()),
            r@.len() == self.spec_records().len(),
    {
        proof {
            self.lemma_pairs_agree();
        }
        &self.records
    }

    /// Looks an address up; the snapshot is the map `self@`.
    pub fn find(&self, address: Address) -> (r: Option<&EndpointMeta>)
        requires
            self.wf(),
        ensures
            match r {
                Some(m) => self@.contains_key(address) && m@ == self@[address] && m.address
                    == address,
                None => !self@.contains_key(address),
            },
    {
        let n: usize = self.records.len();
        let mut i: usize = 0;
        while i < n
            invariant
                0 <= i <= n,
                n == self.records@.len(),
                self.wf(),
                forall|j: int| 0 <= j < i ==> (#[trigger] self.records@[j]).address != address,
            decreases n - i,
        {
            if self.records[i].address == address {
                proof {
                    self.lemma_pairs_agree();
                    lemma_kv_map_get(eps_pairs(self.records@), i as int);
                }
                return Some(&self.records[i]);
            }
            i = i + 1;
        }
        proof {
            self.lemma_pairs_agree();
            lemma_kv_map_dom(eps_pairs(self.records@), address);
            assert forall|k: int| 0 <= k < self.records@.len() implies (#[trigger] eps_pairs(
                self.records@,
            )[k]).0 != address by {
                assert(self.records@[k].address != address);
            }
        }
        None
    }

    /// Inserts or replaces the record at its address.
    pub fn insert(&mut self, meta: EndpointMeta)
        requires
            old(self).wf(),
        ensures
            final(self).wf(),
            final(self)@ == old(self)@.insert(meta.address, meta@),
    {
        let ghost pairs0 = eps_pairs(self.records@);
        let n: usize = self.records.len();
        let mut i: usize = 0;
        while i < n
            invariant
                0 <= i <= n,
                n == self.records@.len(),
                self.wf(),
                self.records@ == old(self).records@,
                forall|j: int| 0 <= j < i ==> (#[trigger] self.records@[j]).address != meta.address,
            decreases n - i,
        {
            if self.records[i].address == meta.address {
                let ghost old_pairs = meta_pairs(self.spec_records());
                proof {
                    self.lemma_pairs_agree();
                    assert(old_pairs[i as int].0 == meta.address);
                }
                self.records.set(i, meta);
                proof {
                    assert(meta_pairs(self.spec_records()) =~= old_pairs.update(
                        i as int,
                        (meta.address, meta@),
                    ));
                    lemma_kv_map_update(old_pairs, i as int, meta@);
                    lemma_kv_unique_update(old_pairs, i as int, meta@);
                }
                return ;
            }
            i = i + 1;
        }
        let ghost old_pairs = meta_pairs(self.spec_records());
        proof {
            self.lemma_pairs_agree();
        }
        self.records.push(meta);
        proof {
            assert(meta_pairs(self.spec_records()) =~= old_pairs.push((meta.address, meta@)));
            lemma_kv_map_push(old_pairs, meta.address, meta@);
            assert forall|j: int| 0 <= j < old_pairs.len() implies (#[trigger] old_pairs[j]).0
                != meta.address by {
                assert(old(self).records@[j].address != meta.address);
            }
            lemma_kv_unique_push(old_pairs, meta.address, meta@);
        }
    }

    /// Copies the snapshot record by record.
    pub fn deep_clone(&self) -> (r: Endpoints)
        ensures
            r@ == self@,
            r.spec_records() == self.spec_records(),
    {
        let mut recs: Vec<EndpointMeta> = Vec::new();
        let n: usize = self.records.len();
        let mut i: usize = 0;
        while i < n
            invariant
                0 <= i <= n,
                n == self.records@.len(),
                recs@.len() == i,
                forall|j: int| 0 <= j < i ==> (#[trigger] recs@[j])@ == self.records@[j]@,
                forall|j: int|
                    0 <= j < i ==> (#[trigger] recs@[j]).address == self.records@[j].address,
            decreases n - i,
        {
            let m: EndpointMeta = clone_meta(&self.records[i]);
            recs.push(m);
            i = i + 1;
        }
        let r = Endpoints { records: recs };
        proof {
            assert(r.spec_records() =~= self.spec_records());
        }
        r
    }

    /// Folds an ordered list of records into a snapshot; on a duplicate
    /// address the last record wins.
    pub fn from_records(records: Vec<EndpointMeta>) -> (r: Endpoints)
        ensures
            r.wf(),
            r@ == kv_map(eps_pairs(records@)),
    {
        let mut out = Endpoints::empty();
        let n: usize = records.len();
        let mut i: usize = 0;
        while i < n
            invariant
                0 <= i <= n,
                n == records@.len(),
                out.wf(),
                out@ == kv_map(eps_pairs(records@.take(i as int))),
            decreases n - i,
        {
            let ghost prefix = eps_pairs(records@.take(i as int));
            let m: EndpointMeta = clone_meta(&records[i]);
            proof {
                assert(m@ == records@[i as int]@);
                assert(m.address == records@[i as int].address);
            }
            out.insert(m);
            proof {
                assert(eps_pairs(records@.take(i + 1)) =~= prefix.push(
                    (records@[i as int].address, records@[i as int]@),
                ));
                lemma_kv_map_push(prefix, records@[i as int].address, records@[i as int]@);
            }
            i = i + 1;
        }
        proof {
            assert(records@.take(n as int) =~= records@);
        }
        out
    }
}

/// Copies a record field by field.
pub fn clone_meta(m: &EndpointMeta) -> (r: EndpointMeta)
    ensures
        r@ == m@,
        r.address == m.address,
{
    let labels: Vec<(String, String)> = clone_labels(&m.metric_labels);
    let tls: Option<String> = clone_opt_str(&m.tls_identity);
    let auth: Option<String> = clone_opt_str(&m.authority_override);
    let r = EndpointMeta {
        address: m.address,
        h2: m.h2,
        weight: m.weight,
        metric_labels: labels,
        tls_identity: tls,
        authority_override: auth,
    };
    proof {
        assert(r@ =~= m@);
    }
    r
}

/// Copies a label list.
pub fn clone_labels(labels: &Vec<(String, String)>) -> (r: Vec<(String, String)>)
    ensures
        labels_view(r@) == labels_view(labels@),
{
    let mut out: Vec<(String, String)> = Vec::new();
    let n: usize = labels.len();
    let mut i: usize = 0;
    while i < n
        invariant
            0 <= i <= n,
            n == labels@.len(),
            labels_view(out@) == labels_view(labels@.take(i as int)),
        decreases n - i,
    {
        let k: String = labels[i].0.clone();
        let v: String = labels[i].1.clone();
        let ghost out0 = out@;
        out.push((k, v));
        proof {
            assert(labels_view(out0).len() == out0.len());
            assert(labels@.take(i as int).len() == i);
            assert(out0.len() == i);
            assert(out@ == out0.push((k, v)));
            assert forall|j: int| 0 <= j < out@.len() implies labels_view(out@)[j] == labels_view(
                labels@.take(i + 1),
            )[j] by {
                if j < i {
                    assert(out0.push((k, v))[j] == out0[j]);
                    assert(out@[j] == out0[j]);
                    assert(labels_view(out0)[j] == labels_view(labels@.take(i as int))[j]);
                    assert(labels@.take(i as int)[j] == labels@[j]);
                    assert(labels@.take(i + 1)[j] == labels@[j]);
                } else {
                    assert(out@[j] == (k, v));
                    assert(labels@.take(i + 1)[j] == labels@[i as int]);
                }
            }
            assert(labels_view(out@) =~= labels_view(labels@.take(i + 1)));
        }
        i = i + 1;
    }
    proof {
        assert(labels@.take(n as int) =~= labels@);
    }
    out
}

/// Copies an optional string.
pub fn clone_opt_str(o: &Option<String>) -> (r: Option<String>)
    ensures
        opt_str_view(r) == opt_str_view(*o),
{
    match o {
        Some(s) => Some(s.clone()),
        None => None,
    }
}

/// A traffic-split snapshot: alternate routing keys and their weights.
#[derive(Debug)]
pub struct Overrides {
    dsts: Vec<(Dst, u32)>,
}

/// The association sequence an override snapshot denotes.
pub open spec fn ovr_pairs(dsts: Seq<(Dst, u32)>) -> Seq<(DstV, u32)> {
    dsts.map_values(|p: (Dst, u32)| (p.0@, p.1))
}

impl View for Overrides {
    type V = Map<DstV, u32>;

    open spec fn view(&self) -> Map<DstV, u32> {
        kv_map(self.spec_entries())
    }
}

impl Overrides {
    /// No two entries share a key.
    pub open spec fn wf(&self) -> bool {
        kv_unique(self.spec_entries())
    }

    /// The entries in snapshot order.
    pub closed spec fn spec_entries(&self) -> Seq<(DstV, u32)> {
        ovr_pairs(self.dsts@)
    }

    /// Folds a list of weighted keys into a snapshot; on a duplicate key
    /// the last entry wins.
    pub fn new(dsts: Vec<(Dst, u32)>) -> (r: Overrides)
        ensures
            r.wf(),
            r@ == kv_map(ovr_pairs(dsts@)),
    {
        let mut out = Overrides { dsts: Vec::new() };
        proof {
            assert(ovr_pairs(out.dsts@) =~= Seq::<(DstV, u32)>::empty());
        }
        let n: usize = dsts.len();
        let mut i: usize = 0;
        while i < n
            invariant
                0 <= i <= n,
                n == dsts@.len(),
                out.wf(),
                out@ == kv_map(ovr_pairs(dsts@.take(i as int))),
            decreases n - i,
        {
            let ghost prefix = ovr_pairs(dsts@.take(i as int));
            let key: Dst = Dst::new(dsts[i].0.name.clone(), dsts[i].0.port);
            let w: u32 = dsts[i].1;
            proof {
                assert(key@ =~= dsts@[i as int].0@);
            }
            out.insert_entry(key, w);
            proof {
                assert(ovr_pairs(dsts@.take(i + 1)) =~= prefix.push(
                    (dsts@[i as int].0@, dsts@[i as int].1),
                ));
                lemma_kv_map_push(prefix, dsts@[i as int].0@, dsts@[i as int].1);
            }
            i = i + 1;
        }
        proof {
            assert(dsts@.take(n as int) =~= dsts@);
        }
        out
    }

    /// Inserts or replaces one weighted key.
    fn insert_entry(&mut self, key: Dst, weight: u32)
        requires
            old(self).wf(),
        ensures
            final(self).wf(),
            final(self)@ == old(self)@.insert(key@, weight),
    {
        let n: usize = self.dsts.len();
        let mut i: usize = 0;
        while i < n
            invariant
                0 <= i <= n,
                n == self.dsts@.len(),
                self.wf(),
                self.dsts@ == old(self).dsts@,
                forall|j: int| 0 <= j < i ==> (#[trigger] self.dsts@[j]).0@ != key@,
            decreases n - i,
        {
            if self.dsts[i].0.key_eq(&key) {
                let ghost old_pairs = ovr_pairs(self.dsts@);
                self.dsts.set(i, (key, weight));
                proof {
                    assert(ovr_pairs(self.dsts@) =~= old_pairs.update(i as int, (key@, weight)));
                    assert(old_pairs[i as int].0 == key@);
                    lemma_kv_map_update(old_pairs, i as int, weight);
                    lemma_kv_unique_update(old_pairs, i as int, weight);
                }
                return ;
            }
            i = i + 1;
        }
        let ghost old_pairs = ovr_pairs(self.dsts@);
        self.dsts.push((key, weight));
        proof {
            assert(ovr_pairs(self.dsts@) =~= old_pairs.push((key@, weight)));
            lemma_kv_map_push(old_pairs, key@, weight);
            lemma_kv_unique_push(old_pairs, key@, weight);
        }
    }

    /// Read access to the entries, in snapshot order.
    pub fn entries(&self) -> (r: &Vec<(Dst, u32)>)
        ensures
            ovr_pairs(r@) == self.spec_entries(),
            r@.len() == self.spec_entries().len(),
    {
        &self.dsts
    }
}

} // verus!
