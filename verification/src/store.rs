//! The snapshot store and the discovery facade.
//!
//! The store is the authoritative map from routing key to the latest
//! published endpoint snapshot and, independently, the latest published
//! override snapshot. A publish replaces a key's whole snapshot and never
//! merges; a retract removes the key. The facade parses a request path
//! into a routing key and attaches a diff engine to the result of the
//! lookup, present or absent.

use vstd::prelude::*;
use crate::config::{EndpointsSpec, OverridesSpec, ParseError};
use crate::diff::{
    encode_profile, profile_of, profile_view, spec_step, updates_view, ProfileMsg, Subscriber,
    Update, UpdateV,
};
use crate::dst::{spec_parse_dst, Address, Dst, DstV};
use crate::endpoints::{Endpoints, MetaV, Overrides};
use crate::kv::{
    kv_map, kv_unique, lemma_kv_map_dom, lemma_kv_map_get, lemma_kv_map_push, lemma_kv_map_remove,
    lemma_kv_map_update, lemma_kv_fold_is_map, lemma_kv_fold_push, kv_fold, lemma_kv_unique_push,
    lemma_kv_unique_remove, lemma_kv_unique_update,
};

verus! {

/// A retract erases a key however it was published: after publishing any
/// snapshot for `k` and then retracting `k`, the store no longer holds
/// `k`, so a later lookup reports it absent and a fresh subscriber gets
/// the terminal not-configured marker.
pub proof fn lemma_retract_forgets_key(
    m: Map<DstV, Map<Address, MetaV>>,
    k: DstV,
    v: Map<Address, MetaV>,
)
    ensures
        !m.insert(k, v).remove(k).contains_key(k),
{
}

/// The mock destination service: the store behind both lookup namespaces.
#[derive(Debug)]
pub struct DstService {
    endpoints: Vec<(Dst, Endpoints)>,
    overrides: Vec<(Dst, Overrides)>,
}

impl DstService {
    /// The endpoint table's entries.
    pub closed spec fn eps_entries(&self) -> Seq<(DstV, Map<Address, MetaV>)> {
        self.endpoints@.map_values(|p: (Dst, Endpoints)| (p.0@, p.1@))
    }

    /// The override table's entries.
    pub closed spec fn ovr_entries(&self) -> Seq<(DstV, Map<DstV, u32>)> {
        self.overrides@.map_values(|p: (Dst, Overrides)| (p.0@, p.1@))
    }

    /// The endpoint namespace: key to latest snapshot.
    pub open spec fn eps_view(&self) -> Map<DstV, Map<Address, MetaV>> {
        kv_map(self.eps_entries())
    }

    /// The override namespace: key to latest override snapshot.
    pub open spec fn ovr_view(&self) -> Map<DstV, Map<DstV, u32>> {
        kv_map(self.ovr_entries())
    }

    /// The stored override snapshot's entries for `d`, in snapshot
    /// order; empty when the store does not hold `d`.
    pub closed spec fn ovr_snapshot(&self, d: DstV) -> Seq<(DstV, u32)> {
        if exists|w: int|
            0 <= w < self.overrides@.len() && (#[trigger] self.overrides@[w]).0@ == d {
            let w = choose|w: int|
                0 <= w < self.overrides@.len() && (#[trigger] self.overrides@[w]).0@ == d;
            self.overrides@[w].1.spec_entries()
        } else {
            Seq::empty()
        }
    }

    /// Keys are unique in each namespace and every snapshot is well
    /// formed.
    pub closed spec fn wf(&self) -> bool {
        &&& kv_unique(self.eps_entries())
        &&& kv_unique(self.ovr_entries())
        &&& forall|i: int|
            0 <= i < self.endpoints@.len() ==> (#[trigger] self.endpoints@[i]).1.wf()
        &&& forall|i: int|
            0 <= i < self.overrides@.len() ==> (#[trigger] self.overrides@[i]).1.wf()
    }

    /// A store with no keys.
    pub fn empty() -> (r: DstService)
        ensures
            r.wf(),
            r.eps_view() == Map::<DstV, Map<Address, MetaV>>::empty(),
            r.ovr_view() == Map::<DstV, Map<DstV, u32>>::empty(),
            r.eps_entries() == Seq::<(DstV, Map<Address, MetaV>)>::empty(),
            r.ovr_entries() == Seq::<(DstV, Map<DstV, u32>)>::empty(),
    {
        let r = DstService { endpoints: Vec::new(), overrides: Vec::new() };
        proof {
            assert(r.eps_entries() =~= Seq::<(DstV, Map<Address, MetaV>)>::empty());
            assert(r.ovr_entries() =~= Seq::<(DstV, Map<DstV, u32>)>::empty());
            assert(r.eps_view() =~= Map::<DstV, Map<Address, MetaV>>::empty());
            assert(r.ovr_view() =~= Map::<DstV, Map<DstV, u32>>::empty());
        }
        r
    }

    /// A store seeded from the two startup configurations.
    pub fn new(endpoints: EndpointsSpec, overrides: OverridesSpec) -> (r: DstService)
        requires
            endpoints.wf(),
            overrides.wf(),
        ensures
            r.wf(),
            r.eps_view() == endpoints@,
            r.ovr_view() == overrides@,
    {
        let mut store = DstService::empty();
        let mut eps: Vec<(Dst, Endpoints)> = endpoints.into_entries();
        let ghost eps_orig = eps@.map_values(|p: (Dst, Endpoints)| (p.0@, p.1@));
        let en: usize = eps.len();
        let mut k: usize = 0;
        proof {
            assert(eps_orig.len() == en as int);
            assert(eps_orig.take(0) =~= Seq::<(DstV, Map<Address, MetaV>)>::empty());
        }
        while eps.len() > 0
            invariant
                store.wf(),
                k + eps@.len() == eps_orig.len(),
                eps_orig.len() <= usize::MAX,
                eps@.map_values(|p: (Dst, Endpoints)| (p.0@, p.1@)) == eps_orig.skip(k as int),
                forall|i: int| 0 <= i < eps@.len() ==> (#[trigger] eps@[i]).1.wf(),
                store.eps_view() == kv_fold(
                    Map::<DstV, Map<Address, MetaV>>::empty(),
                    eps_orig.take(k as int),
                ),
                store.ovr_entries() == Seq::<(DstV, Map<DstV, u32>)>::empty(),
            decreases eps@.len(),
        {
            let ghost pre_v = eps@;
            let p: (Dst, Endpoints) = eps.remove(0);
            let ghost pv = (p.0@, p.1@);
            proof {
                assert(p == pre_v[0]);
                assert(pre_v.map_values(|p: (Dst, Endpoints)| (p.0@, p.1@))[0] == pv);
                assert(eps_orig.skip(k as int)[0] == eps_orig[k as int]);
                assert(pv == eps_orig[k as int]);
                assert(eps@ == pre_v.remove(0));
                pre_v.remove_ensures(0);
                assert forall|j: int|
                    0 <= j < eps@.len() implies ((#[trigger] eps@[j]).0@, eps@[j].1@) == eps_orig[
                    k + 1 + j] by {
                    assert(eps@[j] == pre_v[j + 1]);
                    assert(pre_v.map_values(|p: (Dst, Endpoints)| (p.0@, p.1@))[j + 1]
                        == eps_orig.skip(k as int)[j + 1]);
                    assert(eps_orig.skip(k as int)[j + 1] == eps_orig[k + 1 + j]);
                }
                assert(eps@.map_values(|p: (Dst, Endpoints)| (p.0@, p.1@)) =~= eps_orig.skip(
                    k + 1,
                ));
                assert forall|i: int| 0 <= i < eps@.len() implies (#[trigger] eps@[i]).1.wf() by {
                    assert(eps@[i] == pre_v[i + 1]);
                }
                assert(eps_orig.take(k + 1) =~= eps_orig.take(k as int).push(pv));
                lemma_kv_fold_push(
                    Map::<DstV, Map<Address, MetaV>>::empty(),
                    eps_orig.take(k as int),
                    pv,
                );
            }
            store.publish(p.0, p.1);
            k = k + 1;
        }
        proof {
            assert(eps_orig.take(k as int) =~= eps_orig);
            lemma_kv_fold_is_map(eps_orig);
        }
        let mut ovrs: Vec<(Dst, Overrides)> = overrides.into_entries();
        let ghost ovr_orig = ovrs@.map_values(|p: (Dst, Overrides)| (p.0@, p.1@));
        let ghost eps_done = store.eps_view();
        let on: usize = ovrs.len();
        let mut k2: usize = 0;
        proof {
            assert(ovr_orig.len() == on as int);
            assert(ovr_orig.take(0) =~= Seq::<(DstV, Map<DstV, u32>)>::empty());
        }
        while ovrs.len() > 0
            invariant
                store.wf(),
                k2 + ovrs@.len() == ovr_orig.len(),
                ovr_orig.len() <= usize::MAX,
                ovrs@.map_values(|p: (Dst, Overrides)| (p.0@, p.1@)) == ovr_orig.skip(k2 as int),
                forall|i: int| 0 <= i < ovrs@.len() ==> (#[trigger] ovrs@[i]).1.wf(),
                store.eps_view() == eps_done,
                store.ovr_view() == kv_fold(
                    Map::<DstV, Map<DstV, u32>>::empty(),
                    ovr_orig.take(k2 as int),
                ),
            decreases ovrs@.len(),
        {
            let ghost pre_v = ovrs@;
            let p: (Dst, Overrides) = ovrs.remove(0);
            let ghost pv = (p.0@, p.1@);
            proof {
                assert(p == pre_v[0]);
                assert(pre_v.map_values(|p: (Dst, Overrides)| (p.0@, p.1@))[0] == pv);
                assert(ovr_orig.skip(k2 as int)[0] == ovr_orig[k2 as int]);
                assert(pv == ovr_orig[k2 as int]);
                assert(ovrs@ == pre_v.remove(0));
                pre_v.remove_ensures(0);
                assert forall|j: int|
                    0 <= j < ovrs@.len() implies ((#[trigger] ovrs@[j]).0@, ovrs@[j].1@)
                    == ovr_orig[k2 + 1 + j] by {
                    assert(ovrs@[j] == pre_v[j + 1]);
                    assert(pre_v.map_values(|p: (Dst, Overrides)| (p.0@, p.1@))[j + 1]
                        == ovr_orig.skip(k2 as int)[j + 1]);
                    assert(ovr_orig.skip(k2 as int)[j + 1] == ovr_orig[k2 + 1 + j]);
                }
                assert(ovrs@.map_values(|p: (Dst, Overrides)| (p.0@, p.1@)) =~= ovr_orig.skip(
                    k2 + 1,
                ));
                assert forall|i: int| 0 <= i < ovrs@.len() implies (#[trigger] ovrs@[i]).1.wf() by {
                    assert(ovrs@[i] == pre_v[i + 1]);
                }
                assert(ovr_orig.take(k2 + 1) =~= ovr_orig.take(k2 as int).push(pv));
                lemma_kv_fold_push(
                    Map::<DstV, Map<DstV, u32>>::empty(),
                    ovr_orig.take(k2 as int),
                    pv,
                );
            }
            store.publish_overrides(p.0, p.1);
            k2 = k2 + 1;
        }
        proof {
            assert(ovr_orig.take(k2 as int) =~= ovr_orig);
            lemma_kv_fold_is_map(ovr_orig);
        }
        store
    }

    /// Publishes a whole endpoint snapshot for a key: the key's channel
    /// is created when absent, and its value replaced when present.
    pub fn publish(&mut self, dst: Dst, eps: Endpoints)
        requires
            old(self).wf(),
            eps.wf(),
        ensures
            final(self).wf(),
            final(self).eps_view() == old(self).eps_view().insert(dst@, eps@),
            final(self).ovr_entries() == old(self).ovr_entries(),
    {
        let n: usize = self.endpoints.len();
        let mut i: usize = 0;
        while i < n
            invariant
                0 <= i <= n,
                n == self.endpoints@.len(),
                self.wf(),
                eps.wf(),
                self.endpoints@ == old(self).endpoints@,
                self.overrides@ == old(self).overrides@,
                forall|j: int| 0 <= j < i ==> (#[trigger] self.endpoints@[j]).0@ != dst@,
            decreases n - i,
        {
            if self.endpoints[i].0.key_eq(&dst) {
                let ghost old_pairs = self.eps_entries();
                let ghost pre = self.endpoints@;
                let ghost eps_g = eps;
                proof {
                    assert(old_pairs[i as int].0 == dst@);
                }
                self.endpoints.set(i, (dst, eps));
                proof {
                    assert(self.endpoints@ == pre.update(i as int, self.endpoints@[i as int]));
                    assert(self.endpoints@[i as int].1 == eps_g);
                    assert(self.eps_entries() =~= old_pairs.update(i as int, (dst@, eps_g@)));
                    lemma_kv_map_update(old_pairs, i as int, eps_g@);
                    lemma_kv_unique_update(old_pairs, i as int, eps_g@);
                    assert forall|j: int|
                        0 <= j < self.endpoints@.len() implies (
                    #[trigger] self.endpoints@[j]).1.wf() by {
                        if j != i {
                            assert(self.endpoints@[j] == pre[j]);
                            assert(pre[j] == old(self).endpoints@[j]);
                        } else {
                            assert(self.endpoints@[j].1 == eps_g);
                            assert(eps_g.wf());
                        }
                    }
                }
                return ;
            }
            i = i + 1;
        }
        let ghost old_pairs = self.eps_entries();
        self.endpoints.push((dst, eps));
        proof {
            assert(self.eps_entries() =~= old_pairs.push((dst@, eps@)));
            lemma_kv_map_push(old_pairs, dst@, eps@);
            lemma_kv_unique_push(old_pairs, dst@, eps@);
        }
    }

    /// Retracts a key: its channel is closed and removed; absent keys are
    /// a no-op.
    pub fn retract(&mut self, dst: &Dst)
        requires
            old(self).wf(),
        ensures
            final(self).wf(),
            final(self).eps_view() == old(self).eps_view().remove(dst@),
            final(self).ovr_entries() == old(self).ovr_entries(),
    {
        let n: usize = self.endpoints.len();
        let mut i: usize = 0;
        while i < n
            invariant
                0 <= i <= n,
                n == self.endpoints@.len(),
                self.wf(),
                self.endpoints@ == old(self).endpoints@,
                self.overrides@ == old(self).overrides@,
                forall|j: int| 0 <= j < i ==> (#[trigger] self.endpoints@[j]).0@ != dst@,
            decreases n - i,
        {
            if self.endpoints[i].0.key_eq(dst) {
                let ghost old_pairs = self.eps_entries();
                let ghost pre = self.endpoints@;
                proof {
                    assert(old_pairs[i as int].0 == dst@);
                }
                self.endpoints.remove(i);
                proof {
                    assert(self.endpoints@ == pre.remove(i as int));
                    assert(self.eps_entries() =~= old_pairs.remove(i as int));
                    lemma_kv_map_remove(old_pairs, i as int);
                    lemma_kv_unique_remove(old_pairs, i as int);
                    assert forall|j: int|
                        0 <= j < self.endpoints@.len() implies (
                    #[trigger] self.endpoints@[j]).1.wf() by {
                        if j < i {
                            assert(self.endpoints@[j] == pre[j]);
                            assert(pre[j] == old(self).endpoints@[j]);
                        } else {
                            assert(self.endpoints@[j] == pre[j + 1]);
                            assert(pre[j + 1] == old(self).endpoints@[j + 1]);
                        }
                    }
                }
                return ;
            }
            i = i + 1;
        }
        proof {
            lemma_kv_map_dom(self.eps_entries(), dst@);
            assert(!self.eps_view().contains_key(dst@));
            assert(self.eps_view().remove(dst@) =~= self.eps_view());
        }
    }

    /// Looks a key up in the endpoint namespace.
    pub fn lookup(&self, dst: &Dst) -> (r: Option<&Endpoints>)
        requires
            self.wf(),
        ensures
            match r {
                Some(e) => self.eps_view().contains_key(dst@) && e@ == self.eps_view()[dst@]
                    && e.wf(),
                None => !self.eps_view().contains_key(dst@),
            },
    {
        let n: usize = self.endpoints.len();
        let mut i: usize = 0;
        while i < n
            invariant
                0 <= i <= n,
                n == self.endpoints@.len(),
                self.wf(),
                forall|j: int| 0 <= j < i ==> (#[trigger] self.endpoints@[j]).0@ != dst@,
            decreases n - i,
        {
            if self.endpoints[i].0.key_eq(dst) {
                proof {
                    lemma_kv_map_get(self.eps_entries(), i as int);
                }
                return Some(&self.endpoints[i].1);
            }
            i = i + 1;
        }
        proof {
            lemma_kv_map_dom(self.eps_entries(), dst@);
        }
        None
    }

    /// Publishes a whole override snapshot for a key.
    pub fn publish_overrides(&mut self, dst: Dst, ovr: Overrides)
        requires
            old(self).wf(),
            ovr.wf(),
        ensures
            final(self).wf(),
            final(self).ovr_view() == old(self).ovr_view().insert(dst@, ovr@),
            final(self).eps_entries() == old(self).eps_entries(),
    {
        let n: usize = self.overrides.len();
        let mut i: usize = 0;
        while i < n
            invariant
                0 <= i <= n,
                n == self.overrides@.len(),
                self.wf(),
                ovr.wf(),
                self.endpoints@ == old(self).endpoints@,
                self.overrides@ == old(self).overrides@,
                forall|j: int| 0 <= j < i ==> (#[trigger] self.overrides@[j]).0@ != dst@,
            decreases n - i,
        {
            if self.overrides[i].0.key_eq(&dst) {
                let ghost old_pairs = self.ovr_entries();
                let ghost pre = self.overrides@;
                let ghost ovr_g = ovr;
                proof {
                    assert(old_pairs[i as int].0 == dst@);
                }
                self.overrides.set(i, (dst, ovr));
                proof {
                    assert(self.overrides@ == pre.update(i as int, self.overrides@[i as int]));
                    assert(self.overrides@[i as int].1 == ovr_g);
                    assert(self.ovr_entries() =~= old_pairs.update(i as int, (dst@, ovr_g@)));
                    lemma_kv_map_update(old_pairs, i as int, ovr_g@);
                    lemma_kv_unique_update(old_pairs, i as int, ovr_g@);
                    assert forall|j: int|
                        0 <= j < self.overrides@.len() implies (
                    #[trigger] self.overrides@[j]).1.wf() by {
                        if j != i {
                            assert(self.overrides@[j] == pre[j]);
                            assert(pre[j] == old(self).overrides@[j]);
                        } else {
                            assert(self.overrides@[j].1 == ovr_g);
                            assert(ovr_g.wf());
                        }
                    }
                }
                return ;
            }
            i = i + 1;
        }
        let ghost old_pairs = self.ovr_entries();
        self.overrides.push((dst, ovr));
        proof {
            assert(self.ovr_entries() =~= old_pairs.push((dst@, ovr@)));
            lemma_kv_map_push(old_pairs, dst@, ovr@);
            lemma_kv_unique_push(old_pairs, dst@, ovr@);
        }
    }

    /// Looks a key up in the override namespace.
    pub fn lookup_overrides(&self, dst: &Dst) -> (r: Option<&Overrides>)
        requires
            self.wf(),
        ensures
            match r {
                Some(o) => self.ovr_view().contains_key(dst@) && o@ == self.ovr_view()[dst@]
                    && o.wf() && o.spec_entries() == self.ovr_snapshot(dst@),
                None => !self.ovr_view().contains_key(dst@),
            },
    {
        let n: usize = self.overrides.len();
        let mut i: usize = 0;
        while i < n
            invariant
                0 <= i <= n,
                n == self.overrides@.len(),
                self.wf(),
                forall|j: int| 0 <= j < i ==> (#[trigger] self.overrides@[j]).0@ != dst@,
            decreases n - i,
        {
            if self.overrides[i].0.key_eq(dst) {
                proof {
                    lemma_kv_map_get(self.ovr_entries(), i as int);
                    let w = choose|w: int|
                        0 <= w < self.overrides@.len() && (#[trigger] self.overrides@[w]).0@
                            == dst@;
                    assert(w == i) by {
                        if w != i {
                            assert(self.ovr_entries()[w].0 == self.ovr_entries()[i as int].0);
                        }
                    }
                    assert(self.ovr_snapshot(dst@) == self.overrides@[i as int].1.spec_entries());
                }
                return Some(&self.overrides[i].1);
            }
            i = i + 1;
        }
        proof {
            lemma_kv_map_dom(self.ovr_entries(), dst@);
        }
        None
    }

    /// Serves one endpoint lookup: a malformed path is an invalid-argument
    /// failure; otherwise a diff engine is attached to the lookup result,
    /// so an unknown key yields exactly one terminal not-configured marker
    /// and a known key the events of a first observation.
    pub fn get(&self, path: &str) -> (r: Result<(Subscriber, Vec<Update>), ParseError>)
        requires
            self.wf(),
        ensures
            match r {
                Ok(p) => {
                    &&& spec_parse_dst(path@) matches Some(d) && p.0.spec_dst() == d
                    &&& p.0.wf()
                    &&& self.eps_view().contains_key(p.0.spec_dst()) ==> (!p.0.spec_closed()
                        && p.0.spec_cursor() == self.eps_view()[p.0.spec_dst()] && spec_step(
                        Map::<Address, MetaV>::empty(),
                        self.eps_view()[p.0.spec_dst()],
                        p.0.spec_dst(),
                        updates_view(p.1@),
                    ))
                    &&& !self.eps_view().contains_key(p.0.spec_dst()) ==> (p.0.spec_closed()
                        && updates_view(p.1@) == seq![UpdateV::NoEndpoints { key_exists: false }])
                },
                Err(_) => spec_parse_dst(path@) is None,
            },
    {
        let dst: Dst = match Dst::from_str(path) {
            Ok(d) => d,
            Err(e) => {
                return Err(e);
            },
        };
        let found: Option<&Endpoints> = self.lookup(&dst);
        Ok(Subscriber::attach(dst, found))
    }

    /// Serves one profile lookup: a malformed path is an invalid-argument
    /// failure; an unknown key closes the stream at once with no message;
    /// a known key yields its stored snapshot's entries rendered in
    /// snapshot order.
    pub fn get_profile(&self, path: &str) -> (r: Result<Option<ProfileMsg>, ParseError>)
        requires
            self.wf(),
        ensures
            match r {
                Ok(opt) => spec_parse_dst(path@) matches Some(d) && (match opt {
                    Some(p) => self.ovr_view().contains_key(d) && kv_unique(self.ovr_snapshot(d))
                        && kv_map(self.ovr_snapshot(d)) == self.ovr_view()[d] && profile_view(
                        p.dst_overrides@,
                    ) == profile_of(self.ovr_snapshot(d)),
                    None => !self.ovr_view().contains_key(d),
                }),
                Err(_) => spec_parse_dst(path@) is None,
            },
    {
        let dst: Dst = match Dst::from_str(path) {
            Ok(d) => d,
            Err(e) => {
                return Err(e);
            },
        };
        match self.lookup_overrides(&dst) {
            Some(o) => {
                let p: ProfileMsg = encode_profile(o);
                proof {
                    assert(kv_unique(o.spec_entries()) && kv_map(o.spec_entries())
                        == self.ovr_view()[dst@] && profile_view(p.dst_overrides@) == profile_of(
                        o.spec_entries(),
                    ));
                }
                Ok(Some(p))
            },
            None => Ok(None),
        }
    }
}

} // verus!