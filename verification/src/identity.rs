//! The identity collaborator: a static, immutable map from identity name
//! to certificate chain, loaded once at startup and served unchanged.

use vstd::prelude::*;
use crate::kv::{kv_map, kv_unique, lemma_kv_map_dom, lemma_kv_map_get, lemma_kv_map_push,
    lemma_kv_map_update, lemma_kv_unique_push, lemma_kv_unique_update};
use crate::text::str_eq;

verus! {

/// One identity's certificate chain: the leaf and its intermediates, in
/// certificate order.
#[derive(Debug)]
pub struct Certificates {
    pub leaf: Vec<u8>,
    pub intermediates: Vec<Vec<u8>>,
}

/// Why a certificate file was rejected.
#[derive(Debug)]
pub struct CertsError {
    pub reason: &'static str,
}

impl CertsError {
    /// The human-readable reason, for callers that report the failure.
    pub fn reason(&self) -> (r: &'static str)
        ensures
            r == self.reason,
    {
        self.reason
    }
}

/// The DER certificates a PEM text holds, in order, or nothing when a
/// section is malformed; they depend on the text alone.
pub uninterp spec fn pem_of(bytes: Seq<u8>) -> Option<Seq<Seq<u8>>>;

/// Relies on rustls_pemfile::certs: a PEM text's certificate sections
/// decode to the DER list that `pem_of` names, and fail exactly when a
/// section is malformed.
#[verifier::external_body]
fn pem_certs(bytes: &Vec<u8>) -> (r: Option<Vec<Vec<u8>>>)
    ensures
        match r {
            Some(cs) => pem_of(bytes@) == Some(cs@.map_values(|c: Vec<u8>| c@)),
            None => pem_of(bytes@) is None,
        },
{
    let mut rd: &[u8] = bytes.as_slice();
    rustls_pemfile::certs(&mut rd)
        .map(|c| c.map(|der| der.as_ref().to_vec()))
        .collect::<Result<Vec<Vec<u8>>, _>>()
        .ok()
}

/// Reads a PEM chain into its parts: the first certificate is the leaf
/// and the rest are the intermediates; a malformed or empty file is
/// rejected.
pub fn parse_cert_chain(bytes: &Vec<u8>) -> (r: Result<Certificates, CertsError>)
    ensures
        match r {
            Ok(c) => pem_of(bytes@) matches Some(cs) && cs.len() > 0 && c@.leaf == cs[0]
                && c@.intermediates == cs.skip(1),
            Err(_) => pem_of(bytes@) is None || (pem_of(bytes@) matches Some(cs) && cs.len()
                == 0),
        },
{
    let mut certs: Vec<Vec<u8>> = match pem_certs(bytes) {
        Some(cs) => cs,
        None => {
            return Err(CertsError { reason: "malformed PEM" });
        },
    };
    if certs.len() == 0 {
        return Err(CertsError { reason: "no certs in pemfile" });
    }
    let ghost pre_v = certs@;
    let ghost all = pre_v.map_values(|c: Vec<u8>| c@);
    let leaf: Vec<u8> = certs.remove(0);
    proof {
        pre_v.remove_ensures(0);
        assert(leaf == pre_v[0]);
        assert(leaf@ == all[0]);
    }
    let r = Certificates { leaf, intermediates: certs };
    proof {
        assert forall|i: int|
            0 <= i < r@.intermediates.len() implies #[trigger] r@.intermediates[i] == all.skip(
            1,
        )[i] by {
            assert(r.intermediates@[i] == pre_v[i + 1]);
            assert(all[i + 1] == pre_v[i + 1]@);
        }
        assert(r@.intermediates =~= all.skip(1));
    }
    Ok(r)
}

/// The mathematical value of a certificate chain.
#[verifier::ext_equal]
pub ghost struct CertsV {
    pub leaf: Seq<u8>,
    pub intermediates: Seq<Seq<u8>>,
}

impl View for Certificates {
    type V = CertsV;

    open spec fn view(&self) -> CertsV {
        CertsV {
            leaf: self.leaf@,
            intermediates: self.intermediates@.map_values(|c: Vec<u8>| c@),
        }
    }
}

/// The association sequence an identity list denotes.
pub open spec fn id_pairs(ids: Seq<(String, Certificates)>) -> Seq<(Seq<char>, CertsV)> {
    ids.map_values(|p: (String, Certificates)| (p.0@, p.1@))
}

/// The identity lookup service: a plain name-to-chain table.
#[derive(Debug)]
pub struct IdentityService {
    identities: Vec<(String, Certificates)>,
}

impl View for IdentityService {
    type V = Map<Seq<char>, CertsV>;

    open spec fn view(&self) -> Map<Seq<char>, CertsV> {
        kv_map(self.spec_identities())
    }
}

impl IdentityService {
    /// The table's entries.
    pub closed spec fn spec_identities(&self) -> Seq<(Seq<char>, CertsV)> {
        id_pairs(self.identities@)
    }

    /// No two entries share a name.
    pub open spec fn wf(&self) -> bool {
        kv_unique(self.spec_identities())
    }

    /// Builds the table from loaded identities; on a duplicate name the
    /// last chain wins.
    pub fn new(identities: Vec<(String, Certificates)>) -> (r: IdentityService)
        ensures
            r.wf(),
            r@ == kv_map(id_pairs(identities@)),
    {
        let mut out = IdentityService { identities: Vec::new() };
        proof {
            assert(out.spec_identities() =~= Seq::<(Seq<char>, CertsV)>::empty());
        }
        let mut rest: Vec<(String, Certificates)> = identities;
        let ghost orig = id_pairs(rest@);
        let rn: usize = rest.len();
        let mut k: usize = 0;
        proof {
            assert(orig.len() == rn as int);
            assert(orig.take(0) =~= Seq::<(Seq<char>, CertsV)>::empty());
        }
        while rest.len() > 0
            invariant
                out.wf(),
                k + rest@.len() == orig.len(),
                orig.len() <= usize::MAX,
                id_pairs(rest@) == orig.skip(k as int),
                out@ == crate::kv::kv_fold(
                    Map::<Seq<char>, CertsV>::empty(),
                    orig.take(k as int),
                ),
            decreases rest@.len(),
        {
            let ghost pre_v = rest@;
            let p: (String, Certificates) = rest.remove(0);
            let ghost pv = (p.0@, p.1@);
            proof {
                assert(p == pre_v[0]);
                assert(id_pairs(pre_v)[0] == pv);
                assert(orig.skip(k as int)[0] == orig[k as int]);
                assert(pv == orig[k as int]);
                pre_v.remove_ensures(0);
                assert forall|j: int|
                    0 <= j < rest@.len() implies ((#[trigger] rest@[j]).0@, rest@[j].1@) == orig[
                    k + 1 + j] by {
                    assert(rest@[j] == pre_v[j + 1]);
                    assert(id_pairs(pre_v)[j + 1] == orig.skip(k as int)[j + 1]);
                    assert(orig.skip(k as int)[j + 1] == orig[k + 1 + j]);
                }
                assert(id_pairs(rest@) =~= orig.skip(k + 1));
                assert(orig.take(k + 1) =~= orig.take(k as int).push(pv));
                crate::kv::lemma_kv_fold_push(
                    Map::<Seq<char>, CertsV>::empty(),
                    orig.take(k as int),
                    pv,
                );
            }
            out.insert(p.0, p.1);
            k = k + 1;
        }
        proof {
            assert(orig.take(k as int) =~= orig);
            crate::kv::lemma_kv_fold_is_map(orig);
        }
        out
    }

    /// Inserts or replaces one identity.
    fn insert(&mut self, name: String, certs: Certificates)
        requires
            old(self).wf(),
        ensures
            final(self).wf(),
            final(self)@ == old(self)@.insert(name@, certs@),
    {
        let n: usize = self.identities.len();
        let mut i: usize = 0;
        while i < n
            invariant
                0 <= i <= n,
                n == self.identities@.len(),
                self.wf(),
                self.identities@ == old(self).identities@,
                forall|j: int| 0 <= j < i ==> (#[trigger] self.identities@[j]).0@ != name@,
            decreases n - i,
        {
            let hit: bool = self.identities[i].0 == name;
            if hit {
                let ghost old_pairs = self.spec_identities();
                let ghost pre = self.identities@;
                let ghost certs_g = certs;
                proof {
                    assert(old_pairs[i as int].0 == name@);
                }
                self.identities.set(i, (name, certs));
                proof {
                    assert(self.identities@ == pre.update(i as int, self.identities@[i as int]));
                    assert(self.identities@[i as int].1 == certs_g);
                    assert(self.spec_identities() =~= old_pairs.update(i as int, (name@, certs_g@)));
                    lemma_kv_map_update(old_pairs, i as int, certs_g@);
                    lemma_kv_unique_update(old_pairs, i as int, certs_g@);
                }
                return ;
            }
            i = i + 1;
        }
        let ghost old_pairs = self.spec_identities();
        self.identities.push((name, certs));
        proof {
            assert(self.spec_identities() =~= old_pairs.push((name@, certs@)));
            lemma_kv_map_push(old_pairs, name@, certs@);
            lemma_kv_unique_push(old_pairs, name@, certs@);
        }
    }

    /// A service with no identities.
    pub fn empty() -> (r: IdentityService)
        ensures
            r.wf(),
            r@ == Map::<Seq<char>, CertsV>::empty(),
    {
        let r = IdentityService { identities: Vec::new() };
        proof {
            assert(r.spec_identities() =~= Seq::<(Seq<char>, CertsV)>::empty());
            assert(r@ =~= Map::<Seq<char>, CertsV>::empty());
        }
        r
    }

    /// Serves one certify request: the chain of a known identity, or
    /// nothing for an unknown one.
    pub fn certify(&self, identity: &str) -> (r: Option<&Certificates>)
        requires
            self.wf(),
        ensures
            match r {
                Some(c) => self@.contains_key(identity@) && c@ == self@[identity@],
                None => !self@.contains_key(identity@),
            },
    {
        let n: usize = self.identities.len();
        let mut i: usize = 0;
        while i < n
            invariant
                0 <= i <= n,
                n == self.identities@.len(),
                self.wf(),
                forall|j: int| 0 <= j < i ==> (#[trigger] self.identities@[j]).0@ != identity@,
            decreases n - i,
        {
            if str_eq(self.identities[i].0.as_str(), identity) {
                proof {
                    lemma_kv_map_get(self.spec_identities(), i as int);
                }
                return Some(&self.identities[i].1);
            }
            i = i + 1;
        }
        proof {
            lemma_kv_map_dom(self.spec_identities(), identity@);
        }
        None
    }
}

} // verus!
