//! Identity support.
//!
//! An identity is a certificate paired with the corresponding private
//! key. The two accessors fetch their objects independently through the
//! store capability, each call handing back one owned handle or one
//! unified error.

use vstd::prelude::*;
use crate::base::Error;
use crate::base::ErrorNew;
use crate::certificate::SecCertificate;
use crate::handle::OwnedHandle;
use crate::handle::RefTable;
use crate::import_export::ImportedIdentity;
use crate::import_export::Pkcs12ImportOptions;
use crate::key::SecKey;
use crate::store::ContainerEntry;
use crate::store::CredStore;
use crate::store::STATUS_DECODE_FAILED;
use crate::store::STATUS_ITEM_NOT_FOUND;
use crate::store::STATUS_PASSPHRASE_MISMATCH;
use crate::store::nonzero_count;
use crate::store::occ_of;

verus! {

/// The identity objects carried by `s`, in order, skipping entries that
/// carry none.
pub open spec fn identity_ptrs(s: Seq<ContainerEntry>) -> Seq<u64>
    decreases s.len(),
{
    if s.len() == 0 {
        Seq::<u64>::empty()
    } else if s[0].identity != 0 {
        seq![s[0].identity] + identity_ptrs(s.drop_first())
    } else {
        identity_ptrs(s.drop_first())
    }
}

/// A successful import yields exactly as many identities as the
/// container has entries carrying one.
pub proof fn lemma_identity_ptrs_len(s: Seq<ContainerEntry>)
    ensures
        identity_ptrs(s).len() == nonzero_count(s),
    decreases s.len(),
{
    if s.len() > 0 {
        lemma_identity_ptrs_len(s.drop_first());
    }
}

proof fn lemma_identity_ptrs_push(s: Seq<ContainerEntry>, e: ContainerEntry)
    ensures
        identity_ptrs(s.push(e)) == identity_ptrs(s) + (if e.identity != 0 {
            seq![e.identity]
        } else {
            Seq::<u64>::empty()
        }),
    decreases s.len(),
{
    if s.len() == 0 {
        assert(s.push(e)[0] == e);
        assert(s.push(e).drop_first() =~= Seq::<ContainerEntry>::empty());
        assert(identity_ptrs(Seq::<ContainerEntry>::empty()) == Seq::<u64>::empty());
        assert(identity_ptrs(s.push(e)) =~= identity_ptrs(s) + (if e.identity != 0 {
            seq![e.identity]
        } else {
            Seq::<u64>::empty()
        }));
    } else {
        assert(s.push(e)[0] == s[0]);
        assert(s.push(e).drop_first() =~= s.drop_first().push(e));
        lemma_identity_ptrs_push(s.drop_first(), e);
        assert(identity_ptrs(s.push(e)) =~= identity_ptrs(s) + (if e.identity != 0 {
            seq![e.identity]
        } else {
            Seq::<u64>::empty()
        }));
    }
}

/// An owned handle to a native identity object.
///
/// The wrapped native object is immutable once constructed, so sharing a
/// handle across threads is safe; the type is plain data and carries that
/// guarantee statically.
#[derive(Debug)]
pub struct SecIdentity {
    handle: OwnedHandle,
}

impl SecIdentity {
    /// The wrapped identity object's address.
    pub closed spec fn spec_ptr(self) -> u64 {
        self.handle.spec_ptr()
    }

    /// The wrapped pointer is never null.
    pub open spec fn wf(self) -> bool {
        self.spec_ptr() != 0
    }

    /// Takes over a +1 reference handed out by a native create or copy
    /// operation.
    pub fn wrap_under_create_rule(ptr: u64) -> (r: SecIdentity)
        requires
            ptr != 0,
        ensures
            r.wf(),
            r.spec_ptr() == ptr,
    {
        SecIdentity { handle: OwnedHandle::wrap_under_create_rule(ptr) }
    }

    /// The wrapped identity object's address.
    pub fn as_ptr(&self) -> (r: u64)
        ensures
            r == self.spec_ptr(),
    {
        self.handle.as_ptr()
    }

    /// Gives up this handle's single owned reference.
    pub fn dispose(self, refs: &mut RefTable)
        requires
            old(refs).wf(),
            old(refs).count_of(self.spec_ptr()) > 0,
        ensures
            final(refs).wf(),
            final(refs).count_of(self.spec_ptr()) == old(refs).count_of(self.spec_ptr()) - 1,
            forall|q: u64|
                q != self.spec_ptr() ==> final(refs).count_of(q) == old(refs).count_of(q),
            final(refs).acquired() == old(refs).acquired(),
            final(refs).released() == old(refs).released() + 1,
            final(refs).live() == old(refs).live() - 1,
    {
        self.handle.dispose(refs);
    }

    /// Imports identities from a PKCS #12 container; all other data from
    /// the container is discarded.
    ///
    /// Delegates to the importer configured with `password`, then keeps
    /// the entries that carry an identity, in the importer's order. A
    /// total import failure is propagated unchanged.
    pub fn from_pkcs12(store: &mut CredStore, pkcs12_der: &[u8], password: &str) -> (r: Result<
        Vec<SecIdentity>,
        ErrorNew,
    >)
        requires
            old(store).wf(),
            match old(store).container_for(pkcs12_der@) {
                Some(c) => old(store).refs().acquired() + c.entries@.len() <= u64::MAX,
                None => true,
            },
        ensures
            final(store).wf(),
            final(store).records_seq() == old(store).records_seq(),
            final(store).containers_seq() == old(store).containers_seq(),
            final(store).next_ptr() == old(store).next_ptr(),
            match old(store).container_for(pkcs12_der@) {
                None => {
                    &&& r matches Err(e) && e.is_native_status() && e.spec_code()
                        == STATUS_DECODE_FAILED
                    &&& final(store).refs() == old(store).refs()
                },
                Some(c) => if c.passphrase@ == password@ {
                    &&& r matches Ok(ids) && ids@.map_values(|id: SecIdentity| id.spec_ptr())
                        == identity_ptrs(c.entries@)
                    &&& forall|p: u64|
                        p != 0 ==> final(store).refs().count_of(p) == old(store).refs().count_of(p)
                            + occ_of(c.entries@, p)
                    &&& final(store).refs().count_of(0) == old(store).refs().count_of(0)
                    &&& final(store).refs().acquired() == old(store).refs().acquired()
                        + nonzero_count(c.entries@)
                    &&& final(store).refs().released() == old(store).refs().released()
                    &&& final(store).refs().live() == old(store).refs().live() + nonzero_count(
                        c.entries@,
                    )
                } else {
                    &&& r matches Err(e) && e.is_native_status() && e.spec_code()
                        == STATUS_PASSPHRASE_MISMATCH
                    &&& final(store).refs() == old(store).refs()
                },
            },
    {
        let imported = Pkcs12ImportOptions::new().passphrase(password).import(store, pkcs12_der);
        match imported {
            Err(e) => Err(e),
            Ok(mut entries) => {
                proof {
                    assert(old(store).container_for(pkcs12_der@) is Some);
                }
                let ghost c = old(store).container_for(pkcs12_der@)->Some_0;
                let ghost vs0 = entries@;
                let n0 = entries.len();
                let mut ids: Vec<SecIdentity> = Vec::new();
                let mut k: usize = 0;
                proof {
                    assert(c.entries@.take(0) =~= Seq::<ContainerEntry>::empty());
                    assert(ids@.map_values(|id: SecIdentity| id.spec_ptr()) =~= identity_ptrs(
                        c.entries@.take(0),
                    ));
                    assert(vs0.skip(0) =~= vs0);
                }
                while entries.len() > 0
                    invariant
                        crate::import_export::entries_match(c.entries@, vs0),
                        vs0.len() == c.entries@.len(),
                        vs0.len() == n0,
                        k + entries@.len() == vs0.len(),
                        entries@ == vs0.skip(k as int),
                        ids@.map_values(|id: SecIdentity| id.spec_ptr()) == identity_ptrs(
                            c.entries@.take(k as int),
                        ),
                    decreases entries@.len(),
                {
                    let ghost taken = c.entries@.take(k as int);
                    let ghost ids_pre = ids@;
                    let e = entries.remove(0);
                    proof {
                        assert(crate::import_export::entry_matches(
                            c.entries@[k as int],
                            vs0[k as int],
                        ));
                        assert(vs0.skip(k as int)[0] == vs0[k as int]);
                        assert(vs0.skip(k as int).drop_first() =~= vs0.skip(k as int + 1));
                        assert(c.entries@.take(k as int + 1) =~= taken.push(
                            c.entries@[k as int],
                        ));
                        lemma_identity_ptrs_push(taken, c.entries@[k as int]);
                    }
                    match e.identity {
                        Some(id) => {
                            ids.push(id);
                            proof {
                                assert(ids@.map_values(|id: SecIdentity| id.spec_ptr())
                                    =~= ids_pre.map_values(|id: SecIdentity| id.spec_ptr()).push(
                                    id.spec_ptr(),
                                ));
                                assert(ids@.map_values(|id: SecIdentity| id.spec_ptr())
                                    =~= identity_ptrs(c.entries@.take(k as int + 1)));
                            }
                        },
                        None => {
                            proof {
                                assert(ids@.map_values(|id: SecIdentity| id.spec_ptr())
                                    =~= identity_ptrs(c.entries@.take(k as int + 1)));
                            }
                        },
                    }
                    k = k + 1;
                }
                proof {
                    assert(c.entries@.take(vs0.len() as int) =~= c.entries@);
                }
                Ok(ids)
            },
        }
    }

    /// Returns the certificate corresponding to this identity.
    ///
    /// Invokes the store's copy accessor — a create-rule operation — and
    /// wraps the returned object; a non-success status becomes a unified
    /// error carrying it. Repeated calls re-invoke the accessor: nothing
    /// is cached.
    pub fn certificate(&self, store: &mut CredStore) -> (r: Result<SecCertificate, ErrorNew>)
        requires
            old(store).wf(),
            old(store).refs().acquired() < u64::MAX,
        ensures
            final(store).wf(),
            final(store).records_seq() == old(store).records_seq(),
            final(store).containers_seq() == old(store).containers_seq(),
            final(store).next_ptr() == old(store).next_ptr(),
            match old(store).record_for(self.spec_ptr()) {
                Some(rec) => {
                    &&& r matches Ok(cert) && cert.wf() && cert.spec_ptr() == rec.certificate
                    &&& final(store).refs().count_of(rec.certificate) == old(
                        store,
                    ).refs().count_of(rec.certificate) + 1
                    &&& forall|q: u64|
                        q != rec.certificate ==> final(store).refs().count_of(q) == old(
                            store,
                        ).refs().count_of(q)
                    &&& final(store).refs().acquired() == old(store).refs().acquired() + 1
                    &&& final(store).refs().released() == old(store).refs().released()
                    &&& final(store).refs().live() == old(store).refs().live() + 1
                },
                None => {
                    &&& r matches Err(e) && e.is_native_status() && e.spec_code()
                        == STATUS_ITEM_NOT_FOUND
                    &&& final(store).refs() == old(store).refs()
                },
            },
    {
        let copied = store.copy_certificate(self.as_ptr());
        match copied {
            Ok(ptr) => Ok(SecCertificate::wrap_under_create_rule(ptr)),
            Err(status) => Err(ErrorNew::from(Error::from_code(status))),
        }
    }

    /// Returns the private key corresponding to this identity, symmetric
    /// to [`SecIdentity::certificate`] and independent of it: a failure
    /// of one accessor does not affect the other.
    pub fn private_key(&self, store: &mut CredStore) -> (r: Result<SecKey, ErrorNew>)
        requires
            old(store).wf(),
            old(store).refs().acquired() < u64::MAX,
        ensures
            final(store).wf(),
            final(store).records_seq() == old(store).records_seq(),
            final(store).containers_seq() == old(store).containers_seq(),
            final(store).next_ptr() == old(store).next_ptr(),
            match old(store).record_for(self.spec_ptr()) {
                Some(rec) => {
                    &&& r matches Ok(key) && key.wf() && key.spec_ptr() == rec.key
                    &&& final(store).refs().count_of(rec.key) == old(store).refs().count_of(
                        rec.key,
                    ) + 1
                    &&& forall|q: u64|
                        q != rec.key ==> final(store).refs().count_of(q) == old(
                            store,
                        ).refs().count_of(q)
                    &&& final(store).refs().acquired() == old(store).refs().acquired() + 1
                    &&& final(store).refs().released() == old(store).refs().released()
                    &&& final(store).refs().live() == old(store).refs().live() + 1
                },
                None => {
                    &&& r matches Err(e) && e.is_native_status() && e.spec_code()
                        == STATUS_ITEM_NOT_FOUND
                    &&& final(store).refs() == old(store).refs()
                },
            },
    {
        let copied = store.copy_private_key(self.as_ptr());
        match copied {
            Ok(ptr) => Ok(SecKey::wrap_under_create_rule(ptr)),
            Err(status) => Err(ErrorNew::from(Error::from_code(status))),
        }
    }
}

} // verus!
