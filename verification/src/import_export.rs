//! PKCS #12 import.
//!
//! [`Pkcs12ImportOptions`] configures the passphrase and delegates the
//! decoding itself to the store capability; each identity the decode
//! hands back (a +1, create-rule reference) is wrapped on the way out.

use vstd::prelude::*;
use vstd::string::StringExecFns;
use crate::base::ErrorNew;
use crate::identity::SecIdentity;
use crate::store::ContainerEntry;
use crate::store::CredStore;
use crate::store::STATUS_DECODE_FAILED;
use crate::store::STATUS_PASSPHRASE_MISMATCH;
use crate::store::nonzero_count;
use crate::store::occ_of;

verus! {

/// One entry of a decoded container: an identity when the entry carried
/// one. Other entry data (labels, trust chains) is not represented.
#[derive(Debug)]
pub struct ImportedIdentity {
    /// The entry's identity, if it carried one.
    pub identity: Option<SecIdentity>,
}

/// The produced entry carries an identity exactly when the container
/// entry does, wrapping that entry's identity object.
pub open spec fn entry_matches(e: ContainerEntry, v: ImportedIdentity) -> bool {
    match v.identity {
        Some(id) => e.identity != 0 && id.spec_ptr() == e.identity,
        None => e.identity == 0,
    }
}

/// Entrywise [`entry_matches`], over two sequences of equal length.
pub open spec fn entries_match(es: Seq<ContainerEntry>, vs: Seq<ImportedIdentity>) -> bool {
    &&& vs.len() == es.len()
    &&& forall|i: int| 0 <= i < es.len() ==> #[trigger] entry_matches(es[i], vs[i])
}

/// Configuration for a PKCS #12 import: the passphrase the container
/// must verify against.
#[derive(Debug)]
pub struct Pkcs12ImportOptions {
    passphrase: String,
}

impl Pkcs12ImportOptions {
    /// The configured passphrase.
    pub closed spec fn spec_passphrase(self) -> Seq<char> {
        self.passphrase@
    }

    /// Options with an empty passphrase.
    pub fn new() -> (r: Pkcs12ImportOptions)
        ensures
            r.spec_passphrase() == Seq::<char>::empty(),
    {
        Pkcs12ImportOptions { passphrase: String::new() }
    }

    /// Sets the passphrase the import will verify against.
    pub fn passphrase(self, passphrase: &str) -> (r: Pkcs12ImportOptions)
        ensures
            r.spec_passphrase() == passphrase@,
    {
        Pkcs12ImportOptions { passphrase: passphrase.to_owned() }
    }

    /// Decodes `pkcs12_der` with the configured passphrase.
    ///
    /// On success there is one entry per container entry, in the
    /// container's order, each wrapping its identity — a create-rule
    /// reference acquired by the decode — when it has one. A failed
    /// decode or a passphrase mismatch yields a unified error carrying
    /// the non-zero status, and acquires nothing.
    pub fn import(&self, store: &mut CredStore, pkcs12_der: &[u8]) -> (r: Result<
        Vec<ImportedIdentity>,
        ErrorNew,
    >)
        requires
            old(store).wf(),
            match old(store).container_for(pkcs12_der@) {
                Some(c) => old(store).refs().acquired() + c.entries@.len() <= u64::MAX,
                None => true,
            },
        ensures
            final(store).wf(),
            final(store).records_seq() == old(store).records_seq(),
            final(store).containers_seq() == old(store).containers_seq(),
            final(store).next_ptr() == old(store).next_ptr(),
            match old(store).container_for(pkcs12_der@) {
                None => {
                    &&& r matches Err(e) && e.is_native_status() && e.spec_code()
                        == STATUS_DECODE_FAILED
                    &&& final(store).refs() == old(store).refs()
                },
                Some(c) => if c.passphrase@ == self.spec_passphrase() {
                    &&& r matches Ok(vs) && entries_match(c.entries@, vs@)
                    &&& forall|p: u64|
                        p != 0 ==> final(store).refs().count_of(p) == old(store).refs().count_of(p)
                            + occ_of(c.entries@, p)
                    &&& final(store).refs().count_of(0) == old(store).refs().count_of(0)
                    &&& final(store).refs().acquired() == old(store).refs().acquired()
                        + nonzero_count(c.entries@)
                    &&& final(store).refs().released() == old(store).refs().released()
                    &&& final(store).refs().live() == old(store).refs().live() + nonzero_count(
                        c.entries@,
                    )
                } else {
                    &&& r matches Err(e) && e.is_native_status() && e.spec_code()
                        == STATUS_PASSPHRASE_MISMATCH
                    &&& final(store).refs() == old(store).refs()
                },
            },
    {
        let decoded = store.import_pkcs12(pkcs12_der, self.passphrase.as_str());
        match decoded {
            Err(status) => Err(ErrorNew::from_os_status(status)),
            Ok(entries) => {
                let n = entries.len();
                let mut out: Vec<ImportedIdentity> = Vec::new();
                let mut k: usize = 0;
                while k < n
                    invariant
                        n == entries@.len(),
                        k <= n,
                        out@.len() == k,
                        forall|i: int| 0 <= i < k ==> #[trigger] entry_matches(
                            entries@[i],
                            out@[i],
                        ),
                    decreases n - k,
                {
                    let e = entries[k];
                    if e.identity != 0 {
                        let sid = SecIdentity::wrap_under_create_rule(e.identity);
                        out.push(ImportedIdentity { identity: Some(sid) });
                    } else {
                        out.push(ImportedIdentity { identity: None });
                    }
                    k = k + 1;
                }
                Ok(out)
            },
        }
    }
}

} // verus!
