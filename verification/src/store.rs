//! The native credential store, as a counting model.
//!
//! The store is the boundary capability the identity layer consumes: it
//! tracks which identity objects exist (each paired with a certificate and
//! a private-key object), which passphrase-protected containers can be
//! decoded, and — through its embedded [`RefTable`] — every reference the
//! native side hands out. The accessors mirror the native conventions:
//! copy accessors and the container import hand out +1 (create-rule)
//! references; failures surface as non-zero status codes.

use vstd::prelude::*;
use crate::base::OSStatus;
use crate::handle::RefTable;

verus! {

/// Status reported when a container's bytes cannot be decoded.
pub const STATUS_DECODE_FAILED: OSStatus = -26275;

/// Status reported when the passphrase does not verify against the
/// container.
pub const STATUS_PASSPHRASE_MISMATCH: OSStatus = -25264;

/// Status reported when no object with the requested role exists.
pub const STATUS_ITEM_NOT_FOUND: OSStatus = -25300;

/// One identity object together with its certificate and private-key
/// objects, all as distinct non-null pointers.
#[derive(Clone, Copy, Debug)]
pub struct IdentityRecord {
    /// The identity object's address.
    pub identity: u64,
    /// The paired certificate object's address.
    pub certificate: u64,
    /// The paired private-key object's address.
    pub key: u64,
}

/// One entry of a decoded container: the identity object it carries, or
/// zero for an entry (a lone certificate, a trust chain) that carries
/// none.
#[derive(Clone, Copy, Debug)]
pub struct ContainerEntry {
    /// The entry's identity object, or zero when the entry has none.
    pub identity: u64,
}

/// A passphrase-protected container known to the store, keyed by its
/// exact byte content.
#[derive(Debug)]
pub struct Pkcs12Container {
    /// The container's bytes.
    pub der: Vec<u8>,
    /// The passphrase the container verifies against.
    pub passphrase: String,
    /// The entries a successful decode yields, in order.
    pub entries: Vec<ContainerEntry>,
}

/// A record's pointers are non-null, pairwise distinct, and below `bound`.
pub open spec fn record_wf(r: IdentityRecord, bound: u64) -> bool {
    &&& r.identity != 0 && r.certificate != 0 && r.key != 0
    &&& r.identity < bound && r.certificate < bound && r.key < bound
    &&& r.identity != r.certificate && r.identity != r.key && r.certificate != r.key
}

/// The first record for identity pointer `id`, if any.
pub open spec fn record_lookup(s: Seq<IdentityRecord>, id: u64) -> Option<IdentityRecord>
    decreases s.len(),
{
    if s.len() == 0 {
        None
    } else if s[0].identity == id {
        Some(s[0])
    } else {
        record_lookup(s.drop_first(), id)
    }
}

/// The first container whose bytes equal `der`, if any.
pub open spec fn container_lookup(s: Seq<Pkcs12Container>, der: Seq<u8>) -> Option<
    Pkcs12Container,
>
    decreases s.len(),
{
    if s.len() == 0 {
        None
    } else if s[0].der@ == der {
        Some(s[0])
    } else {
        container_lookup(s.drop_first(), der)
    }
}

/// How many entries of `s` carry an identity.
pub open spec fn nonzero_count(s: Seq<ContainerEntry>) -> nat
    decreases s.len(),
{
    if s.len() == 0 {
        0
    } else {
        (if s[0].identity != 0 {
            1nat
        } else {
            0nat
        }) + nonzero_count(s.drop_first())
    }
}

/// How many entries of `s` carry exactly the identity `p`.
pub open spec fn occ_of(s: Seq<ContainerEntry>, p: u64) -> nat
    decreases s.len(),
{
    if s.len() == 0 {
        0
    } else {
        (if s[0].identity == p {
            1nat
        } else {
            0nat
        }) + occ_of(s.drop_first(), p)
    }
}

proof fn lemma_record_first_match(s: Seq<IdentityRecord>, id: u64, i: int)
    requires
        0 <= i < s.len(),
        s[i].identity == id,
        forall|j: int| 0 <= j < i ==> s[j].identity != id,
    ensures
        record_lookup(s, id) == Some(s[i]),
    decreases i,
{
    if i > 0 {
        assert(s.drop_first()[i - 1] == s[i]);
        assert forall|j: int|
            0 <= j < i - 1 implies s.drop_first()[j].identity != id by {
            assert(s.drop_first()[j] == s[j + 1]);
        }
        lemma_record_first_match(s.drop_first(), id, i - 1);
    }
}

proof fn lemma_record_absent(s: Seq<IdentityRecord>, id: u64)
    requires
        forall|j: int| 0 <= j < s.len() ==> s[j].identity != id,
    ensures
        record_lookup(s, id) is None,
    decreases s.len(),
{
    if s.len() > 0 {
        assert forall|j: int|
            0 <= j < s.drop_first().len() implies s.drop_first()[j].identity != id by {
            assert(s.drop_first()[j] == s[j + 1]);
        }
        lemma_record_absent(s.drop_first(), id);
    }
}

proof fn lemma_record_push_same(s: Seq<IdentityRecord>, r: IdentityRecord)
    requires
        forall|j: int| 0 <= j < s.len() ==> s[j].identity != r.identity,
    ensures
        record_lookup(s.push(r), r.identity) == Some(r),
{
    assert(s.push(r)[s.len() as int] == r);
    lemma_record_first_match(s.push(r), r.identity, s.len() as int);
}

proof fn lemma_record_push_other(s: Seq<IdentityRecord>, r: IdentityRecord, id: u64)
    requires
        id != r.identity,
    ensures
        record_lookup(s.push(r), id) == record_lookup(s, id),
    decreases s.len(),
{
    if s.len() == 0 {
        assert(s.push(r)[0] == r);
        assert(s.push(r).drop_first() =~= Seq::<IdentityRecord>::empty());
        assert(record_lookup(Seq::<IdentityRecord>::empty(), id) is None);
    } else {
        assert(s.push(r)[0] == s[0]);
        if s[0].identity != id {
            assert(s.push(r).drop_first() =~= s.drop_first().push(r));
            lemma_record_push_other(s.drop_first(), r, id);
        }
    }
}

proof fn lemma_record_lookup_wf(s: Seq<IdentityRecord>, id: u64, bound: u64)
    requires
        forall|j: int| 0 <= j < s.len() ==> record_wf(s[j], bound),
        record_lookup(s, id) is Some,
    ensures
        record_wf(record_lookup(s, id)->Some_0, bound),
    decreases s.len(),
{
    if s.len() > 0 && s[0].identity != id {
        assert forall|j: int|
            0 <= j < s.drop_first().len() implies record_wf(s.drop_first()[j], bound) by {
            assert(s.drop_first()[j] == s[j + 1]);
        }
        lemma_record_lookup_wf(s.drop_first(), id, bound);
    }
}

proof fn lemma_container_first_match(s: Seq<Pkcs12Container>, der: Seq<u8>, i: int)
    requires
        0 <= i < s.len(),
        s[i].der@ == der,
        forall|j: int| 0 <= j < i ==> s[j].der@ != der,
    ensures
        container_lookup(s, der) == Some(s[i]),
    decreases i,
{
    if i > 0 {
        assert(s.drop_first()[i - 1] == s[i]);
        assert forall|j: int| 0 <= j < i - 1 implies s.drop_first()[j].der@ != der by {
            assert(s.drop_first()[j] == s[j + 1]);
        }
        lemma_container_first_match(s.drop_first(), der, i - 1);
    }
}

proof fn lemma_container_absent(s: Seq<Pkcs12Container>, der: Seq<u8>)
    requires
        forall|j: int| 0 <= j < s.len() ==> s[j].der@ != der,
    ensures
        container_lookup(s, der) is None,
    decreases s.len(),
{
    if s.len() > 0 {
        assert forall|j: int|
            0 <= j < s.drop_first().len() implies s.drop_first()[j].der@ != der by {
            assert(s.drop_first()[j] == s[j + 1]);
        }
        lemma_container_absent(s.drop_first(), der);
    }
}

proof fn lemma_container_push_absent(s: Seq<Pkcs12Container>, c: Pkcs12Container)
    requires
        container_lookup(s, c.der@) is None,
    ensures
        container_lookup(s.push(c), c.der@) == Some(c),
    decreases s.len(),
{
    if s.len() == 0 {
        assert(s.push(c)[0] == c);
    } else {
        assert(s.push(c)[0] == s[0]);
        assert(s[0].der@ != c.der@);
        assert(s.push(c).drop_first() =~= s.drop_first().push(c));
        lemma_container_push_absent(s.drop_first(), c);
    }
}

proof fn lemma_container_push_found(s: Seq<Pkcs12Container>, c: Pkcs12Container, der: Seq<u8>)
    requires
        container_lookup(s, der) is Some,
    ensures
        container_lookup(s.push(c), der) == container_lookup(s, der),
    decreases s.len(),
{
    if s.len() > 0 {
        assert(s.push(c)[0] == s[0]);
        if s[0].der@ != der {
            assert(s.push(c).drop_first() =~= s.drop_first().push(c));
            lemma_container_push_found(s.drop_first(), c, der);
        }
    }
}

proof fn lemma_occ_push(s: Seq<ContainerEntry>, e: ContainerEntry, p: u64)
    ensures
        occ_of(s.push(e), p) == occ_of(s, p) + (if e.identity == p {
            1nat
        } else {
            0nat
        }),
    decreases s.len(),
{
    if s.len() == 0 {
        assert(s.push(e)[0] == e);
        assert(s.push(e).drop_first() =~= Seq::<ContainerEntry>::empty());
        assert(occ_of(Seq::<ContainerEntry>::empty(), p) == 0);
    } else {
        assert(s.push(e)[0] == s[0]);
        assert(s.push(e).drop_first() =~= s.drop_first().push(e));
        lemma_occ_push(s.drop_first(), e, p);
    }
}

proof fn lemma_nonzero_push(s: Seq<ContainerEntry>, e: ContainerEntry)
    ensures
        nonzero_count(s.push(e)) == nonzero_count(s) + (if e.identity != 0 {
            1nat
        } else {
            0nat
        }),
    decreases s.len(),
{
    if s.len() == 0 {
        assert(s.push(e)[0] == e);
        assert(s.push(e).drop_first() =~= Seq::<ContainerEntry>::empty());
        assert(nonzero_count(Seq::<ContainerEntry>::empty()) == 0);
    } else {
        assert(s.push(e)[0] == s[0]);
        assert(s.push(e).drop_first() =~= s.drop_first().push(e));
        lemma_nonzero_push(s.drop_first(), e);
    }
}

/// Compares a byte slice with a byte vector.
fn bytes_eq(a: &[u8], b: &Vec<u8>) -> (r: bool)
    ensures
        r == (a@ == b@),
{
    if a.len() != b.len() {
        return false;
    }
    let n = a.len();
    let mut i: usize = 0;
    while i < n
        invariant
            n == a@.len(),
            n == b@.len(),
            i <= n,
            forall|j: int| 0 <= j < i ==> a@[j] == b@[j],
        decreases n - i,
    {
        if a[i] != b[i] {
            return false;
        }
        i = i + 1;
    }
    proof {
        assert(a@ =~= b@);
    }
    true
}

/// The credential store capability: the registered identity objects, the
/// decodable containers, and the reference-counting table through which
/// every native reference is handed out and given back.
#[derive(Debug)]
pub struct CredStore {
    refs: RefTable,
    records: Vec<IdentityRecord>,
    containers: Vec<Pkcs12Container>,
    next_ptr: u64,
}

impl CredStore {
    /// The reference-counting table's current state.
    pub closed spec fn refs(self) -> RefTable {
        self.refs
    }

    /// The registered identity records, oldest first.
    pub closed spec fn records_seq(self) -> Seq<IdentityRecord> {
        self.records@
    }

    /// The registered containers, oldest first.
    pub closed spec fn containers_seq(self) -> Seq<Pkcs12Container> {
        self.containers@
    }

    /// The next address the store will assign; all registered objects lie
    /// below it.
    pub closed spec fn next_ptr(self) -> u64 {
        self.next_ptr
    }

    /// The record registered for the identity object `id`, if any.
    pub open spec fn record_for(self, id: u64) -> Option<IdentityRecord> {
        record_lookup(self.records_seq(), id)
    }

    /// The container registered for the exact bytes `der`, if any.
    pub open spec fn container_for(self, der: Seq<u8>) -> Option<Pkcs12Container> {
        container_lookup(self.containers_seq(), der)
    }

    /// The table balances, and every record's pointers are non-null,
    /// pairwise distinct, and below `next_ptr`.
    pub closed spec fn wf(self) -> bool {
        &&& self.refs.wf()
        &&& self.next_ptr >= 1
        &&& forall|j: int|
            0 <= j < self.records@.len() ==> record_wf(#[trigger] self.records@[j], self.next_ptr)
    }

    /// An empty store: no objects, no containers, nothing acquired.
    pub fn new() -> (s: CredStore)
        ensures
            s.wf(),
            s.records_seq() == Seq::<IdentityRecord>::empty(),
            s.containers_seq() == Seq::<Pkcs12Container>::empty(),
            s.next_ptr() == 1,
            s.refs().wf(),
            s.refs().acquired() == 0,
            s.refs().released() == 0,
            s.refs().live() == 0,
            forall|p: u64| s.refs().count_of(p) == 0,
    {
        CredStore {
            refs: RefTable::new(),
            records: Vec::new(),
            containers: Vec::new(),
            next_ptr: 1,
        }
    }

    /// Read access to the reference-counting table.
    pub fn ref_table(&self) -> (r: &RefTable)
        ensures
            *r == self.refs(),
    {
        &self.refs
    }

    /// Mutable access to the reference-counting table, for wrapping and
    /// disposing handles against this store.
    pub fn refs_mut(&mut self) -> (r: &mut RefTable)
        ensures
            *r == old(self).refs(),
            final(self).refs() == *final(r),
            final(self).records_seq() == old(self).records_seq(),
            final(self).containers_seq() == old(self).containers_seq(),
            final(self).next_ptr() == old(self).next_ptr(),
            old(self).wf() && final(r).wf() ==> final(self).wf(),
    {
        &mut self.refs
    }

    /// Registers a fresh identity object paired with fresh certificate and
    /// private-key objects: three distinct, non-aliased, non-null
    /// addresses never assigned before.
    pub fn install_identity(&mut self) -> (r: IdentityRecord)
        requires
            old(self).wf(),
            old(self).next_ptr() <= u64::MAX - 3,
        ensures
            final(self).wf(),
            record_wf(r, final(self).next_ptr()),
            final(self).record_for(r.identity) == Some(r),
            old(self).record_for(r.identity) is None,
            forall|id: u64| id != r.identity ==> final(self).record_for(id) == old(self).record_for(id),
            final(self).refs() == old(self).refs(),
            final(self).containers_seq() == old(self).containers_seq(),
            final(self).next_ptr() == old(self).next_ptr() + 3,
            final(self).records_seq() == old(self).records_seq().push(r),
    {
        let base = self.next_ptr;
        let rec = IdentityRecord { identity: base, certificate: base + 1, key: base + 2 };
        let ghost s = self.records@;
        self.next_ptr = self.next_ptr + 3;
        self.records.push(rec);
        proof {
            assert forall|j: int| 0 <= j < s.len() implies s[j].identity != rec.identity by {
                assert(record_wf(s[j], old(self).next_ptr()));
            }
            lemma_record_absent(s, rec.identity);
            lemma_record_push_same(s, rec);
            assert forall|id: u64|
                id != rec.identity implies record_lookup(s.push(rec), id) == record_lookup(
                s,
                id,
            ) by {
                lemma_record_push_other(s, rec, id);
            }
            assert forall|j: int|
                0 <= j < s.push(rec).len() implies record_wf(
                #[trigger] s.push(rec)[j],
                self.next_ptr,
            ) by {
                if j < s.len() {
                    assert(s.push(rec)[j] == s[j]);
                    assert(record_wf(s[j], old(self).next_ptr()));
                } else {
                    assert(s.push(rec)[j] == rec);
                }
            }
        }
        rec
    }

    /// Registers a passphrase-protected container holding `entries`,
    /// keyed by its exact byte content.
    pub fn install_pkcs12(&mut self, der: Vec<u8>, passphrase: String, entries: Vec<ContainerEntry>)
        requires
            old(self).wf(),
        ensures
            final(self).wf(),
            final(self).containers_seq() == old(self).containers_seq().push(
                (Pkcs12Container { der: der, passphrase: passphrase, entries: entries }),
            ),
            old(self).container_for(der@) is None ==> final(self).container_for(der@) == Some(
                (Pkcs12Container { der: der, passphrase: passphrase, entries: entries }),
            ),
            forall|d: Seq<u8>|
                old(self).container_for(d) is Some ==> final(self).container_for(d) == old(self).container_for(d),
            final(self).records_seq() == old(self).records_seq(),
            final(self).refs() == old(self).refs(),
            final(self).next_ptr() == old(self).next_ptr(),
    {
        let ghost s = self.containers@;
        let c = Pkcs12Container { der, passphrase, entries };
        let ghost cg = c;
        self.containers.push(c);
        proof {
            if container_lookup(s, cg.der@) is None {
                lemma_container_push_absent(s, cg);
            }
            assert forall|d: Seq<u8>|
                container_lookup(s, d) is Some implies container_lookup(s.push(cg), d)
                == container_lookup(s, d) by {
                lemma_container_push_found(s, cg, d);
            }
        }
    }

    fn find_record(&self, id: u64) -> (r: Option<usize>)
        ensures
            match r {
                Some(i) => {
                    &&& i < self.records@.len()
                    &&& self.records@[i as int].identity == id
                    &&& forall|j: int| 0 <= j < i ==> self.records@[j].identity != id
                },
                None => forall|j: int| 0 <= j < self.records@.len() ==> self.records@[j].identity != id,
            },
    {
        let mut i: usize = 0;
        while i < self.records.len()
            invariant
                i <= self.records@.len(),
                forall|j: int| 0 <= j < i ==> self.records@[j].identity != id,
            decreases self.records@.len() - i,
        {
            if self.records[i].identity == id {
                return Some(i);
            }
            i = i + 1;
        }
        None
    }

    fn find_container(&self, der: &[u8]) -> (r: Option<usize>)
        ensures
            match r {
                Some(i) => {
                    &&& i < self.containers@.len()
                    &&& self.containers@[i as int].der@ == der@
                    &&& forall|j: int| 0 <= j < i ==> self.containers@[j].der@ != der@
                },
                None => forall|j: int|
                    0 <= j < self.containers@.len() ==> self.containers@[j].der@ != der@,
            },
    {
        let mut i: usize = 0;
        while i < self.containers.len()
            invariant
                i <= self.containers@.len(),
                forall|j: int| 0 <= j < i ==> self.containers@[j].der@ != der@,
            decreases self.containers@.len() - i,
        {
            if bytes_eq(der, &self.containers[i].der) {
                return Some(i);
            }
            i = i + 1;
        }
        None
    }

    /// The native "copy certificate for identity" accessor: for a known
    /// identity it hands out one owned (create-rule, +1) reference to the
    /// paired certificate object; otherwise it reports a non-zero status
    /// and changes nothing.
    pub fn copy_certificate(&mut self, identity: u64) -> (r: Result<u64, i32>)
        requires
            old(self).wf(),
            old(self).refs().acquired() < u64::MAX,
        ensures
            final(self).wf(),
            final(self).records_seq() == old(self).records_seq(),
            final(self).containers_seq() == old(self).containers_seq(),
            final(self).next_ptr() == old(self).next_ptr(),
            match old(self).record_for(identity) {
                Some(rec) => {
                    &&& r == Ok::<u64, i32>(rec.certificate)
                    &&& rec.certificate != 0
                    &&& final(self).refs().count_of(rec.certificate) == old(self).refs().count_of(
                        rec.certificate,
                    ) + 1
                    &&& forall|q: u64|
                        q != rec.certificate ==> final(self).refs().count_of(q) == old(self).refs().count_of(q)
                    &&& final(self).refs().acquired() == old(self).refs().acquired() + 1
                    &&& final(self).refs().released() == old(self).refs().released()
                    &&& final(self).refs().live() == old(self).refs().live() + 1
                },
                None => r == Err::<u64, i32>(STATUS_ITEM_NOT_FOUND) && final(self).refs() == old(self).refs(),
            },
    {
        let found = self.find_record(identity);
        match found {
            Some(i) => {
                proof {
                    lemma_record_first_match(self.records@, identity, i as int);
                }
                let cert = self.records[i].certificate;
                self.refs.acquire(cert);
                Ok(cert)
            },
            None => {
                proof {
                    lemma_record_absent(self.records@, identity);
                }
                Err(STATUS_ITEM_NOT_FOUND)
            },
        }
    }

    /// The native "copy private key for identity" accessor, symmetric to
    /// [`CredStore::copy_certificate`].
    pub fn copy_private_key(&mut self, identity: u64) -> (r: Result<u64, i32>)
        requires
            old(self).wf(),
            old(self).refs().acquired() < u64::MAX,
        ensures
            final(self).wf(),
            final(self).records_seq() == old(self).records_seq(),
            final(self).containers_seq() == old(self).containers_seq(),
            final(self).next_ptr() == old(self).next_ptr(),
            match old(self).record_for(identity) {
                Some(rec) => {
                    &&& r == Ok::<u64, i32>(rec.key)
                    &&& rec.key != 0
                    &&& final(self).refs().count_of(rec.key) == old(self).refs().count_of(rec.key)
                        + 1
                    &&& forall|q: u64|
                        q != rec.key ==> final(self).refs().count_of(q) == old(self).refs().count_of(
                            q,
                        )
                    &&& final(self).refs().acquired() == old(self).refs().acquired() + 1
                    &&& final(self).refs().released() == old(self).refs().released()
                    &&& final(self).refs().live() == old(self).refs().live() + 1
                },
                None => r == Err::<u64, i32>(STATUS_ITEM_NOT_FOUND) && final(self).refs() == old(self).refs(),
            },
    {
        let found = self.find_record(identity);
        match found {
            Some(i) => {
                proof {
                    lemma_record_first_match(self.records@, identity, i as int);
                }
                let key = self.records[i].key;
                self.refs.acquire(key);
                Ok(key)
            },
            None => {
                proof {
                    lemma_record_absent(self.records@, identity);
                }
                Err(STATUS_ITEM_NOT_FOUND)
            },
        }
    }

    /// The native container import: decodes `der` against `passphrase`.
    ///
    /// A successful decode yields the container's entries in order,
    /// acquiring one owned (create-rule) reference per entry identity,
    /// as the native import does for the identities it hands back. An
    /// unknown container or a wrong passphrase reports a non-zero status
    /// and changes nothing.
    pub fn import_pkcs12(&mut self, der: &[u8], passphrase: &str) -> (r: Result<
        Vec<ContainerEntry>,
        i32,
    >)
        requires
            old(self).wf(),
            match old(self).container_for(der@) {
                Some(c) => old(self).refs().acquired() + c.entries@.len() <= u64::MAX,
                None => true,
            },
        ensures
            final(self).wf(),
            final(self).records_seq() == old(self).records_seq(),
            final(self).containers_seq() == old(self).containers_seq(),
            final(self).next_ptr() == old(self).next_ptr(),
            match old(self).container_for(der@) {
                None => r == Err::<Vec<ContainerEntry>, i32>(STATUS_DECODE_FAILED) && final(self).refs() == old(self).refs(),
                Some(c) => if c.passphrase@ == passphrase@ {
                    &&& r matches Ok(es) && es@ == c.entries@
                    &&& forall|p: u64|
                        p != 0 ==> final(self).refs().count_of(p) == old(self).refs().count_of(p)
                            + occ_of(c.entries@, p)
                    &&& final(self).refs().count_of(0) == old(self).refs().count_of(0)
                    &&& final(self).refs().acquired() == old(self).refs().acquired()
                        + nonzero_count(c.entries@)
                    &&& final(self).refs().released() == old(self).refs().released()
                    &&& final(self).refs().live() == old(self).refs().live() + nonzero_count(
                        c.entries@,
                    )
                } else {
                    r == Err::<Vec<ContainerEntry>, i32>(STATUS_PASSPHRASE_MISMATCH) && final(self).refs() == old(self).refs()
                },
            },
    {
        let found = self.find_container(der);
        match found {
            None => {
                proof {
                    lemma_container_absent(self.containers@, der@);
                }
                Err(STATUS_DECODE_FAILED)
            },
            Some(ci) => {
                proof {
                    lemma_container_first_match(self.containers@, der@, ci as int);
                }
                let ghost c = self.containers@[ci as int];
                let pw = passphrase.to_owned();
                let stored: &String = &self.containers[ci].passphrase;
                let same: bool = *stored == pw;
                if !same {
                    return Err(STATUS_PASSPHRASE_MISMATCH);
                }
                let n = self.containers[ci].entries.len();
                let mut out: Vec<ContainerEntry> = Vec::new();
                let mut k: usize = 0;
                proof {
                    assert(c.entries@.take(0) =~= Seq::<ContainerEntry>::empty());
                }
                while k < n
                    invariant
                        old(self).wf(),
                        self.records@ == old(self).records@,
                        self.containers@ == old(self).containers@,
                        self.next_ptr == old(self).next_ptr,
                        ci < self.containers@.len(),
                        c == self.containers@[ci as int],
                        n == c.entries@.len(),
                        k <= n,
                        out@ == c.entries@.take(k as int),
                        self.refs.wf(),
                        old(self).refs().acquired() + n <= u64::MAX,
                        nonzero_count(c.entries@.take(k as int)) <= k,
                        forall|p: u64|
                            p != 0 ==> self.refs.count_of(p) == old(self).refs().count_of(p)
                                + occ_of(c.entries@.take(k as int), p),
                        self.refs.count_of(0) == old(self).refs().count_of(0),
                        self.refs.acquired() == old(self).refs().acquired() + nonzero_count(
                            c.entries@.take(k as int),
                        ),
                        self.refs.released() == old(self).refs().released(),
                        self.refs.live() == old(self).refs().live() + nonzero_count(
                            c.entries@.take(k as int),
                        ),
                    decreases n - k,
                {
                    let ghost taken = c.entries@.take(k as int);
                    let e: ContainerEntry = self.containers[ci].entries[k];
                    if e.identity != 0 {
                        self.refs.acquire(e.identity);
                    }
                    out.push(e);
                    k = k + 1;
                    proof {
                        assert(c.entries@.take(k as int) =~= taken.push(e));
                        lemma_nonzero_push(taken, e);
                        assert forall|p: u64|
                            p != 0 implies self.refs.count_of(p) == old(self).refs().count_of(p)
                            + occ_of(c.entries@.take(k as int), p) by {
                            lemma_occ_push(taken, e, p);
                        }
                    }
                }
                proof {
                    assert(c.entries@.take(n as int) =~= c.entries@);
                }
                Ok(out)
            },
        }
    }
}

/// The record a well-formed store holds for any known identity has
/// non-null, pairwise distinct certificate and key objects.
pub proof fn lemma_record_for_wf(s: CredStore, id: u64)
    requires
        s.wf(),
        s.record_for(id) is Some,
    ensures
        record_wf(s.record_for(id)->Some_0, s.next_ptr()),
{
    lemma_record_lookup_wf(s.records_seq(), id, s.next_ptr());
}

} // verus!
