//! Ownership-tracked handles over native reference-counted objects.
//!
//! [`RefTable`] is the native reference-counting capability as a counting
//! model: the current count per pointer, plus running totals of
//! acquisitions and releases. [`OwnedHandle`] wraps one non-null pointer
//! under one of the two acquisition conventions and gives its single owned
//! reference up in exactly one `dispose`.

use vstd::prelude::*;

verus! {

/// One tracked object: a non-null native pointer and its current
/// reference count.
#[derive(Clone, Copy, Debug)]
pub struct RefEntry {
    /// The object's address, never zero.
    pub ptr: u64,
    /// How many owned references to the object are outstanding.
    pub count: u64,
}

/// No two entries track the same pointer.
pub open spec fn entry_ptrs_unique(s: Seq<RefEntry>) -> bool {
    forall|i: int, j: int| 0 <= i < j < s.len() ==> s[i].ptr != s[j].ptr
}

/// The count tracked for `p`: the first matching entry's count, or zero
/// when no entry tracks `p`.
pub open spec fn seq_count_of(s: Seq<RefEntry>, p: u64) -> nat
    decreases s.len(),
{
    if s.len() == 0 {
        0
    } else if s[0].ptr == p {
        s[0].count as nat
    } else {
        seq_count_of(s.drop_first(), p)
    }
}

/// The total of all tracked counts: how many owned references are live.
pub open spec fn sum_counts(s: Seq<RefEntry>) -> nat
    decreases s.len(),
{
    if s.len() == 0 {
        0
    } else {
        s[0].count as nat + sum_counts(s.drop_first())
    }
}

proof fn lemma_unique_drop_first(s: Seq<RefEntry>)
    requires
        entry_ptrs_unique(s),
        s.len() > 0,
    ensures
        entry_ptrs_unique(s.drop_first()),
{
    assert forall|a: int, b: int|
        0 <= a < b < s.drop_first().len() implies s.drop_first()[a].ptr
        != s.drop_first()[b].ptr by {
        assert(s.drop_first()[a] == s[a + 1]);
        assert(s.drop_first()[b] == s[b + 1]);
    }
}

proof fn lemma_count_at_index(s: Seq<RefEntry>, p: u64, i: int)
    requires
        entry_ptrs_unique(s),
        0 <= i < s.len(),
        s[i].ptr == p,
    ensures
        seq_count_of(s, p) == s[i].count as nat,
    decreases i,
{
    if i > 0 {
        assert(s[0].ptr != p);
        lemma_unique_drop_first(s);
        assert(s.drop_first()[i - 1] == s[i]);
        lemma_count_at_index(s.drop_first(), p, i - 1);
    }
}

proof fn lemma_count_absent(s: Seq<RefEntry>, p: u64)
    requires
        forall|j: int| 0 <= j < s.len() ==> s[j].ptr != p,
    ensures
        seq_count_of(s, p) == 0,
    decreases s.len(),
{
    if s.len() > 0 {
        assert forall|j: int|
            0 <= j < s.drop_first().len() implies s.drop_first()[j].ptr != p by {
            assert(s.drop_first()[j] == s[j + 1]);
        }
        lemma_count_absent(s.drop_first(), p);
    }
}

proof fn lemma_count_le_sum(s: Seq<RefEntry>, p: u64)
    ensures
        seq_count_of(s, p) <= sum_counts(s),
    decreases s.len(),
{
    if s.len() > 0 {
        lemma_count_le_sum(s.drop_first(), p);
    }
}

proof fn lemma_sum_push(s: Seq<RefEntry>, e: RefEntry)
    ensures
        sum_counts(s.push(e)) == sum_counts(s) + e.count,
    decreases s.len(),
{
    if s.len() == 0 {
        assert(s.push(e)[0] == e);
        assert(s.push(e).drop_first() =~= Seq::<RefEntry>::empty());
        assert(sum_counts(Seq::<RefEntry>::empty()) == 0);
    } else {
        assert(s.push(e)[0] == s[0]);
        assert(s.push(e).drop_first() =~= s.drop_first().push(e));
        lemma_sum_push(s.drop_first(), e);
    }
}

proof fn lemma_sum_update(s: Seq<RefEntry>, i: int, e: RefEntry)
    requires
        0 <= i < s.len(),
    ensures
        sum_counts(s.update(i, e)) + s[i].count == sum_counts(s) + e.count,
    decreases i,
{
    if i == 0 {
        assert(s.update(0, e)[0] == e);
        assert(s.update(0, e).drop_first() =~= s.drop_first());
    } else {
        assert(s.update(i, e)[0] == s[0]);
        assert(s.update(i, e).drop_first() =~= s.drop_first().update(i - 1, e));
        lemma_sum_update(s.drop_first(), i - 1, e);
        assert(s.drop_first()[i - 1] == s[i]);
    }
}

proof fn lemma_count_update_same(s: Seq<RefEntry>, i: int, e: RefEntry)
    requires
        entry_ptrs_unique(s),
        0 <= i < s.len(),
        e.ptr == s[i].ptr,
    ensures
        seq_count_of(s.update(i, e), e.ptr) == e.count as nat,
        entry_ptrs_unique(s.update(i, e)),
{
    let t = s.update(i, e);
    assert(forall|j: int| 0 <= j < s.len() ==> t[j].ptr == s[j].ptr);
    assert(entry_ptrs_unique(t));
    lemma_count_at_index(t, e.ptr, i);
}

proof fn lemma_count_update_other(s: Seq<RefEntry>, i: int, e: RefEntry, q: u64)
    requires
        0 <= i < s.len(),
        e.ptr == s[i].ptr,
        q != e.ptr,
    ensures
        seq_count_of(s.update(i, e), q) == seq_count_of(s, q),
    decreases i,
{
    let t = s.update(i, e);
    if i == 0 {
        assert(t[0] == e);
        assert(t.drop_first() =~= s.drop_first());
    } else {
        assert(t[0] == s[0]);
        if s[0].ptr != q {
            assert(t.drop_first() =~= s.drop_first().update(i - 1, e));
            assert(s.drop_first()[i - 1] == s[i]);
            lemma_count_update_other(s.drop_first(), i - 1, e, q);
        }
    }
}

proof fn lemma_count_push_same(s: Seq<RefEntry>, e: RefEntry)
    requires
        forall|j: int| 0 <= j < s.len() ==> s[j].ptr != e.ptr,
    ensures
        seq_count_of(s.push(e), e.ptr) == e.count as nat,
    decreases s.len(),
{
    if s.len() == 0 {
        assert(s.push(e)[0] == e);
    } else {
        assert(s.push(e)[0] == s[0]);
        assert(s.push(e).drop_first() =~= s.drop_first().push(e));
        assert forall|j: int|
            0 <= j < s.drop_first().len() implies s.drop_first()[j].ptr != e.ptr by {
            assert(s.drop_first()[j] == s[j + 1]);
        }
        lemma_count_push_same(s.drop_first(), e);
    }
}

proof fn lemma_count_push_other(s: Seq<RefEntry>, e: RefEntry, q: u64)
    requires
        q != e.ptr,
    ensures
        seq_count_of(s.push(e), q) == seq_count_of(s, q),
    decreases s.len(),
{
    if s.len() == 0 {
        assert(s.push(e)[0] == e);
        assert(s.push(e).drop_first() =~= Seq::<RefEntry>::empty());
        assert(seq_count_of(Seq::<RefEntry>::empty(), q) == 0);
    } else {
        assert(s.push(e)[0] == s[0]);
        if s[0].ptr != q {
            assert(s.push(e).drop_first() =~= s.drop_first().push(e));
            lemma_count_push_other(s.drop_first(), e, q);
        }
    }
}

/// The native reference-counting capability, as a counting model.
///
/// Every acquisition of an owned reference — the +1 a create/copy
/// operation hands out, a retain for a get-rule wrap, a retain for a clone
/// — raises one pointer's count and the `acquired` total; every release
/// lowers the count and raises the `released` total. Well-formedness ties
/// the totals to the live counts, which is what makes the balance law
/// ([`lemma_release_balance`]) provable.
#[derive(Debug)]
pub struct RefTable {
    entries: Vec<RefEntry>,
    acquired: u64,
    released: u64,
}

impl RefTable {
    /// The total number of owned references handed out so far.
    pub closed spec fn acquired(self) -> u64 {
        self.acquired
    }

    /// The total number of releases performed so far.
    pub closed spec fn released(self) -> u64 {
        self.released
    }

    /// The current reference count of `p`.
    pub closed spec fn count_of(self, p: u64) -> nat {
        seq_count_of(self.entries@, p)
    }

    /// How many owned references are live, over all pointers.
    pub closed spec fn live(self) -> nat {
        sum_counts(self.entries@)
    }

    /// The table tracks each pointer once, tracks no null pointer, and its
    /// totals balance: acquisitions equal releases plus live references.
    pub closed spec fn wf(self) -> bool {
        &&& entry_ptrs_unique(self.entries@)
        &&& forall|j: int| 0 <= j < self.entries@.len() ==> self.entries@[j].ptr != 0
        &&& self.acquired == self.released + sum_counts(self.entries@)
    }

    /// A fresh table: nothing acquired, nothing released, nothing live.
    pub fn new() -> (t: RefTable)
        ensures
            t.wf(),
            t.acquired() == 0,
            t.released() == 0,
            t.live() == 0,
            forall|p: u64| t.count_of(p) == 0,
    {
        RefTable { entries: Vec::new(), acquired: 0, released: 0 }
    }

    fn find_index(&self, p: u64) -> (r: Option<usize>)
        ensures
            match r {
                Some(i) => i < self.entries@.len() && self.entries@[i as int].ptr == p,
                None => forall|j: int| 0 <= j < self.entries@.len() ==> self.entries@[j].ptr != p,
            },
    {
        let mut i: usize = 0;
        while i < self.entries.len()
            invariant
                i <= self.entries@.len(),
                forall|j: int| 0 <= j < i ==> self.entries@[j].ptr != p,
            decreases self.entries@.len() - i,
        {
            if self.entries[i].ptr == p {
                return Some(i);
            }
            i = i + 1;
        }
        None
    }

    /// Hands out one new owned reference to `p`, as a native create or
    /// copy operation does: `p`'s count and the acquisition total each
    /// rise by one.
    pub fn acquire(&mut self, p: u64)
        requires
            old(self).wf(),
            p != 0,
            old(self).acquired() < u64::MAX,
        ensures
            final(self).wf(),
            final(self).count_of(p) == old(self).count_of(p) + 1,
            forall|q: u64| q != p ==> final(self).count_of(q) == old(self).count_of(q),
            final(self).acquired() == old(self).acquired() + 1,
            final(self).released() == old(self).released(),
            final(self).live() == old(self).live() + 1,
    {
        let found = self.find_index(p);
        match found {
            Some(i) => {
                proof {
                    lemma_count_at_index(self.entries@, p, i as int);
                    lemma_count_le_sum(self.entries@, p);
                }
                let c = self.entries[i].count;
                let ghost s = self.entries@;
                let e = RefEntry { ptr: p, count: c + 1 };
                self.entries[i] = e;
                self.acquired = self.acquired + 1;
                proof {
                    lemma_sum_update(s, i as int, e);
                    lemma_count_update_same(s, i as int, e);
                    assert forall|q: u64| q != p implies seq_count_of(s.update(i as int, e), q)
                        == seq_count_of(s, q) by {
                        lemma_count_update_other(s, i as int, e, q);
                    }
                    assert(forall|j: int|
                        0 <= j < s.len() ==> s.update(i as int, e)[j].ptr == s[j].ptr);
                }
            },
            None => {
                let ghost s = self.entries@;
                let e = RefEntry { ptr: p, count: 1 };
                self.entries.push(e);
                self.acquired = self.acquired + 1;
                proof {
                    lemma_count_absent(s, p);
                    lemma_sum_push(s, e);
                    lemma_count_push_same(s, e);
                    assert forall|q: u64| q != p implies seq_count_of(s.push(e), q)
                        == seq_count_of(s, q) by {
                        lemma_count_push_other(s, e, q);
                    }
                    assert(forall|j: int| 0 <= j < s.len() ==> s.push(e)[j] == s[j]);
                    assert(entry_ptrs_unique(s.push(e)));
                }
            },
        }
    }

    /// Takes one additional owned reference to a live object, as the
    /// native retain operation does. Get semantics: the object must be
    /// live when it is retained.
    pub fn retain(&mut self, p: u64)
        requires
            old(self).wf(),
            p != 0,
            old(self).count_of(p) > 0,
            old(self).acquired() < u64::MAX,
        ensures
            final(self).wf(),
            final(self).count_of(p) == old(self).count_of(p) + 1,
            forall|q: u64| q != p ==> final(self).count_of(q) == old(self).count_of(q),
            final(self).acquired() == old(self).acquired() + 1,
            final(self).released() == old(self).released(),
            final(self).live() == old(self).live() + 1,
    {
        self.acquire(p);
    }

    /// Gives one owned reference to `p` back. The positive-count
    /// precondition makes a double release a contract violation rather
    /// than a runtime event.
    pub fn release(&mut self, p: u64)
        requires
            old(self).wf(),
            old(self).count_of(p) > 0,
        ensures
            final(self).wf(),
            final(self).count_of(p) == old(self).count_of(p) - 1,
            forall|q: u64| q != p ==> final(self).count_of(q) == old(self).count_of(q),
            final(self).acquired() == old(self).acquired(),
            final(self).released() == old(self).released() + 1,
            final(self).live() == old(self).live() - 1,
    {
        let found = self.find_index(p);
        match found {
            Some(i) => {
                proof {
                    lemma_count_at_index(self.entries@, p, i as int);
                    lemma_count_le_sum(self.entries@, p);
                }
                let c = self.entries[i].count;
                let ghost s = self.entries@;
                let e = RefEntry { ptr: p, count: c - 1 };
                self.entries[i] = e;
                self.released = self.released + 1;
                proof {
                    lemma_sum_update(s, i as int, e);
                    lemma_count_update_same(s, i as int, e);
                    assert forall|q: u64| q != p implies seq_count_of(s.update(i as int, e), q)
                        == seq_count_of(s, q) by {
                        lemma_count_update_other(s, i as int, e, q);
                    }
                    assert(forall|j: int|
                        0 <= j < s.len() ==> s.update(i as int, e)[j].ptr == s[j].ptr);
                }
            },
            None => {
                // Unreachable: a positive count requires a tracked entry.
                proof {
                    lemma_count_absent(self.entries@, p);
                    assert(false);
                }
            },
        }
    }

    /// The current reference count of `p`.
    pub fn count(&self, p: u64) -> (r: u64)
        requires
            self.wf(),
        ensures
            r == self.count_of(p),
    {
        let found = self.find_index(p);
        match found {
            Some(i) => {
                proof {
                    lemma_count_at_index(self.entries@, p, i as int);
                }
                self.entries[i].count
            },
            None => {
                proof {
                    lemma_count_absent(self.entries@, p);
                }
                0
            },
        }
    }

    /// The total number of owned references handed out so far.
    pub fn total_acquired(&self) -> (r: u64)
        ensures
            r == self.acquired(),
    {
        self.acquired
    }

    /// The total number of releases performed so far.
    pub fn total_released(&self) -> (r: u64)
        ensures
            r == self.released(),
    {
        self.released
    }
}

/// The balance law of the ownership discipline: once no live reference
/// remains — every create-rule wrap, every get-rule retain and every clone
/// has been matched by a release — the release total equals the
/// acquisition total. No reference leaks, and none is released twice.
pub proof fn lemma_release_balance(t: RefTable)
    requires
        t.wf(),
        t.live() == 0,
    ensures
        t.released() == t.acquired(),
{
}

/// Releases never outnumber acquisitions, whatever the history.
pub proof fn lemma_releases_bounded(t: RefTable)
    requires
        t.wf(),
    ensures
        t.released() <= t.acquired(),
{
}

/// With no live references overall, no single pointer has one either.
pub proof fn lemma_live_zero_count_zero(t: RefTable, p: u64)
    requires
        t.wf(),
        t.live() == 0,
    ensures
        t.count_of(p) == 0,
{
    lemma_count_le_sum(t.entries@, p);
}

/// An owned wrapper over one non-null native pointer.
///
/// The acquisition convention is consumed entirely at construction:
/// [`OwnedHandle::wrap_under_create_rule`] takes over a +1 reference the
/// caller already owns, while [`OwnedHandle::wrap_under_get_rule`] starts
/// from a borrowed reference and performs its own retain. Either way the
/// wrapper owns exactly one reference, given up by exactly one
/// [`OwnedHandle::dispose`]; `dispose` consumes the wrapper, so the same
/// ownership unit cannot be released twice through it.
#[derive(Debug)]
pub struct OwnedHandle {
    ptr: u64,
}

impl OwnedHandle {
    /// The wrapped pointer.
    pub closed spec fn spec_ptr(self) -> u64 {
        self.ptr
    }

    /// The wrapped pointer is never null.
    pub open spec fn wf(self) -> bool {
        self.spec_ptr() != 0
    }

    /// Takes over a reference the caller already owns: `ptr` came from an
    /// operation documented to hand its caller a +1 ("created" or
    /// "copied") reference, so no further retain is performed.
    pub fn wrap_under_create_rule(ptr: u64) -> (h: OwnedHandle)
        requires
            ptr != 0,
        ensures
            h.wf(),
            h.spec_ptr() == ptr,
    {
        OwnedHandle { ptr }
    }

    /// Wraps a borrowed reference: `ptr` came from a non-owning "get"
    /// operation, so one retain is performed immediately, making this
    /// wrapper an independent owner regardless of the lender's lifetime.
    pub fn wrap_under_get_rule(ptr: u64, refs: &mut RefTable) -> (h: OwnedHandle)
        requires
            ptr != 0,
            old(refs).wf(),
            old(refs).count_of(ptr) > 0,
            old(refs).acquired() < u64::MAX,
        ensures
            h.wf(),
            h.spec_ptr() == ptr,
            final(refs).wf(),
            final(refs).count_of(ptr) == old(refs).count_of(ptr) + 1,
            forall|q: u64| q != ptr ==> final(refs).count_of(q) == old(refs).count_of(q),
            final(refs).acquired() == old(refs).acquired() + 1,
            final(refs).released() == old(refs).released(),
            final(refs).live() == old(refs).live() + 1,
    {
        refs.retain(ptr);
        OwnedHandle { ptr }
    }

    /// A new, independently releasing owner of the same object, via its
    /// own retain; the native count, not this layer, arbitrates when the
    /// object is destroyed.
    pub fn retained_clone(&self, refs: &mut RefTable) -> (h: OwnedHandle)
        requires
            self.wf(),
            old(refs).wf(),
            old(refs).count_of(self.spec_ptr()) > 0,
            old(refs).acquired() < u64::MAX,
        ensures
            h.wf(),
            h.spec_ptr() == self.spec_ptr(),
            final(refs).wf(),
            final(refs).count_of(self.spec_ptr()) == old(refs).count_of(self.spec_ptr()) + 1,
            forall|q: u64|
                q != self.spec_ptr() ==> final(refs).count_of(q) == old(refs).count_of(q),
            final(refs).acquired() == old(refs).acquired() + 1,
            final(refs).released() == old(refs).released(),
            final(refs).live() == old(refs).live() + 1,
    {
        refs.retain(self.ptr);
        OwnedHandle { ptr: self.ptr }
    }

    /// The wrapped pointer.
    pub fn as_ptr(&self) -> (r: u64)
        ensures
            r == self.spec_ptr(),
    {
        self.ptr
    }

    /// Gives up this wrapper's single owned reference: exactly one release
    /// of the wrapped pointer, and the wrapper is consumed.
    pub fn dispose(self, refs: &mut RefTable)
        requires
            old(refs).wf(),
            old(refs).count_of(self.spec_ptr()) > 0,
        ensures
            final(refs).wf(),
            final(refs).count_of(self.spec_ptr()) == old(refs).count_of(self.spec_ptr()) - 1,
            forall|q: u64|
                q != self.spec_ptr() ==> final(refs).count_of(q) == old(refs).count_of(q),
            final(refs).acquired() == old(refs).acquired(),
            final(refs).released() == old(refs).released() + 1,
            final(refs).live() == old(refs).live() - 1,
    {
        refs.release(self.ptr);
    }
}

} // verus!
