//! Private-key handles.

use vstd::prelude::*;
use crate::handle::OwnedHandle;
use crate::handle::RefTable;

verus! {

/// An owned handle to a native private-key object.
#[derive(Debug)]
pub struct SecKey {
    handle: OwnedHandle,
}

impl SecKey {
    /// The wrapped key object's address.
    pub closed spec fn spec_ptr(self) -> u64 {
        self.handle.spec_ptr()
    }

    /// The wrapped pointer is never null.
    pub open spec fn wf(self) -> bool {
        self.spec_ptr() != 0
    }

    /// Takes over a +1 reference handed out by a native create or copy
    /// operation.
    pub fn wrap_under_create_rule(ptr: u64) -> (k: SecKey)
        requires
            ptr != 0,
        ensures
            k.wf(),
            k.spec_ptr() == ptr,
    {
        SecKey { handle: OwnedHandle::wrap_under_create_rule(ptr) }
    }

    /// The wrapped key object's address.
    pub fn as_ptr(&self) -> (r: u64)
        ensures
            r == self.spec_ptr(),
    {
        self.handle.as_ptr()
    }

    /// Gives up this handle's single owned reference.
    pub fn dispose(self, refs: &mut RefTable)
        requires
            old(refs).wf(),
            old(refs).count_of(self.spec_ptr()) > 0,
        ensures
            final(refs).wf(),
            final(refs).count_of(self.spec_ptr()) == old(refs).count_of(self.spec_ptr()) - 1,
            forall|q: u64|
                q != self.spec_ptr() ==> final(refs).count_of(q) == old(refs).count_of(q),
            final(refs).acquired() == old(refs).acquired(),
            final(refs).released() == old(refs).released() + 1,
            final(refs).live() == old(refs).live() - 1,
    {
        self.handle.dispose(refs);
    }
}

} // verus!
