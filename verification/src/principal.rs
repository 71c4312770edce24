//! Caller identities.

use vstd::prelude::*;
use vstd::slice::slice_to_vec;

verus! {

/// An opaque caller identity: a string of bytes. Two principals are the same
/// caller exactly when their bytes are equal.
#[derive(Debug)]
pub struct Principal {
    bytes: Vec<u8>,
}

impl View for Principal {
    type V = Seq<u8>;

    closed spec fn view(&self) -> Seq<u8> {
        self.bytes@
    }
}

impl Principal {
    /// The principal that has exactly the given bytes.
    pub fn from_bytes(bytes: Vec<u8>) -> (principal: Principal)
        ensures
            principal@ == bytes@,
    {
        Principal { bytes }
    }

    /// The principal that has a copy of the given bytes.
    pub fn from_slice(bytes: &[u8]) -> (principal: Principal)
        ensures
            principal@ == bytes@,
    {
        Principal { bytes: slice_to_vec(bytes) }
    }

    /// The bytes of this principal.
    pub fn as_slice(&self) -> (bytes: &[u8])
        ensures
            bytes@ == self@,
    {
        self.bytes.as_slice()
    }
}

impl Clone for Principal {
    fn clone(&self) -> (copy: Principal)
        ensures
            copy@ == self@,
    {
        let bytes = self.bytes.clone();
        assert(bytes@ =~= self.bytes@);
        Principal { bytes }
    }
}

impl PartialEq for Principal {
    fn eq(&self, other: &Principal) -> (equal: bool) {
        let equal = self.bytes == other.bytes;
        proof {
            if equal {
                assert(self.bytes@ =~= other.bytes@);
            }
        }
        equal
    }
}

impl Eq for Principal {}

impl vstd::std_specs::cmp::PartialEqSpecImpl for Principal {
    open spec fn obeys_eq_spec() -> bool {
        true
    }

    open spec fn eq_spec(&self, other: &Principal) -> bool {
        self@ == other@
    }
}

} // verus!
