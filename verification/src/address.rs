//! Identities of the principals that take part in a savings group.

use vstd::prelude::*;
use vstd::std_specs::cmp::PartialEqSpecImpl;

verus! {

/// How many characters the text form of a key has.
pub const STRKEY_LEN: usize = 56;

/// The identity of a member, an administrator or a token: the characters of
/// its key in text form.
///
/// Two addresses name the same principal exactly when all their characters
/// agree; nothing else about an address is ever read.
#[derive(Clone, Copy, Debug, Eq, Hash)]
pub struct Address {
    pub strkey: [u8; 56],
}

impl Address {
    pub fn new(strkey: [u8; 56]) -> (a: Address)
        ensures
            a.strkey == strkey,
    {
        Address { strkey }
    }
}

impl PartialEq for Address {
    fn eq(&self, other: &Address) -> (same: bool) {
        let mut i: usize = 0;
        while i < STRKEY_LEN
            invariant
                i <= STRKEY_LEN,
                forall|j: int| 0 <= j < i ==> self.strkey[j] == other.strkey[j],
            decreases STRKEY_LEN - i,
        {
            if self.strkey[i] != other.strkey[i] {
                return false;
            }
            i += 1;
        }
        assert(self.strkey =~= other.strkey);
        true
    }
}

impl PartialEqSpecImpl for Address {
    open spec fn obeys_eq_spec() -> bool {
        true
    }

    open spec fn eq_spec(&self, other: &Address) -> bool {
        *self == *other
    }
}

} // verus!
