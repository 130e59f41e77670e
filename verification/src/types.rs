//! Fixed-size identifiers: account addresses and 32-byte hashes.
use vstd::prelude::*;
use vstd::std_specs::cmp::PartialEqSpecImpl;

use crate::keymap::MapKey;

verus! {

broadcast use vstd::array::group_array_axioms;

/// A 20-byte account address.
#[derive(Clone, Copy, Debug, Hash)]
pub struct Address {
    pub bytes: [u8; 20],
}

/// A 32-byte hash value.
#[derive(Clone, Copy, Debug, Hash)]
pub struct H256 {
    pub bytes: [u8; 32],
}

impl View for Address {
    type V = Address;

    open spec fn view(&self) -> Address {
        *self
    }
}

impl View for H256 {
    type V = H256;

    open spec fn view(&self) -> H256 {
        *self
    }
}

/// Byte-wise equality of two byte slices.
pub fn bytes_eq(a: &[u8], b: &[u8]) -> (r: bool)
    ensures
        r == (a@ == b@),
{
    if a.len() != b.len() {
        return false;
    }
    let mut i: usize = 0;
    while i < a.len()
        invariant
            i <= a@.len(),
            a@.len() == b@.len(),
            forall|j: int| 0 <= j < i ==> a@[j] == b@[j],
        decreases a@.len() - i,
    {
        if a[i] != b[i] {
            return false;
        }
        i = i + 1;
    }
    assert(a@ =~= b@);
    true
}

impl PartialEqSpecImpl for Address {
    open spec fn obeys_eq_spec() -> bool {
        true
    }

    open spec fn eq_spec(&self, other: &Self) -> bool {
        *self == *other
    }
}

impl PartialEq for Address {
    fn eq(&self, other: &Self) -> (r: bool) {
        let mut i: usize = 0;
        while i < 20
            invariant
                i <= 20,
                forall|j: int| 0 <= j < i ==> self.bytes[j] == other.bytes[j],
            decreases 20 - i,
        {
            if self.bytes[i] != other.bytes[i] {
                proof {
                    assert(self.bytes@[i as int] != other.bytes@[i as int]);
                    assert(*self != *other);
                }
                return false;
            }
            i = i + 1;
        }
        proof {
            assert(self.bytes =~= other.bytes);
        }
        true
    }
}

impl Eq for Address {}

impl PartialEq for H256 {
    fn eq(&self, other: &Self) -> (r: bool) {
        let a = self.bytes.as_slice();
        let b = other.bytes.as_slice();
        let r = bytes_eq(a, b);
        proof {
            assert(a@ == self.bytes@ && b@ == other.bytes@);
            if r {
                assert(self.bytes =~= other.bytes);
                assert(*self == *other);
            } else {
                assert(self.bytes@ != other.bytes@);
                assert(!(*self == *other)) by {
                    if *self == *other {
                        assert(self.bytes == other.bytes);
                        assert(self.bytes@ == other.bytes@);
                    }
                }
            }
        }
        r
    }
}

impl Eq for H256 {}

impl PartialEqSpecImpl for H256 {
    open spec fn obeys_eq_spec() -> bool {
        true
    }

    open spec fn eq_spec(&self, other: &Self) -> bool {
        *self == *other
    }
}

impl Address {
    /// The address made of the given bytes.
    pub fn from_bytes(bytes: [u8; 20]) -> (a: Address)
        ensures
            a.bytes == bytes,
    {
        Address { bytes }
    }

    /// The address whose 20 bytes all equal `b`.
    pub fn repeat_byte(b: u8) -> (a: Address)
        ensures
            forall|i: int| 0 <= i < 20 ==> a.bytes[i] == b,
    {
        Address { bytes: [b; 20] }
    }

    /// The address's bytes.
    pub fn as_bytes(&self) -> (r: &[u8])
        ensures
            r@ == self.bytes@,
    {
        self.bytes.as_slice()
    }
}

impl H256 {
    /// The hash made of the given bytes.
    pub fn from_bytes(bytes: [u8; 32]) -> (h: H256)
        ensures
            h.bytes == bytes,
    {
        H256 { bytes }
    }

    /// The all-zero hash.
    pub fn zero() -> (h: H256)
        ensures
            forall|i: int| 0 <= i < 32 ==> h.bytes[i] == 0,
    {
        H256 { bytes: [0u8; 32] }
    }

    /// The hash whose 32 bytes all equal `b`.
    pub fn repeat_byte(b: u8) -> (h: H256)
        ensures
            forall|i: int| 0 <= i < 32 ==> h.bytes[i] == b,
    {
        H256 { bytes: [b; 32] }
    }

    /// The hash's bytes.
    pub fn as_bytes(&self) -> (r: &[u8])
        ensures
            r@ == self.bytes@,
    {
        self.bytes.as_slice()
    }

    /// Whether every byte is zero.
    pub fn is_zero(&self) -> (r: bool)
        ensures
            r == (forall|i: int| 0 <= i < 32 ==> self.bytes[i] == 0),
    {
        let mut i: usize = 0;
        while i < 32
            invariant
                i <= 32,
                forall|j: int| 0 <= j < i ==> self.bytes[j] == 0,
            decreases 32 - i,
        {
            if self.bytes[i] != 0 {
                return false;
            }
            i = i + 1;
        }
        true
    }
}

impl MapKey for Address {
    fn key_eq(&self, other: &Self) -> (r: bool) {
        *self == *other
    }
}

impl MapKey for H256 {
    fn key_eq(&self, other: &Self) -> (r: bool) {
        *self == *other
    }
}

impl MapKey for u64 {
    fn key_eq(&self, other: &Self) -> (r: bool) {
        *self == *other
    }
}

impl MapKey for Vec<u8> {
    fn key_eq(&self, other: &Self) -> (r: bool) {
        bytes_eq(self.as_slice(), other.as_slice())
    }
}

impl MapKey for (Address, Address) {
    fn key_eq(&self, other: &Self) -> (r: bool) {
        self.0 == other.0 && self.1 == other.1
    }
}

impl MapKey for (Address, Vec<u8>) {
    fn key_eq(&self, other: &Self) -> (r: bool) {
        self.0 == other.0 && bytes_eq(self.1.as_slice(), other.1.as_slice())
    }
}

} // verus!
