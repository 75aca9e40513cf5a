use vstd::prelude::*;

verus! {

/// A 32-byte key derived as a domain-tagged commitment hash.
#[derive(Clone, Copy, Debug)]
pub struct TaggedKey {
    pub bytes: [u8; 32],
}

/// A 32-byte key derived as a plain digest, with no tag.
#[derive(Clone, Copy, Debug)]
pub struct DigestKey {
    pub bytes: [u8; 32],
}

impl View for TaggedKey {
    type V = Seq<u8>;

    open spec fn view(&self) -> Seq<u8> {
        self.bytes@
    }
}

impl View for DigestKey {
    type V = Seq<u8>;

    open spec fn view(&self) -> Seq<u8> {
        self.bytes@
    }
}

impl TaggedKey {
    pub fn from_bytes(bytes: [u8; 32]) -> (r: TaggedKey)
        ensures
            r@ == bytes@,
    {
        TaggedKey { bytes }
    }
}

impl DigestKey {
    pub fn from_bytes(bytes: [u8; 32]) -> (r: DigestKey)
        ensures
            r@ == bytes@,
    {
        DigestKey { bytes }
    }
}

/// Compares two 32-byte arrays.
pub fn same_bytes32(a: &[u8; 32], b: &[u8; 32]) -> (r: bool)
    ensures
        r == (a@ == b@),
{
    let mut i: usize = 0;
    while i < 32
        invariant
            a@.len() == 32,
            b@.len() == 32,
            i <= 32,
            forall|j: int| 0 <= j < i ==> a@[j] == b@[j],
        decreases 32 - i,
    {
        if a[i] != b[i] {
            return false;
        }
        i = i + 1;
    }
    assert(a@ =~= b@);
    true
}

} // verus!
