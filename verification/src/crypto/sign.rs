//! Public keys and signatures, carried as the bytes that a signature scheme produces.

use vstd::prelude::*;

verus! {

/// A public key.
#[derive(Debug, Hash)]
pub struct PubKey {
    pub octets: Vec<u8>,
}

impl View for PubKey {
    type V = Seq<u8>;

    open spec fn view(&self) -> Seq<u8> {
        self.octets@
    }
}

impl Clone for PubKey {
    fn clone(&self) -> (copy: Self)
        ensures
            copy@ == self@,
    {
        let octets = self.octets.clone();
        assert(octets@ =~= self.octets@);
        PubKey { octets }
    }
}

/// A signature.
#[derive(Debug, Hash)]
pub struct Signature {
    pub octets: Vec<u8>,
}

impl View for Signature {
    type V = Seq<u8>;

    open spec fn view(&self) -> Seq<u8> {
        self.octets@
    }
}

impl Clone for Signature {
    fn clone(&self) -> (copy: Self)
        ensures
            copy@ == self@,
    {
        let octets = self.octets.clone();
        assert(octets@ =~= self.octets@);
        Signature { octets }
    }
}

} // verus!
