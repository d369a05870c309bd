//! The enclave-side service state for the external multiparty protocol.
//! The distributed key generation, re-encryption and remote signing are
//! performed by an external collaborator and are out of this core's scope;
//! only the service's own configuration and key-material records are
//! modelled here.
use vstd::prelude::*;

verus! {

/// The enclave's local record of key material: an encryption keypair for
/// share transport and, once generated, the encrypted secret share.
#[derive(Clone)]
pub struct TeeKeyStore {
    pub share_encryption_key: Vec<u8>,
    pub share_decryption_key: Vec<u8>,
    pub dwallet_secret_share: Option<Vec<u8>>,
}

/// A handle on the multiparty service, fixed to one curve.
pub struct TeeMpcService {
    curve: u32,
}

impl TeeMpcService {
    /// The curve identifier the service was created for.
    pub closed spec fn curve_id(&self) -> u32 {
        self.curve
    }

    /// Creates a service handle for the given curve.
    pub fn new(curve: u32) -> (r: TeeMpcService)
        ensures
            r.curve_id() == curve,
    {
        TeeMpcService { curve }
    }

    /// The curve identifier, for callers that route on it.
    pub fn curve(&self) -> (r: u32)
        ensures
            r == self.curve_id(),
    {
        self.curve
    }
}

} // verus!
