use vstd::prelude::*;

verus! {

/// The trust policy applied to upstream servers when proxying: every
/// certificate is accepted, with no chain validation and no pinning. The
/// relaxed trust is deliberate and mirrors the server's own identity model —
/// certificates are stable pseudonymous identities here, not PKI-validated
/// ones — and must not be hardened silently.
pub struct GeminiServerAuth;

impl GeminiServerAuth {
    /// Any upstream server certificate passes verification.
    pub fn verify_server_cert(&self) -> (r: bool)
        ensures
            r,
    {
        true
    }
}

/// The trust policy applied to connecting clients: a certificate is
/// requested but never required, and a presented one — self-signed included
/// — is accepted without validation against any trust root. Its bytes are
/// kept only as a pseudonymous identity.
pub struct GeminiClientAuth;

impl GeminiClientAuth {
    /// Client certificates are requested during the handshake.
    pub fn offer_client_auth(&self) -> (r: bool)
        ensures
            r,
    {
        true
    }

    /// The handshake succeeds whether or not the peer presents one.
    pub fn client_auth_mandatory(&self) -> (r: bool)
        ensures
            !r,
    {
        false
    }

    /// Any presented client certificate passes verification.
    pub fn verify_client_cert(&self) -> (r: bool)
        ensures
            r,
    {
        true
    }
}

} // verus!
