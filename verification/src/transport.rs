//! Transport-endpoint policy: what the node demands of a connection before
//! it exists. The endpoint itself (sockets, certificates, the encrypted
//! transport) lives with the caller, which reads these policy values and
//! configures it accordingly.

use std::sync::Arc;
use vstd::prelude::*;

verus! {

/// Whether a connecting client checks the remote endpoint's identity.
#[derive(Clone, Copy, PartialEq, Eq, Structural, Debug)]
pub enum TrustMode {
    /// Verify the remote certificate against a trust root.
    VerifyRemote,
    /// Accept any remote identity. Convenient for testing; vulnerable to an
    /// interposed peer, so a production deployment must flip this default.
    AcceptAny,
}

/// How long a connection may sit idle before the transport drops it.
#[derive(Clone, Copy, PartialEq, Eq, Structural, Debug)]
pub enum IdleTimeout {
    /// Connections never time out on inactivity: long-lived, low-traffic
    /// peer links are tolerated at the price of resource cleanliness.
    Infinite,
    /// Drop a connection idle for this many milliseconds.
    AfterMillis(u64),
}

/// The configuration a transport endpoint is built from.
#[derive(Clone, Copy, PartialEq, Eq, Structural, Debug)]
pub struct TransportPolicy {
    pub trust: TrustMode,
    pub idle: IdleTimeout,
}

/// The policy for outbound connections: any remote identity is accepted and
/// idle connections are never dropped.
pub fn client_policy() -> (p: TransportPolicy)
    ensures
        p.trust is AcceptAny,
        p.idle is Infinite,
{
    TransportPolicy { trust: TrustMode::AcceptAny, idle: IdleTimeout::Infinite }
}

/// The policy for the accepting endpoint: it presents its own certificate
/// and never drops an idle connection.
pub fn server_policy() -> (p: TransportPolicy)
    ensures
        p.trust is VerifyRemote,
        p.idle is Infinite,
{
    TransportPolicy { trust: TrustMode::VerifyRemote, idle: IdleTimeout::Infinite }
}

/// Marker for the certificate check that treats any server certificate as
/// valid: the object a client endpoint installs when its policy's trust mode
/// is `AcceptAny`. The caller gives it the transport library's verifier
/// interface; here it only exists and is shared.
#[derive(Clone, Copy, PartialEq, Eq, Structural, Debug)]
pub struct SkipServerVerification;

impl SkipServerVerification {
    /// A fresh shared handle to the verifier marker.
    pub fn new() -> (r: Arc<Self>)
        ensures
            r == SkipServerVerification,
    {
        Arc::new(Self)
    }
}

} // verus!
