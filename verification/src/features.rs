use vstd::prelude::*;

verus! {

/// Runtime feature flags that the shell can query.
#[derive(Debug, Clone, Copy, PartialEq, Eq, Structural)]
pub struct Features {
    /// Marketplace features (wallet, contracts, listings)
    pub marketplace: bool,
    /// Zero-knowledge proof verification
    pub zk_proofs: bool,
    /// Advanced analytics dashboard
    pub analytics: bool,
    /// BitTorrent client
    pub torrent: bool,
}

impl Default for Features {
    fn default() -> (r: Features)
        ensures
            r.marketplace && !r.zk_proofs && !r.analytics && r.torrent,
    {
        Features { marketplace: true, zk_proofs: false, analytics: false, torrent: true }
    }
}

impl Features {
    pub fn new() -> (r: Features)
        ensures
            r.marketplace && !r.zk_proofs && !r.analytics && r.torrent,
    {
        Features::default()
    }

    /// Whether any second-generation feature is switched on.
    pub fn has_v2_features(&self) -> (r: bool)
        ensures
            r == (self.marketplace || self.zk_proofs),
    {
        self.marketplace || self.zk_proofs
    }
}

} // verus!
