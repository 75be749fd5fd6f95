use vstd::prelude::*;

verus! {

/// What the front-end sees of the archive viewer server.
#[derive(Debug, Clone)]
pub struct ViewerStatus {
    pub running: bool,
    pub cid: Option<String>,
    pub url: Option<String>,
}

} // verus!
