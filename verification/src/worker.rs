//! The inspection worker: answers each payload it is sent with the bytes
//! that stand for its verdict.

use vstd::prelude::*;
use crate::bytes::contains;
use crate::verdict::{
    verdict_for, reply_for, has_block_marker, rewrite_marker, block_token, classify, encode_reply,
};

verus! {

/// An inspection worker and the address it serves.
pub struct Worker {
    pub bind_addr: String,
}

impl Worker {
    /// A worker that is to serve `bind_addr`.
    pub fn new(bind_addr: String) -> (worker: Worker)
        ensures
            worker.bind_addr == bind_addr,
    {
        Worker { bind_addr }
    }

    /// The reply to one request: the block token where the payload holds a
    /// block marker, else the payload with every rewrite marker replaced,
    /// which is the payload itself where it holds none.
    pub fn reply(&self, request: &[u8]) -> (reply: Vec<u8>)
        ensures
            reply@ == reply_for(verdict_for(request@), request@),
            has_block_marker(request@) ==> reply@ == block_token(),
            !has_block_marker(request@) && !contains(request@, rewrite_marker()) ==> reply@
                == request@,
    {
        encode_reply(classify(request), request)
    }
}

} // verus!
