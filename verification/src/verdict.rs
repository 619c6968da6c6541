//! The inspector's decision on one payload, and how it travels over the
//! request/reply channel between the dispatcher and a worker.

use vstd::prelude::*;
use vstd::string::*;
use vstd::slice::*;
use crate::bytes::{text, contains, replaced, ascii, includes, replace_all, same_bytes};

verus! {

/// What the inspector decided for one payload.
#[derive(Clone, Debug, PartialEq, Eq)]
pub enum Verdict {
    /// The payload passes as it is.
    Allow,
    /// The payload passes with these bytes in its place.
    Modify(Vec<u8>),
    /// The payload is refused, for the reason given.
    Block(Vec<u8>),
}

/// A verdict over mathematical byte sequences.
pub ghost enum VerdictView {
    Allow,
    Modify(Seq<u8>),
    Block(Seq<u8>),
}

impl View for Verdict {
    type V = VerdictView;

    open spec fn view(&self) -> VerdictView {
        match self {
            Verdict::Allow => VerdictView::Allow,
            Verdict::Modify(bytes) => VerdictView::Modify(bytes@),
            Verdict::Block(reason) => VerdictView::Block(reason@),
        }
    }
}

/// A payload with one of these words in it is refused.
pub open spec fn has_block_marker(payload: Seq<u8>) -> bool {
    contains(payload, text("malware")) || contains(payload, text("phishing"))
}

/// A payload with this word in it is rewritten.
pub open spec fn rewrite_marker() -> Seq<u8> {
    text("editme")
}

/// What takes the place of the rewrite marker.
pub open spec fn rewrite_replacement() -> Seq<u8> {
    text("[MODIFIED]")
}

/// The reply that stands for a refusal on the channel.
pub open spec fn block_token() -> Seq<u8> {
    text("BLOCKED")
}

/// The reason given for every refusal.
pub open spec fn block_reason() -> Seq<u8> {
    text("Blocked by policy")
}

/// The reference policy: refuse on a block marker, else rewrite every
/// rewrite marker, else let the payload pass.
pub open spec fn verdict_for(payload: Seq<u8>) -> VerdictView {
    if has_block_marker(payload) {
        VerdictView::Block(block_reason())
    } else if contains(payload, rewrite_marker()) {
        VerdictView::Modify(replaced(payload, rewrite_marker(), rewrite_replacement()))
    } else {
        VerdictView::Allow
    }
}

/// The bytes that answer `payload` on the channel, given the verdict on it.
pub open spec fn reply_for(verdict: VerdictView, payload: Seq<u8>) -> Seq<u8> {
    match verdict {
        VerdictView::Allow => payload,
        VerdictView::Modify(bytes) => bytes,
        VerdictView::Block(_) => block_token(),
    }
}

/// The verdict that a reply stands for: the payload itself allows it, the
/// block token and nothing else refuses it, any other reply replaces it.
pub open spec fn verdict_of_reply(payload: Seq<u8>, reply: Seq<u8>) -> VerdictView {
    if reply == payload {
        VerdictView::Allow
    } else if reply == block_token() {
        VerdictView::Block(block_reason())
    } else {
        VerdictView::Modify(reply)
    }
}

/// Classifies a payload by the reference policy.
pub fn classify(payload: &[u8]) -> (verdict: Verdict)
    ensures
        verdict@ == verdict_for(payload@),
        has_block_marker(payload@) ==> verdict is Block,
        !has_block_marker(payload@) && contains(payload@, rewrite_marker()) ==> verdict@
            == VerdictView::Modify(replaced(payload@, rewrite_marker(), rewrite_replacement())),
        !has_block_marker(payload@) && !contains(payload@, rewrite_marker()) ==> verdict is Allow,
{
    proof {
        reveal_strlit("malware");
        reveal_strlit("phishing");
        reveal_strlit("editme");
        reveal_strlit("[MODIFIED]");
        reveal_strlit("Blocked by policy");
    }
    if includes(payload, ascii("malware")) || includes(payload, ascii("phishing")) {
        Verdict::Block(slice_to_vec(ascii("Blocked by policy")))
    } else if includes(payload, ascii("editme")) {
        Verdict::Modify(replace_all(payload, ascii("editme"), ascii("[MODIFIED]")))
    } else {
        Verdict::Allow
    }
}

/// The bytes that a worker sends back for `payload`, given its verdict.
pub fn encode_reply(verdict: Verdict, payload: &[u8]) -> (reply: Vec<u8>)
    ensures
        reply@ == reply_for(verdict@, payload@),
{
    match verdict {
        Verdict::Allow => slice_to_vec(payload),
        Verdict::Modify(bytes) => bytes,
        Verdict::Block(_) => {
            proof {
                reveal_strlit("BLOCKED");
            }
            slice_to_vec(ascii("BLOCKED"))
        },
    }
}

/// Reads a worker's reply to `payload` as a verdict.
pub fn decode_reply(payload: &[u8], reply: Vec<u8>) -> (verdict: Verdict)
    ensures
        verdict@ == verdict_of_reply(payload@, reply@),
{
    proof {
        reveal_strlit("BLOCKED");
        reveal_strlit("Blocked by policy");
    }
    if same_bytes(reply.as_slice(), payload) {
        Verdict::Allow
    } else if same_bytes(reply.as_slice(), ascii("BLOCKED")) {
        Verdict::Block(slice_to_vec(ascii("Blocked by policy")))
    } else {
        Verdict::Modify(reply)
    }
}

} // verus!
