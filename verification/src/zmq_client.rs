//! The inspection dispatcher: one payload out, one reply back, over a
//! request/reply channel to a worker.

use vstd::prelude::*;
use crate::verdict::{Verdict, verdict_of_reply, decode_reply};

verus! {

/// The dispatcher and the address of the worker it talks to.
pub struct ZmqClient {
    pub addr: String,
}

impl Clone for ZmqClient {
    /// A dispatcher for the same worker. It shares nothing with `self`.
    fn clone(&self) -> (copy: Self)
        ensures
            copy.addr@ == self.addr@,
    {
        ZmqClient { addr: self.addr.clone() }
    }
}

/// One end of a request/reply channel. A channel carries one request at a
/// time: `send`, then `recv_msg`.
pub trait ZmqSocket {
    /// Sends one message.
    fn send(&self, content: &[u8], flags: i32) -> Result<(), String>;

    /// Waits for one message.
    fn recv_msg(&self, flags: i32) -> Result<Vec<u8>, String>;
}

/// `socket.send(content, flags)` can return `sent`.
pub open spec fn send_returns<S: ZmqSocket>(
    socket: &S,
    content: &[u8],
    flags: i32,
    sent: Result<(), String>,
) -> bool {
    call_ensures(S::send, (socket, content, flags), sent)
}

/// `socket.recv_msg(flags)` can return `received`.
pub open spec fn recv_msg_returns<S: ZmqSocket>(
    socket: &S,
    flags: i32,
    received: Result<Vec<u8>, String>,
) -> bool {
    call_ensures(S::recv_msg, (socket, flags), received)
}

/// `outcome` is what one exchange over `socket` came to: `content` was
/// handed to `send` with no flags, and either `send` failed and its error is
/// the outcome, or `send` succeeded and the outcome is what `recv_msg`, with
/// no flags, returned.
pub open spec fn exchanged<S: ZmqSocket>(
    socket: &S,
    content: &[u8],
    outcome: Result<Vec<u8>, String>,
) -> bool {
    ||| outcome matches Err(e) && send_returns(socket, content, 0, Err(e))
    ||| send_returns(socket, content, 0, Ok(())) && recv_msg_returns(socket, 0, outcome)
}

impl ZmqClient {
    /// A dispatcher for the worker at `addr`.
    pub fn new(addr: String) -> (client: ZmqClient)
        ensures
            client.addr == addr,
    {
        ZmqClient { addr }
    }

    /// Sends `content` and waits for the reply. The first failure of the
    /// channel ends the exchange and is returned; nothing is tried again.
    ///
    /// Whether the exchange succeeds is the channel's to decide. What is
    /// returned is what the channel returned: the error of `send`, and
    /// `recv_msg` is not called, or else the result of `recv_msg`.
    pub fn send_and_receive_with_socket<S: ZmqSocket>(socket: &S, content: &[u8]) -> (r: Result<
        Vec<u8>,
        String,
    >)
        ensures
            exchanged(socket, content, r),
    {
        let sent = socket.send(content, 0);
        match sent {
            Ok(()) => {
                assert(sent->Ok_0 == ());
                socket.recv_msg(0)
            },
            Err(e) => Err(e),
        }
    }

    /// Has `payload` inspected over `socket`: one exchange that hands the
    /// payload to the channel, and the reply read as a verdict.
    ///
    /// Whether the exchange succeeds is the channel's to decide. Where it
    /// fails, its error is returned. Where it succeeds, the verdict is the
    /// reading of the reply that came: `Allow` for the payload itself, a
    /// refusal for the block token, and the reply as the replacement
    /// otherwise.
    pub fn inspect_with_socket<S: ZmqSocket>(socket: &S, payload: &[u8]) -> (r: Result<
        Verdict,
        String,
    >)
        ensures
            match r {
                Ok(verdict) => exists|reply: Vec<u8>|
                    #[trigger] exchanged(socket, payload, Ok(reply)) && verdict@
                        == verdict_of_reply(payload@, reply@),
                Err(e) => exchanged(socket, payload, Err(e)),
            },
    {
        match Self::send_and_receive_with_socket(socket, payload) {
            Ok(reply) => {
                let ghost received = reply;
                let verdict = decode_reply(payload, reply);
                assert(exchanged(socket, payload, Ok(received)) && verdict@ == verdict_of_reply(
                    payload@,
                    received@,
                ));
                Ok(verdict)
            },
            Err(e) => Err(e),
        }
    }
}

} // verus!
