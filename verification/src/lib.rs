//! A content-filtering HTTP gateway: the adaptation wire protocol, the
//! verdict rules of the inspection backend, and the decisions that the
//! proxy and the adaptation service take for each connection.
//!
//! Everything here is pure: sockets and message channels are driven by the
//! caller, which feeds what it read to the step functions and carries out
//! the actions they return.

pub mod bytes;
pub mod codec;
pub mod config;
pub mod decimal;
pub mod guarantees;
pub mod header;
pub mod http;
pub mod icap_client;
pub mod icap_server;
pub mod pool;
pub mod proxy;
pub mod round_trip;
pub mod utils;
pub mod verdict;
pub mod worker;
pub mod zmq_client;
