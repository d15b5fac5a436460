//! A reverse-proxy load balancer, without its sockets.
//!
//! The proxy takes HTTP/1.1 requests from clients, forwards each to one of
//! several upstream servers, hands the response back, and tries another
//! upstream when the one it picked does not answer.
//!
//! * `message`, `request`, `response`: the codec. A message is read off a
//!   stream piece by piece (`RequestReader`, `ResponseReader`) and written
//!   as bytes (`write_to_stream`). The parsing of start line and headers is
//!   left to the `httparse` crate (`head`), the reason phrases of status
//!   codes to the `http` crate (`reason`); numbers in headers are read and
//!   written by `decimal`.
//! * `upstream`: the pool of upstream servers, with the set of those
//!   believed dead, and the search for one that is alive and was not tried.
//! * `handler`: the protocol of one client connection as a state machine,
//!   from reading a request to relaying the response, with failover on the
//!   way and the error responses that the proxy sends itself.
//!
//! Whoever runs the proxy owns the sockets: it reads and writes what the
//! handler says, and tells the handler what came of it.

pub mod decimal;
pub mod handler;
pub mod head;
pub mod message;
pub mod reason;
pub mod request;
pub mod response;
pub mod upstream;
