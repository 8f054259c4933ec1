//! A TLS-terminating reverse proxy's decision logic: the relay of one
//! connection direction, the accept loop with its cancellation, the opening
//! of a backend per accepted session, and the choice of the identity that
//! answers a handshake. The I/O around these state machines is performed by
//! their driver. Also the reply text of the example greeting service.
pub mod greeter;
pub mod identity;
pub mod relay;
pub mod serve;
pub mod service;
