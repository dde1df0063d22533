//! Quorum-claimed unique identifiers over a simulated lossless network.
//!
//! Clients propose candidate identifiers to a pool of servers and commit a
//! candidate once a strict majority of servers accepts it; a server accepts
//! only proposals strictly above everything it has seen. A deterministic,
//! seed-driven discrete-event simulator drives the actors through variable
//! delivery delays, and a validator checks the finished run: no identifier
//! claimed twice or by two clients, and every client met its goal.

pub mod actor;
pub mod model;
pub mod msg;
pub mod queue;
pub mod rng;
pub mod sim;
pub mod text;
pub mod time;
pub mod validate;

pub use actor::Client;
pub use actor::Receiver;
pub use actor::Server;
pub use msg::Addr;
pub use msg::Id;
pub use msg::Msg;
pub use msg::Timestamp;
pub use queue::Envelope;
pub use queue::EnvelopeQueue;
pub use rng::DelayOracle;
pub use sim::Simulator;
pub use time::Clock;
