//! Routing core of a TURN relay: the session tables that answer every
//! protocol decision, and the view of the other relay instances that lets a
//! permission reach a peer hosted elsewhere.

pub mod address;
pub mod clock;
pub mod numbers;
pub mod router;
pub mod proxy;
pub mod processor;
