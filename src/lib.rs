//! Peer-to-peer player-state synchronisation: the wire schema shared by all
//! peers, and the decisions of the swarm driver that bridges the network and
//! the simulation loop.

pub mod message;
pub mod driver;
pub mod laws;
