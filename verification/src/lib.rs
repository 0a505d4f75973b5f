//! Trading rules of the game server: market order matching, barter stall
//! trade settlement and the event rows that the server publishes.

pub mod barter;
pub mod barter_accept;
pub mod barter_laws;
pub mod events;
pub mod items;
pub mod market;
pub mod market_laws;
pub mod orders;
pub mod stall_events;
