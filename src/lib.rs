//! Core engine of a scalability-protocol messaging library: the message
//! envelope, the bus pattern's origin stamp, the fair queue of pipes, the bus
//! protocol state machine and the resumable operations of a stream pipe stub.

pub mod message;
pub mod codec;
pub mod priolist;
pub mod bus;
pub mod stub;
