//! A broadcast relay for collaborative drawing: the event model, the canvas
//! aggregator that merges drawing steps by author and step id, and the state
//! machine that drives one client connection.
pub mod canvas;
pub mod event;
pub mod session;
