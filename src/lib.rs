//! A small model of ownership: values with a kind (copied, uniquely owned or
//! reference counted), bindings in nested frames, borrows, and the drops that
//! follow from them, together with the demonstration values it explains.
pub mod demos;
pub mod laws;
pub mod model;
pub mod simulator;
