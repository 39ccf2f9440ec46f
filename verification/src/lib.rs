//! Observable containers: a reactive cell holding one value, an ordered
//! collection of such cells, and the fair merge that turns their change
//! streams into one feed per subscriber.
pub mod channel;
pub mod component;
pub mod list;
pub mod list_laws;
pub mod mirror;
pub mod mux;
pub mod register;
