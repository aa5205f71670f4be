pub mod role;
pub mod protocol;
pub mod node;
pub mod ring;
pub mod input;
pub mod laws;
pub mod election;
