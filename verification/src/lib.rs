pub mod laws;
pub mod message;
pub mod replica;
