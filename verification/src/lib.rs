pub mod client;
pub mod codec;
pub mod engine;
pub mod error;
pub mod fhe;
pub mod keys;
pub mod protocol;
