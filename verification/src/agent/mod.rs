pub mod error;
pub mod interaction;
pub mod message;
pub mod stream;
