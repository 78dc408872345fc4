pub mod codec;
pub mod engine;
pub mod laws;
pub mod scratch;
pub mod sort;
pub mod table;
pub mod traits;
pub mod tx;
pub mod window;
