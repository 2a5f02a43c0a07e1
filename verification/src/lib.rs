pub mod assemble;
pub mod engine;
pub mod grid;
pub mod partition;
pub mod progress;
pub mod worker;
