pub mod block;
pub mod instant;
pub mod period;
pub mod slot;
pub mod span;
