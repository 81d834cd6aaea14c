//! Free-slot finding over bounded time windows.
//!
//! Given a query window (a `Span`) and a set of already-scheduled busy
//! periods (`Block`s, converted from caller records through the `Input`
//! trait), the library computes the gaps that remain free (`Slot`s, handed
//! back through the `Output` trait).

pub mod finder;
pub mod periods;

pub use finder::find::find;
pub use finder::find::find_slots;
pub use finder::find::SlotError;
pub use periods::block::Block;
pub use periods::instant::Instant;
pub use periods::period::Input;
pub use periods::period::Output;
pub use periods::period::Period;
pub use periods::period::PeriodError;
pub use periods::period::PeriodVec;
pub use periods::slot::Slot;
pub use periods::span::Span;
