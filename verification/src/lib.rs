//! An event bus for one process. Stops register typed handlers; a caller fires
//! an event by its definition; the bus finds the one stop that answers it and
//! runs its handler, which may fire further events before it returns. What
//! happened is recorded as a tree of calls.
//!
//! The library decides, the program around it acts: the engine in [`bus`] is
//! driven step by step. Each step takes what the handler on top did (it asked
//! for an event, gave up, or returned) and says what is to be done next
//! (start a handler, answer one, or end the call). How each step changes the
//! pool of stops and the calls in progress is stated over a model, and the
//! laws in [`laws`] are proved of that model.

pub mod async_util;
pub mod bus;
pub mod dyn_var;
pub mod event;
pub mod interface;
pub mod laws;
pub mod stop;
