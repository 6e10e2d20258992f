//! Captures a failing invocation of a user-defined operation and turns it
//! into a standalone, replayable regression test that can be appended to a
//! test source file.
//!
//! An operation implements [`Executable`]; [`execute`] runs it with some
//! arguments, and on failure hands back a [`UnitTest`] holding the error, the
//! arguments, a pre-invocation snapshot of the operation, and a capture time.
//! [`UnitTest::render`] turns that bundle into the text of a self-contained
//! test function.
pub mod accumulator;
pub mod action;
pub mod arguments;
pub mod capture;
pub mod capture_time;
pub mod decimal;
pub mod executable;
pub mod payload;

pub use accumulator::Accumulator;
pub use action::SomeImportantAction;
pub use capture::execute;
pub use capture::RenderError;
pub use capture::UnitTest;
pub use executable::DecodeError;
pub use executable::EncodeError;
pub use executable::Executable;
