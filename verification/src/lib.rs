//! Driver library for a legacy condensation-particle-counter fit-test
//! instrument: the wire-protocol codec, the test-protocol configuration
//! parser and validator, a multi-device synchroniser, the fit-test
//! orchestrator, and the device-coordinator state machine.
//!
//! Serial I/O, threads and timers live outside this crate; everything here
//! is pure logic over plain values and is verified.

pub mod builtin;
pub mod coordinator;
pub mod digits;
pub mod multidev;
pub mod num;
pub mod protocol;
pub mod test_config;
pub mod text;

pub use coordinator::Action;
pub use coordinator::DeviceCoordinator;
pub use coordinator::DeviceNotification;
pub use coordinator::DeviceProperties;
pub use test::ValveState;
