//! Verified core of a mechanical-keyboard firmware controller.
//!
//! The library models and verifies the concurrency and pipeline logic of an
//! interrupt-driven keyboard: priority-ceiling locking over a fixed task set,
//! a per-switch debounce filter, a bounded event-registration queue, and the
//! per-tick scan -> debounce -> layout -> USB-report pipeline with its
//! terminal bootloader-entry path. Hardware access (matrix strobing, timers,
//! the USB transport, the bootloader jump) stays outside: the functions here
//! take the outside world's replies as plain values and decide what the
//! firmware does with them.

pub mod debounce;
pub mod event;
pub mod lock;
pub mod pipeline;
pub mod queue;
pub mod usb;
