//! The logic of a small single-core kernel.
//!
//! Its heart is the concurrency core: a cooperative scheduler of tasks
//! ([`executor`], [`task`], [`ready_queue`]) and what the tasks coordinate
//! through, a lock ([`mutex`], [`waker_list`]) and a sleep service driven by
//! the periodic timer interrupt ([`sleep`]). Around it stand the cells that
//! are written once ([`once`]) and the bookkeeping of the machine: page
//! frames and heap blocks ([`memory`], [`allocator`]), the real-time clock
//! ([`rtc`]), interrupt vectors ([`interrupts`]), the screen
//! ([`framebuffer`], [`vga_buffer`]) and the emulator's exit codes
//! ([`qemu`]).
//!
//! Nothing here touches the hardware. Where the processor's state matters it
//! is passed in as a value, and what is to be done to the machine is handed
//! back as a value.

pub mod allocator;
pub mod executor;
pub mod framebuffer;
pub mod inline_ids;
pub mod interrupts;
pub mod map_ops;
pub mod memory;
pub mod mutex;
pub mod once;
pub mod qemu;
pub mod ready_queue;
pub mod rtc;
pub mod sleep;
pub mod task;
pub mod vga_buffer;
pub mod waker_list;
