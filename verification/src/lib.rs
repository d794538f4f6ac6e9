//! Verified model of the AddMul and inner-product precompiles of a RISC-V zkVM:
//! the syscall that computes `p * q + r * s` on words of memory, the events it
//! records, the trace rows the chips generate from those events, and the
//! chip-local constraints those rows must satisfy.

pub mod field;
pub mod memory;
pub mod events;
pub mod record;
pub mod interaction;
pub mod runtime;
pub mod syscall;
pub mod utils;
pub mod addmul;
pub mod inner_product;
