//! The decision core of an AArch64 golden-reference CPU.
//!
//! The CPU itself is an instance of the Sail `arm-v9.4-a` model, which lives
//! behind a handle and answers a fixed set of calls: store a register chunk,
//! load one, write a byte of memory, execute one opcode. An [`Oracle`] owns
//! such a handle. It decides which calls an operation takes, in which order
//! and with which arguments, and it assembles their answers. Making a call is
//! left to the program around the library: a writing operation returns its
//! calls, and a reading operation takes the function that makes them.
//!
//! - [`calls`]: the calls, and the sequences of them that operations consist of;
//! - [`oracle`]: the operations;
//! - [`bytes`]: little-endian words;
//! - [`lock`]: entering the critical section around the model;
//! - [`machine`]: what the calls mean, as a mathematical model of the CPU;
//! - [`laws`]: what the operations guarantee together;
//! - [`effects`]: the effect of each operation, spelled out call by call.

pub mod bytes;
pub mod calls;
pub mod effects;
pub mod laws;
pub mod lock;
pub mod machine;
pub mod oracle;

pub use calls::{
    Call, Command, FieldQuery, IsMapped, ReadMem, WordQuery, P_BITS, P_CHUNKS, X_REGS, ZA_ROWS,
    ZT0_CHUNKS, Z_BITS, Z_CHUNKS,
};
pub use lock::{model_lock, Acquired};
pub use oracle::{CpuState, Oracle};
