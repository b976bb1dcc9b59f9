//! The calls that a model instance answers, and the sequences of calls that
//! the operations of an oracle consist of.

use vstd::prelude::*;

verus! {

/// Architectural (maximum) SVE vector width handled by the model: 2048 bits.
pub const Z_BITS: usize = 2048;

/// Architectural predicate width: 256 bits.
pub const P_BITS: usize = 256;

/// 64-bit chunks per Z register.
pub const Z_CHUNKS: usize = Z_BITS / 64;

/// 64-bit chunks per P register.
pub const P_CHUNKS: usize = P_BITS / 64;

/// SME ZA storage rows (each row is [`Z_BITS`] wide).
pub const ZA_ROWS: usize = 256;

/// ZT0 (SME2 lookup table) width: 512 bits = 8 chunks.
pub const ZT0_CHUNKS: usize = 8;

/// General-purpose registers with storage: X0 to X30.
pub const X_REGS: usize = 31;

/// A call on the model instance behind `handle`.
#[derive(Debug, Clone, Copy, PartialEq, Eq)]
pub struct Call<C> {
    pub handle: usize,
    pub op: C,
}

/// The calls that change the instance. None of them has an answer.
#[derive(Debug, Clone, Copy, PartialEq, Eq)]
pub enum Command {
    /// Write Xn; register 31 is the zero register.
    SetGpr { n: u32, value: u64 },
    SetPc { value: u64 },
    /// Bit 3 is N, bit 2 is Z, bit 1 is C, bit 0 is V.
    SetNzcv { flags: u32 },
    /// Decode and execute one A64 instruction.
    Step { opcode: u32 },
    SetZ { n: u32, chunk: u32, value: u64 },
    SetP { n: u32, chunk: u32, value: u64 },
    SetFpcr { value: u64 },
    SetFpsr { value: u64 },
    SetZa { row: u32, chunk: u32, value: u64 },
    /// Write the stack pointer that the current PSTATE selects.
    SetSp { value: u64 },
    SetPstate { value: u64 },
    SetFfr { chunk: u32, value: u64 },
    SetZt0 { chunk: u32, value: u64 },
    SetTpidrEl0 { value: u64 },
    SetTpidrroEl0 { value: u64 },
    WriteMem { addr: u64, byte: u8 },
}

/// The calls that are answered by a 64-bit word and change nothing.
#[derive(Debug, Clone, Copy, PartialEq, Eq)]
pub enum WordQuery {
    Gpr { n: u32 },
    Pc,
    Z { n: u32, chunk: u32 },
    P { n: u32, chunk: u32 },
    /// Effective SVE vector length in bits.
    Vl,
    Fpcr,
    Fpsr,
    Za { row: u32, chunk: u32 },
    Sp,
    Pstate,
    Ffr { chunk: u32 },
    Zt0 { chunk: u32 },
    TpidrEl0,
    TpidrroEl0,
    EsrEl3,
    ElrEl3,
    FarEl3,
}

/// The calls that are answered by a small bit field in a 32-bit word.
#[derive(Debug, Clone, Copy, PartialEq, Eq)]
pub enum FieldQuery {
    Nzcv,
    Svcr,
}

/// The call that is answered by the byte of memory at `addr`.
#[derive(Debug, Clone, Copy, PartialEq, Eq)]
pub struct ReadMem {
    pub addr: u64,
}

/// The call that is answered by whether the block around `addr` has storage.
#[derive(Debug, Clone, Copy, PartialEq, Eq)]
pub struct IsMapped {
    pub addr: u64,
}

/// Chunk `i` of a register that is written from `data`: chunks beyond the data
/// are zero.
pub open spec fn chunk_at(data: Seq<u64>, i: int) -> u64 {
    if 0 <= i < data.len() {
        data[i]
    } else {
        0
    }
}

/// `data` extended with zero chunks to a register of `chunks` chunks.
pub open spec fn padded(data: Seq<u64>, chunks: nat) -> Seq<u64> {
    Seq::new(chunks, |i: int| chunk_at(data, i))
}

/// The address `offset` bytes after `addr`; addresses wrap at 2^64.
pub open spec fn wrapped(addr: u64, offset: int) -> u64 {
    ((addr + offset) % 0x1_0000_0000_0000_0000) as u64
}

pub open spec fn z_writes(n: u32, data: Seq<u64>) -> Seq<Command> {
    Seq::new(
        Z_CHUNKS as nat,
        |i: int| Command::SetZ { n, chunk: i as u32, value: chunk_at(data, i) },
    )
}

pub open spec fn z_reads(n: u32) -> Seq<WordQuery> {
    Seq::new(Z_CHUNKS as nat, |i: int| WordQuery::Z { n, chunk: i as u32 })
}

pub open spec fn p_writes(n: u32, data: Seq<u64>) -> Seq<Command> {
    Seq::new(
        P_CHUNKS as nat,
        |i: int| Command::SetP { n, chunk: i as u32, value: chunk_at(data, i) },
    )
}

pub open spec fn p_reads(n: u32) -> Seq<WordQuery> {
    Seq::new(P_CHUNKS as nat, |i: int| WordQuery::P { n, chunk: i as u32 })
}

pub open spec fn za_writes(row: u32, data: Seq<u64>) -> Seq<Command> {
    Seq::new(
        Z_CHUNKS as nat,
        |i: int| Command::SetZa { row, chunk: i as u32, value: chunk_at(data, i) },
    )
}

pub open spec fn za_reads(row: u32) -> Seq<WordQuery> {
    Seq::new(Z_CHUNKS as nat, |i: int| WordQuery::Za { row, chunk: i as u32 })
}

pub open spec fn ffr_writes(data: Seq<u64>) -> Seq<Command> {
    Seq::new(
        P_CHUNKS as nat,
        |i: int| Command::SetFfr { chunk: i as u32, value: chunk_at(data, i) },
    )
}

pub open spec fn ffr_reads() -> Seq<WordQuery> {
    Seq::new(P_CHUNKS as nat, |i: int| WordQuery::Ffr { chunk: i as u32 })
}

pub open spec fn zt0_writes(data: Seq<u64>) -> Seq<Command> {
    Seq::new(
        ZT0_CHUNKS as nat,
        |i: int| Command::SetZt0 { chunk: i as u32, value: chunk_at(data, i) },
    )
}

pub open spec fn zt0_reads() -> Seq<WordQuery> {
    Seq::new(ZT0_CHUNKS as nat, |i: int| WordQuery::Zt0 { chunk: i as u32 })
}

/// X0 to X30, in order.
pub open spec fn x_reads() -> Seq<WordQuery> {
    Seq::new(X_REGS as nat, |i: int| WordQuery::Gpr { n: i as u32 })
}

/// `data` byte by byte, upwards from `addr`.
pub open spec fn mem_writes(addr: u64, data: Seq<u8>) -> Seq<Command> {
    Seq::new(
        data.len(),
        |i: int| Command::WriteMem { addr: wrapped(addr, i), byte: data[i] },
    )
}

/// The `len` bytes upwards from `addr`.
pub open spec fn mem_reads(addr: u64, len: nat) -> Seq<ReadMem> {
    Seq::new(len, |i: int| ReadMem { addr: wrapped(addr, i) })
}

/// `read` may be called with `query` on the instance behind `handle`.
pub open spec fn can_ask<Q, A, R: Fn(Call<Q>) -> A>(read: R, handle: usize, query: Q) -> bool {
    call_requires(read, (Call { handle, op: query },))
}

/// `answer` is an answer of `read` to `query` on the instance behind `handle`.
pub open spec fn answers<Q, A, R: Fn(Call<Q>) -> A>(
    read: R,
    handle: usize,
    query: Q,
    answer: A,
) -> bool {
    call_ensures(read, (Call { handle, op: query },), answer)
}

/// `read` may be called with each of `queries` on the instance behind `handle`.
pub open spec fn can_ask_all<Q, A, R: Fn(Call<Q>) -> A>(
    read: R,
    handle: usize,
    queries: Seq<Q>,
) -> bool {
    forall|i: int| 0 <= i < queries.len() ==> can_ask(read, handle, #[trigger] queries[i])
}

/// `found` are answers of `read` to `queries`, one for one, on the instance
/// behind `handle`.
pub open spec fn answers_all<Q, A, R: Fn(Call<Q>) -> A>(
    read: R,
    handle: usize,
    queries: Seq<Q>,
    found: Seq<A>,
) -> bool {
    &&& found.len() == queries.len()
    &&& forall|i: int|
        0 <= i < queries.len() ==> answers(read, handle, #[trigger] queries[i], found[i])
}

/// Chunk `i` of a register that is written from `data`.
pub(crate) fn chunk_or_zero(data: &[u64], i: usize) -> (value: u64)
    ensures
        value == chunk_at(data@, i as int),
{
    if i < data.len() {
        data[i]
    } else {
        0
    }
}

} // verus!
