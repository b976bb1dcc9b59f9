//! The operations of an oracle.
//!
//! A writing operation returns the calls it consists of, to be made in order
//! under the model lock. A reading operation takes the function that makes a
//! call and hands back the answer.

use vstd::prelude::*;

use crate::bytes::{
    from_le_bytes, le_bytes, le_value, lemma_le_bytes_of_word, lemma_le_value_of_word, to_le_bytes,
};
use crate::calls::{
    answers, answers_all, can_ask, can_ask_all, chunk_or_zero, ffr_reads, ffr_writes, mem_reads,
    mem_writes, p_reads, p_writes, x_reads, z_reads, z_writes, za_reads, za_writes, zt0_reads,
    zt0_writes, Call, Command, FieldQuery, IsMapped, ReadMem, WordQuery, P_CHUNKS, X_REGS, ZA_ROWS,
    ZT0_CHUNKS, Z_CHUNKS,
};

verus! {

/// An independent instance of the Sail AArch64 model, known by its handle.
///
/// The handle is never null, and every call of an oracle carries it.
pub struct Oracle {
    h: usize,
}

/// Minimal comparable architectural state.
#[derive(Debug, Clone, PartialEq, Eq)]
pub struct CpuState {
    /// X0 to X30.
    pub x: [u64; 31],
    pub pc: u64,
    /// Condition flags: bit 3 is N, bit 2 is Z, bit 1 is C, bit 0 is V.
    pub nzcv: u32,
}

impl Oracle {
    #[verifier::type_invariant]
    spec fn non_null(self) -> bool {
        self.h != 0
    }

    /// The handle of the model instance.
    pub closed spec fn handle(self) -> usize {
        self.h
    }

    /// `call` performs `op` on this instance.
    pub open spec fn sends<C>(self, call: Call<C>, op: C) -> bool {
        &&& call.handle == self.handle()
        &&& call.handle != 0
        &&& call.op == op
    }

    /// `calls` perform `ops` on this instance, one for one and in order.
    pub open spec fn sends_all<C>(self, calls: Seq<Call<C>>, ops: Seq<C>) -> bool {
        &&& calls.len() == ops.len()
        &&& forall|i: int| 0 <= i < ops.len() ==> self.sends(#[trigger] calls[i], ops[i])
    }

    /// The call that performs `op` on this instance.
    fn call<C>(&self, op: C) -> (call: Call<C>)
        ensures
            self.sends(call, op),
            call == (Call { handle: self.handle(), op }),
    {
        proof {
            use_type_invariant(self);
        }
        Call { handle: self.h, op }
    }

    /// The oracle of a fresh model instance.
    pub fn new(handle: usize) -> (oracle: Self)
        requires
            handle != 0,
        ensures
            oracle.handle() == handle,
    {
        Oracle { h: handle }
    }

    /// The handle by which the instance is released in the end.
    pub fn raw_handle(&self) -> (handle: usize)
        ensures
            handle == self.handle(),
            handle != 0,
    {
        proof {
            use_type_invariant(self);
        }
        self.h
    }

    /// Write Xn (n in 0..=30). n==31 is the zero register: writes are dropped.
    #[must_use]
    pub fn set_x(&mut self, n: u32, value: u64) -> (call: Call<Command>)
        requires
            n <= 31,
        ensures
            old(self).sends(call, Command::SetGpr { n, value }),
            call == (Call { handle: old(self).handle(), op: Command::SetGpr { n, value } }),
            *final(self) == *old(self),
    {
        self.call(Command::SetGpr { n, value })
    }

    /// Read Xn (n in 0..=30). n==31 reads as zero.
    pub fn get_x<R: Fn(Call<WordQuery>) -> u64>(&self, n: u32, read: &R) -> (value: u64)
        requires
            n <= 31,
            can_ask(*read, self.handle(), WordQuery::Gpr { n }),
        ensures
            answers(*read, self.handle(), WordQuery::Gpr { n }, value),
            call_ensures(
                *read,
                (Call { handle: self.handle(), op: WordQuery::Gpr { n } },),
                value,
            ),
    {
        read(self.call(WordQuery::Gpr { n }))
    }

    /// Write the program counter.
    #[must_use]
    pub fn set_pc(&mut self, value: u64) -> (call: Call<Command>)
        ensures
            old(self).sends(call, Command::SetPc { value }),
            call == (Call { handle: old(self).handle(), op: Command::SetPc { value } }),
            *final(self) == *old(self),
    {
        self.call(Command::SetPc { value })
    }

    /// Read the program counter.
    pub fn get_pc<R: Fn(Call<WordQuery>) -> u64>(&self, read: &R) -> (value: u64)
        requires
            can_ask(*read, self.handle(), WordQuery::Pc),
        ensures
            answers(*read, self.handle(), WordQuery::Pc, value),
            call_ensures(
                *read,
                (Call { handle: self.handle(), op: WordQuery::Pc },),
                value,
            ),
    {
        read(self.call(WordQuery::Pc))
    }

    /// Set condition flags from the low 4 bits: bit3=N, bit2=Z, bit1=C, bit0=V.
    #[must_use]
    pub fn set_nzcv(&mut self, flags: u32) -> (call: Call<Command>)
        ensures
            old(self).sends(call, Command::SetNzcv { flags: (flags % 16) as u32 }),
            call == (Call {
                handle: old(self).handle(),
                op: Command::SetNzcv { flags: (flags % 16) as u32 },
            }),
            *final(self) == *old(self),
    {
        assert(flags & 0xf == flags % 16) by (bit_vector);
        self.call(Command::SetNzcv { flags: flags & 0xf })
    }

    /// Read condition flags (same bit layout as [`Oracle::set_nzcv`]).
    pub fn get_nzcv<R: Fn(Call<FieldQuery>) -> u32>(&self, read: &R) -> (nzcv: u32)
        requires
            can_ask(*read, self.handle(), FieldQuery::Nzcv),
        ensures
            exists|flags: u32| #[trigger]
                answers(*read, self.handle(), FieldQuery::Nzcv, flags) && nzcv == flags % 16,
            exists|flags: u32| #[trigger]
                call_ensures(
                    *read,
                    (Call { handle: self.handle(), op: FieldQuery::Nzcv },),
                    flags,
                ) && nzcv == flags % 16,
    {
        let flags: u32 = read(self.call(FieldQuery::Nzcv));
        assert(flags & 0xf == flags % 16) by (bit_vector);
        assert(answers(*read, self.handle(), FieldQuery::Nzcv, flags));
        flags & 0xf
    }

    /// Decode and execute a single 32-bit A64 instruction.
    #[must_use]
    pub fn step(&mut self, opcode: u32) -> (call: Call<Command>)
        ensures
            old(self).sends(call, Command::Step { opcode }),
            call == (Call { handle: old(self).handle(), op: Command::Step { opcode } }),
            *final(self) == *old(self),
    {
        self.call(Command::Step { opcode })
    }

    /// Write SVE Zn (n in 0..=31) from little-endian 64-bit chunks: `data[0]`
    /// holds bits 63:0. Chunks beyond `data.len()` (up to [`Z_CHUNKS`]) are
    /// zeroed. Writes the full 2048-bit architectural register.
    #[must_use]
    pub fn set_z(&mut self, n: u32, data: &[u64]) -> (calls: Vec<Call<Command>>)
        requires
            n <= 31,
            data@.len() <= Z_CHUNKS,
        ensures
            old(self).sends_all(calls@, z_writes(n, data@)),
            calls@.len() == 32,
            forall|c: int|
                0 <= c < 32 ==> #[trigger] calls@[c] == (Call {
                    handle: old(self).handle(),
                    op: Command::SetZ {
                        n,
                        chunk: c as u32,
                        value: if c < data@.len() {
                            data@[c]
                        } else {
                            0
                        },
                    },
                }),
            *final(self) == *old(self),
    {
        let mut calls: Vec<Call<Command>> = Vec::new();
        for i in 0..Z_CHUNKS
            invariant
                *self == *old(self),
                calls@.len() == i,
                forall|j: int|
                    0 <= j < i ==> self.sends(#[trigger] calls@[j], z_writes(n, data@)[j]),
                forall|j: int|
                    0 <= j < i ==> #[trigger] calls@[j] == (Call {
                        handle: self.handle(),
                        op: Command::SetZ {
                            n,
                            chunk: j as u32,
                            value: if j < data@.len() {
                                data@[j]
                            } else {
                                0
                            },
                        },
                    }),
        {
            let value: u64 = chunk_or_zero(data, i);
            calls.push(self.call(Command::SetZ { n, chunk: i as u32, value }));
        }
        calls
    }

    /// Read the full 2048-bit architectural SVE Zn as 64-bit chunks.
    pub fn get_z<R: Fn(Call<WordQuery>) -> u64>(&self, n: u32, read: &R) -> (out: [u64; Z_CHUNKS])
        requires
            n <= 31,
            can_ask_all(*read, self.handle(), z_reads(n)),
        ensures
            answers_all(*read, self.handle(), z_reads(n), out@),
            forall|c: int|
                0 <= c < 32 ==> call_ensures(
                    *read,
                    (Call { handle: self.handle(), op: WordQuery::Z { n, chunk: c as u32 } },),
                    #[trigger] out@[c],
                ),
    {
        let mut out = [0u64; Z_CHUNKS];
        for i in 0..Z_CHUNKS
            invariant
                can_ask_all(*read, self.handle(), z_reads(n)),
                forall|j: int|
                    0 <= j < i ==> answers(
                        *read,
                        self.handle(),
                        #[trigger] z_reads(n)[j],
                        out@[j],
                    ),
                forall|j: int|
                    0 <= j < i ==> call_ensures(
                        *read,
                        (Call {
                            handle: self.handle(),
                            op: WordQuery::Z { n, chunk: j as u32 },
                        },),
                        #[trigger] out@[j],
                    ),
        {
            let query = WordQuery::Z { n, chunk: i as u32 };
            assert(z_reads(n)[i as int] == query);
            out[i] = read(self.call(query));
        }
        out
    }

    /// Write SVE predicate Pn (n in 0..=15); same chunk layout as [`Oracle::set_z`].
    #[must_use]
    pub fn set_p(&mut self, n: u32, data: &[u64]) -> (calls: Vec<Call<Command>>)
        requires
            n <= 15,
            data@.len() <= P_CHUNKS,
        ensures
            old(self).sends_all(calls@, p_writes(n, data@)),
            calls@.len() == 4,
            forall|c: int|
                0 <= c < 4 ==> #[trigger] calls@[c] == (Call {
                    handle: old(self).handle(),
                    op: Command::SetP {
                        n,
                        chunk: c as u32,
                        value: if c < data@.len() {
                            data@[c]
                        } else {
                            0
                        },
                    },
                }),
            *final(self) == *old(self),
    {
        let mut calls: Vec<Call<Command>> = Vec::new();
        for i in 0..P_CHUNKS
            invariant
                *self == *old(self),
                calls@.len() == i,
                forall|j: int|
                    0 <= j < i ==> self.sends(#[trigger] calls@[j], p_writes(n, data@)[j]),
                forall|j: int|
                    0 <= j < i ==> #[trigger] calls@[j] == (Call {
                        handle: self.handle(),
                        op: Command::SetP {
                            n,
                            chunk: j as u32,
                            value: if j < data@.len() {
                                data@[j]
                            } else {
                                0
                            },
                        },
                    }),
        {
            let value: u64 = chunk_or_zero(data, i);
            calls.push(self.call(Command::SetP { n, chunk: i as u32, value }));
        }
        calls
    }

    /// Read the full 256-bit architectural predicate Pn as 64-bit chunks.
    pub fn get_p<R: Fn(Call<WordQuery>) -> u64>(&self, n: u32, read: &R) -> (out: [u64; P_CHUNKS])
        requires
            n <= 15,
            can_ask_all(*read, self.handle(), p_reads(n)),
        ensures
            answers_all(*read, self.handle(), p_reads(n), out@),
            forall|c: int|
                0 <= c < 4 ==> call_ensures(
                    *read,
                    (Call { handle: self.handle(), op: WordQuery::P { n, chunk: c as u32 } },),
                    #[trigger] out@[c],
                ),
    {
        let mut out = [0u64; P_CHUNKS];
        for i in 0..P_CHUNKS
            invariant
                can_ask_all(*read, self.handle(), p_reads(n)),
                forall|j: int|
                    0 <= j < i ==> answers(
                        *read,
                        self.handle(),
                        #[trigger] p_reads(n)[j],
                        out@[j],
                    ),
                forall|j: int|
                    0 <= j < i ==> call_ensures(
                        *read,
                        (Call {
                            handle: self.handle(),
                            op: WordQuery::P { n, chunk: j as u32 },
                        },),
                        #[trigger] out@[j],
                    ),
        {
            let query = WordQuery::P { n, chunk: i as u32 };
            assert(p_reads(n)[i as int] == query);
            out[i] = read(self.call(query));
        }
        out
    }

    /// Current effective SVE vector length in bits (after ZCR clamping).
    pub fn vl_bits<R: Fn(Call<WordQuery>) -> u64>(&self, read: &R) -> (value: u64)
        requires
            can_ask(*read, self.handle(), WordQuery::Vl),
        ensures
            answers(*read, self.handle(), WordQuery::Vl, value),
            call_ensures(
                *read,
                (Call { handle: self.handle(), op: WordQuery::Vl },),
                value,
            ),
    {
        read(self.call(WordQuery::Vl))
    }

    /// Write the FP control register (rounding mode etc.).
    #[must_use]
    pub fn set_fpcr(&mut self, value: u64) -> (call: Call<Command>)
        ensures
            old(self).sends(call, Command::SetFpcr { value }),
            call == (Call { handle: old(self).handle(), op: Command::SetFpcr { value } }),
            *final(self) == *old(self),
    {
        self.call(Command::SetFpcr { value })
    }

    /// Read the FP control register.
    pub fn get_fpcr<R: Fn(Call<WordQuery>) -> u64>(&self, read: &R) -> (value: u64)
        requires
            can_ask(*read, self.handle(), WordQuery::Fpcr),
        ensures
            answers(*read, self.handle(), WordQuery::Fpcr, value),
            call_ensures(
                *read,
                (Call { handle: self.handle(), op: WordQuery::Fpcr },),
                value,
            ),
    {
        read(self.call(WordQuery::Fpcr))
    }

    /// Write the FP status register: cumulative exception flags
    /// (IOC/DZC/OFC/UFC/IXC, QC). Clear it before an operation and diff it after.
    #[must_use]
    pub fn set_fpsr(&mut self, value: u64) -> (call: Call<Command>)
        ensures
            old(self).sends(call, Command::SetFpsr { value }),
            call == (Call { handle: old(self).handle(), op: Command::SetFpsr { value } }),
            *final(self) == *old(self),
    {
        self.call(Command::SetFpsr { value })
    }

    /// Read the FP status register.
    pub fn get_fpsr<R: Fn(Call<WordQuery>) -> u64>(&self, read: &R) -> (value: u64)
        requires
            can_ask(*read, self.handle(), WordQuery::Fpsr),
        ensures
            answers(*read, self.handle(), WordQuery::Fpsr, value),
            call_ensures(
                *read,
                (Call { handle: self.handle(), op: WordQuery::Fpsr },),
                value,
            ),
    {
        read(self.call(WordQuery::Fpsr))
    }

    /// Write a row (0..=255) of SME ZA storage; chunk layout as [`Oracle::set_z`].
    #[must_use]
    pub fn set_za_row(&mut self, row: u32, data: &[u64]) -> (calls: Vec<Call<Command>>)
        requires
            row < ZA_ROWS,
            data@.len() <= Z_CHUNKS,
        ensures
            old(self).sends_all(calls@, za_writes(row, data@)),
            calls@.len() == 32,
            forall|c: int|
                0 <= c < 32 ==> #[trigger] calls@[c] == (Call {
                    handle: old(self).handle(),
                    op: Command::SetZa {
                        row,
                        chunk: c as u32,
                        value: if c < data@.len() {
                            data@[c]
                        } else {
                            0
                        },
                    },
                }),
            *final(self) == *old(self),
    {
        let mut calls: Vec<Call<Command>> = Vec::new();
        for i in 0..Z_CHUNKS
            invariant
                *self == *old(self),
                calls@.len() == i,
                forall|j: int|
                    0 <= j < i ==> self.sends(#[trigger] calls@[j], za_writes(row, data@)[j]),
                forall|j: int|
                    0 <= j < i ==> #[trigger] calls@[j] == (Call {
                        handle: self.handle(),
                        op: Command::SetZa {
                            row,
                            chunk: j as u32,
                            value: if j < data@.len() {
                                data@[j]
                            } else {
                                0
                            },
                        },
                    }),
        {
            let value: u64 = chunk_or_zero(data, i);
            calls.push(self.call(Command::SetZa { row, chunk: i as u32, value }));
        }
        calls
    }

    /// Read a full 2048-bit ZA row.
    pub fn get_za_row<R: Fn(Call<WordQuery>) -> u64>(
        &self,
        row: u32,
        read: &R,
    ) -> (out: [u64; Z_CHUNKS])
        requires
            row < ZA_ROWS,
            can_ask_all(*read, self.handle(), za_reads(row)),
        ensures
            answers_all(*read, self.handle(), za_reads(row), out@),
            forall|c: int|
                0 <= c < 32 ==> call_ensures(
                    *read,
                    (Call { handle: self.handle(), op: WordQuery::Za { row, chunk: c as u32 } },),
                    #[trigger] out@[c],
                ),
    {
        let mut out = [0u64; Z_CHUNKS];
        for i in 0..Z_CHUNKS
            invariant
                can_ask_all(*read, self.handle(), za_reads(row)),
                forall|j: int|
                    0 <= j < i ==> answers(
                        *read,
                        self.handle(),
                        #[trigger] za_reads(row)[j],
                        out@[j],
                    ),
                forall|j: int|
                    0 <= j < i ==> call_ensures(
                        *read,
                        (Call {
                            handle: self.handle(),
                            op: WordQuery::Za { row, chunk: j as u32 },
                        },),
                        #[trigger] out@[j],
                    ),
        {
            let query = WordQuery::Za { row, chunk: i as u32 };
            assert(za_reads(row)[i as int] == query);
            out[i] = read(self.call(query));
        }
        out
    }

    /// SVCR view of PSTATE: bit1 = SM (streaming mode), bit0 = ZA enabled.
    /// Toggle architecturally by stepping SMSTART (`0xD503477F`) / SMSTOP
    /// (`0xD503467F`) so mode-switch side effects apply.
    pub fn svcr<R: Fn(Call<FieldQuery>) -> u32>(&self, read: &R) -> (value: u32)
        requires
            can_ask(*read, self.handle(), FieldQuery::Svcr),
        ensures
            answers(*read, self.handle(), FieldQuery::Svcr, value),
            call_ensures(
                *read,
                (Call { handle: self.handle(), op: FieldQuery::Svcr },),
                value,
            ),
    {
        read(self.call(FieldQuery::Svcr))
    }

    /// Write the current (banked) stack pointer, which follows PSTATE.SP/EL,
    /// i.e. SP_EL3 in the reset state.
    #[must_use]
    pub fn set_sp(&mut self, value: u64) -> (call: Call<Command>)
        ensures
            old(self).sends(call, Command::SetSp { value }),
            call == (Call { handle: old(self).handle(), op: Command::SetSp { value } }),
            *final(self) == *old(self),
    {
        self.call(Command::SetSp { value })
    }

    /// Read the current (banked) stack pointer.
    pub fn get_sp<R: Fn(Call<WordQuery>) -> u64>(&self, read: &R) -> (value: u64)
        requires
            can_ask(*read, self.handle(), WordQuery::Sp),
        ensures
            answers(*read, self.handle(), WordQuery::Sp, value),
            call_ensures(
                *read,
                (Call { handle: self.handle(), op: WordQuery::Sp },),
                value,
            ),
    {
        read(self.call(WordQuery::Sp))
    }

    /// Packed PSTATE word. Layout (LSB first): `[0]`=F `[1]`=I `[2]`=A `[3]`=D,
    /// `[5:4]`=BTYPE, `[6]`=SSBS `[7]`=PAN `[8]`=UAO `[9]`=DIT `[10]`=TCO,
    /// `[12:11]`=EL, `[13]`=SP(SPSel), `[14]`=ZA `[15]`=SM.
    pub fn get_pstate<R: Fn(Call<WordQuery>) -> u64>(&self, read: &R) -> (value: u64)
        requires
            can_ask(*read, self.handle(), WordQuery::Pstate),
        ensures
            answers(*read, self.handle(), WordQuery::Pstate, value),
            call_ensures(
                *read,
                (Call { handle: self.handle(), op: WordQuery::Pstate },),
                value,
            ),
    {
        read(self.call(WordQuery::Pstate))
    }

    /// Write the maskable PSTATE bits (DAIF/BTYPE/SSBS/PAN/UAO/DIT/TCO/SPSel).
    /// EL, SM and ZA in the word are ignored: change those architecturally
    /// (ERET, SMSTART/SMSTOP).
    #[must_use]
    pub fn set_pstate(&mut self, value: u64) -> (call: Call<Command>)
        ensures
            old(self).sends(call, Command::SetPstate { value }),
            call == (Call { handle: old(self).handle(), op: Command::SetPstate { value } }),
            *final(self) == *old(self),
    {
        self.call(Command::SetPstate { value })
    }

    /// Write the SVE first-fault register (256 bits), chunk layout as [`Oracle::set_p`].
    #[must_use]
    pub fn set_ffr(&mut self, data: &[u64]) -> (calls: Vec<Call<Command>>)
        requires
            data@.len() <= P_CHUNKS,
        ensures
            old(self).sends_all(calls@, ffr_writes(data@)),
            calls@.len() == 4,
            forall|c: int|
                0 <= c < 4 ==> #[trigger] calls@[c] == (Call {
                    handle: old(self).handle(),
                    op: Command::SetFfr {
                        chunk: c as u32,
                        value: if c < data@.len() {
                            data@[c]
                        } else {
                            0
                        },
                    },
                }),
            *final(self) == *old(self),
    {
        let mut calls: Vec<Call<Command>> = Vec::new();
        for i in 0..P_CHUNKS
            invariant
                *self == *old(self),
                calls@.len() == i,
                forall|j: int|
                    0 <= j < i ==> self.sends(#[trigger] calls@[j], ffr_writes(data@)[j]),
                forall|j: int|
                    0 <= j < i ==> #[trigger] calls@[j] == (Call {
                        handle: self.handle(),
                        op: Command::SetFfr {
                            chunk: j as u32,
                            value: if j < data@.len() {
                                data@[j]
                            } else {
                                0
                            },
                        },
                    }),
        {
            let value: u64 = chunk_or_zero(data, i);
            calls.push(self.call(Command::SetFfr { chunk: i as u32, value }));
        }
        calls
    }

    /// Read the SVE first-fault register.
    pub fn get_ffr<R: Fn(Call<WordQuery>) -> u64>(&self, read: &R) -> (out: [u64; P_CHUNKS])
        requires
            can_ask_all(*read, self.handle(), ffr_reads()),
        ensures
            answers_all(*read, self.handle(), ffr_reads(), out@),
            forall|c: int|
                0 <= c < 4 ==> call_ensures(
                    *read,
                    (Call { handle: self.handle(), op: WordQuery::Ffr { chunk: c as u32 } },),
                    #[trigger] out@[c],
                ),
    {
        let mut out = [0u64; P_CHUNKS];
        for i in 0..P_CHUNKS
            invariant
                can_ask_all(*read, self.handle(), ffr_reads()),
                forall|j: int|
                    0 <= j < i ==> answers(
                        *read,
                        self.handle(),
                        #[trigger] ffr_reads()[j],
                        out@[j],
                    ),
                forall|j: int|
                    0 <= j < i ==> call_ensures(
                        *read,
                        (Call {
                            handle: self.handle(),
                            op: WordQuery::Ffr { chunk: j as u32 },
                        },),
                        #[trigger] out@[j],
                    ),
        {
            let query = WordQuery::Ffr { chunk: i as u32 };
            assert(ffr_reads()[i as int] == query);
            out[i] = read(self.call(query));
        }
        out
    }

    /// Write the SME2 ZT0 lookup table (512 bits = [`ZT0_CHUNKS`] chunks).
    #[must_use]
    pub fn set_zt0(&mut self, data: &[u64]) -> (calls: Vec<Call<Command>>)
        requires
            data@.len() <= ZT0_CHUNKS,
        ensures
            old(self).sends_all(calls@, zt0_writes(data@)),
            calls@.len() == 8,
            forall|c: int|
                0 <= c < 8 ==> #[trigger] calls@[c] == (Call {
                    handle: old(self).handle(),
                    op: Command::SetZt0 {
                        chunk: c as u32,
                        value: if c < data@.len() {
                            data@[c]
                        } else {
                            0
                        },
                    },
                }),
            *final(self) == *old(self),
    {
        let mut calls: Vec<Call<Command>> = Vec::new();
        for i in 0..ZT0_CHUNKS
            invariant
                *self == *old(self),
                calls@.len() == i,
                forall|j: int|
                    0 <= j < i ==> self.sends(#[trigger] calls@[j], zt0_writes(data@)[j]),
                forall|j: int|
                    0 <= j < i ==> #[trigger] calls@[j] == (Call {
                        handle: self.handle(),
                        op: Command::SetZt0 {
                            chunk: j as u32,
                            value: if j < data@.len() {
                                data@[j]
                            } else {
                                0
                            },
                        },
                    }),
        {
            let value: u64 = chunk_or_zero(data, i);
            calls.push(self.call(Command::SetZt0 { chunk: i as u32, value }));
        }
        calls
    }

    /// Read the SME2 ZT0 lookup table.
    pub fn get_zt0<R: Fn(Call<WordQuery>) -> u64>(&self, read: &R) -> (out: [u64; ZT0_CHUNKS])
        requires
            can_ask_all(*read, self.handle(), zt0_reads()),
        ensures
            answers_all(*read, self.handle(), zt0_reads(), out@),
            forall|c: int|
                0 <= c < 8 ==> call_ensures(
                    *read,
                    (Call { handle: self.handle(), op: WordQuery::Zt0 { chunk: c as u32 } },),
                    #[trigger] out@[c],
                ),
    {
        let mut out = [0u64; ZT0_CHUNKS];
        for i in 0..ZT0_CHUNKS
            invariant
                can_ask_all(*read, self.handle(), zt0_reads()),
                forall|j: int|
                    0 <= j < i ==> answers(
                        *read,
                        self.handle(),
                        #[trigger] zt0_reads()[j],
                        out@[j],
                    ),
                forall|j: int|
                    0 <= j < i ==> call_ensures(
                        *read,
                        (Call {
                            handle: self.handle(),
                            op: WordQuery::Zt0 { chunk: j as u32 },
                        },),
                        #[trigger] out@[j],
                    ),
        {
            let query = WordQuery::Zt0 { chunk: i as u32 };
            assert(zt0_reads()[i as int] == query);
            out[i] = read(self.call(query));
        }
        out
    }

    /// Write the EL0 thread pointer (a common MRS/MSR target).
    #[must_use]
    pub fn set_tpidr_el0(&mut self, value: u64) -> (call: Call<Command>)
        ensures
            old(self).sends(call, Command::SetTpidrEl0 { value }),
            call == (Call { handle: old(self).handle(), op: Command::SetTpidrEl0 { value } }),
            *final(self) == *old(self),
    {
        self.call(Command::SetTpidrEl0 { value })
    }

    /// Read the EL0 thread pointer.
    pub fn get_tpidr_el0<R: Fn(Call<WordQuery>) -> u64>(&self, read: &R) -> (value: u64)
        requires
            can_ask(*read, self.handle(), WordQuery::TpidrEl0),
        ensures
            answers(*read, self.handle(), WordQuery::TpidrEl0, value),
            call_ensures(
                *read,
                (Call { handle: self.handle(), op: WordQuery::TpidrEl0 },),
                value,
            ),
    {
        read(self.call(WordQuery::TpidrEl0))
    }

    /// Write the read-only EL0 thread pointer.
    #[must_use]
    pub fn set_tpidrro_el0(&mut self, value: u64) -> (call: Call<Command>)
        ensures
            old(self).sends(call, Command::SetTpidrroEl0 { value }),
            call == (Call { handle: old(self).handle(), op: Command::SetTpidrroEl0 { value } }),
            *final(self) == *old(self),
    {
        self.call(Command::SetTpidrroEl0 { value })
    }

    /// Read the read-only EL0 thread pointer.
    pub fn get_tpidrro_el0<R: Fn(Call<WordQuery>) -> u64>(&self, read: &R) -> (value: u64)
        requires
            can_ask(*read, self.handle(), WordQuery::TpidrroEl0),
        ensures
            answers(*read, self.handle(), WordQuery::TpidrroEl0, value),
            call_ensures(
                *read,
                (Call { handle: self.handle(), op: WordQuery::TpidrroEl0 },),
                value,
            ),
    {
        read(self.call(WordQuery::TpidrroEl0))
    }

    /// Exception syndrome at EL3: after a step that traps, it classifies the trap.
    pub fn esr_el3<R: Fn(Call<WordQuery>) -> u64>(&self, read: &R) -> (value: u64)
        requires
            can_ask(*read, self.handle(), WordQuery::EsrEl3),
        ensures
            answers(*read, self.handle(), WordQuery::EsrEl3, value),
            call_ensures(
                *read,
                (Call { handle: self.handle(), op: WordQuery::EsrEl3 },),
                value,
            ),
    {
        read(self.call(WordQuery::EsrEl3))
    }

    /// Exception link at EL3: after a step that traps, the faulting PC.
    pub fn elr_el3<R: Fn(Call<WordQuery>) -> u64>(&self, read: &R) -> (value: u64)
        requires
            can_ask(*read, self.handle(), WordQuery::ElrEl3),
        ensures
            answers(*read, self.handle(), WordQuery::ElrEl3, value),
            call_ensures(
                *read,
                (Call { handle: self.handle(), op: WordQuery::ElrEl3 },),
                value,
            ),
    {
        read(self.call(WordQuery::ElrEl3))
    }

    /// Fault address at EL3: after a step that traps, the faulting address.
    pub fn far_el3<R: Fn(Call<WordQuery>) -> u64>(&self, read: &R) -> (value: u64)
        requires
            can_ask(*read, self.handle(), WordQuery::FarEl3),
        ensures
            answers(*read, self.handle(), WordQuery::FarEl3, value),
            call_ensures(
                *read,
                (Call { handle: self.handle(), op: WordQuery::FarEl3 },),
                value,
            ),
    {
        read(self.call(WordQuery::FarEl3))
    }

    /// Read a single byte at `addr` (0 if the page was never written).
    pub fn read_mem_byte<R: Fn(Call<ReadMem>) -> u8>(&self, addr: u64, read: &R) -> (byte: u8)
        requires
            can_ask(*read, self.handle(), (ReadMem { addr })),
        ensures
            answers(*read, self.handle(), (ReadMem { addr }), byte),
            call_ensures(
                *read,
                (Call { handle: self.handle(), op: (ReadMem { addr }) },),
                byte,
            ),
    {
        read(self.call(ReadMem { addr }))
    }

    /// Write a single byte at `addr`.
    #[must_use]
    pub fn write_mem_byte(&mut self, addr: u64, byte: u8) -> (call: Call<Command>)
        ensures
            old(self).sends(call, Command::WriteMem { addr, byte }),
            call == (Call { handle: old(self).handle(), op: Command::WriteMem { addr, byte } }),
            *final(self) == *old(self),
    {
        self.call(Command::WriteMem { addr, byte })
    }

    /// Fill `buf` with the bytes at `addr..addr + buf.len()`.
    pub fn read_mem<R: Fn(Call<ReadMem>) -> u8>(&self, addr: u64, buf: &mut [u8], read: &R)
        requires
            can_ask_all(*read, self.handle(), mem_reads(addr, old(buf)@.len())),
        ensures
            answers_all(*read, self.handle(), mem_reads(addr, old(buf)@.len()), final(buf)@),
            final(buf)@.len() == old(buf)@.len(),
            forall|i: int|
                0 <= i < old(buf)@.len() ==> call_ensures(
                    *read,
                    (Call {
                        handle: self.handle(),
                        op: ReadMem {
                            addr: if addr + i < 0x1_0000_0000_0000_0000 {
                                (addr + i) as u64
                            } else {
                                (addr + i - 0x1_0000_0000_0000_0000) as u64
                            },
                        },
                    },),
                    #[trigger] final(buf)@[i],
                ),
    {
        let len: usize = buf.len();
        for i in 0..len
            invariant
                len == buf@.len(),
                len == old(buf)@.len(),
                can_ask_all(*read, self.handle(), mem_reads(addr, len as nat)),
                forall|j: int|
                    0 <= j < i ==> answers(
                        *read,
                        self.handle(),
                        #[trigger] mem_reads(addr, len as nat)[j],
                        buf@[j],
                    ),
                forall|j: int|
                    0 <= j < i ==> call_ensures(
                        *read,
                        (Call {
                            handle: self.handle(),
                            op: ReadMem {
                                addr: if addr + j < 0x1_0000_0000_0000_0000 {
                                    (addr + j) as u64
                                } else {
                                    (addr + j - 0x1_0000_0000_0000_0000) as u64
                                },
                            },
                        },),
                        #[trigger] buf@[j],
                    ),
        {
            let query = ReadMem { addr: addr.wrapping_add(i as u64) };
            assert(mem_reads(addr, len as nat)[i as int] == query);
            buf[i] = read(self.call(query));
        }
    }

    /// Write `data` to memory starting at `addr`.
    #[must_use]
    pub fn write_mem(&mut self, addr: u64, data: &[u8]) -> (calls: Vec<Call<Command>>)
        ensures
            old(self).sends_all(calls@, mem_writes(addr, data@)),
            calls@.len() == data@.len(),
            forall|i: int|
                0 <= i < data@.len() ==> #[trigger] calls@[i] == (Call {
                    handle: old(self).handle(),
                    op: Command::WriteMem {
                        addr: if addr + i < 0x1_0000_0000_0000_0000 {
                            (addr + i) as u64
                        } else {
                            (addr + i - 0x1_0000_0000_0000_0000) as u64
                        },
                        byte: data@[i],
                    },
                }),
            *final(self) == *old(self),
    {
        let mut calls: Vec<Call<Command>> = Vec::new();
        for i in 0..data.len()
            invariant
                *self == *old(self),
                calls@.len() == i,
                forall|j: int|
                    0 <= j < i ==> self.sends(#[trigger] calls@[j], mem_writes(addr, data@)[j]),
                forall|j: int|
                    0 <= j < i ==> #[trigger] calls@[j] == (Call {
                        handle: self.handle(),
                        op: Command::WriteMem {
                            addr: if addr + j < 0x1_0000_0000_0000_0000 {
                                (addr + j) as u64
                            } else {
                                (addr + j - 0x1_0000_0000_0000_0000) as u64
                            },
                            byte: data@[j],
                        },
                    }),
        {
            calls.push(
                self.call(
                    Command::WriteMem { addr: addr.wrapping_add(i as u64), byte: data[i] },
                ),
            );
        }
        calls
    }

    /// Read a little-endian `u64` at `addr` (matches AArch64 byte order).
    pub fn read_mem_u64<R: Fn(Call<ReadMem>) -> u8>(&self, addr: u64, read: &R) -> (value: u64)
        requires
            can_ask_all(*read, self.handle(), mem_reads(addr, 8)),
        ensures
            exists|bytes: Seq<u8>| #[trigger]
                answers_all(*read, self.handle(), mem_reads(addr, 8), bytes) && value == le_value(
                    bytes,
                ),
            exists|bytes: Seq<u8>|
                #![trigger le_value(bytes)]
                {
                    &&& bytes.len() == 8
                    &&& forall|i: int|
                        0 <= i < 8 ==> call_ensures(
                            *read,
                            (Call {
                                handle: self.handle(),
                                op: ReadMem {
                                    addr: if addr + i < 0x1_0000_0000_0000_0000 {
                                        (addr + i) as u64
                                    } else {
                                        (addr + i - 0x1_0000_0000_0000_0000) as u64
                                    },
                                },
                            },),
                            #[trigger] bytes[i],
                        )
                    &&& value == bytes[0] + 0x100 * bytes[1] + 0x1_0000 * bytes[2] + 0x100_0000
                        * bytes[3] + 0x1_0000_0000 * bytes[4] + 0x100_0000_0000 * bytes[5]
                        + 0x1_0000_0000_0000 * bytes[6] + 0x100_0000_0000_0000 * bytes[7]
                },
    {
        let mut b = [0u8; 8];
        self.read_mem(addr, &mut b, read);
        assert(answers_all(*read, self.handle(), mem_reads(addr, 8), b@));
        proof {
            lemma_le_value_of_word(b@);
        }
        from_le_bytes(&b)
    }

    /// Write `value` as a little-endian `u64` at `addr`.
    #[must_use]
    pub fn write_mem_u64(&mut self, addr: u64, value: u64) -> (calls: Vec<Call<Command>>)
        ensures
            old(self).sends_all(calls@, mem_writes(addr, le_bytes(value as nat, 8))),
            calls@.len() == 8,
            forall|i: int|
                0 <= i < 8 ==> #[trigger] calls@[i] == (Call {
                    handle: old(self).handle(),
                    op: Command::WriteMem {
                        addr: if addr + i < 0x1_0000_0000_0000_0000 {
                            (addr + i) as u64
                        } else {
                            (addr + i - 0x1_0000_0000_0000_0000) as u64
                        },
                        byte: ((value >> ((8 * i) as u64)) & 0xff) as u8,
                    },
                }),
            *final(self) == *old(self),
    {
        let bytes = to_le_bytes(value);
        proof {
            lemma_le_bytes_of_word(value);
        }
        self.write_mem(addr, bytes.as_slice())
    }

    /// True iff the region containing `addr` has ever been written (a backing
    /// block exists). Because [`read_mem_byte`](Self::read_mem_byte) returns 0
    /// for untouched memory, this is the only way to distinguish "explicitly
    /// wrote 0" from "never touched". Granularity is the runtime's block size
    /// (currently 16 MiB), so a single write maps its whole containing block.
    pub fn is_mapped<R: Fn(Call<IsMapped>) -> bool>(&self, addr: u64, read: &R) -> (mapped: bool)
        requires
            can_ask(*read, self.handle(), (IsMapped { addr })),
        ensures
            answers(*read, self.handle(), (IsMapped { addr }), mapped),
            call_ensures(
                *read,
                (Call { handle: self.handle(), op: (IsMapped { addr }) },),
                mapped,
            ),
    {
        read(self.call(IsMapped { addr }))
    }

    /// Snapshot of X0..X30, PC and NZCV for diffing against another model.
    pub fn snapshot<W: Fn(Call<WordQuery>) -> u64, F: Fn(Call<FieldQuery>) -> u32>(
        &self,
        read_word: &W,
        read_field: &F,
    ) -> (state: CpuState)
        requires
            can_ask_all(*read_word, self.handle(), x_reads()),
            can_ask(*read_word, self.handle(), WordQuery::Pc),
            can_ask(*read_field, self.handle(), FieldQuery::Nzcv),
        ensures
            answers_all(*read_word, self.handle(), x_reads(), state.x@),
            answers(*read_word, self.handle(), WordQuery::Pc, state.pc),
            forall|n: int|
                0 <= n < 31 ==> call_ensures(
                    *read_word,
                    (Call { handle: self.handle(), op: WordQuery::Gpr { n: n as u32 } },),
                    #[trigger] state.x@[n],
                ),
            call_ensures(
                *read_word,
                (Call { handle: self.handle(), op: WordQuery::Pc },),
                state.pc,
            ),
            exists|flags: u32| #[trigger]
                call_ensures(
                    *read_field,
                    (Call { handle: self.handle(), op: FieldQuery::Nzcv },),
                    flags,
                ) && state.nzcv == flags % 16,
            exists|flags: u32| #[trigger]
                answers(*read_field, self.handle(), FieldQuery::Nzcv, flags) && state.nzcv == flags
                    % 16,
    {
        let mut x = [0u64; 31];
        for i in 0..X_REGS
            invariant
                can_ask_all(*read_word, self.handle(), x_reads()),
                forall|j: int|
                    0 <= j < i ==> answers(
                        *read_word,
                        self.handle(),
                        #[trigger] x_reads()[j],
                        x@[j],
                    ),
                forall|j: int|
                    0 <= j < i ==> call_ensures(
                        *read_word,
                        (Call { handle: self.handle(), op: WordQuery::Gpr { n: j as u32 } },),
                        #[trigger] x@[j],
                    ),
        {
            assert(x_reads()[i as int] == WordQuery::Gpr { n: i as u32 });
            x[i] = self.get_x(i as u32, read_word);
        }
        CpuState { x, pc: self.get_pc(read_word), nzcv: self.get_nzcv(read_field) }
    }
}

} // verus!
