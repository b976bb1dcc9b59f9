//! The effect of each operation, spelled out call by call.
//!
//! The laws here say which register chunk and which byte of memory an operation
//! is about, by name and number: chunk `c` of the data is chunk `c` of the very
//! register that the operation names, and byte `i` lies `i` above the address.

use vstd::prelude::*;

use crate::bytes::{le_bytes, le_value, lemma_le_bytes_of_word, lemma_le_value_of_word};
use crate::calls::{
    answers, answers_all, chunk_at, ffr_reads, ffr_writes, mem_reads, mem_writes, p_reads,
    p_writes, padded, wrapped, x_reads, z_reads, z_writes, za_reads, za_writes, zt0_reads,
    zt0_writes, Call, Command, FieldQuery, IsMapped, ReadMem, WordQuery, P_CHUNKS, ZT0_CHUNKS,
    Z_CHUNKS,
};
use crate::laws::{
    in_range, law_ffr_write, law_memory_write, law_p_write, law_z_write, law_za_row_write,
    law_zt0_write, lemma_mem_writes_blocks, ops, shares_block,
};
use crate::lock::Acquired;
use crate::machine::{block_of, Isa, Machine};
use crate::oracle::Oracle;

verus! {

// ---- calls ------------------------------------------------------------------

/// What an oracle sends carries its own handle and the operation itself.
pub proof fn law_sent_calls<C>(oracle: Oracle, calls: Seq<Call<C>>, commands: Seq<C>)
    requires
        oracle.sends_all(calls, commands),
    ensures
        calls.len() == commands.len(),
        forall|i: int|
            0 <= i < calls.len() ==> #[trigger] calls[i] == (Call {
                handle: oracle.handle(),
                op: commands[i],
            }),
{
    assert forall|i: int| 0 <= i < calls.len() implies #[trigger] calls[i] == (Call {
        handle: oracle.handle(),
        op: commands[i],
    }) by {
        assert(oracle.sends(calls[i], commands[i]));
    }
}

/// Answers are what the reading function returned for the query itself, on the
/// handle itself.
pub proof fn law_answers_are_returned<Q, A, R: Fn(Call<Q>) -> A>(
    read: R,
    handle: usize,
    queries: Seq<Q>,
    found: Seq<A>,
)
    requires
        answers_all(read, handle, queries, found),
    ensures
        found.len() == queries.len(),
        forall|i: int|
            0 <= i < found.len() ==> call_ensures(
                read,
                (Call { handle, op: queries[i] },),
                #[trigger] found[i],
            ),
{
    assert forall|i: int| 0 <= i < found.len() implies call_ensures(
        read,
        (Call { handle, op: queries[i] },),
        #[trigger] found[i],
    ) by {
        assert(answers(read, handle, queries[i], found[i]));
    }
}

/// The guard of either outcome is the guard in it.
pub proof fn law_guard_is_kept<G>(guard: G)
    ensures
        Acquired::Clean(guard).guard() == guard,
        Acquired::Poisoned(guard).guard() == guard,
{
}

// ---- registers that are one word wide ---------------------------------------

/// Each command that stores a word stores it to the register of its name.
pub proof fn law_scalar_writes(machine: Machine, isa: Isa, n: u32, value: u64)
    ensures
        n <= 30 ==> machine.after(isa, Command::SetGpr { n, value }).word(WordQuery::Gpr { n })
            == value,
        machine.after(isa, Command::SetPc { value }).word(WordQuery::Pc) == value,
        machine.after(isa, Command::SetFpcr { value }).word(WordQuery::Fpcr) == value,
        machine.after(isa, Command::SetFpsr { value }).word(WordQuery::Fpsr) == value,
        machine.after(isa, Command::SetSp { value }).word(WordQuery::Sp) == value,
        machine.after(isa, Command::SetTpidrEl0 { value }).word(WordQuery::TpidrEl0) == value,
        machine.after(isa, Command::SetTpidrroEl0 { value }).word(WordQuery::TpidrroEl0) == value,
        machine.after(isa, Command::SetPstate { value }).word(WordQuery::Pstate) == (
        machine.word(WordQuery::Pstate) & !0x27FFu64) | (value & 0x27FF),
{
}

/// A command that stores a word keeps every register but the one of its name.
pub proof fn law_scalar_writes_keep_others(
    machine: Machine,
    isa: Isa,
    n: u32,
    value: u64,
    query: WordQuery,
)
    ensures
        query != (WordQuery::Gpr { n }) ==> machine.after(isa, Command::SetGpr { n, value }).word(
            query,
        ) == machine.word(query),
        query != WordQuery::Pc ==> machine.after(isa, Command::SetPc { value }).word(query)
            == machine.word(query),
        query != WordQuery::Fpcr ==> machine.after(isa, Command::SetFpcr { value }).word(query)
            == machine.word(query),
        query != WordQuery::Fpsr ==> machine.after(isa, Command::SetFpsr { value }).word(query)
            == machine.word(query),
        query != WordQuery::Sp ==> machine.after(isa, Command::SetSp { value }).word(query)
            == machine.word(query),
        query != WordQuery::TpidrEl0 ==> machine.after(isa, Command::SetTpidrEl0 { value }).word(
            query,
        ) == machine.word(query),
        query != WordQuery::TpidrroEl0 ==> machine.after(
            isa,
            Command::SetTpidrroEl0 { value },
        ).word(query) == machine.word(query),
        query != WordQuery::Pstate && query != WordQuery::Sp ==> machine.after(
            isa,
            Command::SetPstate { value },
        ).word(query) == machine.word(query),
{
}

/// Above EL0, SPSel (bit 13) chooses between two stack pointers: what is stored
/// to one of them does not show in the other, and shows again once the choice is
/// taken back.
pub proof fn law_sp_follows_spsel(machine: Machine, isa: Isa, value: u64)
    requires
        (machine.word(WordQuery::Pstate) >> 11) & 3 != 0,
    ensures
        ({
            let here = machine.word(WordQuery::Pstate);
            let there = here ^ 0x2000;
            let stored = machine.after(isa, Command::SetSp { value });
            let switched = stored.after(isa, Command::SetPstate { value: there });
            &&& switched.word(WordQuery::Sp) == machine.after(
                isa,
                Command::SetPstate { value: there },
            ).word(WordQuery::Sp)
            &&& switched.after(isa, Command::SetPstate { value: here }).word(WordQuery::Sp) == value
        }),
{
    let here: u64 = machine.word(WordQuery::Pstate);
    assert((here >> 11) & 3 != 0 ==> {
        let there = (here & !0x27FFu64) | ((here ^ 0x2000) & 0x27FF);
        let back = (there & !0x27FFu64) | (here & 0x27FF);
        &&& (there >> 13) & 1 != (here >> 13) & 1
        &&& (there >> 11) & 3 == (here >> 11) & 3
        &&& (here >> 13) & 1 <= 1
        &&& (there >> 13) & 1 <= 1
        &&& back == here
    }) by (bit_vector);
}

/// The condition flags are the four low bits, and each of them reads back as it
/// was set, and nothing above them. `call` is what `set_nzcv(flags)` sends,
/// `found` is what `get_nzcv` returns where it was answered `raw`.
pub proof fn law_nzcv_bits<R: Fn(Call<FieldQuery>) -> u32>(
    machine: Machine,
    isa: Isa,
    oracle: Oracle,
    call: Call<Command>,
    flags: u32,
    read: R,
    raw: u32,
    found: u32,
)
    requires
        oracle.sends(call, Command::SetNzcv { flags: (flags % 16) as u32 }),
        machine.after(isa, call.op).answers_fields(read, oracle.handle()),
        call_ensures(read, (Call { handle: oracle.handle(), op: FieldQuery::Nzcv },), raw),
        found == raw % 16,
    ensures
        found & 8 == flags & 8,
        found & 4 == flags & 4,
        found & 2 == flags & 2,
        found & 1 == flags & 1,
        found < 16,
{
    assert(answers(read, oracle.handle(), FieldQuery::Nzcv, raw));
    assert({
        let low = flags % 16;
        &&& low % 16 == low
        &&& low & 8 == flags & 8
        &&& low & 4 == flags & 4
        &&& low & 2 == flags & 2
        &&& low & 1 == flags & 1
    }) by (bit_vector);
}

/// Entry `n` of a snapshot is Xn.
pub proof fn law_snapshot_registers<R: Fn(Call<WordQuery>) -> u64>(
    machine: Machine,
    read: R,
    handle: usize,
    x: Seq<u64>,
)
    requires
        answers_all(read, handle, x_reads(), x),
        machine.answers_words(read, handle),
    ensures
        x.len() == 31,
        forall|n: int|
            0 <= n < 31 ==> #[trigger] x[n] == machine.word(WordQuery::Gpr { n: n as u32 }),
{
    assert forall|n: int| 0 <= n < 31 implies #[trigger] x[n] == machine.word(
        WordQuery::Gpr { n: n as u32 },
    ) by {
        assert(answers(read, handle, x_reads()[n], x[n]));
    }
}

// ---- wide registers ---------------------------------------------------------

/// Data is padded with zeros, and with nothing else.
pub proof fn law_padding_is_zero(data: Seq<u64>, chunks: nat)
    requires
        data.len() <= chunks,
    ensures
        padded(data, chunks).len() == chunks,
        forall|c: int| 0 <= c < data.len() ==> #[trigger] padded(data, chunks)[c] == data[c],
        forall|c: int| data.len() <= c < chunks ==> #[trigger] padded(data, chunks)[c] == 0,
        forall|c: int| data.len() <= c ==> #[trigger] chunk_at(data, c) == 0,
{
}

/// `set_z` sends 32 commands: number `c` stores chunk `c` of the data to chunk
/// `c` of Zn, and zero for a chunk beyond the data. That is what Zn then
/// holds; every other register and all of memory keep their values.
pub proof fn law_set_z(
    machine: Machine,
    isa: Isa,
    oracle: Oracle,
    calls: Seq<Call<Command>>,
    n: u32,
    data: Seq<u64>,
)
    requires
        n <= 31,
        data.len() <= 32,
        oracle.sends_all(calls, z_writes(n, data)),
    ensures
        calls.len() == 32,
        forall|c: int|
            0 <= c < 32 ==> #[trigger] calls[c] == (Call {
                handle: oracle.handle(),
                op: Command::SetZ {
                    n,
                    chunk: c as u32,
                    value: if c < data.len() {
                        data[c]
                    } else {
                        0
                    },
                },
            }),
        forall|c: u32|
            c < 32 ==> #[trigger] machine.after_all(isa, ops(calls)).word(
                WordQuery::Z { n, chunk: c },
            ) == (if c < data.len() {
                data[c as int]
            } else {
                0
            }),
        forall|query: WordQuery|
            !(query matches WordQuery::Z { n: at, chunk } && at == n && chunk < 32)
                ==> #[trigger] machine.after_all(isa, ops(calls)).word(query) == machine.word(
                query,
            ),
        forall|query: FieldQuery| #[trigger]
            machine.after_all(isa, ops(calls)).field(query) == machine.field(query),
        forall|addr: u64| #[trigger]
            machine.after_all(isa, ops(calls)).byte(addr) == machine.byte(addr),
        forall|addr: u64| #[trigger]
            machine.after_all(isa, ops(calls)).mapped(addr) == machine.mapped(addr),
{
    let after = machine.after_all(isa, ops(calls));
    law_sent_calls(oracle, calls, z_writes(n, data));
    assert(ops(calls) =~= z_writes(n, data));
    law_z_write(machine, isa, n, data);
    assert forall|c: u32| c < 32 implies #[trigger] after.word(WordQuery::Z { n, chunk: c })
        == (if c < data.len() {
        data[c as int]
    } else {
        0
    }) by {
        assert(z_reads(n)[c as int] == WordQuery::Z { n, chunk: c });
        assert(after.words(z_reads(n))[c as int] == after.word(z_reads(n)[c as int]));
        assert(padded(data, Z_CHUNKS as nat)[c as int] == chunk_at(data, c as int));
    }
    assert forall|query: WordQuery|
        !(query matches WordQuery::Z { n: at, chunk } && at == n && chunk < 32)
        implies #[trigger] after.word(query) == machine.word(query) by {
        if z_reads(n).contains(query) {
            let i = choose|i: int| 0 <= i < z_reads(n).len() && z_reads(n)[i] == query;
            assert(z_reads(n)[i] == WordQuery::Z { n, chunk: i as u32 });
        }
    }
}

/// Entry `c` of what `get_z` returns is what the reading function returned for
/// chunk `c` of Zn, and so the chunk of that number in every state.
pub proof fn law_get_z<R: Fn(Call<WordQuery>) -> u64>(
    machine: Machine,
    read: R,
    handle: usize,
    n: u32,
    out: Seq<u64>,
)
    requires
        n <= 31,
        answers_all(read, handle, z_reads(n), out),
        machine.answers_words(read, handle),
    ensures
        out.len() == 32,
        forall|c: int|
            0 <= c < 32 ==> #[trigger] out[c] == machine.word(
                WordQuery::Z { n, chunk: c as u32 },
            ),
        forall|c: int|
            0 <= c < 32 ==> call_ensures(
                read,
                (Call { handle, op: WordQuery::Z { n, chunk: c as u32 } },),
                #[trigger] out[c],
            ),
{
    law_answers_are_returned(read, handle, z_reads(n), out);
    assert forall|c: int| 0 <= c < 32 implies #[trigger] out[c] == machine.word(
        WordQuery::Z { n, chunk: c as u32 },
    ) && call_ensures(
        read,
        (Call { handle, op: WordQuery::Z { n, chunk: c as u32 } },),
        out[c],
    ) by {
        assert(z_reads(n)[c] == WordQuery::Z { n, chunk: c as u32 });
        assert(answers(read, handle, z_reads(n)[c], out[c]));
    }
}

/// `set_p` sends 4 commands: number `c` stores chunk `c` of the data to chunk
/// `c` of Pn, and zero for a chunk beyond the data. That is what Pn then
/// holds; every other register and all of memory keep their values.
pub proof fn law_set_p(
    machine: Machine,
    isa: Isa,
    oracle: Oracle,
    calls: Seq<Call<Command>>,
    n: u32,
    data: Seq<u64>,
)
    requires
        n <= 15,
        data.len() <= 4,
        oracle.sends_all(calls, p_writes(n, data)),
    ensures
        calls.len() == 4,
        forall|c: int|
            0 <= c < 4 ==> #[trigger] calls[c] == (Call {
                handle: oracle.handle(),
                op: Command::SetP {
                    n,
                    chunk: c as u32,
                    value: if c < data.len() {
                        data[c]
                    } else {
                        0
                    },
                },
            }),
        forall|c: u32|
            c < 4 ==> #[trigger] machine.after_all(isa, ops(calls)).word(
                WordQuery::P { n, chunk: c },
            ) == (if c < data.len() {
                data[c as int]
            } else {
                0
            }),
        forall|query: WordQuery|
            !(query matches WordQuery::P { n: at, chunk } && at == n && chunk < 4)
                ==> #[trigger] machine.after_all(isa, ops(calls)).word(query) == machine.word(
                query,
            ),
        forall|query: FieldQuery| #[trigger]
            machine.after_all(isa, ops(calls)).field(query) == machine.field(query),
        forall|addr: u64| #[trigger]
            machine.after_all(isa, ops(calls)).byte(addr) == machine.byte(addr),
        forall|addr: u64| #[trigger]
            machine.after_all(isa, ops(calls)).mapped(addr) == machine.mapped(addr),
{
    let after = machine.after_all(isa, ops(calls));
    law_sent_calls(oracle, calls, p_writes(n, data));
    assert(ops(calls) =~= p_writes(n, data));
    law_p_write(machine, isa, n, data);
    assert forall|c: u32| c < 4 implies #[trigger] after.word(WordQuery::P { n, chunk: c })
        == (if c < data.len() {
        data[c as int]
    } else {
        0
    }) by {
        assert(p_reads(n)[c as int] == WordQuery::P { n, chunk: c });
        assert(after.words(p_reads(n))[c as int] == after.word(p_reads(n)[c as int]));
        assert(padded(data, P_CHUNKS as nat)[c as int] == chunk_at(data, c as int));
    }
    assert forall|query: WordQuery|
        !(query matches WordQuery::P { n: at, chunk } && at == n && chunk < 4)
        implies #[trigger] after.word(query) == machine.word(query) by {
        if p_reads(n).contains(query) {
            let i = choose|i: int| 0 <= i < p_reads(n).len() && p_reads(n)[i] == query;
            assert(p_reads(n)[i] == WordQuery::P { n, chunk: i as u32 });
        }
    }
}

/// Entry `c` of what `get_p` returns is what the reading function returned for
/// chunk `c` of Pn, and so the chunk of that number in every state.
pub proof fn law_get_p<R: Fn(Call<WordQuery>) -> u64>(
    machine: Machine,
    read: R,
    handle: usize,
    n: u32,
    out: Seq<u64>,
)
    requires
        n <= 15,
        answers_all(read, handle, p_reads(n), out),
        machine.answers_words(read, handle),
    ensures
        out.len() == 4,
        forall|c: int|
            0 <= c < 4 ==> #[trigger] out[c] == machine.word(
                WordQuery::P { n, chunk: c as u32 },
            ),
        forall|c: int|
            0 <= c < 4 ==> call_ensures(
                read,
                (Call { handle, op: WordQuery::P { n, chunk: c as u32 } },),
                #[trigger] out[c],
            ),
{
    law_answers_are_returned(read, handle, p_reads(n), out);
    assert forall|c: int| 0 <= c < 4 implies #[trigger] out[c] == machine.word(
        WordQuery::P { n, chunk: c as u32 },
    ) && call_ensures(
        read,
        (Call { handle, op: WordQuery::P { n, chunk: c as u32 } },),
        out[c],
    ) by {
        assert(p_reads(n)[c] == WordQuery::P { n, chunk: c as u32 });
        assert(answers(read, handle, p_reads(n)[c], out[c]));
    }
}

/// `set_za_row` sends 32 commands: number `c` stores chunk `c` of the data to chunk
/// `c` of that row, and zero for a chunk beyond the data. That is what that row then
/// holds; every other register and all of memory keep their values.
pub proof fn law_set_za_row(
    machine: Machine,
    isa: Isa,
    oracle: Oracle,
    calls: Seq<Call<Command>>,
    row: u32,
    data: Seq<u64>,
)
    requires
        row < 256,
        data.len() <= 32,
        oracle.sends_all(calls, za_writes(row, data)),
    ensures
        calls.len() == 32,
        forall|c: int|
            0 <= c < 32 ==> #[trigger] calls[c] == (Call {
                handle: oracle.handle(),
                op: Command::SetZa {
                    row,
                    chunk: c as u32,
                    value: if c < data.len() {
                        data[c]
                    } else {
                        0
                    },
                },
            }),
        forall|c: u32|
            c < 32 ==> #[trigger] machine.after_all(isa, ops(calls)).word(
                WordQuery::Za { row, chunk: c },
            ) == (if c < data.len() {
                data[c as int]
            } else {
                0
            }),
        forall|query: WordQuery|
            !(query matches WordQuery::Za { row: at, chunk } && at == row && chunk < 32)
                ==> #[trigger] machine.after_all(isa, ops(calls)).word(query) == machine.word(
                query,
            ),
        forall|query: FieldQuery| #[trigger]
            machine.after_all(isa, ops(calls)).field(query) == machine.field(query),
        forall|addr: u64| #[trigger]
            machine.after_all(isa, ops(calls)).byte(addr) == machine.byte(addr),
        forall|addr: u64| #[trigger]
            machine.after_all(isa, ops(calls)).mapped(addr) == machine.mapped(addr),
{
    let after = machine.after_all(isa, ops(calls));
    law_sent_calls(oracle, calls, za_writes(row, data));
    assert(ops(calls) =~= za_writes(row, data));
    law_za_row_write(machine, isa, row, data);
    assert forall|c: u32| c < 32 implies #[trigger] after.word(WordQuery::Za { row, chunk: c })
        == (if c < data.len() {
        data[c as int]
    } else {
        0
    }) by {
        assert(za_reads(row)[c as int] == WordQuery::Za { row, chunk: c });
        assert(after.words(za_reads(row))[c as int] == after.word(za_reads(row)[c as int]));
        assert(padded(data, Z_CHUNKS as nat)[c as int] == chunk_at(data, c as int));
    }
    assert forall|query: WordQuery|
        !(query matches WordQuery::Za { row: at, chunk } && at == row && chunk < 32)
        implies #[trigger] after.word(query) == machine.word(query) by {
        if za_reads(row).contains(query) {
            let i = choose|i: int| 0 <= i < za_reads(row).len() && za_reads(row)[i] == query;
            assert(za_reads(row)[i] == WordQuery::Za { row, chunk: i as u32 });
        }
    }
}

/// Entry `c` of what `get_za_row` returns is what the reading function returned for
/// chunk `c` of that row, and so the chunk of that number in every state.
pub proof fn law_get_za_row<R: Fn(Call<WordQuery>) -> u64>(
    machine: Machine,
    read: R,
    handle: usize,
    row: u32,
    out: Seq<u64>,
)
    requires
        row < 256,
        answers_all(read, handle, za_reads(row), out),
        machine.answers_words(read, handle),
    ensures
        out.len() == 32,
        forall|c: int|
            0 <= c < 32 ==> #[trigger] out[c] == machine.word(
                WordQuery::Za { row, chunk: c as u32 },
            ),
        forall|c: int|
            0 <= c < 32 ==> call_ensures(
                read,
                (Call { handle, op: WordQuery::Za { row, chunk: c as u32 } },),
                #[trigger] out[c],
            ),
{
    law_answers_are_returned(read, handle, za_reads(row), out);
    assert forall|c: int| 0 <= c < 32 implies #[trigger] out[c] == machine.word(
        WordQuery::Za { row, chunk: c as u32 },
    ) && call_ensures(
        read,
        (Call { handle, op: WordQuery::Za { row, chunk: c as u32 } },),
        out[c],
    ) by {
        assert(za_reads(row)[c] == WordQuery::Za { row, chunk: c as u32 });
        assert(answers(read, handle, za_reads(row)[c], out[c]));
    }
}

/// `set_ffr` sends 4 commands: number `c` stores chunk `c` of the data to chunk
/// `c` of FFR, and zero for a chunk beyond the data. That is what FFR then
/// holds; every other register and all of memory keep their values.
pub proof fn law_set_ffr(
    machine: Machine,
    isa: Isa,
    oracle: Oracle,
    calls: Seq<Call<Command>>,
    data: Seq<u64>,
)
    requires
        data.len() <= 4,
        oracle.sends_all(calls, ffr_writes(data)),
    ensures
        calls.len() == 4,
        forall|c: int|
            0 <= c < 4 ==> #[trigger] calls[c] == (Call {
                handle: oracle.handle(),
                op: Command::SetFfr {
                    chunk: c as u32,
                    value: if c < data.len() {
                        data[c]
                    } else {
                        0
                    },
                },
            }),
        forall|c: u32|
            c < 4 ==> #[trigger] machine.after_all(isa, ops(calls)).word(
                WordQuery::Ffr { chunk: c },
            ) == (if c < data.len() {
                data[c as int]
            } else {
                0
            }),
        forall|query: WordQuery|
            !(query matches WordQuery::Ffr { chunk } && chunk < 4) ==> #[trigger] machine.after_all(
                isa,
                ops(calls),
            ).word(query) == machine.word(query),
        forall|query: FieldQuery| #[trigger]
            machine.after_all(isa, ops(calls)).field(query) == machine.field(query),
        forall|addr: u64| #[trigger]
            machine.after_all(isa, ops(calls)).byte(addr) == machine.byte(addr),
        forall|addr: u64| #[trigger]
            machine.after_all(isa, ops(calls)).mapped(addr) == machine.mapped(addr),
{
    let after = machine.after_all(isa, ops(calls));
    law_sent_calls(oracle, calls, ffr_writes(data));
    assert(ops(calls) =~= ffr_writes(data));
    law_ffr_write(machine, isa, data);
    assert forall|c: u32| c < 4 implies #[trigger] after.word(WordQuery::Ffr { chunk: c })
        == (if c < data.len() {
        data[c as int]
    } else {
        0
    }) by {
        assert(ffr_reads()[c as int] == WordQuery::Ffr { chunk: c });
        assert(after.words(ffr_reads())[c as int] == after.word(ffr_reads()[c as int]));
        assert(padded(data, P_CHUNKS as nat)[c as int] == chunk_at(data, c as int));
    }
    assert forall|query: WordQuery|
        !(query matches WordQuery::Ffr { chunk } && chunk < 4) implies #[trigger] after.word(query)
        == machine.word(query) by {
        if ffr_reads().contains(query) {
            let i = choose|i: int| 0 <= i < ffr_reads().len() && ffr_reads()[i] == query;
            assert(ffr_reads()[i] == WordQuery::Ffr { chunk: i as u32 });
        }
    }
}

/// Entry `c` of what `get_ffr` returns is what the reading function returned for
/// chunk `c` of FFR, and so the chunk of that number in every state.
pub proof fn law_get_ffr<R: Fn(Call<WordQuery>) -> u64>(
    machine: Machine,
    read: R,
    handle: usize,
    out: Seq<u64>,
)
    requires
        answers_all(read, handle, ffr_reads(), out),
        machine.answers_words(read, handle),
    ensures
        out.len() == 4,
        forall|c: int|
            0 <= c < 4 ==> #[trigger] out[c] == machine.word(
                WordQuery::Ffr { chunk: c as u32 },
            ),
        forall|c: int|
            0 <= c < 4 ==> call_ensures(
                read,
                (Call { handle, op: WordQuery::Ffr { chunk: c as u32 } },),
                #[trigger] out[c],
            ),
{
    law_answers_are_returned(read, handle, ffr_reads(), out);
    assert forall|c: int| 0 <= c < 4 implies #[trigger] out[c] == machine.word(
        WordQuery::Ffr { chunk: c as u32 },
    ) && call_ensures(
        read,
        (Call { handle, op: WordQuery::Ffr { chunk: c as u32 } },),
        out[c],
    ) by {
        assert(ffr_reads()[c] == WordQuery::Ffr { chunk: c as u32 });
        assert(answers(read, handle, ffr_reads()[c], out[c]));
    }
}

/// `set_zt0` sends 8 commands: number `c` stores chunk `c` of the data to chunk
/// `c` of ZT0, and zero for a chunk beyond the data. That is what ZT0 then
/// holds; every other register and all of memory keep their values.
pub proof fn law_set_zt0(
    machine: Machine,
    isa: Isa,
    oracle: Oracle,
    calls: Seq<Call<Command>>,
    data: Seq<u64>,
)
    requires
        data.len() <= 8,
        oracle.sends_all(calls, zt0_writes(data)),
    ensures
        calls.len() == 8,
        forall|c: int|
            0 <= c < 8 ==> #[trigger] calls[c] == (Call {
                handle: oracle.handle(),
                op: Command::SetZt0 {
                    chunk: c as u32,
                    value: if c < data.len() {
                        data[c]
                    } else {
                        0
                    },
                },
            }),
        forall|c: u32|
            c < 8 ==> #[trigger] machine.after_all(isa, ops(calls)).word(
                WordQuery::Zt0 { chunk: c },
            ) == (if c < data.len() {
                data[c as int]
            } else {
                0
            }),
        forall|query: WordQuery|
            !(query matches WordQuery::Zt0 { chunk } && chunk < 8) ==> #[trigger] machine.after_all(
                isa,
                ops(calls),
            ).word(query) == machine.word(query),
        forall|query: FieldQuery| #[trigger]
            machine.after_all(isa, ops(calls)).field(query) == machine.field(query),
        forall|addr: u64| #[trigger]
            machine.after_all(isa, ops(calls)).byte(addr) == machine.byte(addr),
        forall|addr: u64| #[trigger]
            machine.after_all(isa, ops(calls)).mapped(addr) == machine.mapped(addr),
{
    let after = machine.after_all(isa, ops(calls));
    law_sent_calls(oracle, calls, zt0_writes(data));
    assert(ops(calls) =~= zt0_writes(data));
    law_zt0_write(machine, isa, data);
    assert forall|c: u32| c < 8 implies #[trigger] after.word(WordQuery::Zt0 { chunk: c })
        == (if c < data.len() {
        data[c as int]
    } else {
        0
    }) by {
        assert(zt0_reads()[c as int] == WordQuery::Zt0 { chunk: c });
        assert(after.words(zt0_reads())[c as int] == after.word(zt0_reads()[c as int]));
        assert(padded(data, ZT0_CHUNKS as nat)[c as int] == chunk_at(data, c as int));
    }
    assert forall|query: WordQuery|
        !(query matches WordQuery::Zt0 { chunk } && chunk < 8) implies #[trigger] after.word(query)
        == machine.word(query) by {
        if zt0_reads().contains(query) {
            let i = choose|i: int| 0 <= i < zt0_reads().len() && zt0_reads()[i] == query;
            assert(zt0_reads()[i] == WordQuery::Zt0 { chunk: i as u32 });
        }
    }
}

/// Entry `c` of what `get_zt0` returns is what the reading function returned for
/// chunk `c` of ZT0, and so the chunk of that number in every state.
pub proof fn law_get_zt0<R: Fn(Call<WordQuery>) -> u64>(
    machine: Machine,
    read: R,
    handle: usize,
    out: Seq<u64>,
)
    requires
        answers_all(read, handle, zt0_reads(), out),
        machine.answers_words(read, handle),
    ensures
        out.len() == 8,
        forall|c: int|
            0 <= c < 8 ==> #[trigger] out[c] == machine.word(
                WordQuery::Zt0 { chunk: c as u32 },
            ),
        forall|c: int|
            0 <= c < 8 ==> call_ensures(
                read,
                (Call { handle, op: WordQuery::Zt0 { chunk: c as u32 } },),
                #[trigger] out[c],
            ),
{
    law_answers_are_returned(read, handle, zt0_reads(), out);
    assert forall|c: int| 0 <= c < 8 implies #[trigger] out[c] == machine.word(
        WordQuery::Zt0 { chunk: c as u32 },
    ) && call_ensures(
        read,
        (Call { handle, op: WordQuery::Zt0 { chunk: c as u32 } },),
        out[c],
    ) by {
        assert(zt0_reads()[c] == WordQuery::Zt0 { chunk: c as u32 });
        assert(answers(read, handle, zt0_reads()[c], out[c]));
    }
}

// ---- memory -----------------------------------------------------------------

/// Addresses count upwards, and start again at zero after the highest one.
pub proof fn law_addresses_count_upwards(addr: u64, i: int)
    requires
        0 <= i < 0x1_0000_0000_0000_0000,
    ensures
        addr + i < 0x1_0000_0000_0000_0000 ==> wrapped(addr, i) == addr + i,
        addr + i >= 0x1_0000_0000_0000_0000 ==> wrapped(addr, i) == addr + i
            - 0x1_0000_0000_0000_0000,
{
}

/// A block is 16 MiB: the addresses that agree above their low 24 bits.
pub proof fn law_blocks_are_16_mib(a: u64, b: u64)
    ensures
        block_of(a) == block_of(b) <==> a >> 24 == b >> 24,
{
    assert(a >> 24 == a / 0x100_0000) by (bit_vector);
    assert(b >> 24 == b / 0x100_0000) by (bit_vector);
}

/// `write_mem` sends one command for each byte of the data: number `i` stores
/// byte `i` to the address `i` above the first. That is what memory then holds.
pub proof fn law_write_mem(
    machine: Machine,
    isa: Isa,
    oracle: Oracle,
    calls: Seq<Call<Command>>,
    addr: u64,
    data: Seq<u8>,
)
    requires
        data.len() <= 0x1_0000_0000_0000_0000,
        oracle.sends_all(calls, mem_writes(addr, data)),
    ensures
        calls.len() == data.len(),
        forall|i: int|
            0 <= i < data.len() ==> #[trigger] calls[i] == (Call {
                handle: oracle.handle(),
                op: Command::WriteMem {
                    addr: if addr + i < 0x1_0000_0000_0000_0000 {
                        (addr + i) as u64
                    } else {
                        (addr + i - 0x1_0000_0000_0000_0000) as u64
                    },
                    byte: data[i],
                },
            }),
        forall|i: int|
            0 <= i < data.len() ==> machine.after_all(isa, ops(calls)).byte(
                if addr + i < 0x1_0000_0000_0000_0000 {
                    (addr + i) as u64
                } else {
                    (addr + i - 0x1_0000_0000_0000_0000) as u64
                },
            ) == #[trigger] data[i],
{
    let after = machine.after_all(isa, ops(calls));
    law_sent_calls(oracle, calls, mem_writes(addr, data));
    assert(ops(calls) =~= mem_writes(addr, data));
    law_memory_write(machine, isa, addr, data);
    assert forall|i: int| 0 <= i < data.len() implies after.byte(
        if addr + i < 0x1_0000_0000_0000_0000 {
            (addr + i) as u64
        } else {
            (addr + i - 0x1_0000_0000_0000_0000) as u64
        },
    ) == #[trigger] data[i] by {
        law_addresses_count_upwards(addr, i);
        assert(after.byte(wrapped(addr, i)) == data[i]);
    }
    assert forall|i: int| 0 <= i < data.len() implies #[trigger] calls[i] == (Call {
        handle: oracle.handle(),
        op: Command::WriteMem {
            addr: if addr + i < 0x1_0000_0000_0000_0000 {
                (addr + i) as u64
            } else {
                (addr + i - 0x1_0000_0000_0000_0000) as u64
            },
            byte: data[i],
        },
    }) by {
        law_addresses_count_upwards(addr, i);
    }
}

/// `write_mem` keeps every byte that is not one of those upwards from the
/// address, and every register.
pub proof fn law_write_mem_keeps_the_rest(
    machine: Machine,
    isa: Isa,
    oracle: Oracle,
    calls: Seq<Call<Command>>,
    addr: u64,
    data: Seq<u8>,
    elsewhere: u64,
    word: WordQuery,
    field: FieldQuery,
)
    requires
        data.len() <= 0x1_0000_0000_0000_0000,
        oracle.sends_all(calls, mem_writes(addr, data)),
    ensures
        (if elsewhere >= addr {
            elsewhere - addr
        } else {
            elsewhere - addr + 0x1_0000_0000_0000_0000
        }) >= data.len() ==> machine.after_all(isa, ops(calls)).byte(elsewhere) == machine.byte(
            elsewhere,
        ),
        machine.after_all(isa, ops(calls)).word(word) == machine.word(word),
        machine.after_all(isa, ops(calls)).field(field) == machine.field(field),
{
    law_sent_calls(oracle, calls, mem_writes(addr, data));
    assert(ops(calls) =~= mem_writes(addr, data));
    law_memory_write(machine, isa, addr, data);
    if in_range(elsewhere, addr, data.len()) {
        let i = choose|i: int|
            0 <= i < data.len() && elsewhere == #[trigger] wrapped(addr, i);
        law_addresses_count_upwards(addr, i);
    }
}

/// After `write_mem`, the 16 MiB around an address have storage if and only if
/// they had it before or one of the written addresses lies in them.
pub proof fn law_write_mem_maps(
    machine: Machine,
    isa: Isa,
    oracle: Oracle,
    calls: Seq<Call<Command>>,
    addr: u64,
    data: Seq<u8>,
    a: u64,
)
    requires
        data.len() <= 0x1_0000_0000_0000_0000,
        oracle.sends_all(calls, mem_writes(addr, data)),
    ensures
        machine.after_all(isa, ops(calls)).mapped(a) <==> machine.mapped(a) || exists|w: u64|
            #[trigger] (w >> 24) == a >> 24 && (if w >= addr {
                w - addr
            } else {
                w - addr + 0x1_0000_0000_0000_0000
            }) < data.len(),
{
    law_sent_calls(oracle, calls, mem_writes(addr, data));
    assert(ops(calls) =~= mem_writes(addr, data));
    lemma_mem_writes_blocks(machine, isa, addr, data, a);
    if shares_block(a, addr, data.len()) {
        let i = choose|i: int|
            0 <= i < data.len() && block_of(a) == block_of(#[trigger] wrapped(addr, i));
        law_addresses_count_upwards(addr, i);
        law_blocks_are_16_mib(wrapped(addr, i), a);
        assert(wrapped(addr, i) >> 24 == a >> 24);
    }
    if exists|w: u64|
        #[trigger] (w >> 24) == a >> 24 && (if w >= addr {
            w - addr
        } else {
            w - addr + 0x1_0000_0000_0000_0000
        }) < data.len() {
        let w = choose|w: u64|
            #[trigger] (w >> 24) == a >> 24 && (if w >= addr {
                w - addr
            } else {
                w - addr + 0x1_0000_0000_0000_0000
            }) < data.len();
        let i: int = if w >= addr {
            w - addr
        } else {
            w - addr + 0x1_0000_0000_0000_0000
        };
        law_addresses_count_upwards(addr, i);
        law_blocks_are_16_mib(w, a);
        assert(block_of(a) == block_of(wrapped(addr, i)));
    }
}

/// Byte `i` of what `read_mem` fills in is what the reading function returned for
/// the address `i` above the first, and so the byte there in every state.
pub proof fn law_read_mem<R: Fn(Call<ReadMem>) -> u8>(
    machine: Machine,
    read: R,
    handle: usize,
    addr: u64,
    buf: Seq<u8>,
)
    requires
        buf.len() <= 0x1_0000_0000_0000_0000,
        answers_all(read, handle, mem_reads(addr, buf.len()), buf),
        machine.answers_bytes(read, handle),
    ensures
        forall|i: int|
            0 <= i < buf.len() ==> #[trigger] buf[i] == machine.byte(
                if addr + i < 0x1_0000_0000_0000_0000 {
                    (addr + i) as u64
                } else {
                    (addr + i - 0x1_0000_0000_0000_0000) as u64
                },
            ),
        forall|i: int|
            0 <= i < buf.len() ==> call_ensures(
                read,
                (Call {
                    handle,
                    op: ReadMem {
                        addr: if addr + i < 0x1_0000_0000_0000_0000 {
                            (addr + i) as u64
                        } else {
                            (addr + i - 0x1_0000_0000_0000_0000) as u64
                        },
                    },
                },),
                #[trigger] buf[i],
            ),
{
    law_answers_are_returned(read, handle, mem_reads(addr, buf.len()), buf);
    assert forall|i: int| 0 <= i < buf.len() implies #[trigger] buf[i] == machine.byte(
        if addr + i < 0x1_0000_0000_0000_0000 {
            (addr + i) as u64
        } else {
            (addr + i - 0x1_0000_0000_0000_0000) as u64
        },
    ) && call_ensures(
        read,
        (Call {
            handle,
            op: ReadMem {
                addr: if addr + i < 0x1_0000_0000_0000_0000 {
                    (addr + i) as u64
                } else {
                    (addr + i - 0x1_0000_0000_0000_0000) as u64
                },
            },
        },),
        buf[i],
    ) by {
        law_addresses_count_upwards(addr, i);
        assert(mem_reads(addr, buf.len())[i] == (ReadMem { addr: wrapped(addr, i) }));
        assert(answers(read, handle, mem_reads(addr, buf.len())[i], buf[i]));
    }
}

/// `write_mem_u64` sends eight commands: number `i` stores bits `8 * i + 7` down
/// to `8 * i` of the value to the address `i` above the first. That is what
/// memory then holds.
pub proof fn law_write_mem_u64(
    machine: Machine,
    isa: Isa,
    oracle: Oracle,
    calls: Seq<Call<Command>>,
    addr: u64,
    value: u64,
)
    requires
        oracle.sends_all(calls, mem_writes(addr, le_bytes(value as nat, 8))),
    ensures
        calls.len() == 8,
        forall|i: int|
            0 <= i < 8 ==> #[trigger] calls[i] == (Call {
                handle: oracle.handle(),
                op: Command::WriteMem {
                    addr: if addr + i < 0x1_0000_0000_0000_0000 {
                        (addr + i) as u64
                    } else {
                        (addr + i - 0x1_0000_0000_0000_0000) as u64
                    },
                    byte: ((value >> ((8 * i) as u64)) & 0xff) as u8,
                },
            }),
        forall|i: int|
            0 <= i < 8 ==> machine.after_all(isa, ops(calls)).byte(
                if addr + i < 0x1_0000_0000_0000_0000 {
                    (addr + i) as u64
                } else {
                    (addr + i - 0x1_0000_0000_0000_0000) as u64
                },
            ) == #[trigger] (value >> ((8 * i) as u64)) & 0xff,
{
    let bytes = le_bytes(value as nat, 8);
    lemma_le_bytes_of_word(value);
    law_write_mem(machine, isa, oracle, calls, addr, bytes);
    assert forall|i: int| 0 <= i < 8 implies machine.after_all(isa, ops(calls)).byte(
        if addr + i < 0x1_0000_0000_0000_0000 {
            (addr + i) as u64
        } else {
            (addr + i - 0x1_0000_0000_0000_0000) as u64
        },
    ) == #[trigger] (value >> ((8 * i) as u64)) & 0xff by {
        assert(bytes[i] == (value >> ((8 * i) as u64)) & 0xff);
    }
}

/// What `read_mem_u64` returns is the sum of the eight bytes upwards from the
/// address, each weighted by 256 to the power of its distance.
pub proof fn law_read_mem_u64<R: Fn(Call<ReadMem>) -> u8>(
    machine: Machine,
    read: R,
    handle: usize,
    addr: u64,
    bytes: Seq<u8>,
    value: u64,
)
    requires
        answers_all(read, handle, mem_reads(addr, 8), bytes),
        value == le_value(bytes),
        machine.answers_bytes(read, handle),
    ensures
        bytes.len() == 8,
        forall|i: int|
            0 <= i < 8 ==> #[trigger] bytes[i] == machine.byte(
                if addr + i < 0x1_0000_0000_0000_0000 {
                    (addr + i) as u64
                } else {
                    (addr + i - 0x1_0000_0000_0000_0000) as u64
                },
            ),
        value == bytes[0] + 0x100 * bytes[1] + 0x1_0000 * bytes[2] + 0x100_0000 * bytes[3]
            + 0x1_0000_0000 * bytes[4] + 0x100_0000_0000 * bytes[5] + 0x1_0000_0000_0000 * bytes[6]
            + 0x100_0000_0000_0000 * bytes[7],
{
    assert(bytes.len() == mem_reads(addr, 8).len());
    law_read_mem(machine, read, handle, addr, bytes);
    lemma_le_value_of_word(bytes);
}

/// What `is_mapped` returns is what the reading function returned for the
/// address, and so whether the 16 MiB around it have storage.
pub proof fn law_is_mapped<R: Fn(Call<IsMapped>) -> bool>(
    machine: Machine,
    read: R,
    handle: usize,
    addr: u64,
    near: u64,
    found: bool,
)
    requires
        call_ensures(read, (Call { handle, op: (IsMapped { addr }) },), found),
        machine.answers_mapped(read, handle),
        addr >> 24 == near >> 24,
    ensures
        found == machine.mapped(addr),
        found == machine.mapped(near),
{
    law_blocks_are_16_mib(addr, near);
    assert(answers(read, handle, (IsMapped { addr }), found));
}

} // verus!
