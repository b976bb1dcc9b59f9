//! What the operations of an oracle guarantee together.
//!
//! Each law speaks of the commands that a writing operation sends, of the
//! queries that a reading operation makes, and of a [`Machine`] that executes
//! and answers them. `isa` stands for any instruction set.

use vstd::prelude::*;

use crate::bytes::{
    le_bytes, le_limit, le_value, lemma_le_byte, lemma_le_bytes_len, lemma_le_limit_values,
    lemma_le_value_of_le_bytes,
};
use crate::calls::{
    answers, answers_all, ffr_reads, ffr_writes, mem_reads, mem_writes, p_reads,
    p_writes, padded, wrapped, x_reads, z_reads, z_writes, za_reads, za_writes, zt0_reads,
    zt0_writes, Call, Command, FieldQuery, IsMapped, ReadMem, WordQuery, P_CHUNKS, X_REGS,
    ZA_ROWS, ZT0_CHUNKS, Z_CHUNKS,
};
use crate::machine::{
    after_event, after_events, block_of, commands_for, invocations, lives_through, pstate_el,
    pstate_spsel, pstate_svcr, sp_bank, Event, Isa, Machine, Stores, PSTATE_WRITABLE,
};
use crate::oracle::{CpuState, Oracle};

verus! {

// ---- registers that are one word wide ---------------------------------------

/// A register reads back what was last stored to it: X0 to X30, PC, FPCR, FPSR,
/// the thread pointers, and each chunk of Z, P, ZA, FFR and ZT0.
pub proof fn law_store_reads_back<R: Fn(Call<WordQuery>) -> u64>(
    machine: Machine,
    isa: Isa,
    command: Command,
    query: WordQuery,
    value: u64,
    read: R,
    handle: usize,
    found: u64,
)
    requires
        command.store() == Some((query, value)),
        machine.after(isa, command).answers_words(read, handle),
        answers(read, handle, query, found),
    ensures
        found == value,
{
}

/// A store to a register changes that register and nothing else.
pub proof fn law_store_is_local(
    machine: Machine,
    isa: Isa,
    command: Command,
    query: WordQuery,
    value: u64,
)
    requires
        command.store() == Some((query, value)),
    ensures
        machine.after(isa, command).differs_only_at(machine, seq![query]),
{
    assert(seq![query].contains(query)) by {
        assert(seq![query][0] == query);
    }
}

/// Writes to X31 are dropped.
pub proof fn law_x31_ignores_writes(machine: Machine, isa: Isa, value: u64)
    ensures
        machine.after(isa, Command::SetGpr { n: 31, value }) == machine,
{
}

/// X31 reads as zero, in every state.
pub proof fn law_x31_reads_zero<R: Fn(Call<WordQuery>) -> u64>(
    machine: Machine,
    read: R,
    handle: usize,
    found: u64,
)
    requires
        machine.answers_words(read, handle),
        answers(read, handle, WordQuery::Gpr { n: 31 }, found),
    ensures
        found == 0,
{
}

/// The condition flags read back the low four bits of what they were set from.
/// `call` is what `set_nzcv(flags)` sends, `raw % 16` what `get_nzcv` returns.
pub proof fn law_nzcv_reads_back<R: Fn(Call<FieldQuery>) -> u32>(
    machine: Machine,
    isa: Isa,
    oracle: Oracle,
    call: Call<Command>,
    flags: u32,
    read: R,
    raw: u32,
)
    requires
        oracle.sends(call, Command::SetNzcv { flags: (flags % 16) as u32 }),
        machine.after(isa, call.op).answers_fields(read, oracle.handle()),
        answers(read, oracle.handle(), FieldQuery::Nzcv, raw),
    ensures
        raw % 16 == flags % 16,
{
}

/// Setting the condition flags leaves every register and all memory as they
/// were, and SVCR with them.
pub proof fn law_nzcv_is_local(machine: Machine, isa: Isa, flags: u32)
    ensures
        ({
            let after = machine.after(isa, Command::SetNzcv { flags });
            &&& forall|query: WordQuery| #[trigger] after.word(query) == machine.word(query)
            &&& after.field(FieldQuery::Svcr) == machine.field(FieldQuery::Svcr)
            &&& forall|addr: u64| #[trigger] after.byte(addr) == machine.byte(addr)
            &&& forall|addr: u64| #[trigger] after.mapped(addr) == machine.mapped(addr)
            &&& after.sp == machine.sp
            &&& after.hidden == machine.hidden
        }),
{
}

/// The stack pointer reads back what was last stored to it.
pub proof fn law_sp_reads_back<R: Fn(Call<WordQuery>) -> u64>(
    machine: Machine,
    isa: Isa,
    value: u64,
    read: R,
    handle: usize,
    found: u64,
)
    requires
        machine.after(isa, Command::SetSp { value }).answers_words(read, handle),
        answers(read, handle, WordQuery::Sp, found),
    ensures
        found == value,
{
}

/// Setting the stack pointer changes the stack pointer and nothing else: the
/// banks that are not selected keep their values.
pub proof fn law_sp_is_local(machine: Machine, isa: Isa, value: u64)
    ensures
        machine.after(isa, Command::SetSp { value }).differs_only_at(
            machine,
            seq![WordQuery::Sp],
        ),
        forall|bank: int|
            bank != sp_bank(machine.pstate()) ==> #[trigger] machine.after(
                isa,
                Command::SetSp { value },
            ).sp[bank] == machine.sp[bank],
{
    assert(seq![WordQuery::Sp].contains(WordQuery::Sp)) by {
        assert(seq![WordQuery::Sp][0] == WordQuery::Sp);
    }
}

// ---- PSTATE -----------------------------------------------------------------

/// The fields of the PSTATE word that a store of `value` makes of `word`.
proof fn lemma_pstate_store(word: u64, value: u64)
    ensures
        ({
            let stored = (word & !PSTATE_WRITABLE) | (value & PSTATE_WRITABLE);
            &&& stored & PSTATE_WRITABLE == value & PSTATE_WRITABLE
            &&& stored & !PSTATE_WRITABLE == word & !PSTATE_WRITABLE
            &&& pstate_el(stored) == pstate_el(word)
            &&& pstate_svcr(stored) == pstate_svcr(word)
            &&& pstate_spsel(stored) == pstate_spsel(value)
        }),
{
    assert({
        let stored = (word & !0x27FFu64) | (value & 0x27FFu64);
        &&& stored & 0x27FF == value & 0x27FF
        &&& stored & !0x27FFu64 == word & !0x27FFu64
        &&& (stored >> 11) & 3 == (word >> 11) & 3
        &&& (stored >> 14) & 3 == (word >> 14) & 3
        &&& (stored >> 13) & 1 == (value >> 13) & 1
    }) by (bit_vector);
}

/// PSTATE reads back the writable bits of what was stored to it, and keeps the
/// others: the exception level, SM and ZA cannot be written, so SVCR stays.
pub proof fn law_pstate_reads_back<R: Fn(Call<WordQuery>) -> u64>(
    machine: Machine,
    isa: Isa,
    value: u64,
    read: R,
    handle: usize,
    found: u64,
)
    requires
        machine.after(isa, Command::SetPstate { value }).answers_words(read, handle),
        answers(read, handle, WordQuery::Pstate, found),
    ensures
        found & PSTATE_WRITABLE == value & PSTATE_WRITABLE,
        found & !PSTATE_WRITABLE == machine.pstate() & !PSTATE_WRITABLE,
        pstate_el(found) == pstate_el(machine.pstate()),
        pstate_svcr(found) == pstate_svcr(machine.pstate()),
        pstate_spsel(found) == pstate_spsel(value),
        machine.after(isa, Command::SetPstate { value }).field(FieldQuery::Svcr) == machine.field(
            FieldQuery::Svcr,
        ),
{
    lemma_pstate_store(machine.pstate(), value);
}

/// Storing to PSTATE changes no other register than PSTATE and the stack
/// pointer, and the latter only where the selection of its bank changes.
pub proof fn law_pstate_is_local(machine: Machine, isa: Isa, value: u64)
    ensures
        ({
            let after = machine.after(isa, Command::SetPstate { value });
            &&& after.differs_only_at(machine, seq![WordQuery::Pstate, WordQuery::Sp])
            &&& pstate_spsel(value) == pstate_spsel(machine.pstate()) ==> after.word(WordQuery::Sp)
                == machine.word(WordQuery::Sp)
            &&& after.sp == machine.sp
        }),
{
    let touched = seq![WordQuery::Pstate, WordQuery::Sp];
    assert(touched[0] == WordQuery::Pstate && touched[1] == WordQuery::Sp);
    assert(touched.contains(WordQuery::Pstate) && touched.contains(WordQuery::Sp));
    lemma_pstate_store(machine.pstate(), value);
}

/// The exception registers of EL3, the vector length, the exception level and
/// SVCR change by executing instructions only.
pub proof fn law_read_only_state(machine: Machine, isa: Isa, command: Command)
    requires
        !(command is Step),
    ensures
        ({
            let after = machine.after(isa, command);
            &&& after.word(WordQuery::EsrEl3) == machine.word(WordQuery::EsrEl3)
            &&& after.word(WordQuery::ElrEl3) == machine.word(WordQuery::ElrEl3)
            &&& after.word(WordQuery::FarEl3) == machine.word(WordQuery::FarEl3)
            &&& after.word(WordQuery::Vl) == machine.word(WordQuery::Vl)
            &&& pstate_el(after.pstate()) == pstate_el(machine.pstate())
            &&& after.field(FieldQuery::Svcr) == machine.field(FieldQuery::Svcr)
        }),
{
    if let Command::SetPstate { value } = command {
        lemma_pstate_store(machine.pstate(), value);
    }
}

// ---- wide registers ---------------------------------------------------------

/// Commands that store to different registers each leave their value behind,
/// and change nothing else.
proof fn lemma_stores(
    machine: Machine,
    isa: Isa,
    commands: Seq<Command>,
    queries: Seq<WordQuery>,
    values: Seq<u64>,
)
    requires
        commands.len() == queries.len(),
        commands.len() == values.len(),
        forall|i: int|
            0 <= i < commands.len() ==> (#[trigger] commands[i]).store() == Some(
                (queries[i], values[i]),
            ),
        queries.no_duplicates(),
    ensures
        machine.after_all(isa, commands).words(queries) == values,
        machine.after_all(isa, commands).differs_only_at(machine, queries),
        machine.after_all(isa, commands).pstate() == machine.pstate(),
        machine.after_all(isa, commands).sp == machine.sp,
    decreases commands.len(),
{
    let after = machine.after_all(isa, commands);
    if commands.len() > 0 {
        let last = commands.len() - 1;
        let earlier = queries.drop_last();
        let before = machine.after_all(isa, commands.drop_last());
        lemma_stores(machine, isa, commands.drop_last(), earlier, values.drop_last());
        assert(commands.last() == commands[last]);
        assert(queries.contains(queries[last]));
        assert(after.differs_only_at(before, queries));
        assert forall|query: WordQuery| !queries.contains(query) implies #[trigger] after.word(
            query,
        ) == machine.word(query) by {
            if earlier.contains(query) {
                let i = choose|i: int| 0 <= i < earlier.len() && earlier[i] == query;
                assert(queries[i] == query);
            }
        }
        assert(before.differs_only_at(machine, earlier));
        assert forall|i: int| 0 <= i < queries.len() implies after.word(#[trigger] queries[i])
            == values[i] by {
            if i < last {
                assert(earlier[i] == queries[i]);
                assert(before.words(earlier)[i] == before.word(queries[i]));
                assert(before.words(earlier)[i] == values.drop_last()[i]);
                assert(queries[i] != queries[last]);
            }
        }
    }
    assert(after.words(queries) =~= values);
}

/// What `calls` do, without the handle that they carry.
pub open spec fn ops(calls: Seq<Call<Command>>) -> Seq<Command> {
    calls.map_values(|call: Call<Command>| call.op)
}

/// A wide register reads back the values that its chunks were stored from.
proof fn lemma_stores_read_back<R: Fn(Call<WordQuery>) -> u64>(
    machine: Machine,
    isa: Isa,
    oracle: Oracle,
    calls: Seq<Call<Command>>,
    commands: Seq<Command>,
    queries: Seq<WordQuery>,
    values: Seq<u64>,
    read: R,
    found: Seq<u64>,
)
    requires
        oracle.sends_all(calls, commands),
        machine.after_all(isa, ops(calls)).answers_words(read, oracle.handle()),
        answers_all(read, oracle.handle(), queries, found),
        machine.after_all(isa, commands).words(queries) == values,
    ensures
        found == values,
{
    let after = machine.after_all(isa, commands);
    assert(ops(calls) =~= commands);
    assert forall|i: int| 0 <= i < found.len() implies found[i] == after.word(queries[i]) by {}
    assert(found =~= after.words(queries));
}

/// Writing Zn leaves the data in Zn, with zeros beyond the data, and
/// changes nothing else.
pub proof fn law_z_write(machine: Machine, isa: Isa, n: u32, data: Seq<u64>)
    requires
        n <= 31,
        data.len() <= Z_CHUNKS,
    ensures
        machine.after_all(isa, z_writes(n, data)).words(z_reads(n)) == padded(
            data,
            Z_CHUNKS as nat,
        ),
        machine.after_all(isa, z_writes(n, data)).differs_only_at(machine, z_reads(n)),
{
    lemma_stores(machine, isa, z_writes(n, data), z_reads(n), padded(data, Z_CHUNKS as nat));
}

/// Zn reads back what was last written to it, with zeros beyond the data.
/// `calls` are what `set_z(n, data)` sends, `found` is what `get_z(n)` returns.
pub proof fn law_z_reads_back<R: Fn(Call<WordQuery>) -> u64>(
    machine: Machine,
    isa: Isa,
    oracle: Oracle,
    calls: Seq<Call<Command>>,
    n: u32,
    data: Seq<u64>,
    read: R,
    found: Seq<u64>,
)
    requires
        n <= 31,
        data.len() <= Z_CHUNKS,
        oracle.sends_all(calls, z_writes(n, data)),
        machine.after_all(isa, ops(calls)).answers_words(read, oracle.handle()),
        answers_all(read, oracle.handle(), z_reads(n), found),
    ensures
        found == padded(data, Z_CHUNKS as nat),
{
    law_z_write(machine, isa, n, data);
    lemma_stores_read_back(
        machine,
        isa,
        oracle,
        calls,
        z_writes(n, data),
        z_reads(n),
        padded(data, Z_CHUNKS as nat),
        read,
        found,
    );
}

/// Writing Pn leaves the data in Pn, with zeros beyond the data, and
/// changes nothing else.
pub proof fn law_p_write(machine: Machine, isa: Isa, n: u32, data: Seq<u64>)
    requires
        n <= 15,
        data.len() <= P_CHUNKS,
    ensures
        machine.after_all(isa, p_writes(n, data)).words(p_reads(n)) == padded(
            data,
            P_CHUNKS as nat,
        ),
        machine.after_all(isa, p_writes(n, data)).differs_only_at(machine, p_reads(n)),
{
    lemma_stores(machine, isa, p_writes(n, data), p_reads(n), padded(data, P_CHUNKS as nat));
}

/// Pn reads back what was last written to it, with zeros beyond the data.
/// `calls` are what `set_p(n, data)` sends, `found` is what `get_p(n)` returns.
pub proof fn law_p_reads_back<R: Fn(Call<WordQuery>) -> u64>(
    machine: Machine,
    isa: Isa,
    oracle: Oracle,
    calls: Seq<Call<Command>>,
    n: u32,
    data: Seq<u64>,
    read: R,
    found: Seq<u64>,
)
    requires
        n <= 15,
        data.len() <= P_CHUNKS,
        oracle.sends_all(calls, p_writes(n, data)),
        machine.after_all(isa, ops(calls)).answers_words(read, oracle.handle()),
        answers_all(read, oracle.handle(), p_reads(n), found),
    ensures
        found == padded(data, P_CHUNKS as nat),
{
    law_p_write(machine, isa, n, data);
    lemma_stores_read_back(
        machine,
        isa,
        oracle,
        calls,
        p_writes(n, data),
        p_reads(n),
        padded(data, P_CHUNKS as nat),
        read,
        found,
    );
}

/// Writing a row of ZA leaves the data in a row of ZA, with zeros beyond the data, and
/// changes nothing else.
pub proof fn law_za_row_write(machine: Machine, isa: Isa, row: u32, data: Seq<u64>)
    requires
        row < ZA_ROWS,
        data.len() <= Z_CHUNKS,
    ensures
        machine.after_all(isa, za_writes(row, data)).words(za_reads(row)) == padded(
            data,
            Z_CHUNKS as nat,
        ),
        machine.after_all(isa, za_writes(row, data)).differs_only_at(machine, za_reads(row)),
{
    lemma_stores(machine, isa, za_writes(row, data), za_reads(row), padded(data, Z_CHUNKS as nat));
}

/// A row of ZA reads back what was last written to it, with zeros beyond the data.
/// `calls` are what `set_za_row(row, data)` sends, `found` is what `get_za_row(row)` returns.
pub proof fn law_za_row_reads_back<R: Fn(Call<WordQuery>) -> u64>(
    machine: Machine,
    isa: Isa,
    oracle: Oracle,
    calls: Seq<Call<Command>>,
    row: u32,
    data: Seq<u64>,
    read: R,
    found: Seq<u64>,
)
    requires
        row < ZA_ROWS,
        data.len() <= Z_CHUNKS,
        oracle.sends_all(calls, za_writes(row, data)),
        machine.after_all(isa, ops(calls)).answers_words(read, oracle.handle()),
        answers_all(read, oracle.handle(), za_reads(row), found),
    ensures
        found == padded(data, Z_CHUNKS as nat),
{
    law_za_row_write(machine, isa, row, data);
    lemma_stores_read_back(
        machine,
        isa,
        oracle,
        calls,
        za_writes(row, data),
        za_reads(row),
        padded(data, Z_CHUNKS as nat),
        read,
        found,
    );
}

/// Writing FFR leaves the data in FFR, with zeros beyond the data, and
/// changes nothing else.
pub proof fn law_ffr_write(machine: Machine, isa: Isa, data: Seq<u64>)
    requires
        data.len() <= P_CHUNKS,
    ensures
        machine.after_all(isa, ffr_writes(data)).words(ffr_reads()) == padded(
            data,
            P_CHUNKS as nat,
        ),
        machine.after_all(isa, ffr_writes(data)).differs_only_at(machine, ffr_reads()),
{
    lemma_stores(machine, isa, ffr_writes(data), ffr_reads(), padded(data, P_CHUNKS as nat));
}

/// FFR reads back what was last written to it, with zeros beyond the data.
/// `calls` are what `set_ffr(data)` sends, `found` is what `get_ffr` returns.
pub proof fn law_ffr_reads_back<R: Fn(Call<WordQuery>) -> u64>(
    machine: Machine,
    isa: Isa,
    oracle: Oracle,
    calls: Seq<Call<Command>>,
    data: Seq<u64>,
    read: R,
    found: Seq<u64>,
)
    requires
        data.len() <= P_CHUNKS,
        oracle.sends_all(calls, ffr_writes(data)),
        machine.after_all(isa, ops(calls)).answers_words(read, oracle.handle()),
        answers_all(read, oracle.handle(), ffr_reads(), found),
    ensures
        found == padded(data, P_CHUNKS as nat),
{
    law_ffr_write(machine, isa, data);
    lemma_stores_read_back(
        machine,
        isa,
        oracle,
        calls,
        ffr_writes(data),
        ffr_reads(),
        padded(data, P_CHUNKS as nat),
        read,
        found,
    );
}

/// Writing ZT0 leaves the data in ZT0, with zeros beyond the data, and
/// changes nothing else.
pub proof fn law_zt0_write(machine: Machine, isa: Isa, data: Seq<u64>)
    requires
        data.len() <= ZT0_CHUNKS,
    ensures
        machine.after_all(isa, zt0_writes(data)).words(zt0_reads()) == padded(
            data,
            ZT0_CHUNKS as nat,
        ),
        machine.after_all(isa, zt0_writes(data)).differs_only_at(machine, zt0_reads()),
{
    lemma_stores(machine, isa, zt0_writes(data), zt0_reads(), padded(data, ZT0_CHUNKS as nat));
}

/// ZT0 reads back what was last written to it, with zeros beyond the data.
/// `calls` are what `set_zt0(data)` sends, `found` is what `get_zt0` returns.
pub proof fn law_zt0_reads_back<R: Fn(Call<WordQuery>) -> u64>(
    machine: Machine,
    isa: Isa,
    oracle: Oracle,
    calls: Seq<Call<Command>>,
    data: Seq<u64>,
    read: R,
    found: Seq<u64>,
)
    requires
        data.len() <= ZT0_CHUNKS,
        oracle.sends_all(calls, zt0_writes(data)),
        machine.after_all(isa, ops(calls)).answers_words(read, oracle.handle()),
        answers_all(read, oracle.handle(), zt0_reads(), found),
    ensures
        found == padded(data, ZT0_CHUNKS as nat),
{
    law_zt0_write(machine, isa, data);
    lemma_stores_read_back(
        machine,
        isa,
        oracle,
        calls,
        zt0_writes(data),
        zt0_reads(),
        padded(data, ZT0_CHUNKS as nat),
        read,
        found,
    );
}

// ---- memory -----------------------------------------------------------------

/// Addresses fewer than 2^64 bytes apart are different.
proof fn lemma_wrapped_injective(addr: u64, i: int, j: int)
    requires
        0 <= i < j < 0x1_0000_0000_0000_0000,
    ensures
        wrapped(addr, i) != wrapped(addr, j),
{
}

/// `a` is one of the `len` addresses upwards from `addr`.
pub open spec fn in_range(a: u64, addr: u64, len: nat) -> bool {
    exists|i: int| 0 <= i < len && a == #[trigger] wrapped(addr, i)
}

/// `a` is in the same block as one of the `len` addresses upwards from `addr`.
pub open spec fn shares_block(a: u64, addr: u64, len: nat) -> bool {
    exists|i: int| 0 <= i < len && block_of(a) == block_of(#[trigger] wrapped(addr, i))
}

/// Writing memory is writing all bytes but the last, and then the last.
proof fn lemma_mem_writes_last(machine: Machine, isa: Isa, addr: u64, data: Seq<u8>)
    requires
        data.len() > 0,
    ensures
        machine.after_all(isa, mem_writes(addr, data)) == machine.after_all(
            isa,
            mem_writes(addr, data.drop_last()),
        ).after(
            isa,
            Command::WriteMem { addr: wrapped(addr, data.len() - 1), byte: data.last() },
        ),
{
    assert(mem_writes(addr, data).drop_last() =~= mem_writes(addr, data.drop_last()));
}

/// Writing memory leaves each byte of the data behind, and changes no register.
proof fn lemma_mem_writes_stored(machine: Machine, isa: Isa, addr: u64, data: Seq<u8>)
    requires
        data.len() <= 0x1_0000_0000_0000_0000,
    ensures
        ({
            let after = machine.after_all(isa, mem_writes(addr, data));
            &&& forall|i: int|
                0 <= i < data.len() ==> after.byte(#[trigger] wrapped(addr, i)) == data[i]
            &&& after.regs == machine.regs
            &&& after.sp == machine.sp
            &&& after.nzcv == machine.nzcv
            &&& after.hidden == machine.hidden
        }),
    decreases data.len(),
{
    if data.len() > 0 {
        let last = data.len() - 1;
        let after = machine.after_all(isa, mem_writes(addr, data));
        lemma_mem_writes_stored(machine, isa, addr, data.drop_last());
        lemma_mem_writes_last(machine, isa, addr, data);
        assert forall|i: int| 0 <= i < data.len() implies after.byte(#[trigger] wrapped(addr, i))
            == data[i] by {
            if i < last {
                lemma_wrapped_injective(addr, i, last);
                assert(data.drop_last()[i] == data[i]);
            }
        }
    }
}

/// Writing memory keeps the bytes elsewhere.
proof fn lemma_mem_writes_elsewhere(
    machine: Machine,
    isa: Isa,
    addr: u64,
    data: Seq<u8>,
    a: u64,
)
    requires
        !in_range(a, addr, data.len()),
    ensures
        machine.after_all(isa, mem_writes(addr, data)).byte(a) == machine.byte(a),
    decreases data.len(),
{
    if data.len() > 0 {
        assert(a != wrapped(addr, data.len() - 1));
        assert(!in_range(a, addr, data.drop_last().len())) by {
            if in_range(a, addr, data.drop_last().len()) {
                let i = choose|i: int|
                    0 <= i < data.drop_last().len() && a == #[trigger] wrapped(addr, i);
                assert(a == wrapped(addr, i));
            }
        }
        lemma_mem_writes_elsewhere(machine, isa, addr, data.drop_last(), a);
        lemma_mem_writes_last(machine, isa, addr, data);
    }
}

/// Writing memory gives storage to the blocks that were written to, and to no
/// other.
pub proof fn lemma_mem_writes_blocks(
    machine: Machine,
    isa: Isa,
    addr: u64,
    data: Seq<u8>,
    a: u64,
)
    ensures
        machine.after_all(isa, mem_writes(addr, data)).mapped(a) <==> machine.mapped(a)
            || shares_block(a, addr, data.len()),
    decreases data.len(),
{
    if data.len() > 0 {
        let last = data.len() - 1;
        lemma_mem_writes_blocks(machine, isa, addr, data.drop_last(), a);
        lemma_mem_writes_last(machine, isa, addr, data);
        if shares_block(a, addr, last as nat) {
            let i = choose|i: int|
                0 <= i < last && block_of(a) == block_of(#[trigger] wrapped(addr, i));
            assert(block_of(a) == block_of(wrapped(addr, i)));
            assert(shares_block(a, addr, data.len()));
        }
        if block_of(a) == block_of(wrapped(addr, last)) {
            assert(shares_block(a, addr, data.len()));
        }
        if shares_block(a, addr, data.len()) {
            let i = choose|i: int|
                0 <= i < data.len() && block_of(a) == block_of(#[trigger] wrapped(addr, i));
            if i < last {
                assert(shares_block(a, addr, last as nat));
            }
        }
    }
}

/// Memory reads back what was last written to it. `calls` are what
/// `write_mem(addr, data)` sends, `found` is what `read_mem(addr, ..)` fills a
/// buffer of that length with.
pub proof fn law_memory_reads_back<R: Fn(Call<ReadMem>) -> u8>(
    machine: Machine,
    isa: Isa,
    oracle: Oracle,
    calls: Seq<Call<Command>>,
    addr: u64,
    data: Seq<u8>,
    read: R,
    found: Seq<u8>,
)
    requires
        data.len() <= 0x1_0000_0000_0000_0000,
        oracle.sends_all(calls, mem_writes(addr, data)),
        machine.after_all(isa, ops(calls)).answers_bytes(read, oracle.handle()),
        answers_all(read, oracle.handle(), mem_reads(addr, data.len()), found),
    ensures
        found == data,
{
    assert(ops(calls) =~= mem_writes(addr, data));
    lemma_mem_writes_stored(machine, isa, addr, data);
    assert forall|i: int| 0 <= i < found.len() implies found[i] == data[i] by {
        let query = mem_reads(addr, data.len())[i];
        assert(answers(read, oracle.handle(), query, found[i]));
        assert(query.addr == wrapped(addr, i));
    }
    assert(found =~= data);
}

/// A byte of memory reads back what was last written to it, and writing it keeps
/// all other bytes.
pub proof fn law_memory_byte_reads_back<R: Fn(Call<ReadMem>) -> u8>(
    machine: Machine,
    isa: Isa,
    addr: u64,
    byte: u8,
    read: R,
    handle: usize,
    a: u64,
    found: u8,
)
    requires
        machine.after(isa, Command::WriteMem { addr, byte }).answers_bytes(read, handle),
        answers(read, handle, (ReadMem { addr: a }), found),
    ensures
        found == (if a == addr {
            byte
        } else {
            machine.byte(a)
        }),
{
}

/// Writing memory leaves the data there, byte by byte, and keeps the bytes
/// outside the written range and every register.
pub proof fn law_memory_write(machine: Machine, isa: Isa, addr: u64, data: Seq<u8>)
    requires
        data.len() <= 0x1_0000_0000_0000_0000,
    ensures
        ({
            let after = machine.after_all(isa, mem_writes(addr, data));
            &&& forall|i: int|
                0 <= i < data.len() ==> after.byte(#[trigger] wrapped(addr, i)) == data[i]
            &&& forall|a: u64|
                !in_range(a, addr, data.len()) ==> #[trigger] after.byte(a) == machine.byte(a)
            &&& forall|query: WordQuery| #[trigger] after.word(query) == machine.word(query)
            &&& forall|query: FieldQuery| #[trigger] after.field(query) == machine.field(query)
            &&& after.sp == machine.sp
            &&& after.hidden == machine.hidden
        }),
{
    lemma_mem_writes_stored(machine, isa, addr, data);
    assert forall|a: u64| !in_range(a, addr, data.len()) implies #[trigger] machine.after_all(
        isa,
        mem_writes(addr, data),
    ).byte(a) == machine.byte(a) by {
        lemma_mem_writes_elsewhere(machine, isa, addr, data, a);
    }
}

/// A word of memory reads back what was last written to it. `calls` are what
/// `write_mem_u64(addr, value)` sends; `read_mem_u64(addr)` returns the
/// little-endian value of the bytes `found`.
pub proof fn law_memory_word_reads_back<R: Fn(Call<ReadMem>) -> u8>(
    machine: Machine,
    isa: Isa,
    oracle: Oracle,
    calls: Seq<Call<Command>>,
    addr: u64,
    value: u64,
    read: R,
    found: Seq<u8>,
)
    requires
        oracle.sends_all(calls, mem_writes(addr, le_bytes(value as nat, 8))),
        machine.after_all(isa, ops(calls)).answers_bytes(read, oracle.handle()),
        answers_all(read, oracle.handle(), mem_reads(addr, 8), found),
    ensures
        le_value(found) == value,
{
    lemma_le_bytes_len(value as nat, 8);
    law_memory_reads_back(
        machine,
        isa,
        oracle,
        calls,
        addr,
        le_bytes(value as nat, 8),
        read,
        found,
    );
    lemma_le_limit_values();
    lemma_le_value_of_le_bytes(value as nat, 8);
}

/// The byte at the lowest address is the least significant one: byte `i` of a
/// written word is the `i`-th digit of the value to the base 256.
pub proof fn law_memory_word_is_little_endian(
    machine: Machine,
    isa: Isa,
    addr: u64,
    value: u64,
    i: nat,
)
    requires
        i < 8,
    ensures
        machine.after_all(isa, mem_writes(addr, le_bytes(value as nat, 8))).byte(
            wrapped(addr, i as int),
        ) == (value as nat / le_limit(i)) % 256,
{
    lemma_le_bytes_len(value as nat, 8);
    lemma_mem_writes_stored(machine, isa, addr, le_bytes(value as nat, 8));
    lemma_le_byte(value as nat, 8, i);
}

/// After a write, a block has storage exactly if it had storage before or a byte
/// of it was written, whatever the byte: writing zeros maps a block too.
pub proof fn law_writing_maps_blocks<R: Fn(Call<IsMapped>) -> bool>(
    machine: Machine,
    isa: Isa,
    oracle: Oracle,
    calls: Seq<Call<Command>>,
    addr: u64,
    data: Seq<u8>,
    read: R,
    a: u64,
    found: bool,
)
    requires
        oracle.sends_all(calls, mem_writes(addr, data)),
        machine.after_all(isa, ops(calls)).answers_mapped(read, oracle.handle()),
        answers(read, oracle.handle(), (IsMapped { addr: a }), found),
    ensures
        found <==> machine.mapped(a) || shares_block(a, addr, data.len()),
{
    assert(ops(calls) =~= mem_writes(addr, data));
    lemma_mem_writes_blocks(machine, isa, addr, data, a);
}

/// Command `i` of `commands`, executed in order from `machine`, writes a byte of
/// the block around `addr`.
#[verifier::opaque]
pub open spec fn writes_block_at(
    machine: Machine,
    isa: Isa,
    stores: Stores,
    commands: Seq<Command>,
    i: int,
    addr: u64,
) -> bool {
    machine.after_all(isa, commands.take(i)).writes_block(stores, commands[i], addr)
}

/// One of `commands`, executed in order from `machine`, writes a byte of the
/// block around `addr`.
pub open spec fn block_was_written(
    machine: Machine,
    isa: Isa,
    stores: Stores,
    commands: Seq<Command>,
    addr: u64,
) -> bool {
    exists|i: int|
        0 <= i < commands.len() && #[trigger] writes_block_at(
            machine,
            isa,
            stores,
            commands,
            i,
            addr,
        )
}

/// One command gives storage to the blocks that it writes to, and to no other.
proof fn lemma_mapped_after(
    machine: Machine,
    isa: Isa,
    stores: Stores,
    command: Command,
    addr: u64,
)
    requires
        machine.step_maps_its_stores(isa, stores, command),
    ensures
        machine.after(isa, command).mapped(addr) <==> machine.mapped(addr)
            || machine.writes_block(stores, command, addr),
{
}

/// A history wrote to a block exactly if its last command did, or the history
/// before it.
proof fn lemma_block_was_written_last(
    machine: Machine,
    isa: Isa,
    stores: Stores,
    commands: Seq<Command>,
    addr: u64,
)
    requires
        commands.len() > 0,
    ensures
        block_was_written(machine, isa, stores, commands, addr) <==> block_was_written(
            machine,
            isa,
            stores,
            commands.drop_last(),
            addr,
        ) || machine.after_all(isa, commands.drop_last()).writes_block(
            stores,
            commands.last(),
            addr,
        ),
{
    let last = commands.len() - 1;
    let earlier = commands.drop_last();
    assert(writes_block_at(machine, isa, stores, commands, last, addr) <==> machine.after_all(
        isa,
        earlier,
    ).writes_block(stores, commands.last(), addr)) by {
        reveal(writes_block_at);
        assert(commands.take(last) =~= earlier);
    }
    assert forall|i: int| 0 <= i < last implies #[trigger] writes_block_at(
        machine,
        isa,
        stores,
        commands,
        i,
        addr,
    ) == writes_block_at(machine, isa, stores, earlier, i, addr) by {
        reveal(writes_block_at);
        assert(earlier.take(i) =~= commands.take(i));
        assert(earlier[i] == commands[i]);
    }
    if block_was_written(machine, isa, stores, earlier, addr) {
        let i = choose|i: int|
            0 <= i < earlier.len() && #[trigger] writes_block_at(
                machine,
                isa,
                stores,
                earlier,
                i,
                addr,
            );
        assert(writes_block_at(machine, isa, stores, commands, i, addr));
    }
}

/// A block has storage exactly if it had storage at first or some command of the
/// history wrote a byte of it. Instructions count by what they store to.
pub proof fn law_mapped_iff_written(
    machine: Machine,
    isa: Isa,
    stores: Stores,
    commands: Seq<Command>,
    addr: u64,
)
    requires
        forall|i: int|
            0 <= i < commands.len() ==> machine.after_all(
                isa,
                commands.take(i),
            ).step_maps_its_stores(isa, stores, #[trigger] commands[i]),
    ensures
        machine.after_all(isa, commands).mapped(addr) <==> machine.mapped(addr)
            || block_was_written(machine, isa, stores, commands, addr),
    decreases commands.len(),
{
    if commands.len() > 0 {
        let last = commands.len() - 1;
        let earlier = commands.drop_last();
        let before = machine.after_all(isa, earlier);
        assert forall|i: int| 0 <= i < earlier.len() implies machine.after_all(
            isa,
            earlier.take(i),
        ).step_maps_its_stores(isa, stores, #[trigger] earlier[i]) by {
            assert(earlier.take(i) =~= commands.take(i));
            assert(commands[i] == earlier[i]);
        }
        law_mapped_iff_written(machine, isa, stores, earlier, addr);
        assert(before.step_maps_its_stores(isa, stores, commands.last())) by {
            assert(commands.take(last) =~= earlier);
            assert(commands[last] == commands.last());
        }
        lemma_mapped_after(before, isa, stores, commands.last(), addr);
        lemma_block_was_written_last(machine, isa, stores, commands, addr);
    } else {
        assert(!block_was_written(machine, isa, stores, commands, addr));
    }
}

/// On an instance that started from the reset state, `is_mapped` tells whether a
/// byte of the block was ever written.
pub proof fn law_is_mapped_since_reset<R: Fn(Call<IsMapped>) -> bool>(
    machine: Machine,
    isa: Isa,
    stores: Stores,
    commands: Seq<Command>,
    read: R,
    handle: usize,
    addr: u64,
    found: bool,
)
    requires
        machine.is_reset(),
        forall|i: int|
            0 <= i < commands.len() ==> machine.after_all(
                isa,
                commands.take(i),
            ).step_maps_its_stores(isa, stores, #[trigger] commands[i]),
        machine.after_all(isa, commands).answers_mapped(read, handle),
        answers(read, handle, (IsMapped { addr }), found),
    ensures
        found <==> block_was_written(machine, isa, stores, commands, addr),
{
    law_mapped_iff_written(machine, isa, stores, commands, addr);
}

/// The same without instructions, for every instruction set: mapped exactly if
/// some command wrote a byte of the block.
pub proof fn law_is_mapped_without_steps<R: Fn(Call<IsMapped>) -> bool>(
    machine: Machine,
    isa: Isa,
    commands: Seq<Command>,
    read: R,
    handle: usize,
    addr: u64,
    found: bool,
)
    requires
        machine.is_reset(),
        forall|i: int| 0 <= i < commands.len() ==> !(#[trigger] commands[i] is Step),
        machine.after_all(isa, commands).answers_mapped(read, handle),
        answers(read, handle, (IsMapped { addr }), found),
    ensures
        found <==> exists|i: int|
            0 <= i < commands.len() && (#[trigger] commands[i] matches Command::WriteMem {
                addr: target,
                ..
            } && block_of(target) == block_of(addr)),
{
    let stores = |m: Machine, opcode: u32| Set::<u64>::empty();
    law_is_mapped_since_reset(machine, isa, stores, commands, read, handle, addr, found);
    reveal(writes_block_at);
    if found {
        let i = choose|i: int|
            0 <= i < commands.len() && #[trigger] writes_block_at(
                machine,
                isa,
                stores,
                commands,
                i,
                addr,
            );
        assert(commands[i] is WriteMem);
    }
    if exists|i: int|
        0 <= i < commands.len() && (#[trigger] commands[i] matches Command::WriteMem {
            addr: target,
            ..
        } && block_of(target) == block_of(addr)) {
        let i = choose|i: int|
            0 <= i < commands.len() && (#[trigger] commands[i] matches Command::WriteMem {
                addr: target,
                ..
            } && block_of(target) == block_of(addr));
        assert(writes_block_at(machine, isa, stores, commands, i, addr));
    }
}

/// Memory without storage reads as zero.
pub proof fn law_unmapped_memory_reads_zero<R: Fn(Call<ReadMem>) -> u8>(
    machine: Machine,
    read: R,
    handle: usize,
    addr: u64,
    found: u8,
)
    requires
        machine.well_formed(),
        !machine.mapped(addr),
        machine.answers_bytes(read, handle),
        answers(read, handle, (ReadMem { addr }), found),
    ensures
        found == 0,
{
}

/// Well-formedness of a machine is kept by every command, if the instruction
/// set keeps it.
pub proof fn law_commands_keep_well_formed(machine: Machine, isa: Isa, command: Command)
    requires
        machine.well_formed(),
        forall|m: Machine, opcode: u32|
            m.well_formed() ==> (#[trigger] isa(m, opcode)).well_formed(),
    ensures
        machine.after(isa, command).well_formed(),
{
    let after = machine.after(isa, command);
    assert forall|addr: u64| #[trigger] after.memory.contains_key(addr) implies after.mapped(
        addr,
    ) by {
        if !(command is Step) && machine.memory.contains_key(addr) {
            assert(machine.mapped(addr));
        }
    }
}

// ---- whole instances --------------------------------------------------------

/// Instances are independent: the state of an instance after any events of the
/// process is that of its own commands, executed in order. What happens to other
/// instances, their creation and release included, makes no difference.
pub proof fn law_instances_are_independent(
    world: Map<usize, Machine>,
    isa: Isa,
    fresh: Machine,
    events: Seq<Event>,
    handle: usize,
)
    requires
        lives_through(world, events, handle),
    ensures
        after_events(world, isa, fresh, events).contains_key(handle),
        after_events(world, isa, fresh, events)[handle] == world[handle].after_all(
            isa,
            commands_for(events, handle),
        ),
    decreases events.len(),
{
    if events.len() > 0 {
        let earlier = events.drop_last();
        let last = events.last();
        assert forall|i: int|
            0 <= i < earlier.len() && (#[trigger] earlier[i]).handle()
                == handle implies earlier[i] is Invoke by {
            assert(events[i] == earlier[i]);
        }
        law_instances_are_independent(world, isa, fresh, earlier, handle);
        assert(events[events.len() - 1] == last);
        if last.handle() == handle {
            assert(commands_for(events, handle).drop_last() =~= commands_for(earlier, handle));
        }
    }
}

/// The calls of an oracle execute on its own instance, in order, and on no
/// other.
pub proof fn law_calls_reach_their_instance(
    oracle: Oracle,
    calls: Seq<Call<Command>>,
    commands: Seq<Command>,
    other: usize,
)
    requires
        oracle.sends_all(calls, commands),
        other != oracle.handle(),
    ensures
        commands_for(invocations(calls), oracle.handle()) == commands,
        commands_for(invocations(calls), other) == Seq::<Command>::empty(),
    decreases calls.len(),
{
    if calls.len() > 0 {
        let last = calls.len() - 1;
        assert forall|i: int| 0 <= i < last implies oracle.sends(
            #[trigger] calls.drop_last()[i],
            commands.drop_last()[i],
        ) by {
            assert(oracle.sends(calls[i], commands[i]));
        }
        law_calls_reach_their_instance(oracle, calls.drop_last(), commands.drop_last(), other);
        assert(oracle.sends(calls[last], commands[last]));
        assert(invocations(calls).drop_last() =~= invocations(calls.drop_last()));
        assert(commands.drop_last().push(commands[last]) =~= commands);
    } else {
        assert(commands =~= Seq::<Command>::empty());
    }
}

/// Instances can be created at any time: behind a handle that is not in use, a
/// fresh instance comes into being, and all other instances keep their state.
pub proof fn law_creation_is_local(
    world: Map<usize, Machine>,
    isa: Isa,
    fresh: Machine,
    handle: usize,
    other: usize,
)
    requires
        !world.contains_key(handle),
        other != handle,
    ensures
        ({
            let after = after_event(world, isa, fresh, Event::Create { handle });
            &&& after.contains_key(handle)
            &&& after[handle] == fresh
            &&& after.contains_key(other) == world.contains_key(other)
            &&& after[other] == world[other]
        }),
{
}

/// Instances can be dropped at any time: the instance is gone, and all other
/// instances keep their state.
pub proof fn law_release_is_local(
    world: Map<usize, Machine>,
    isa: Isa,
    fresh: Machine,
    handle: usize,
    other: usize,
)
    requires
        world.contains_key(handle),
        other != handle,
    ensures
        ({
            let after = after_event(world, isa, fresh, Event::Release { handle });
            &&& !after.contains_key(handle)
            &&& after.contains_key(other) == world.contains_key(other)
            &&& world.contains_key(other) ==> after[other] == world[other]
        }),
{
}

/// No query can tell the two machines apart.
pub open spec fn answer_alike(a: Machine, b: Machine) -> bool {
    &&& forall|query: WordQuery| #[trigger] a.word(query) == b.word(query)
    &&& forall|query: FieldQuery| #[trigger] a.field(query) == b.field(query)
    &&& forall|addr: u64| #[trigger] a.byte(addr) == b.byte(addr)
    &&& forall|addr: u64| #[trigger] a.mapped(addr) == b.mapped(addr)
}

/// The same inputs give the same outputs: two instances that start in one state
/// and get the same commands, whatever else happens around them, are in the same
/// state in the end and answer every query alike.
pub proof fn law_instances_are_deterministic(
    world_a: Map<usize, Machine>,
    events_a: Seq<Event>,
    a: usize,
    world_b: Map<usize, Machine>,
    events_b: Seq<Event>,
    b: usize,
    isa: Isa,
    fresh: Machine,
)
    requires
        lives_through(world_a, events_a, a),
        lives_through(world_b, events_b, b),
        world_a[a] == world_b[b],
        commands_for(events_a, a) == commands_for(events_b, b),
    ensures
        after_events(world_a, isa, fresh, events_a)[a] == after_events(
            world_b,
            isa,
            fresh,
            events_b,
        )[b],
        answer_alike(
            after_events(world_a, isa, fresh, events_a)[a],
            after_events(world_b, isa, fresh, events_b)[b],
        ),
{
    law_instances_are_independent(world_a, isa, fresh, events_a, a);
    law_instances_are_independent(world_b, isa, fresh, events_b, b);
}

/// Two fresh instances that get the same commands, steps included, agree on
/// everything that can be observed of them.
pub proof fn law_fresh_instances_agree(
    world_a: Map<usize, Machine>,
    events_a: Seq<Event>,
    a: usize,
    world_b: Map<usize, Machine>,
    events_b: Seq<Event>,
    b: usize,
    isa: Isa,
    fresh: Machine,
)
    requires
        lives_through(after_event(world_a, isa, fresh, Event::Create { handle: a }), events_a, a),
        lives_through(after_event(world_b, isa, fresh, Event::Create { handle: b }), events_b, b),
        commands_for(events_a, a) == commands_for(events_b, b),
    ensures
        ({
            let created_a = after_event(world_a, isa, fresh, Event::Create { handle: a });
            let created_b = after_event(world_b, isa, fresh, Event::Create { handle: b });
            answer_alike(
                after_events(created_a, isa, fresh, events_a)[a],
                after_events(created_b, isa, fresh, events_b)[b],
            )
        }),
{
    law_instances_are_deterministic(
        after_event(world_a, isa, fresh, Event::Create { handle: a }),
        events_a,
        a,
        after_event(world_b, isa, fresh, Event::Create { handle: b }),
        events_b,
        b,
        isa,
        fresh,
    );
}

/// A snapshot is the X registers, the program counter and the condition flags
/// of the machine; `flags` is the answer that its flags were taken from.
pub proof fn law_snapshot_is_the_state<
    W: Fn(Call<WordQuery>) -> u64,
    F: Fn(Call<FieldQuery>) -> u32,
>(machine: Machine, read_word: W, read_field: F, handle: usize, state: CpuState, flags: u32)
    requires
        machine.answers_words(read_word, handle),
        machine.answers_fields(read_field, handle),
        answers_all(read_word, handle, x_reads(), state.x@),
        answers(read_word, handle, WordQuery::Pc, state.pc),
        answers(read_field, handle, FieldQuery::Nzcv, flags),
        state.nzcv == flags % 16,
    ensures
        forall|n: u32|
            n < X_REGS ==> state.x@[n as int] == #[trigger] machine.word(WordQuery::Gpr { n }),
        state.pc == machine.word(WordQuery::Pc),
        state.nzcv == machine.nzcv % 16,
{
    assert forall|n: u32| n < X_REGS implies state.x@[n as int] == #[trigger] machine.word(
        WordQuery::Gpr { n },
    ) by {
        assert(x_reads()[n as int] == WordQuery::Gpr { n });
        assert(answers(read_word, handle, x_reads()[n as int], state.x@[n as int]));
    }
}

/// In the reset state SVCR and X0 are zero, the stack pointer is that of EL3, all
/// of memory reads as zero and none of it is mapped.
pub proof fn law_reset_state(machine: Machine)
    requires
        machine.is_reset(),
    ensures
        machine.well_formed(),
        machine.field(FieldQuery::Svcr) == 0,
        sp_bank(machine.word(WordQuery::Pstate)) == 3,
        machine.word(WordQuery::Vl) == 2048,
        machine.word(WordQuery::Gpr { n: 0 }) == 0,
        forall|addr: u64| #[trigger] machine.byte(addr) == 0,
        forall|addr: u64| !#[trigger] machine.mapped(addr),
{
}

} // verus!
