//! What the calls mean: a mathematical model of one CPU instance.
//!
//! Executable code does not depend on this module. It fixes the reading of the
//! call interface under which the laws of the library are stated. What an
//! instruction does is left open: the laws hold for every instruction set.

use vstd::prelude::*;

use crate::calls::{answers, Call, Command, FieldQuery, IsMapped, ReadMem, WordQuery};

verus! {

/// The PSTATE bits that can be written directly: DAIF, BTYPE, SSBS, PAN, UAO,
/// DIT and TCO (bits 10:0), and SPSel (bit 13).
pub const PSTATE_WRITABLE: u64 = 0x27FF;

/// Memory gets its storage in blocks of 16 MiB.
pub const BLOCK_BYTES: u64 = 0x100_0000;

/// The state of one CPU instance.
pub struct Machine {
    /// Registers without special rules, each under the query that reads it.
    pub regs: Map<WordQuery, u64>,
    /// Condition flags: bit 3 is N, bit 2 is Z, bit 1 is C, bit 0 is V.
    pub nzcv: u32,
    /// The stack pointers, by bank.
    pub sp: Map<int, u64>,
    /// The bytes of memory that were written.
    pub memory: Map<u64, u8>,
    /// The blocks of memory that have storage.
    pub blocks: Set<int>,
    /// The state that no call reads but instructions may depend on, such as the
    /// system registers VBAR, SCTLR and ZCR, under some numbering.
    pub hidden: Map<int, u64>,
}

/// What executing an opcode does to a machine: a function of the machine and the
/// opcode. RNDR and RNDRRS, which draw random numbers, are set aside.
pub type Isa = spec_fn(Machine, u32) -> Machine;

/// The addresses that executing an opcode stores to.
pub type Stores = spec_fn(Machine, u32) -> Set<u64>;

/// The block that `addr` lies in.
pub open spec fn block_of(addr: u64) -> int {
    addr as int / BLOCK_BYTES as int
}

/// The exception level in a packed PSTATE word.
pub open spec fn pstate_el(pstate: u64) -> u64 {
    (pstate >> 11) & 3
}

/// The stack pointer selection in a packed PSTATE word.
pub open spec fn pstate_spsel(pstate: u64) -> u64 {
    (pstate >> 13) & 1
}

/// SM and ZA in a packed PSTATE word, as SVCR shows them: bit 1 is SM, bit 0 is
/// ZA.
pub open spec fn pstate_svcr(pstate: u64) -> u64 {
    (pstate >> 14) & 3
}

/// The stack pointer bank that a packed PSTATE word selects: SP_EL0 while SPSel
/// is 0, and that of the exception level otherwise.
pub open spec fn sp_bank(pstate: u64) -> int {
    if pstate_spsel(pstate) == 0 {
        0
    } else {
        pstate_el(pstate) as int
    }
}

impl Command {
    /// The register that a command stores to, and the value, where the command
    /// is a plain store: no banking, no masking, not the zero register.
    pub open spec fn store(self) -> Option<(WordQuery, u64)> {
        match self {
            Command::SetGpr { n, value } => if n == 31 {
                None
            } else {
                Some((WordQuery::Gpr { n }, value))
            },
            Command::SetPc { value } => Some((WordQuery::Pc, value)),
            Command::SetZ { n, chunk, value } => Some((WordQuery::Z { n, chunk }, value)),
            Command::SetP { n, chunk, value } => Some((WordQuery::P { n, chunk }, value)),
            Command::SetFpcr { value } => Some((WordQuery::Fpcr, value)),
            Command::SetFpsr { value } => Some((WordQuery::Fpsr, value)),
            Command::SetZa { row, chunk, value } => Some((WordQuery::Za { row, chunk }, value)),
            Command::SetFfr { chunk, value } => Some((WordQuery::Ffr { chunk }, value)),
            Command::SetZt0 { chunk, value } => Some((WordQuery::Zt0 { chunk }, value)),
            Command::SetTpidrEl0 { value } => Some((WordQuery::TpidrEl0, value)),
            Command::SetTpidrroEl0 { value } => Some((WordQuery::TpidrroEl0, value)),
            _ => None,
        }
    }
}

impl Machine {
    pub open spec fn pstate(self) -> u64 {
        self.regs[WordQuery::Pstate]
    }

    /// The answer to a word query.
    pub open spec fn word(self, query: WordQuery) -> u64 {
        match query {
            WordQuery::Gpr { n } => if n == 31 {
                0
            } else {
                self.regs[query]
            },
            WordQuery::Sp => self.sp[sp_bank(self.pstate())],
            _ => self.regs[query],
        }
    }

    /// The answers to word queries.
    pub open spec fn words(self, queries: Seq<WordQuery>) -> Seq<u64> {
        queries.map_values(|query: WordQuery| self.word(query))
    }

    /// The answer to a field query.
    pub open spec fn field(self, query: FieldQuery) -> u32 {
        match query {
            FieldQuery::Nzcv => self.nzcv,
            FieldQuery::Svcr => pstate_svcr(self.pstate()) as u32,
        }
    }

    /// The byte of memory at `addr`: zero where nothing was written.
    pub open spec fn byte(self, addr: u64) -> u8 {
        if self.memory.contains_key(addr) {
            self.memory[addr]
        } else {
            0
        }
    }

    /// Whether the block around `addr` has storage.
    pub open spec fn mapped(self, addr: u64) -> bool {
        self.blocks.contains(block_of(addr))
    }

    /// What was written lies in blocks that have storage.
    pub open spec fn well_formed(self) -> bool {
        forall|addr: u64| #[trigger] self.memory.contains_key(addr) ==> self.mapped(addr)
    }

    /// The state that a fresh instance is in: EL3 with its own stack pointer,
    /// no streaming mode, no ZA, vectors of maximum length, X0 zero, no memory
    /// written.
    pub open spec fn is_reset(self) -> bool {
        &&& pstate_el(self.pstate()) == 3
        &&& pstate_spsel(self.pstate()) == 1
        &&& pstate_svcr(self.pstate()) == 0
        &&& self.word(WordQuery::Vl) == 2048
        &&& self.word(WordQuery::Gpr { n: 0 }) == 0
        &&& self.memory == Map::<u64, u8>::empty()
        &&& self.blocks == Set::<int>::empty()
    }

    /// The state after `command`, where `isa` says what opcodes do.
    pub open spec fn after(self, isa: Isa, command: Command) -> Machine {
        match command {
            Command::SetNzcv { flags } => Machine { nzcv: flags, ..self },
            Command::Step { opcode } => isa(self, opcode),
            Command::SetSp { value } => Machine {
                sp: self.sp.insert(sp_bank(self.pstate()), value),
                ..self
            },
            Command::SetPstate { value } => Machine {
                regs: self.regs.insert(
                    WordQuery::Pstate,
                    (self.pstate() & !PSTATE_WRITABLE) | (value & PSTATE_WRITABLE),
                ),
                ..self
            },
            Command::WriteMem { addr, byte } => Machine {
                memory: self.memory.insert(addr, byte),
                blocks: self.blocks.insert(block_of(addr)),
                ..self
            },
            _ => match command.store() {
                Some((query, value)) => Machine { regs: self.regs.insert(query, value), ..self },
                None => self,
            },
        }
    }

    /// The state after `commands`, in order.
    pub open spec fn after_all(self, isa: Isa, commands: Seq<Command>) -> Machine
        decreases commands.len(),
    {
        if commands.len() == 0 {
            self
        } else {
            self.after_all(isa, commands.drop_last()).after(isa, commands.last())
        }
    }

    /// No query can tell this machine from `before`, except for `queries`; nor
    /// can an instruction by the stack pointers or by what no call reads.
    pub open spec fn differs_only_at(self, before: Machine, queries: Seq<WordQuery>) -> bool {
        &&& forall|query: WordQuery|
            !queries.contains(query) ==> #[trigger] self.word(query) == before.word(query)
        &&& forall|query: FieldQuery| #[trigger] self.field(query) == before.field(query)
        &&& forall|addr: u64| #[trigger] self.byte(addr) == before.byte(addr)
        &&& forall|addr: u64| #[trigger] self.mapped(addr) == before.mapped(addr)
        &&& !queries.contains(WordQuery::Sp) ==> self.sp == before.sp
        &&& self.hidden == before.hidden
    }

    /// `command`, executed on this machine, writes a byte of the block around
    /// `addr`: directly, or as an instruction that stores there.
    pub open spec fn writes_block(self, stores: Stores, command: Command, addr: u64) -> bool {
        match command {
            Command::WriteMem { addr: target, .. } => block_of(target) == block_of(addr),
            Command::Step { opcode } => exists|target: u64| #[trigger]
                stores(self, opcode).contains(target) && block_of(target) == block_of(addr),
            _ => false,
        }
    }

    /// If `command` executes an instruction on this machine, that gives storage
    /// to the blocks it stores to, and to no other.
    pub open spec fn step_maps_its_stores(
        self,
        isa: Isa,
        stores: Stores,
        command: Command,
    ) -> bool {
        command is Step ==> forall|addr: u64| #[trigger]
            self.after(isa, command).mapped(addr) <==> self.mapped(addr) || self.writes_block(
                stores,
                command,
                addr,
            )
    }

    /// Every answer that `read` gives for the instance behind `handle` is that
    /// of this machine.
    pub open spec fn answers_words<R: Fn(Call<WordQuery>) -> u64>(
        self,
        read: R,
        handle: usize,
    ) -> bool {
        forall|query: WordQuery, answer: u64| #[trigger]
            answers(read, handle, query, answer) ==> answer == self.word(query)
    }

    pub open spec fn answers_fields<R: Fn(Call<FieldQuery>) -> u32>(
        self,
        read: R,
        handle: usize,
    ) -> bool {
        forall|query: FieldQuery, answer: u32| #[trigger]
            answers(read, handle, query, answer) ==> answer == self.field(query)
    }

    pub open spec fn answers_bytes<R: Fn(Call<ReadMem>) -> u8>(
        self,
        read: R,
        handle: usize,
    ) -> bool {
        forall|query: ReadMem, answer: u8| #[trigger]
            answers(read, handle, query, answer) ==> answer == self.byte(query.addr)
    }

    pub open spec fn answers_mapped<R: Fn(Call<IsMapped>) -> bool>(
        self,
        read: R,
        handle: usize,
    ) -> bool {
        forall|query: IsMapped, answer: bool| #[trigger]
            answers(read, handle, query, answer) ==> answer == self.mapped(query.addr)
    }
}

/// What happens to the instances of a process.
pub enum Event {
    /// An instance comes into being behind a new handle.
    Create { handle: usize },
    /// A call is made.
    Invoke { call: Call<Command> },
    /// The instance behind a handle is dropped.
    Release { handle: usize },
}

impl Event {
    /// The handle of the instance that the event is about.
    pub open spec fn handle(self) -> usize {
        match self {
            Event::Create { handle } => handle,
            Event::Invoke { call } => call.handle,
            Event::Release { handle } => handle,
        }
    }
}

/// The instances of a process after `event`. New instances are in the state
/// `fresh`.
pub open spec fn after_event(
    world: Map<usize, Machine>,
    isa: Isa,
    fresh: Machine,
    event: Event,
) -> Map<usize, Machine> {
    match event {
        Event::Create { handle } => world.insert(handle, fresh),
        Event::Invoke { call } => world.insert(
            call.handle,
            world[call.handle].after(isa, call.op),
        ),
        Event::Release { handle } => world.remove(handle),
    }
}

/// The instances of a process after `events`, in order.
pub open spec fn after_events(
    world: Map<usize, Machine>,
    isa: Isa,
    fresh: Machine,
    events: Seq<Event>,
) -> Map<usize, Machine>
    decreases events.len(),
{
    if events.len() == 0 {
        world
    } else {
        after_event(after_events(world, isa, fresh, events.drop_last()), isa, fresh, events.last())
    }
}

/// The events of making `calls`.
pub open spec fn invocations(calls: Seq<Call<Command>>) -> Seq<Event> {
    calls.map_values(|call: Call<Command>| Event::Invoke { call })
}

/// The commands that `events` execute on the instance behind `handle`.
pub open spec fn commands_for(events: Seq<Event>, handle: usize) -> Seq<Command>
    decreases events.len(),
{
    if events.len() == 0 {
        Seq::empty()
    } else {
        let earlier = commands_for(events.drop_last(), handle);
        match events.last() {
            Event::Invoke { call } => if call.handle == handle {
                earlier.push(call.op)
            } else {
                earlier
            },
            _ => earlier,
        }
    }
}

/// The instance behind `handle` is there before `events`, and none of them
/// creates or drops it.
pub open spec fn lives_through(
    world: Map<usize, Machine>,
    events: Seq<Event>,
    handle: usize,
) -> bool {
    &&& world.contains_key(handle)
    &&& forall|i: int|
        0 <= i < events.len() && (#[trigger] events[i]).handle() == handle ==> events[i] is Invoke
}

} // verus!
