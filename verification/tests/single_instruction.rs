//! Oracles driven end to end, against a stand-in for the model.
//!
//! The stand-in has storage behind every call and executes the instructions
//! that these tests inject. Instances live side by side in one host and are
//! reached through the handle that each call carries.

use std::cell::RefCell;
use std::collections::{HashMap, HashSet};
use std::rc::Rc;

use sail_aarch64_oracle::{
    model_lock, Acquired, Call, Command, CpuState, FieldQuery, IsMapped, Oracle, ReadMem,
    WordQuery, P_CHUNKS, ZT0_CHUNKS, Z_CHUNKS,
};

/// FADD D0, D1, D2  (scalar double)
const FADD_D0_D1_D2: u32 = 0x1E62_2820;
/// FDIV D3, D4, D5  (scalar double)
const FDIV_D3_D4_D5: u32 = 0x1E65_1883;
/// SMSTART (MSR SVCRSMZA, #1): enter streaming mode + enable ZA
const SMSTART: u32 = 0xD503_477F;
/// ZERO {ZA}: zero the whole ZA storage
const ZERO_ZA: u32 = 0xC008_00FF;
/// FPSR.DZC: divide-by-zero cumulative flag
const FPSR_DZC: u64 = 1 << 1;
/// ADD X0, X1, X2   (64-bit, shifted-register form, no shift)
const ADD_X0_X1_X2: u32 = 0x8B02_0020;
/// SUB X3, X4, X5
const SUB_X3_X4_X5: u32 = 0xCB05_0083;
/// STR X0, [X1]  (64-bit, unsigned offset 0)
const STR_X0_X1: u32 = 0xF900_0020;
/// LDR X2, [X1]  (64-bit, unsigned offset 0)
const LDR_X2_X1: u32 = 0xF940_0022;
/// ADD Z0.D, Z1.D, Z2.D  (SVE unpredicated vector add, 64-bit elements)
const ADD_Z0_Z1_Z2_D: u32 = 0x04E2_0020;
/// PTRUE P0.B  (all elements active)
const PTRUE_P0_B: u32 = 0x2518_E3E0;
/// ADD X0, SP, #16  (uses SP as Rn=31 in the immediate form)
const ADD_X0_SP_16: u32 = 0x9100_43E0;
/// MRS X1, TPIDR_EL0
const MRS_X1_TPIDR: u32 = 0xD53B_D041;
/// MSR TPIDR_EL0, X2
const MSR_TPIDR_X2: u32 = 0xD51B_D042;
/// RDFFR P1.B
const RDFFR_P1: u32 = 0x2519_F001;

const PSTATE_WRITABLE: u64 = 0x27FF;
const BLOCK_BYTES: u64 = 16 << 20;

/// The stand-in for one model instance.
struct Model {
    x: [u64; 31],
    pc: u64,
    nzcv: u32,
    z: [[u64; 32]; 32],
    p: [[u64; 4]; 16],
    ffr: [u64; 4],
    za: Vec<[u64; 32]>,
    zt0: [u64; 8],
    fpcr: u64,
    fpsr: u64,
    sp: [u64; 4],
    pstate: u64,
    tpidr: u64,
    tpidrro: u64,
    esr: u64,
    elr: u64,
    far: u64,
    memory: HashMap<u64, u8>,
    blocks: HashSet<u64>,
}

impl Model {
    fn reset() -> Model {
        Model {
            x: [0; 31],
            pc: 0,
            nzcv: 0,
            z: [[0; 32]; 32],
            p: [[0; 4]; 16],
            ffr: [0; 4],
            za: vec![[0; 32]; 256],
            zt0: [0; 8],
            fpcr: 0,
            fpsr: 0,
            sp: [0; 4],
            // EL3, SPSel = 1
            pstate: 0b11 << 11 | 1 << 13,
            tpidr: 0,
            tpidrro: 0,
            esr: 0,
            elr: 0,
            far: 0,
            memory: HashMap::new(),
            blocks: HashSet::new(),
        }
    }

    fn bank(&self) -> usize {
        if (self.pstate >> 13) & 1 == 0 {
            0
        } else {
            ((self.pstate >> 11) & 3) as usize
        }
    }

    fn byte(&self, addr: u64) -> u8 {
        self.memory.get(&addr).copied().unwrap_or(0)
    }

    fn store(&mut self, addr: u64, byte: u8) {
        self.memory.insert(addr, byte);
        self.blocks.insert(addr / BLOCK_BYTES);
    }

    fn mapped(&self, addr: u64) -> bool {
        self.blocks.contains(&(addr / BLOCK_BYTES))
    }

    fn word(&self, query: WordQuery) -> u64 {
        match query {
            WordQuery::Gpr { n: 31 } => 0,
            WordQuery::Gpr { n } => self.x[n as usize],
            WordQuery::Pc => self.pc,
            WordQuery::Z { n, chunk } => self.z[n as usize][chunk as usize],
            WordQuery::P { n, chunk } => self.p[n as usize][chunk as usize],
            WordQuery::Vl => 2048,
            WordQuery::Fpcr => self.fpcr,
            WordQuery::Fpsr => self.fpsr,
            WordQuery::Za { row, chunk } => self.za[row as usize][chunk as usize],
            WordQuery::Sp => self.sp[self.bank()],
            WordQuery::Pstate => self.pstate,
            WordQuery::Ffr { chunk } => self.ffr[chunk as usize],
            WordQuery::Zt0 { chunk } => self.zt0[chunk as usize],
            WordQuery::TpidrEl0 => self.tpidr,
            WordQuery::TpidrroEl0 => self.tpidrro,
            WordQuery::EsrEl3 => self.esr,
            WordQuery::ElrEl3 => self.elr,
            WordQuery::FarEl3 => self.far,
        }
    }

    fn field(&self, query: FieldQuery) -> u32 {
        match query {
            FieldQuery::Nzcv => self.nzcv,
            FieldQuery::Svcr => ((self.pstate >> 14) & 3) as u32,
        }
    }

    fn execute(&mut self, command: Command) {
        match command {
            Command::SetGpr { n: 31, .. } => {}
            Command::SetGpr { n, value } => self.x[n as usize] = value,
            Command::SetPc { value } => self.pc = value,
            Command::SetNzcv { flags } => self.nzcv = flags,
            Command::Step { opcode } => self.step(opcode),
            Command::SetZ { n, chunk, value } => self.z[n as usize][chunk as usize] = value,
            Command::SetP { n, chunk, value } => self.p[n as usize][chunk as usize] = value,
            Command::SetFpcr { value } => self.fpcr = value,
            Command::SetFpsr { value } => self.fpsr = value,
            Command::SetZa { row, chunk, value } => self.za[row as usize][chunk as usize] = value,
            Command::SetSp { value } => {
                let bank = self.bank();
                self.sp[bank] = value;
            }
            Command::SetPstate { value } => {
                self.pstate = self.pstate & !PSTATE_WRITABLE | value & PSTATE_WRITABLE;
            }
            Command::SetFfr { chunk, value } => self.ffr[chunk as usize] = value,
            Command::SetZt0 { chunk, value } => self.zt0[chunk as usize] = value,
            Command::SetTpidrEl0 { value } => self.tpidr = value,
            Command::SetTpidrroEl0 { value } => self.tpidrro = value,
            Command::WriteMem { addr, byte } => self.store(addr, byte),
        }
    }

    /// A write to Dn clears the rest of Zn.
    fn set_d(&mut self, n: usize, value: f64) {
        self.z[n] = [0; 32];
        self.z[n][0] = value.to_bits();
    }

    fn d(&self, n: usize) -> f64 {
        f64::from_bits(self.z[n][0])
    }

    fn step(&mut self, opcode: u32) {
        match opcode {
            ADD_X0_X1_X2 => self.x[0] = self.x[1].wrapping_add(self.x[2]),
            SUB_X3_X4_X5 => self.x[3] = self.x[4].wrapping_sub(self.x[5]),
            STR_X0_X1 => {
                let bytes = self.x[0].to_le_bytes();
                for i in 0..8 {
                    self.store(self.x[1] + i as u64, bytes[i]);
                }
            }
            LDR_X2_X1 => {
                let mut bytes = [0u8; 8];
                for i in 0..8 {
                    bytes[i] = self.byte(self.x[1] + i as u64);
                }
                self.x[2] = u64::from_le_bytes(bytes);
            }
            ADD_Z0_Z1_Z2_D => {
                for i in 0..32 {
                    self.z[0][i] = self.z[1][i].wrapping_add(self.z[2][i]);
                }
            }
            PTRUE_P0_B => self.p[0] = [u64::MAX; 4],
            FADD_D0_D1_D2 => self.set_d(0, self.d(1) + self.d(2)),
            FDIV_D3_D4_D5 => {
                if self.d(5) == 0.0 {
                    self.fpsr |= FPSR_DZC;
                }
                self.set_d(3, self.d(4) / self.d(5));
            }
            SMSTART => {
                self.pstate |= 0b11 << 14;
                self.z = [[0; 32]; 32];
                self.p = [[0; 4]; 16];
                self.za = vec![[0; 32]; 256];
            }
            ZERO_ZA => self.za = vec![[0; 32]; 256],
            ADD_X0_SP_16 => self.x[0] = self.sp[self.bank()] + 16,
            MRS_X1_TPIDR => self.x[1] = self.tpidr,
            MSR_TPIDR_X2 => self.tpidr = self.x[2],
            RDFFR_P1 => self.p[1] = self.ffr,
            _ => {
                // Undefined: vector to EL3 with an unknown reason.
                self.elr = self.pc;
                self.esr = 0;
                self.pc = 0x200;
                return;
            }
        }
        self.pc = self.pc.wrapping_add(4);
    }
}

/// The model instances of a process, by handle.
struct Host {
    models: HashMap<usize, Model>,
    created: usize,
}

impl Host {
    fn new() -> Rc<RefCell<Host>> {
        Rc::new(RefCell::new(Host { models: HashMap::new(), created: 0 }))
    }

    fn create(&mut self) -> usize {
        self.created += 1;
        self.models.insert(self.created, Model::reset());
        self.created
    }
}

/// An oracle together with the host that its calls go to.
struct Cpu {
    host: Rc<RefCell<Host>>,
    oracle: Oracle,
}

impl Cpu {
    fn new(host: &Rc<RefCell<Host>>) -> Cpu {
        let handle = host.borrow_mut().create();
        Cpu { host: host.clone(), oracle: Oracle::new(handle) }
    }

    fn alone() -> Cpu {
        Cpu::new(&Host::new())
    }

    fn send(&mut self, calls: Vec<Call<Command>>) {
        let mut host = self.host.borrow_mut();
        for call in calls {
            host.models.get_mut(&call.handle).unwrap().execute(call.op);
        }
    }

    fn words(&self) -> impl Fn(Call<WordQuery>) -> u64 {
        let host = self.host.clone();
        move |call| host.borrow().models[&call.handle].word(call.op)
    }

    fn fields(&self) -> impl Fn(Call<FieldQuery>) -> u32 {
        let host = self.host.clone();
        move |call| host.borrow().models[&call.handle].field(call.op)
    }

    fn bytes(&self) -> impl Fn(Call<ReadMem>) -> u8 {
        let host = self.host.clone();
        move |call| host.borrow().models[&call.handle].byte(call.op.addr)
    }

    fn blocks(&self) -> impl Fn(Call<IsMapped>) -> bool {
        let host = self.host.clone();
        move |call| host.borrow().models[&call.handle].mapped(call.op.addr)
    }

    fn set_x(&mut self, n: u32, value: u64) {
        let call = self.oracle.set_x(n, value);
        self.send(vec![call]);
    }

    fn get_x(&self, n: u32) -> u64 {
        self.oracle.get_x(n, &self.words())
    }

    fn set_pc(&mut self, value: u64) {
        let call = self.oracle.set_pc(value);
        self.send(vec![call]);
    }

    fn get_pc(&self) -> u64 {
        self.oracle.get_pc(&self.words())
    }

    fn set_nzcv(&mut self, flags: u32) {
        let call = self.oracle.set_nzcv(flags);
        self.send(vec![call]);
    }

    fn get_nzcv(&self) -> u32 {
        self.oracle.get_nzcv(&self.fields())
    }

    fn step(&mut self, opcode: u32) {
        let call = self.oracle.step(opcode);
        self.send(vec![call]);
    }

    fn set_z(&mut self, n: u32, data: &[u64]) {
        let calls = self.oracle.set_z(n, data);
        self.send(calls);
    }

    fn get_z(&self, n: u32) -> [u64; Z_CHUNKS] {
        self.oracle.get_z(n, &self.words())
    }

    fn set_p(&mut self, n: u32, data: &[u64]) {
        let calls = self.oracle.set_p(n, data);
        self.send(calls);
    }

    fn get_p(&self, n: u32) -> [u64; P_CHUNKS] {
        self.oracle.get_p(n, &self.words())
    }

    fn vl_bits(&self) -> u64 {
        self.oracle.vl_bits(&self.words())
    }

    fn set_fpcr(&mut self, value: u64) {
        let call = self.oracle.set_fpcr(value);
        self.send(vec![call]);
    }

    fn get_fpcr(&self) -> u64 {
        self.oracle.get_fpcr(&self.words())
    }

    fn set_fpsr(&mut self, value: u64) {
        let call = self.oracle.set_fpsr(value);
        self.send(vec![call]);
    }

    fn get_fpsr(&self) -> u64 {
        self.oracle.get_fpsr(&self.words())
    }

    fn set_za_row(&mut self, row: u32, data: &[u64]) {
        let calls = self.oracle.set_za_row(row, data);
        self.send(calls);
    }

    fn get_za_row(&self, row: u32) -> [u64; Z_CHUNKS] {
        self.oracle.get_za_row(row, &self.words())
    }

    fn svcr(&self) -> u32 {
        self.oracle.svcr(&self.fields())
    }

    fn set_sp(&mut self, value: u64) {
        let call = self.oracle.set_sp(value);
        self.send(vec![call]);
    }

    fn get_sp(&self) -> u64 {
        self.oracle.get_sp(&self.words())
    }

    fn get_pstate(&self) -> u64 {
        self.oracle.get_pstate(&self.words())
    }

    fn set_pstate(&mut self, value: u64) {
        let call = self.oracle.set_pstate(value);
        self.send(vec![call]);
    }

    fn set_ffr(&mut self, data: &[u64]) {
        let calls = self.oracle.set_ffr(data);
        self.send(calls);
    }

    fn get_ffr(&self) -> [u64; P_CHUNKS] {
        self.oracle.get_ffr(&self.words())
    }

    fn set_zt0(&mut self, data: &[u64]) {
        let calls = self.oracle.set_zt0(data);
        self.send(calls);
    }

    fn get_zt0(&self) -> [u64; ZT0_CHUNKS] {
        self.oracle.get_zt0(&self.words())
    }

    fn set_tpidr_el0(&mut self, value: u64) {
        let call = self.oracle.set_tpidr_el0(value);
        self.send(vec![call]);
    }

    fn get_tpidr_el0(&self) -> u64 {
        self.oracle.get_tpidr_el0(&self.words())
    }

    fn set_tpidrro_el0(&mut self, value: u64) {
        let call = self.oracle.set_tpidrro_el0(value);
        self.send(vec![call]);
    }

    fn get_tpidrro_el0(&self) -> u64 {
        self.oracle.get_tpidrro_el0(&self.words())
    }

    fn esr_el3(&self) -> u64 {
        self.oracle.esr_el3(&self.words())
    }

    fn elr_el3(&self) -> u64 {
        self.oracle.elr_el3(&self.words())
    }

    fn far_el3(&self) -> u64 {
        self.oracle.far_el3(&self.words())
    }

    fn read_mem_byte(&self, addr: u64) -> u8 {
        self.oracle.read_mem_byte(addr, &self.bytes())
    }

    fn write_mem_byte(&mut self, addr: u64, byte: u8) {
        let call = self.oracle.write_mem_byte(addr, byte);
        self.send(vec![call]);
    }

    fn read_mem(&self, addr: u64, buf: &mut [u8]) {
        self.oracle.read_mem(addr, buf, &self.bytes());
    }

    fn write_mem(&mut self, addr: u64, data: &[u8]) {
        let calls = self.oracle.write_mem(addr, data);
        self.send(calls);
    }

    fn read_mem_u64(&self, addr: u64) -> u64 {
        self.oracle.read_mem_u64(addr, &self.bytes())
    }

    fn write_mem_u64(&mut self, addr: u64, value: u64) {
        let calls = self.oracle.write_mem_u64(addr, value);
        self.send(calls);
    }

    fn is_mapped(&self, addr: u64) -> bool {
        self.oracle.is_mapped(addr, &self.blocks())
    }

    fn snapshot(&self) -> CpuState {
        self.oracle.snapshot(&self.words(), &self.fields())
    }
}

impl Drop for Cpu {
    fn drop(&mut self) {
        self.host.borrow_mut().models.remove(&self.oracle.raw_handle());
    }
}

#[test]
fn add_two_registers() {
    let mut cpu = Cpu::alone();

    cpu.set_x(1, 3);
    cpu.set_x(2, 4);
    cpu.set_pc(0x1000);

    cpu.step(ADD_X0_X1_X2);

    assert_eq!(cpu.get_x(0), 7, "X0 should be X1 + X2 = 7");
    // Inputs must be untouched.
    assert_eq!(cpu.get_x(1), 3);
    assert_eq!(cpu.get_x(2), 4);
}

#[test]
fn sub_two_registers() {
    let mut cpu = Cpu::alone();

    cpu.set_x(4, 10);
    cpu.set_x(5, 4);

    cpu.step(SUB_X3_X4_X5);

    assert_eq!(cpu.get_x(3), 6, "X3 should be X4 - X5 = 6");
}

/// Two instances in one process must be completely independent: interleave
/// writes and steps and check neither leaks into the other.
#[test]
fn two_oracles_are_independent() {
    let host = Host::new();
    let mut a = Cpu::new(&host);
    let mut b = Cpu::new(&host);

    a.set_x(1, 100);
    a.set_x(2, 1);
    b.set_x(1, 200);
    b.set_x(2, 2);
    a.set_pc(0x1000);
    b.set_pc(0x2000);

    // Interleaved execution.
    a.step(ADD_X0_X1_X2);
    b.step(ADD_X0_X1_X2);

    assert_eq!(a.get_x(0), 101, "instance A: X0 = 100 + 1");
    assert_eq!(b.get_x(0), 202, "instance B: X0 = 200 + 2");
    assert_eq!(a.get_x(1), 100, "A's inputs untouched by B");
    assert_eq!(b.get_x(1), 200, "B's inputs untouched by A");
    assert_eq!(a.get_pc(), 0x1004, "A's PC advanced independently");
    assert_eq!(b.get_pc(), 0x2004, "B's PC advanced independently");

    // Dropping one instance must not affect the survivor.
    drop(a);
    b.set_x(4, 50);
    b.set_x(5, 8);
    b.step(SUB_X3_X4_X5);
    assert_eq!(b.get_x(3), 42, "B still works after A is dropped");
}

/// Each instance owns its own memory: a store in one must not be visible in
/// the other, and must read back correctly in its own instance.
#[test]
fn memory_is_per_instance() {
    const ADDR: u64 = 0x8000_0000; // RAM; MMU is off after reset (flat mapping)

    let host = Host::new();
    let mut a = Cpu::new(&host);
    let mut b = Cpu::new(&host);

    a.set_x(0, 0xDEAD_BEEF_CAFE_F00D);
    a.set_x(1, ADDR);
    a.step(STR_X0_X1);

    // A reads back its own store.
    a.set_x(2, 0);
    a.step(LDR_X2_X1);
    assert_eq!(a.get_x(2), 0xDEAD_BEEF_CAFE_F00D, "A sees its own store");

    // B reads the same physical address: fresh (zero) memory, not A's data.
    b.set_x(1, ADDR);
    b.set_x(2, 0x1111_1111_1111_1111);
    b.step(LDR_X2_X1);
    assert_eq!(b.get_x(2), 0, "B must not see A's store");

    // ...and B's own store doesn't leak back into A.
    b.set_x(0, 0x0BAD_0BAD_0BAD_0BAD);
    b.step(STR_X0_X1);
    a.step(LDR_X2_X1);
    assert_eq!(a.get_x(2), 0xDEAD_BEEF_CAFE_F00D, "A still sees its value");
}

/// Direct byte-addressed memory access agrees with what instructions see:
/// a value seeded through the oracle is loaded by LDR, and a value stored by STR
/// is read back through the oracle. Little-endian byte order both ways.
#[test]
fn direct_memory_access_matches_instructions() {
    const ADDR: u64 = 0x8000_0000;

    let mut cpu = Cpu::alone();

    // Seed memory directly, then have an instruction load it.
    cpu.write_mem_u64(ADDR, 0x0123_4567_89AB_CDEF);
    cpu.set_x(1, ADDR);
    cpu.step(LDR_X2_X1);
    assert_eq!(cpu.get_x(2), 0x0123_4567_89AB_CDEF, "LDR sees API-written value");

    // Little-endian: byte at ADDR is the LSB.
    assert_eq!(cpu.read_mem_byte(ADDR), 0xEF);
    assert_eq!(cpu.read_mem_byte(ADDR + 7), 0x01);

    // Now store via an instruction and read it back through the oracle.
    cpu.set_x(0, 0xFEED_FACE_DEAD_C0DE);
    cpu.step(STR_X0_X1);
    assert_eq!(cpu.read_mem_u64(ADDR), 0xFEED_FACE_DEAD_C0DE, "API sees STR value");

    // Unwritten memory reads back as zero.
    assert_eq!(cpu.read_mem_u64(0x9000_0000), 0);

    // is_mapped distinguishes "wrote 0" from "never touched": both read 0.
    assert!(cpu.is_mapped(ADDR), "written region is mapped");
    assert!(!cpu.is_mapped(0xA000_0000), "untouched region is not mapped");
    cpu.write_mem_u64(0xA000_0000, 0);
    assert_eq!(cpu.read_mem_u64(0xA000_0000), 0);
    assert!(cpu.is_mapped(0xA000_0000), "explicit zero write maps the region");

    // Block read/write round-trips.
    let bytes = [1u8, 2, 3, 4, 5, 6, 7, 8];
    cpu.write_mem(ADDR + 0x100, &bytes);
    let mut out = [0u8; 8];
    cpu.read_mem(ADDR + 0x100, &mut out);
    assert_eq!(out, bytes);
}

#[test]
fn sve_add_vectors() {
    let mut cpu = Cpu::alone();
    assert_eq!(cpu.vl_bits(), 2048, "init_harness requests max VL");

    // Distinct value per 64-bit lane across the full vector.
    let z1: Vec<u64> = (0..Z_CHUNKS as u64).map(|i| 0x1000 + i).collect();
    let z2: Vec<u64> = (0..Z_CHUNKS as u64).map(|i| 0x2000_0000 + 3 * i).collect();
    cpu.set_z(1, &z1);
    cpu.set_z(2, &z2);

    cpu.step(ADD_Z0_Z1_Z2_D);

    let z0 = cpu.get_z(0);
    for i in 0..Z_CHUNKS {
        assert_eq!(z0[i], z1[i] + z2[i], "Z0 lane {i} = Z1 + Z2");
    }
    // Sources untouched.
    assert_eq!(cpu.get_z(1).as_slice(), z1.as_slice());
    assert_eq!(cpu.get_z(2).as_slice(), z2.as_slice());
}

#[test]
fn sve_predicates() {
    let mut cpu = Cpu::alone();

    // P register write/read roundtrip through the chunk calls.
    let pat = [
        0xAAAA_AAAA_AAAA_AAAA,
        0x5555_5555_5555_5555,
        0xFFFF_0000_FFFF_0000,
        0x0123_4567_89AB_CDEF,
    ];
    cpu.set_p(3, &pat);
    assert_eq!(cpu.get_p(3), pat, "P3 chunk roundtrip");

    // PTRUE P0.B: with VL=2048 every byte lane is active -> all 256
    // predicate bits set.
    cpu.step(PTRUE_P0_B);
    assert_eq!(cpu.get_p(0), [u64::MAX; P_CHUNKS], "PTRUE sets all lanes");
    // P3 untouched by the PTRUE.
    assert_eq!(cpu.get_p(3), pat);
}

#[test]
fn fp_scalar_ops() {
    let mut cpu = Cpu::alone();

    // FPCR roundtrip: select round-towards-zero (RMode = 0b11, bits 23:22).
    cpu.set_fpcr(0b11 << 22);
    assert_eq!(cpu.get_fpcr(), 0b11 << 22, "FPCR roundtrip");
    cpu.set_fpcr(0); // back to round-to-nearest for the ops below

    // D registers are the low 64 bits of the Z registers (chunk 0).
    cpu.set_z(1, &[1.5f64.to_bits()]);
    cpu.set_z(2, &[2.25f64.to_bits()]);
    cpu.step(FADD_D0_D1_D2);
    assert_eq!(
        cpu.get_z(0)[0],
        3.75f64.to_bits(),
        "FADD D0 = 1.5 + 2.25 (exact)"
    );

    // Divide by zero: result +Inf, FPSR.DZC set (and only DZC).
    cpu.set_fpsr(0);
    cpu.set_z(4, &[1.0f64.to_bits()]);
    cpu.set_z(5, &[0.0f64.to_bits()]);
    cpu.step(FDIV_D3_D4_D5);
    assert_eq!(cpu.get_z(3)[0], f64::INFINITY.to_bits(), "1.0/0.0 = +Inf");
    assert_eq!(cpu.get_fpsr(), FPSR_DZC, "FPSR: exactly DZC accumulated");
}

#[test]
fn sme_za_and_streaming() {
    let mut cpu = Cpu::alone();

    assert_eq!(cpu.svcr(), 0, "SM=0, ZA=0 after reset");

    // SMSTART: PSTATE.SM=1 + PSTATE.ZA=1 (with mode-switch side effects).
    cpu.step(SMSTART);
    assert_eq!(cpu.svcr(), 0b11, "SM=1, ZA=1 after SMSTART");
    assert_eq!(cpu.vl_bits(), 2048, "SVL is max (SMCR_EL3.LEN)");

    // ZA storage roundtrip through the chunk calls (after SMSTART, which
    // architecturally zeroes ZA on enable).
    let row0: Vec<u64> = (0..Z_CHUNKS as u64).map(|i| 0xA000_0000 + i).collect();
    let row255: Vec<u64> = (0..Z_CHUNKS as u64).map(|i| 0xB000_0000 + i).collect();
    cpu.set_za_row(0, &row0);
    cpu.set_za_row(255, &row255);
    assert_eq!(cpu.get_za_row(0).as_slice(), row0.as_slice(), "ZA[0] roundtrip");
    assert_eq!(cpu.get_za_row(255).as_slice(), row255.as_slice(), "ZA[255] roundtrip");

    // ZERO {ZA} wipes the whole storage.
    cpu.step(ZERO_ZA);
    assert_eq!(cpu.get_za_row(0), [0u64; Z_CHUNKS], "ZA[0] zeroed");
    assert_eq!(cpu.get_za_row(255), [0u64; Z_CHUNKS], "ZA[255] zeroed");
}

#[test]
fn sp_pstate_and_thread_pointers() {
    let mut cpu = Cpu::alone();

    // Reset state: EL3 (pstate[12:11] = 0b11), SPSel = 1.
    let ps = cpu.get_pstate();
    assert_eq!((ps >> 11) & 0b11, 0b11, "running at EL3");
    assert_eq!((ps >> 13) & 1, 1, "SPSel = 1 (SP_EL3)");

    // SP is architecturally visible to instructions.
    cpu.set_sp(0x9000_0000);
    cpu.step(ADD_X0_SP_16);
    assert_eq!(cpu.get_x(0), 0x9000_0010, "X0 = SP + 16");
    assert_eq!(cpu.get_sp(), 0x9000_0000, "SP unchanged");

    // DAIF bits roundtrip through the packed pstate word.
    cpu.set_pstate(ps | 0b1111); // set D,A,I,F
    assert_eq!(cpu.get_pstate() & 0b1111, 0b1111, "DAIF set");
    cpu.set_pstate(ps & !0b1111);

    // Thread pointers via MRS/MSR.
    cpu.set_tpidr_el0(0x1122_3344_5566_7788);
    cpu.step(MRS_X1_TPIDR);
    assert_eq!(cpu.get_x(1), 0x1122_3344_5566_7788, "MRS reads TPIDR_EL0");

    cpu.set_x(2, 0xAA55);
    cpu.step(MSR_TPIDR_X2);
    assert_eq!(cpu.get_tpidr_el0(), 0xAA55, "MSR writes TPIDR_EL0");
}

#[test]
fn ffr_and_zt0() {
    let mut cpu = Cpu::alone();

    // FFR roundtrip + RDFFR makes it architecturally visible in a predicate.
    let pat = [0xF0F0_F0F0_F0F0_F0F0u64, 0x0F0F_0F0F_0F0F_0F0F, u64::MAX, 0];
    cpu.set_ffr(&pat);
    assert_eq!(cpu.get_ffr(), pat, "FFR chunk roundtrip");
    cpu.step(RDFFR_P1);
    assert_eq!(cpu.get_p(1), pat, "RDFFR copies FFR into P1");

    // ZT0 (SME2) storage roundtrip.
    let zt: Vec<u64> = (0..ZT0_CHUNKS as u64).map(|i| 0xC0DE_0000 + i).collect();
    cpu.set_zt0(&zt);
    assert_eq!(cpu.get_zt0().as_slice(), zt.as_slice(), "ZT0 roundtrip");
}

#[test]
fn undefined_instruction_observability() {
    let mut cpu = Cpu::alone();

    cpu.set_pc(0x4000);
    cpu.step(0x0000_0000); // UDF #0

    // The model vectors to EL3: ELR_EL3 records the faulting PC, ESR_EL3.EC
    // = 0 (unknown reason), and PC lands at VBAR_EL3 + 0x200 (sync, current
    // EL with SP_ELx).
    assert_eq!(cpu.elr_el3(), 0x4000, "ELR_EL3 = faulting PC");
    assert_eq!((cpu.esr_el3() >> 26) & 0x3F, 0, "ESR_EL3.EC = unknown");
    assert_eq!(cpu.get_pc() & 0x7FF, 0x200, "PC at sync vector offset");
}

#[test]
fn zero_register_ignores_writes_and_reads_zero() {
    let mut cpu = Cpu::alone();
    cpu.set_x(30, 30);
    cpu.set_x(31, 31);
    assert_eq!(cpu.get_x(31), 0);
    assert_eq!(cpu.get_x(30), 30);
}

#[test]
fn condition_flags_keep_four_bits() {
    let mut cpu = Cpu::alone();
    cpu.set_nzcv(0xFFFF_FFF6);
    assert_eq!(cpu.get_nzcv(), 0b0110);
    assert_eq!(cpu.get_x(0), 0);
    assert_eq!(cpu.svcr(), 0);
}

#[test]
fn short_data_zeroes_the_rest_of_wide_registers() {
    let mut cpu = Cpu::alone();
    cpu.set_z(7, &[u64::MAX; Z_CHUNKS]);
    cpu.set_z(7, &[5, 6]);
    let mut z = [0u64; Z_CHUNKS];
    z[0] = 5;
    z[1] = 6;
    assert_eq!(cpu.get_z(7), z);
    assert_eq!(cpu.get_z(6), [0; Z_CHUNKS]);

    cpu.set_p(15, &[u64::MAX; P_CHUNKS]);
    cpu.set_p(15, &[9]);
    assert_eq!(cpu.get_p(15), [9, 0, 0, 0]);

    cpu.set_za_row(9, &[u64::MAX; Z_CHUNKS]);
    cpu.set_za_row(9, &[]);
    assert_eq!(cpu.get_za_row(9), [0; Z_CHUNKS]);

    cpu.set_ffr(&[u64::MAX; P_CHUNKS]);
    cpu.set_ffr(&[1, 2, 3]);
    assert_eq!(cpu.get_ffr(), [1, 2, 3, 0]);

    cpu.set_zt0(&[u64::MAX; ZT0_CHUNKS]);
    cpu.set_zt0(&[4]);
    assert_eq!(cpu.get_zt0(), [4, 0, 0, 0, 0, 0, 0, 0]);
}

#[test]
fn memory_wraps_at_the_top_of_the_address_space() {
    let mut cpu = Cpu::alone();
    cpu.write_mem_u64(u64::MAX - 1, 0x0807_0605_0403_0201);
    assert_eq!(cpu.read_mem_byte(u64::MAX - 1), 1);
    assert_eq!(cpu.read_mem_byte(u64::MAX), 2);
    assert_eq!(cpu.read_mem_byte(0), 3);
    assert_eq!(cpu.read_mem_byte(5), 8);
    assert_eq!(cpu.read_mem_byte(6), 0);
    assert_eq!(cpu.read_mem_u64(u64::MAX - 1), 0x0807_0605_0403_0201);
    assert!(cpu.is_mapped(0));
    assert!(cpu.is_mapped(u64::MAX - BLOCK_BYTES + 1));
    assert!(!cpu.is_mapped(BLOCK_BYTES));
}

#[test]
fn one_byte_maps_its_whole_block() {
    let mut cpu = Cpu::alone();
    cpu.write_mem_byte(0x8123_4567, 0xAB);
    assert_eq!(cpu.read_mem_byte(0x8123_4567), 0xAB);
    assert_eq!(cpu.read_mem_byte(0x8123_4566), 0);
    assert!(cpu.is_mapped(0x8100_0000));
    assert!(cpu.is_mapped(0x81FF_FFFF));
    assert!(!cpu.is_mapped(0x80FF_FFFF));
    assert!(!cpu.is_mapped(0x8200_0000));
}

#[test]
fn pstate_write_leaves_level_and_streaming_bits() {
    let mut cpu = Cpu::alone();
    cpu.set_sp(0x1000);
    cpu.set_pstate(u64::MAX & !(0b11 << 11));
    // Every writable bit is set, EL stays 3, SM and ZA stay clear.
    assert_eq!(cpu.get_pstate(), 0x3FFF);
    assert_eq!(cpu.svcr(), 0);
    assert_eq!(cpu.get_sp(), 0x1000);
    // With SPSel clear the stack pointer is SP_EL0.
    cpu.set_pstate(0);
    assert_eq!(cpu.get_pstate(), 0b11 << 11);
    assert_eq!(cpu.get_sp(), 0);
    cpu.set_sp(0x2000);
    cpu.set_pstate(1 << 13);
    assert_eq!(cpu.get_sp(), 0x1000);
}

#[test]
fn scalar_registers_read_back() {
    let mut cpu = Cpu::alone();
    cpu.set_tpidrro_el0(0x55);
    cpu.set_tpidr_el0(0x66);
    cpu.set_fpsr(0x77);
    cpu.set_fpcr(0x88);
    assert_eq!(cpu.get_tpidrro_el0(), 0x55);
    assert_eq!(cpu.get_tpidr_el0(), 0x66);
    assert_eq!(cpu.get_fpsr(), 0x77);
    assert_eq!(cpu.get_fpcr(), 0x88);
    assert_eq!(cpu.far_el3(), 0);
}

#[test]
fn snapshot_holds_registers_pc_and_flags() {
    let mut cpu = Cpu::alone();
    for n in 0..31 {
        cpu.set_x(n, 1000 + n as u64);
    }
    cpu.set_pc(0x4444);
    cpu.set_nzcv(0b1001);
    let state = cpu.snapshot();
    for n in 0..31 {
        assert_eq!(state.x[n], 1000 + n as u64);
    }
    assert_eq!(state.pc, 0x4444);
    assert_eq!(state.nzcv, 0b1001);
    assert_eq!(state, cpu.snapshot());
    cpu.set_x(30, 0);
    assert_ne!(state, cpu.snapshot());
}

#[test]
fn lock_is_taken_once_and_poison_is_ignored() {
    let taken = RefCell::new(0);
    let clean = model_lock(|| {
        *taken.borrow_mut() += 1;
        Acquired::Clean("guard")
    });
    assert_eq!(clean, "guard");
    assert_eq!(*taken.borrow(), 1);
    assert_eq!(model_lock(|| Acquired::Poisoned(7)), 7);
}

#[test]
fn reset_state() {
    let cpu = Cpu::alone();
    assert_eq!(cpu.svcr(), 0);
    assert_eq!(cpu.vl_bits(), 2048);
    assert_eq!(cpu.read_mem_byte(0), 0);
    assert!(!cpu.is_mapped(0));
    assert!(!cpu.is_mapped(u64::MAX));
}

#[test]
fn wide_writes_are_local() {
    let mut cpu = Cpu::alone();
    cpu.set_x(0, 1);
    cpu.set_pc(2);
    cpu.set_z(1, &[3; Z_CHUNKS]);
    cpu.set_p(1, &[4; P_CHUNKS]);
    cpu.set_ffr(&[5; P_CHUNKS]);
    cpu.set_zt0(&[6; ZT0_CHUNKS]);
    cpu.set_za_row(1, &[7; Z_CHUNKS]);
    cpu.write_mem_u64(0x40, 8);
    assert_eq!(cpu.get_x(0), 1);
    assert_eq!(cpu.get_pc(), 2);
    assert_eq!(cpu.get_z(1), [3; Z_CHUNKS]);
    assert_eq!(cpu.get_p(1), [4; P_CHUNKS]);
    assert_eq!(cpu.get_ffr(), [5; P_CHUNKS]);
    assert_eq!(cpu.get_zt0(), [6; ZT0_CHUNKS]);
    assert_eq!(cpu.get_za_row(1), [7; Z_CHUNKS]);
    assert_eq!(cpu.get_za_row(2), [0; Z_CHUNKS]);
    assert_eq!(cpu.read_mem_u64(0x40), 8);
}

#[test]
fn fresh_instances_agree_after_the_same_commands() {
    let host = Host::new();
    let mut a = Cpu::new(&host);
    let mut other = Cpu::new(&host);
    other.set_x(1, 999);
    let mut b = Cpu::new(&host);
    for cpu in [&mut a, &mut b] {
        cpu.set_x(0, 0x1122_3344_5566_7788);
        cpu.set_x(1, 0x8000_0000);
        cpu.set_nzcv(5);
        cpu.step(STR_X0_X1);
        cpu.step(LDR_X2_X1);
        other.step(STR_X0_X1);
    }
    assert_eq!(a.snapshot(), b.snapshot());
    assert_eq!(a.snapshot().x[2], 0x1122_3344_5566_7788);
    assert_eq!(a.get_sp(), b.get_sp());
    assert_eq!(a.get_pstate(), b.get_pstate());
    assert_eq!(a.read_mem_u64(0x8000_0000), b.read_mem_u64(0x8000_0000));
    assert_eq!(a.is_mapped(0x8000_0000), b.is_mapped(0x8000_0000));
    assert_eq!(other.get_x(2), 0);
}

#[test]
fn instances_come_and_go() {
    let host = Host::new();
    let mut a = Cpu::new(&host);
    a.set_x(3, 33);
    let mut b = Cpu::new(&host);
    b.set_x(3, 44);
    drop(b);
    let c = Cpu::new(&host);
    assert_eq!(c.get_x(3), 0);
    assert_eq!(c.get_x(0), 0);
    assert_eq!(a.get_x(3), 33);
    drop(a);
    assert_eq!(c.get_x(3), 0);
}

#[test]
fn mapped_exactly_where_something_was_written() {
    let mut cpu = Cpu::alone();
    cpu.set_x(0, 0);
    cpu.set_x(1, 0x8100_0000);
    cpu.set_z(0, &[1]);
    assert!(!cpu.is_mapped(0x8100_0000));
    cpu.step(LDR_X2_X1);
    assert!(!cpu.is_mapped(0x8100_0000));
    cpu.step(STR_X0_X1);
    cpu.write_mem(0x02FF_FFFF, &[0, 0]);
    for block in 0..256u64 {
        let written = block == 0x81 || block == 0x02 || block == 0x03;
        assert_eq!(cpu.is_mapped(block << 24), written);
        assert_eq!(cpu.is_mapped((block << 24) + 0xFF_FFFF), written);
    }
}
