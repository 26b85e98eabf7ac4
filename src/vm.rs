use vstd::prelude::*;

use crate::inst::{
    Inst32, funct3_of, funct7_of, imm_b_of, imm_i_of, imm_j_of, imm_s_of, imm_u_of, inst_len,
    inst_len_of, opcode_of, r1_of, r2_of, rd_of,
};
use crate::ops::{
    ADD_FUNCT3, ADD_FUNCT7, ADDI, AUIPC_OP, BEQ, BGE, BNE, BRANCH_OP, IMM_MATH_OP, JALR, JUMP_OP,
    JUMP_REG_OP, LBU, LOAD_OP, LUI_OP, LW, REG_MATH_OP, SB, SH, STORE_OP, SW,
};
use crate::disasm::{Disasm32, disasm_of};
use crate::bus::{
    is_gap, lemma_gap, lemma_store_chunk, lemma_store_stays, lemma_store_step, load, loaded,
    mapped, store,
};
use crate::region::{Region, RegionList, RegionMeta, lemma_region_at};

verus! {

/// Why the engine stopped where the guest cannot go on.
#[derive(Clone, Copy, Debug, PartialEq, Eq, Structural)]
pub enum Fault {
    /// A byte at `addr` lies in no region; `ip` is the instruction that reached it.
    OutOfBounds { addr: usize, ip: i32 },
    /// The instruction at `addr` is `len` 16-bit units long; only 2 is executed.
    UnsupportedLength { len: usize, addr: usize },
    /// The opcode, or its funct3 / funct7, is not one this engine implements.
    Unimplemented { opcode: i32, funct3: i32, funct7: i32 },
}

/// How a step ends when it does not simply go on.
#[derive(Clone, Copy, Debug, PartialEq, Eq, Structural)]
pub enum Halt {
    /// The guest wrote this byte to the exit port.
    Exit(u8),
    /// The engine cannot go on.
    Fault(Fault),
}

/// The state of the machine that instructions act on.
pub struct Machine {
    pub ram: Seq<u8>,
    pub regs: Seq<i32>,
    pub ip: i32,
    pub output: Seq<u8>,
}

impl Machine {
    /// Register `i`; `x0` reads as zero.
    pub open spec fn reg(self, i: int) -> i32 {
        if i == 0 {
            0
        } else {
            self.regs[i]
        }
    }

    /// Writes `v` to register `i`; a write to `x0` is dropped.
    pub open spec fn with_reg(self, i: int, v: i32) -> Machine {
        if i == 0 {
            self
        } else {
            Machine { regs: self.regs.update(i, v), ..self }
        }
    }

    pub open spec fn jump(self, ip: i32) -> Machine {
        Machine { ip, ..self }
    }

    /// Moves past a 32-bit instruction.
    pub open spec fn advance(self) -> Machine {
        self.jump(self.ip.wrapping_add(4))
    }
}

/// The unsigned address that a signed 32-bit value names.
pub open spec fn guest_addr(v: i32) -> int {
    v as u32 as int
}

/// Two bytes read as a little-endian number.
pub open spec fn le16(b: Seq<u8>) -> u16 {
    (b[0] + b[1] * 0x100) as u16
}

/// Four bytes read as a little-endian number.
pub open spec fn le32(b: Seq<u8>) -> u32 {
    (b[0] + b[1] * 0x100 + b[2] * 0x1_0000 + b[3] * 0x100_0000) as u32
}

/// The four bytes of `v`, least significant first.
pub open spec fn le_bytes(v: u32) -> Seq<u8> {
    seq![
        (v % 0x100) as u8,
        (v / 0x100 % 0x100) as u8,
        (v / 0x1_0000 % 0x100) as u8,
        (v / 0x100_0000) as u8,
    ]
}

/// The U-type immediate moved into bits [31:12].
pub open spec fn upper_of(w: u32) -> int {
    imm_u_of(w) * 0x1000
}

pub open spec fn unimplemented_of(w: u32) -> Halt {
    Halt::Fault(
        Fault::Unimplemented {
            opcode: opcode_of(w) as i32,
            funct3: funct3_of(w) as i32,
            funct7: funct7_of(w) as i32,
        },
    )
}

/// Bytes stored by SB, SH and SW.
pub open spec fn store_width(funct3: u32) -> int {
    if funct3 == SB {
        1
    } else if funct3 == SH {
        2
    } else {
        4
    }
}

pub open spec fn execute_store(l: RegionList, m: Machine, w: u32) -> (Machine, Result<(), Halt>) {
    let a = guest_addr(m.reg(r1_of(w) as int).wrapping_add(imm_s_of(w) as i32));
    let bytes = le_bytes(m.reg(r2_of(w) as int) as u32).take(store_width(funct3_of(w)));
    let s = store(l, m.ram, m.output, a, bytes, m.ip);
    let m2 = Machine { ram: s.ram, output: s.output, ..m };
    match s.halt {
        None => (m2.advance(), Ok(())),
        Some(h) => (m2, Err(h)),
    }
}

/// LW loads a signed word, LBU a zero-extended byte.
pub open spec fn execute_load(l: RegionList, m: Machine, w: u32) -> (Machine, Result<(), Halt>) {
    let a = guest_addr(m.reg(r1_of(w) as int).wrapping_add(imm_i_of(w) as i32));
    let width = if funct3_of(w) == LW { 4int } else { 1int };
    match load(l, m.ram, a, width, m.ip) {
        Ok(b) => (
            m.with_reg(
                rd_of(w) as int,
                if funct3_of(w) == LW {
                    le32(b) as i32
                } else {
                    b[0] as i32
                },
            ).advance(),
            Ok(()),
        ),
        Err(f) => (m, Err(Halt::Fault(f))),
    }
}

/// BEQ and BNE compare bit patterns, BGE compares signed values.
pub open spec fn branch_taken(funct3: u32, a: i32, b: i32) -> bool {
    if funct3 == BEQ {
        a == b
    } else if funct3 == BNE {
        a != b
    } else {
        a >= b
    }
}

/// What executing the word `w` does to `m`.
pub open spec fn execute(l: RegionList, m: Machine, w: u32) -> (Machine, Result<(), Halt>) {
    let op = opcode_of(w);
    let f3 = funct3_of(w);
    let rd = rd_of(w) as int;
    let r1 = r1_of(w) as int;
    let r2 = r2_of(w) as int;
    if op == LUI_OP {
        (m.with_reg(rd, upper_of(w) as i32).advance(), Ok(()))
    } else if op == AUIPC_OP {
        (m.with_reg(rd, m.ip.wrapping_add(upper_of(w) as i32)).advance(), Ok(()))
    } else if op == IMM_MATH_OP && f3 == ADDI {
        (m.with_reg(rd, m.reg(r1).wrapping_add(imm_i_of(w) as i32)).advance(), Ok(()))
    } else if op == REG_MATH_OP && f3 == ADD_FUNCT3 && funct7_of(w) == ADD_FUNCT7 {
        (m.with_reg(rd, m.reg(r1).wrapping_add(m.reg(r2))).advance(), Ok(()))
    } else if op == STORE_OP && (f3 == SB || f3 == SH || f3 == SW) {
        execute_store(l, m, w)
    } else if op == LOAD_OP && (f3 == LW || f3 == LBU) {
        execute_load(l, m, w)
    } else if op == JUMP_OP {
        let m1 = m.with_reg(rd, m.ip.wrapping_add(4));
        (m1.jump(m.ip.wrapping_add(imm_j_of(w) as i32)), Ok(()))
    } else if op == JUMP_REG_OP && f3 == JALR {
        let m1 = m.with_reg(rd, m.ip.wrapping_add(4));
        (m1.jump(m1.reg(r1).wrapping_add(imm_i_of(w) as i32)), Ok(()))
    } else if op == BRANCH_OP && (f3 == BEQ || f3 == BNE || f3 == BGE) {
        if branch_taken(f3, m.reg(r1), m.reg(r2)) {
            (m.jump(m.ip.wrapping_add(imm_b_of(w) as i32)), Ok(()))
        } else {
            (m.advance(), Ok(()))
        }
    } else {
        (m, Err(unimplemented_of(w)))
    }
}

/// One fetch-decode-execute step from `m`.
pub open spec fn step(l: RegionList, m: Machine) -> (Machine, Result<(), Halt>) {
    match load(l, m.ram, guest_addr(m.ip), 2, m.ip) {
        Err(f) => (m, Err(Halt::Fault(f))),
        Ok(t) => {
            let len = inst_len_of(le16(t));
            if len != 2 {
                let addr = guest_addr(m.ip) as usize;
                (m, Err(Halt::Fault(Fault::UnsupportedLength { len, addr })))
            } else {
                match load(l, m.ram, guest_addr(m.ip), 4, m.ip) {
                    Err(f) => (m, Err(Halt::Fault(f))),
                    Ok(b) => execute(l, m, le32(b)),
                }
            }
        },
    }
}

/// The text of the instruction at `addr`, or why there is none.
pub open spec fn disasm_at(l: RegionList, ram: Seq<u8>, addr: int, ip: i32) -> Result<
    Seq<char>,
    Fault,
> {
    match load(l, ram, addr, 2, ip) {
        Err(f) => Err(f),
        Ok(t) => {
            let len = inst_len_of(le16(t));
            if len != 2 {
                Err(Fault::UnsupportedLength { len, addr: addr as usize })
            } else {
                match load(l, ram, addr, 4, ip) {
                    Err(f) => Err(f),
                    Ok(b) => Ok(disasm_of(le32(b))),
                }
            }
        },
    }
}

/// The CPU: register file, instruction pointer, RAM and region map, and the bytes written
/// to the serial port that the host has not taken yet.
pub struct VM {
    pub regions: RegionList,
    pub ram: Vec<u8>,
    pub regs: [i32; 32],
    pub ip: i32,
    pub output: Vec<u8>,
}

impl VM {
    /// The region map is well formed and lies within RAM.
    pub open spec fn wf(&self) -> bool {
        &&& self.regions.wf()
        &&& self.regions.within(self.ram@.len())
    }

    pub open spec fn state(&self) -> Machine {
        Machine { ram: self.ram@, regs: self.regs@, ip: self.ip, output: self.output@ }
    }

    /// Stores `bytes` at `addr` through the region map. RAM takes its bytes, the serial port
    /// queues its bytes on `output`, and a byte for the exit port, or one at an unmapped
    /// address, ends the store there.
    pub fn write(&mut self, addr: usize, bytes: &[u8]) -> (r: Result<(), Halt>)
        requires
            old(self).wf(),
        ensures
            final(self).wf(),
            final(self).regions == old(self).regions,
            final(self).regs == old(self).regs,
            final(self).ip == old(self).ip,
            ({
                let s = store(
                    old(self).regions,
                    old(self).ram@,
                    old(self).output@,
                    addr as int,
                    bytes@,
                    old(self).ip,
                );
                &&& final(self).ram@ == s.ram
                &&& final(self).output@ == s.output
                &&& r == match s.halt {
                    None => Ok::<(), Halt>(()),
                    Some(h) => Err(h),
                }
            }),
    {
        let ghost l = self.regions;
        let ghost ram0 = self.ram@;
        let ghost out0 = self.output@;
        let ghost ip = self.ip;
        let mut done: usize = 0;
        let mut cur: usize = addr;
        assert(bytes@.take(0) =~= Seq::<u8>::empty());
        while done < bytes.len()
            invariant
                self.wf(),
                self.regions == l,
                self.regs == old(self).regs,
                self.ip == ip,
                l == old(self).regions,
                ram0 == old(self).ram@,
                out0 == old(self).output@,
                ip == old(self).ip,
                done <= bytes@.len(),
                cur == addr + done,
                ({
                    let s = store(l, ram0, out0, addr as int, bytes@.take(done as int), ip);
                    &&& s.halt is None
                    &&& s.ram == self.ram@
                    &&& s.output == self.output@
                }),
            decreases bytes@.len() - done,
        {
            let region: Region = match self.regions.find_region(cur) {
                Some(r) => *r,
                None => {
                    proof {
                        lemma_store_step(l, ram0, out0, addr as int, bytes@, ip, done as int);
                        lemma_store_stays(
                        l,
                        ram0,
                        out0,
                        addr as int,
                        bytes@,
                        ip,
                        done + 1,
                        bytes@.len() as int,
                    );
                        assert(bytes@.take(bytes@.len() as int) =~= bytes@);
                    }
                    return Err(Halt::Fault(Fault::OutOfBounds { addr: cur, ip: self.ip }));
                },
            };
            let ghost ri = choose|i: int|
                0 <= i < l.0@.len() && l.0@[i] == region && region.contains(cur as int);
            let off = cur - region.addr;
            let left = bytes.len() - done;
            let room = region.size - off;
            let t = if left < room { left } else { room };
            let chunk = &bytes[done..done + t];
            let res = region.write(&mut self.ram, &mut self.output, off, chunk);
            if region.meta == RegionMeta::Exit {
                proof {
                    lemma_region_at(l, cur as int);
                    lemma_store_step(l, ram0, out0, addr as int, bytes@, ip, done as int);
                    lemma_store_stays(
                        l,
                        ram0,
                        out0,
                        addr as int,
                        bytes@,
                        ip,
                        done + 1,
                        bytes@.len() as int,
                    );
                    assert(bytes@.take(bytes@.len() as int) =~= bytes@);
                }
                return res;
            }
            proof {
                assert forall|a: int| addr + done <= a < addr + done + t implies #[trigger] region.contains(
                    a,
                ) by {}
                lemma_store_chunk(
                    l,
                    ram0,
                    out0,
                    addr as int,
                    bytes@,
                    ip,
                    done as int,
                    t as int,
                    region,
                );
                let s1 = store(l, ram0, out0, addr as int, bytes@.take(done + t), ip);
                if region.meta == RegionMeta::Memory {
                    assert(self.ram@ =~= s1.ram);
                }
            }
            done = done + t;
            cur = cur + t;
        }
        assert(bytes@.take(bytes@.len() as int) =~= bytes@);
        Ok(())
    }

    /// Reads `len` bytes at `addr` through the region map.
    pub fn read(&self, addr: usize, len: usize) -> (r: Result<Vec<u8>, Fault>)
        requires
            self.wf(),
        ensures
            loaded(r, self.regions, self.ram@, addr as int, len as int, self.ip),
    {
        let ghost l = self.regions;
        let mut bytes: Vec<u8> = Vec::new();
        let mut done: usize = 0;
        let mut cur: usize = addr;
        assert(bytes@ =~= Seq::new(0, |k: int| self.ram@[addr + k]));
        while done < len
            invariant
                self.wf(),
                l == self.regions,
                done <= len,
                cur == addr + done,
                mapped(l, addr as int, done as int),
                bytes@ == Seq::new(done as nat, |k: int| self.ram@[addr + k]),
            decreases len - done,
        {
            let region: Region = match self.regions.find_region(cur) {
                Some(r) => *r,
                None => {
                    proof {
                        assert(is_gap(l, addr as int, len as int, cur as int));
                        lemma_gap(l, addr as int, len as int, cur as int);
                    }
                    return Err(Fault::OutOfBounds { addr: cur, ip: self.ip });
                },
            };
            let ghost ri = choose|i: int|
                0 <= i < l.0@.len() && l.0@[i] == region && region.contains(cur as int);
            assert(region.end() <= self.ram@.len());
            let off = cur - region.addr;
            let left = len - done;
            let room = region.size - off;
            let t = if left < room { left } else { room };
            region.read(&self.ram, off, t, &mut bytes);
            proof {
                assert forall|a: int| addr <= a < addr + done + t implies #[trigger] l.covers(a) by {
                    if a >= cur {
                        assert(l.0@[ri].contains(a));
                    }
                }
                assert(bytes@ =~= Seq::new((done + t) as nat, |k: int| self.ram@[addr + k]));
            }
            done = done + t;
            cur = cur + t;
        }
        Ok(bytes)
    }

    /// Reads a little-endian 16-bit value at `addr`.
    pub fn read_u16(&self, addr: usize) -> (r: Result<u16, Fault>)
        requires
            self.wf(),
        ensures
            r == match load(self.regions, self.ram@, addr as int, 2, self.ip) {
                Ok(b) => Ok::<u16, Fault>(le16(b)),
                Err(f) => Err(f),
            },
    {
        match self.read(addr, 2) {
            Ok(b) => {
                assert(b@.len() == 2);
                Ok(b[0] as u16 + (b[1] as u16) * 0x100)
            },
            Err(f) => Err(f),
        }
    }

    /// Reads a little-endian 32-bit value at `addr`.
    pub fn read_u32(&self, addr: usize) -> (r: Result<u32, Fault>)
        requires
            self.wf(),
        ensures
            r == match load(self.regions, self.ram@, addr as int, 4, self.ip) {
                Ok(b) => Ok::<u32, Fault>(le32(b)),
                Err(f) => Err(f),
            },
    {
        match self.read(addr, 4) {
            Ok(b) => {
                assert(b@.len() == 4);
                Ok(b[0] as u32 + (b[1] as u32) * 0x100 + (b[2] as u32) * 0x1_0000 + (b[3] as u32)
                    * 0x100_0000)
            },
            Err(f) => Err(f),
        }
    }

    /// The instruction pointer as an unsigned address.
    pub fn ip(&self) -> (r: usize)
        ensures
            r as int == guest_addr(self.ip),
    {
        self.ip as u32 as usize
    }

    /// Register `reg`; `x0` reads as zero.
    pub fn get_reg(&self, reg: usize) -> (r: i32)
        requires
            reg < 32,
        ensures
            r == self.state().reg(reg as int),
    {
        if reg == 0 {
            return 0;
        }
        self.regs[reg]
    }

    /// Writes register `reg`; a write to `x0` is dropped.
    pub fn set_reg(&mut self, reg: usize, v: i32)
        requires
            reg < 32,
        ensures
            final(self).state() == old(self).state().with_reg(reg as int, v),
            final(self).regions == old(self).regions,
    {
        if reg == 0 {
            return;
        }
        self.regs[reg] = v;
    }

    /// Sets the stack pointer, `x2`.
    pub fn set_rsp(&mut self, rsp: usize)
        requires
            rsp < u32::MAX,
        ensures
            final(self).regs@ == old(self).regs@.update(2, rsp as i32),
            final(self).regions == old(self).regions,
            final(self).ram == old(self).ram,
            final(self).ip == old(self).ip,
            final(self).output == old(self).output,
    {
        self.regs[2] = rsp as i32;
    }

    /// A CPU at address 0 with every register zero and no serial output pending.
    pub fn new(regions: RegionList, ram: Vec<u8>) -> (r: Self)
        requires
            regions.wf(),
            regions.within(ram@.len()),
        ensures
            r.wf(),
            r.regions == regions,
            r.ram == ram,
            r.ip == 0,
            forall|i: int| 0 <= i < 32 ==> #[trigger] r.regs@[i] == 0,
            r.output@ == Seq::<u8>::empty(),
    {
        Self { regions, ram, regs: [0i32; 32], ip: 0, output: Vec::new() }
    }

    fn unimplemented(inst: Inst32) -> (r: Halt)
        ensures
            r == unimplemented_of(inst.word()),
    {
        Halt::Fault(
            Fault::Unimplemented {
                opcode: inst.opcode(),
                funct3: inst.funct3(),
                funct7: inst.funct7(),
            },
        )
    }

    fn execute_store(&mut self, inst: Inst32) -> (r: Result<(), Halt>)
        requires
            old(self).wf(),
            funct3_of(inst.word()) == SB || funct3_of(inst.word()) == SH || funct3_of(inst.word())
                == SW,
        ensures
            final(self).wf(),
            final(self).regions == old(self).regions,
            (final(self).state(), r) == execute_store(
                old(self).regions,
                old(self).state(),
                inst.word(),
            ),
    {
        let base = self.get_reg(inst.r1() as usize);
        let addr = base.wrapping_add(inst.imm_S()) as u32 as usize;
        let v = self.get_reg(inst.r2() as usize) as u32;
        let f3 = inst.funct3();
        let b0 = (v % 0x100) as u8;
        let b1 = (v / 0x100 % 0x100) as u8;
        let b2 = (v / 0x1_0000 % 0x100) as u8;
        let b3 = (v / 0x100_0000) as u8;
        let bytes: Vec<u8> = if f3 == SB {
            vec![b0]
        } else if f3 == SH {
            vec![b0, b1]
        } else {
            vec![b0, b1, b2, b3]
        };
        assert(bytes@ =~= le_bytes(v).take(store_width(funct3_of(inst.word()))));
        match self.write(addr, bytes.as_slice()) {
            Ok(()) => {
                self.ip = self.ip.wrapping_add(4);
                Ok(())
            },
            Err(h) => Err(h),
        }
    }

    fn execute_load(&mut self, inst: Inst32) -> (r: Result<(), Halt>)
        requires
            old(self).wf(),
            funct3_of(inst.word()) == LW || funct3_of(inst.word()) == LBU,
        ensures
            final(self).wf(),
            final(self).regions == old(self).regions,
            (final(self).state(), r) == execute_load(
                old(self).regions,
                old(self).state(),
                inst.word(),
            ),
    {
        let base = self.get_reg(inst.r1() as usize);
        let addr = base.wrapping_add(inst.imm_I()) as u32 as usize;
        let rd = inst.rd() as usize;
        if inst.funct3() == LW {
            match self.read_u32(addr) {
                Ok(v) => {
                    self.set_reg(rd, v as i32);
                    self.ip = self.ip.wrapping_add(4);
                    Ok(())
                },
                Err(f) => Err(Halt::Fault(f)),
            }
        } else {
            match self.read(addr, 1) {
                Ok(b) => {
                    assert(b@.len() == 1);
                    self.set_reg(rd, b[0] as i32);
                    self.ip = self.ip.wrapping_add(4);
                    Ok(())
                },
                Err(f) => Err(Halt::Fault(f)),
            }
        }
    }

    /// Executes the instruction at `ip`: fetches its first parcel, checks that it is a
    /// 32-bit instruction, fetches and decodes the word and carries it out. A taken branch,
    /// JAL and JALR set `ip` to their target; every other instruction that completes moves
    /// `ip` on by 4.
    pub fn run(&mut self) -> (r: Result<(), Halt>)
        requires
            old(self).wf(),
        ensures
            final(self).wf(),
            final(self).regions == old(self).regions,
            (final(self).state(), r) == step(old(self).regions, old(self).state()),
    {
        let at = self.ip();
        let tag = match self.read_u16(at) {
            Ok(t) => t,
            Err(f) => return Err(Halt::Fault(f)),
        };
        let len = inst_len(tag);
        if len != 2 {
            return Err(Halt::Fault(Fault::UnsupportedLength { len, addr: at }));
        }
        let inst = match self.read_u32(at) {
            Ok(w) => Inst32::new(w),
            Err(f) => return Err(Halt::Fault(f)),
        };
        let op = inst.opcode();
        let f3 = inst.funct3();
        let rd = inst.rd() as usize;
        if op == LUI_OP {
            self.set_reg(rd, inst.imm_U() * 0x1000);
        } else if op == AUIPC_OP {
            let v = self.ip.wrapping_add(inst.imm_U() * 0x1000);
            self.set_reg(rd, v);
        } else if op == IMM_MATH_OP {
            if f3 != ADDI {
                return Err(Self::unimplemented(inst));
            }
            let v = self.get_reg(inst.r1() as usize).wrapping_add(inst.imm_I());
            self.set_reg(rd, v);
        } else if op == REG_MATH_OP {
            if f3 != ADD_FUNCT3 || inst.funct7() != ADD_FUNCT7 {
                return Err(Self::unimplemented(inst));
            }
            let v = self.get_reg(inst.r1() as usize).wrapping_add(self.get_reg(inst.r2() as usize));
            self.set_reg(rd, v);
        } else if op == STORE_OP {
            if f3 != SB && f3 != SH && f3 != SW {
                return Err(Self::unimplemented(inst));
            }
            return self.execute_store(inst);
        } else if op == LOAD_OP {
            if f3 != LW && f3 != LBU {
                return Err(Self::unimplemented(inst));
            }
            return self.execute_load(inst);
        } else if op == JUMP_OP {
            let ret = self.ip.wrapping_add(4);
            self.set_reg(rd, ret);
            self.ip = self.ip.wrapping_add(inst.imm_J());
            return Ok(());
        } else if op == JUMP_REG_OP {
            if f3 != JALR {
                return Err(Self::unimplemented(inst));
            }
            let ret = self.ip.wrapping_add(4);
            self.set_reg(rd, ret);
            self.ip = self.get_reg(inst.r1() as usize).wrapping_add(inst.imm_I());
            return Ok(());
        } else if op == BRANCH_OP {
            let a = self.get_reg(inst.r1() as usize);
            let b = self.get_reg(inst.r2() as usize);
            let taken = if f3 == BEQ {
                a == b
            } else if f3 == BNE {
                a != b
            } else if f3 == BGE {
                a >= b
            } else {
                return Err(Self::unimplemented(inst));
            };
            if taken {
                self.ip = self.ip.wrapping_add(inst.imm_B());
                return Ok(());
            }
        } else {
            return Err(Self::unimplemented(inst));
        }
        self.ip = self.ip.wrapping_add((len * 2) as i32);
        Ok(())
    }

    /// Executes one instruction.
    pub fn next(&mut self) -> (r: Result<(), Halt>)
        requires
            old(self).wf(),
        ensures
            final(self).wf(),
            final(self).regions == old(self).regions,
            (final(self).state(), r) == step(old(self).regions, old(self).state()),
    {
        self.run()
    }

    /// Disassembles the instruction at `addr`. Reads go through the region map; nothing
    /// changes.
    pub fn disasm(&self, addr: usize) -> (r: Result<String, Fault>)
        requires
            self.wf(),
        ensures
            match r {
                Ok(s) => disasm_at(self.regions, self.ram@, addr as int, self.ip) == Ok::<Seq<char>, Fault>(s@),
                Err(f) => disasm_at(self.regions, self.ram@, addr as int, self.ip) == Err::<Seq<char>, Fault>(f),
            },
    {
        let tag = self.read_u16(addr)?;
        let len = inst_len(tag);
        if len != 2 {
            return Err(Fault::UnsupportedLength { len, addr });
        }
        let inst = Inst32::new(self.read_u32(addr)?);
        Ok(Disasm32(inst).text())
    }
}

/// `x0` reads as zero whatever was written to it, and no step touches its slot.
pub proof fn lemma_x0(l: RegionList, m: Machine, v: i32)
    requires
        m.regs.len() == 32,
    ensures
        m.reg(0) == 0,
        m.with_reg(0, v) == m,
        step(l, m).0.reg(0) == 0,
        step(l, m).0.regs[0] == m.regs[0],
{
    match load(l, m.ram, guest_addr(m.ip), 2, m.ip) {
        Ok(t) => {
            if inst_len_of(le16(t)) == 2 {
                match load(l, m.ram, guest_addr(m.ip), 4, m.ip) {
                    Ok(b) => {
                        let w = le32(b);
                        lemma_register_fields(w);
                        assert(execute(l, m, w).0.regs[0] == m.regs[0]);
                    },
                    Err(_) => {},
                }
            }
        },
        Err(_) => {},
    }
}

/// A taken branch, JAL and JALR leave `ip` at their target; an untaken branch and every
/// other instruction that completes leave it 4 further on.
pub proof fn lemma_control_flow(l: RegionList, m: Machine, w: u32)
    requires
        execute(l, m, w).1 is Ok,
    ensures
        ({
            let after = execute(l, m, w).0;
            let op = opcode_of(w);
            let link = m.with_reg(rd_of(w) as int, m.ip.wrapping_add(4));
            let taken = branch_taken(funct3_of(w), m.reg(r1_of(w) as int), m.reg(r2_of(w) as int));
            &&& op == JUMP_OP ==> after.ip == m.ip.wrapping_add(imm_j_of(w) as i32)
            &&& op == JUMP_REG_OP ==> after.ip == link.reg(r1_of(w) as int).wrapping_add(
                imm_i_of(w) as i32,
            )
            &&& op == BRANCH_OP ==> after.ip == if taken {
                m.ip.wrapping_add(imm_b_of(w) as i32)
            } else {
                m.ip.wrapping_add(4)
            }
            &&& op != JUMP_OP && op != JUMP_REG_OP && op != BRANCH_OP ==> after.ip
                == m.ip.wrapping_add(4)
        }),
{
}

/// JAL and JALR put the address of the next instruction in `rd` and change no other
/// register; with `rd = x0` no register changes.
pub proof fn lemma_link(l: RegionList, m: Machine, w: u32)
    requires
        m.regs.len() == 32,
        opcode_of(w) == JUMP_OP || opcode_of(w) == JUMP_REG_OP,
        execute(l, m, w).1 is Ok,
    ensures
        ({
            let after = execute(l, m, w).0;
            let rd = rd_of(w) as int;
            &&& rd != 0 ==> after.reg(rd) == m.ip.wrapping_add(4)
            &&& rd != 0 ==> after.regs == m.regs.update(rd, m.ip.wrapping_add(4))
            &&& rd == 0 ==> after.regs == m.regs
            &&& after.ram == m.ram
            &&& after.output == m.output
        }),
{
    lemma_register_fields(w);
}

/// Register fields name one of the 32 registers.
proof fn lemma_register_fields(w: u32)
    ensures
        rd_of(w) < 32,
        r1_of(w) < 32,
        r2_of(w) < 32,
{
    assert((w >> 7u32) & 0x1f < 32) by (bit_vector);
    assert((w >> 15u32) & 0x1f < 32) by (bit_vector);
    assert((w >> 20u32) & 0x1f < 32) by (bit_vector);
}

} // verus!
