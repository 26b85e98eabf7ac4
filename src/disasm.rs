use vstd::prelude::*;

use crate::inst::{
    Inst32, funct3_of, funct7_of, imm_b_of, imm_i_of, imm_j_of, imm_s_of, imm_u_of, opcode_of,
    r1_of, r2_of, rd_of,
};
use crate::ops::{
    ADD_FUNCT3, ADD_FUNCT7, ADDI, AUIPC_OP, BEQ, BGE, BGEU, BLT, BLTU, BNE, BRANCH_OP, IMM_MATH_OP,
    JALR, JUMP_OP, JUMP_REG_OP, LB, LBU, LH, LHU, LOAD_OP, LUI_OP, LW, REG_MATH_OP, SB, SH,
    STORE_OP, SW,
};
use crate::text::{Off32, dec, digits, padded, push_dec, push_digits, push_padded, signed_offset};

verus! {

/// `xN` for register `r`.
pub open spec fn reg_name(r: u32) -> Seq<char> {
    "x"@ + digits(r as nat, 10)
}

/// A 32-bit value in upper-case hexadecimal, negative values as their two's complement.
pub open spec fn hex(v: int) -> Seq<char> {
    digits(v as u32 as nat, 16)
}

pub open spec fn store_mnemonic(f3: int) -> Option<Seq<char>> {
    if f3 == SB {
        Some("sb"@)
    } else if f3 == SH {
        Some("sh"@)
    } else if f3 == SW {
        Some("sw"@)
    } else {
        None
    }
}

pub open spec fn load_mnemonic(f3: int) -> Option<Seq<char>> {
    if f3 == LB {
        Some("lb"@)
    } else if f3 == LH {
        Some("lh"@)
    } else if f3 == LW {
        Some("lw"@)
    } else if f3 == LBU {
        Some("lbu"@)
    } else if f3 == LHU {
        Some("lhu"@)
    } else {
        None
    }
}

pub open spec fn branch_mnemonic(f3: int) -> Option<Seq<char>> {
    if f3 == BEQ {
        Some("beq"@)
    } else if f3 == BNE {
        Some("bne"@)
    } else if f3 == BLT {
        Some("blt"@)
    } else if f3 == BGE {
        Some("bge"@)
    } else if f3 == BLTU {
        Some("bltu"@)
    } else if f3 == BGEU {
        Some("bgeu"@)
    } else {
        None
    }
}

/// The text of the instruction word `w`. Encodings it does not know come out as a line that
/// names the fields it could not place.
pub open spec fn disasm_of(w: u32) -> Seq<char> {
    let op = opcode_of(w);
    let f3 = funct3_of(w);
    let rd = reg_name(rd_of(w));
    let r1 = reg_name(r1_of(w));
    let r2 = reg_name(r2_of(w));
    if op == AUIPC_OP {
        "auipc "@ + rd + ", 0x"@ + hex(imm_u_of(w))
    } else if op == LUI_OP {
        "lui "@ + rd + ", 0x"@ + hex(imm_u_of(w))
    } else if op == IMM_MATH_OP {
        if f3 == ADDI {
            "addi "@ + rd + ", "@ + r1 + ", "@ + dec(imm_i_of(w))
        } else {
            "Undisassemblable Immediate math op 0x"@ + digits(f3 as nat, 16)
        }
    } else if op == REG_MATH_OP {
        if f3 == ADD_FUNCT3 && funct7_of(w) == ADD_FUNCT7 {
            "add "@ + rd + ", "@ + r1 + ", "@ + r2
        } else {
            "Undisassemblable Register math op funct3=0x"@ + digits(f3 as nat, 16) + " funct7=0x"@
                + padded(digits(funct7_of(w) as nat, 16), 2)
        }
    } else if op == STORE_OP {
        match store_mnemonic(f3 as int) {
            Some(m) => m + " ["@ + r1 + signed_offset(imm_s_of(w)) + "], "@ + r2,
            None => "Undisassemblable store op funct3=0x"@ + digits(f3 as nat, 16),
        }
    } else if op == LOAD_OP {
        match load_mnemonic(f3 as int) {
            Some(m) => m + " "@ + rd + ", ["@ + r1 + signed_offset(imm_i_of(w)) + "]"@,
            None => "Undisassemblable load op funct3=0x"@ + digits(f3 as nat, 16),
        }
    } else if op == BRANCH_OP {
        match branch_mnemonic(f3 as int) {
            Some(m) => m + " "@ + r1 + ", "@ + r2 + ", "@ + signed_offset(imm_b_of(w)),
            None => "Undisassemblable branch op funct3=0x"@ + digits(f3 as nat, 16),
        }
    } else if op == JUMP_OP {
        "jal "@ + rd + ", 0x"@ + hex(imm_j_of(w))
    } else if op == JUMP_REG_OP {
        if f3 == JALR {
            "jalr "@ + r1 + " "@ + dec(imm_i_of(w))
        } else {
            "Unknown JALR with funct3="@ + digits(f3 as nat, 10)
        }
    } else {
        "Undisassemblable Opcode "@ + padded(digits(op as nat, 2), 7)
    }
}

fn store_name(f3: i32) -> (r: Option<&'static str>)
    ensures
        match r {
            Some(m) => store_mnemonic(f3 as int) == Some(m@),
            None => store_mnemonic(f3 as int) is None,
        },
{
    if f3 == SB {
        Some("sb")
    } else if f3 == SH {
        Some("sh")
    } else if f3 == SW {
        Some("sw")
    } else {
        None
    }
}

fn load_name(f3: i32) -> (r: Option<&'static str>)
    ensures
        match r {
            Some(m) => load_mnemonic(f3 as int) == Some(m@),
            None => load_mnemonic(f3 as int) is None,
        },
{
    if f3 == LB {
        Some("lb")
    } else if f3 == LH {
        Some("lh")
    } else if f3 == LW {
        Some("lw")
    } else if f3 == LBU {
        Some("lbu")
    } else if f3 == LHU {
        Some("lhu")
    } else {
        None
    }
}

fn branch_name(f3: i32) -> (r: Option<&'static str>)
    ensures
        match r {
            Some(m) => branch_mnemonic(f3 as int) == Some(m@),
            None => branch_mnemonic(f3 as int) is None,
        },
{
    if f3 == BEQ {
        Some("beq")
    } else if f3 == BNE {
        Some("bne")
    } else if f3 == BLT {
        Some("blt")
    } else if f3 == BGE {
        Some("bge")
    } else if f3 == BLTU {
        Some("bltu")
    } else if f3 == BGEU {
        Some("bgeu")
    } else {
        None
    }
}

/// Appends `xN` for register `r`.
fn push_reg(s: &mut String, r: i32)
    requires
        0 <= r < 32,
    ensures
        final(s)@ == old(s)@ + reg_name(r as u32),
{
    s.append("x");
    push_digits(s, r as u32, 10);
    assert(s@ =~= old(s)@ + reg_name(r as u32));
}

/// The disassembly of one 32-bit instruction.
pub struct Disasm32(pub Inst32);

impl Disasm32 {
    /// The instruction as one line of assembly.
    pub fn text(&self) -> (r: String)
        ensures
            r@ == disasm_of(self.0.word()),
    {
        let inst = self.0;
        let op = inst.opcode();
        let f3 = inst.funct3();
        if op == AUIPC_OP || op == LUI_OP {
            let mut s = String::from_str(if op == AUIPC_OP { "auipc " } else { "lui " });
            push_reg(&mut s, inst.rd());
            s.append(", 0x");
            push_digits(&mut s, inst.imm_U() as u32, 16);
            s
        } else if op == IMM_MATH_OP {
            if f3 == ADDI {
                let mut s = String::from_str("addi ");
                push_reg(&mut s, inst.rd());
                s.append(", ");
                push_reg(&mut s, inst.r1());
                s.append(", ");
                push_dec(&mut s, inst.imm_I());
                s
            } else {
                let mut s = String::from_str("Undisassemblable Immediate math op 0x");
                push_digits(&mut s, f3 as u32, 16);
                s
            }
        } else if op == REG_MATH_OP {
            let f7 = inst.funct7();
            if f3 == ADD_FUNCT3 && f7 == ADD_FUNCT7 {
                let mut s = String::from_str("add ");
                push_reg(&mut s, inst.rd());
                s.append(", ");
                push_reg(&mut s, inst.r1());
                s.append(", ");
                push_reg(&mut s, inst.r2());
                s
            } else {
                let mut s = String::from_str("Undisassemblable Register math op funct3=0x");
                push_digits(&mut s, f3 as u32, 16);
                s.append(" funct7=0x");
                push_padded(&mut s, f7 as u32, 16, 2);
                s
            }
        } else if op == STORE_OP {
            match store_name(f3) {
                Some(m) => {
                    let mut s = String::from_str(m);
                    s.append(" [");
                    push_reg(&mut s, inst.r1());
                    Off32(inst.imm_S()).push_to(&mut s);
                    s.append("], ");
                    push_reg(&mut s, inst.r2());
                    s
                },
                None => {
                    let mut s = String::from_str("Undisassemblable store op funct3=0x");
                    push_digits(&mut s, f3 as u32, 16);
                    s
                },
            }
        } else if op == LOAD_OP {
            match load_name(f3) {
                Some(m) => {
                    let mut s = String::from_str(m);
                    s.append(" ");
                    push_reg(&mut s, inst.rd());
                    s.append(", [");
                    push_reg(&mut s, inst.r1());
                    Off32(inst.imm_I()).push_to(&mut s);
                    s.append("]");
                    s
                },
                None => {
                    let mut s = String::from_str("Undisassemblable load op funct3=0x");
                    push_digits(&mut s, f3 as u32, 16);
                    s
                },
            }
        } else if op == BRANCH_OP {
            match branch_name(f3) {
                Some(m) => {
                    let mut s = String::from_str(m);
                    s.append(" ");
                    push_reg(&mut s, inst.r1());
                    s.append(", ");
                    push_reg(&mut s, inst.r2());
                    s.append(", ");
                    Off32(inst.imm_B()).push_to(&mut s);
                    s
                },
                None => {
                    let mut s = String::from_str("Undisassemblable branch op funct3=0x");
                    push_digits(&mut s, f3 as u32, 16);
                    s
                },
            }
        } else if op == JUMP_OP {
            let mut s = String::from_str("jal ");
            push_reg(&mut s, inst.rd());
            s.append(", 0x");
            push_digits(&mut s, inst.imm_J() as u32, 16);
            s
        } else if op == JUMP_REG_OP {
            if f3 == JALR {
                let mut s = String::from_str("jalr ");
                push_reg(&mut s, inst.r1());
                s.append(" ");
                push_dec(&mut s, inst.imm_I());
                s
            } else {
                let mut s = String::from_str("Unknown JALR with funct3=");
                push_digits(&mut s, f3 as u32, 10);
                s
            }
        } else {
            let mut s = String::from_str("Undisassemblable Opcode ");
            push_padded(&mut s, op as u32, 2, 7);
            s
        }
    }
}

} // verus!
