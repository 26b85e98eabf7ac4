use vstd::prelude::*;

verus! {

/// Length, in 16-bit units, of the instruction whose first 16-bit parcel is `tag`:
/// 1 for the compressed form, 2 for the 32-bit form, 4 for the 48-bit form, 0 for a
/// reserved tag.
pub open spec fn inst_len_of(tag: u16) -> usize {
    if tag & 0b11 != 0b11 {
        1
    } else if (tag >> 2u16) & 0b11 != 0b111 {
        2
    } else if (tag >> 5u16) & 0b1 != 0b1 {
        4
    } else {
        0
    }
}

/// Sign-extends `v`, a field whose top bit has weight `half`, to an integer.
pub open spec fn sext(v: int, half: int) -> int {
    if v < half {
        v
    } else {
        v - 2 * half
    }
}

/// Bits [6:0] of an encoded word.
pub open spec fn opcode_of(w: u32) -> u32 {
    w & 0x7f
}

/// Bits [11:7].
pub open spec fn rd_of(w: u32) -> u32 {
    (w >> 7u32) & 0x1f
}

/// Bits [14:12].
pub open spec fn funct3_of(w: u32) -> u32 {
    (w >> 12u32) & 0x7
}

/// Bits [19:15].
pub open spec fn r1_of(w: u32) -> u32 {
    (w >> 15u32) & 0x1f
}

/// Bits [24:20].
pub open spec fn r2_of(w: u32) -> u32 {
    (w >> 20u32) & 0x1f
}

/// Bits [31:25].
pub open spec fn funct7_of(w: u32) -> u32 {
    w >> 25u32
}

/// U-type immediate: bits [31:12], read as a signed 20-bit number.
pub open spec fn imm_u_of(w: u32) -> int {
    sext((w >> 12u32) as int, 0x8_0000)
}

/// I-type immediate: bits [31:20], read as a signed 12-bit number.
pub open spec fn imm_i_of(w: u32) -> int {
    sext((w >> 20u32) as int, 0x800)
}

/// The 12 bits of the S-type immediate: `{w[31:25], w[11:7]}`.
pub open spec fn s_field(w: u32) -> u32 {
    ((w >> 25u32) << 5u32) | ((w >> 7u32) & 0x1f)
}

/// S-type immediate: the S field as a signed 12-bit number.
pub open spec fn imm_s_of(w: u32) -> int {
    sext(s_field(w) as int, 0x800)
}

/// The 13 bits of the B-type immediate: `{w[31], w[7], w[30:25], w[11:8], 0}`.
pub open spec fn b_field(w: u32) -> u32 {
    ((w >> 31u32) << 12u32) | (((w >> 7u32) & 0x1) << 11u32) | (((w >> 25u32) & 0x3f) << 5u32) | (((
    w >> 8u32) & 0xf) << 1u32)
}

/// B-type immediate: the B field as a signed 13-bit number.
pub open spec fn imm_b_of(w: u32) -> int {
    sext(b_field(w) as int, 0x1000)
}

/// The 21 bits of the J-type immediate: `{w[31], w[19:12], w[20], w[30:21], 0}`.
pub open spec fn j_field(w: u32) -> u32 {
    ((w >> 31u32) << 20u32) | (((w >> 12u32) & 0xff) << 12u32) | (((w >> 20u32) & 0x1) << 11u32) | (((
    w >> 21u32) & 0x3ff) << 1u32)
}

/// J-type immediate: the J field as a signed 21-bit number.
pub open spec fn imm_j_of(w: u32) -> int {
    sext(j_field(w) as int, 0x10_0000)
}

/// Returns the length of the instruction that begins with the parcel `begin`, in 16-bit
/// units.
pub fn inst_len(begin: u16) -> (r: usize)
    ensures
        r == inst_len_of(begin),
        r == (if begin & 0b11 != 0b11 { 1usize } else { 2usize }),
{
    assert((begin >> 2u16) & 0b11 != 0b111) by (bit_vector);
    if begin & 0b11 != 0b11 {
        1
    } else if (begin >> 2u16) & 0b11 != 0b111 {
        2
    } else if (begin >> 5u16) & 0b1 != 0b1 {
        4
    } else {
        0
    }
}

/// `inst_len` looks at the low six bits of the tag and at nothing else.
pub proof fn lemma_inst_len_low_bits(a: u16, b: u16)
    requires
        a & 0x3f == b & 0x3f,
    ensures
        inst_len_of(a) == inst_len_of(b),
{
    assert(a & 0b11 == b & 0b11) by (bit_vector)
        requires
            a & 0x3f == b & 0x3f,
    ;
    assert((a >> 2u16) & 0b11 == (b >> 2u16) & 0b11) by (bit_vector)
        requires
            a & 0x3f == b & 0x3f,
    ;
    assert((a >> 5u16) & 0b1 == (b >> 5u16) & 0b1) by (bit_vector)
        requires
            a & 0x3f == b & 0x3f,
    ;
}

/// A 32-bit instruction word, kept as the signed integer that the immediates are cut from.
#[derive(Clone, Copy)]
pub struct Inst32 {
    pub data: i32,
}

#[allow(non_snake_case)]
impl Inst32 {
    /// The encoded word.
    pub open spec fn word(self) -> u32 {
        self.data as u32
    }

    /// Wraps an encoded word.
    pub fn new(data: u32) -> (r: Self)
        ensures
            r.word() == data,
    {
        let r = Self { data: data as i32 };
        assert(data as i32 as u32 == data) by (bit_vector);
        r
    }

    /// The opcode, bits [6:0].
    pub fn opcode(self) -> (r: i32)
        ensures
            r as int == opcode_of(self.word()),
    {
        let w = self.data as u32;
        let f = w & 0x7f;
        assert(f < 0x80) by (bit_vector)
            requires
                f == w & 0x7f,
        ;
        f as i32
    }

    /// The funct3 field, bits [14:12].
    pub fn funct3(self) -> (r: i32)
        ensures
            r as int == funct3_of(self.word()),
    {
        let w = self.data as u32;
        let f = (w >> 12u32) & 0x7;
        assert(f < 8) by (bit_vector)
            requires
                f == (w >> 12u32) & 0x7,
        ;
        f as i32
    }

    /// The funct7 field, bits [31:25].
    pub fn funct7(self) -> (r: i32)
        ensures
            r as int == funct7_of(self.word()),
    {
        let w = self.data as u32;
        let f = w >> 25u32;
        assert(f < 0x80) by (bit_vector)
            requires
                f == w >> 25u32,
        ;
        f as i32
    }

    /// The destination register, bits [11:7].
    pub fn rd(self) -> (r: i32)
        ensures
            r as int == rd_of(self.word()),
            0 <= r < 32,
    {
        let w = self.data as u32;
        let f = (w >> 7u32) & 0x1f;
        assert(f < 32) by (bit_vector)
            requires
                f == (w >> 7u32) & 0x1f,
        ;
        f as i32
    }

    /// The first source register, bits [19:15].
    pub fn r1(self) -> (r: i32)
        ensures
            r as int == r1_of(self.word()),
            0 <= r < 32,
    {
        let w = self.data as u32;
        let f = (w >> 15u32) & 0x1f;
        assert(f < 32) by (bit_vector)
            requires
                f == (w >> 15u32) & 0x1f,
        ;
        f as i32
    }

    /// The second source register, bits [24:20].
    pub fn r2(self) -> (r: i32)
        ensures
            r as int == r2_of(self.word()),
            0 <= r < 32,
    {
        let w = self.data as u32;
        let f = (w >> 20u32) & 0x1f;
        assert(f < 32) by (bit_vector)
            requires
                f == (w >> 20u32) & 0x1f,
        ;
        f as i32
    }

    /// The U-type immediate: bits [31:12] as a signed number, not yet shifted into place.
    pub fn imm_U(self) -> (r: i32)
        ensures
            r as int == imm_u_of(self.word()),
            -0x8_0000 <= r < 0x8_0000,
    {
        let w = self.data as u32;
        let f = w >> 12u32;
        assert(f < 0x10_0000) by (bit_vector)
            requires
                f == w >> 12u32,
        ;
        if f < 0x8_0000 {
            f as i32
        } else {
            (f as i32) - 0x10_0000
        }
    }

    /// The I-type immediate: bits [31:20], sign-extended.
    pub fn imm_I(self) -> (r: i32)
        ensures
            r as int == imm_i_of(self.word()),
    {
        let w = self.data as u32;
        let f = w >> 20u32;
        assert(f < 0x1000) by (bit_vector)
            requires
                f == w >> 20u32,
        ;
        if f < 0x800 {
            f as i32
        } else {
            (f as i32) - 0x1000
        }
    }

    /// The S-type immediate: bits [31:25] and [11:7], sign-extended.
    pub fn imm_S(self) -> (r: i32)
        ensures
            r as int == imm_s_of(self.word()),
    {
        let w = self.data as u32;
        let f = ((w >> 25u32) << 5u32) | ((w >> 7u32) & 0x1f);
        assert(f < 0x1000) by (bit_vector)
            requires
                f == ((w >> 25u32) << 5u32) | ((w >> 7u32) & 0x1f),
        ;
        if f < 0x800 {
            f as i32
        } else {
            (f as i32) - 0x1000
        }
    }

    /// The J-type immediate: an even offset of 21 bits, sign-extended.
    pub fn imm_J(self) -> (r: i32)
        ensures
            r as int == imm_j_of(self.word()),
    {
        let w = self.data as u32;
        let f = ((w >> 31u32) << 20u32) | (((w >> 12u32) & 0xff) << 12u32) | (((w >> 20u32) & 0x1)
            << 11u32) | (((w >> 21u32) & 0x3ff) << 1u32);
        assert(f < 0x20_0000) by (bit_vector)
            requires
                f == ((w >> 31u32) << 20u32) | (((w >> 12u32) & 0xff) << 12u32) | (((w >> 20u32)
                    & 0x1) << 11u32) | (((w >> 21u32) & 0x3ff) << 1u32),
        ;
        if f < 0x10_0000 {
            f as i32
        } else {
            (f as i32) - 0x20_0000
        }
    }

    /// The B-type immediate: an even offset of 13 bits, sign-extended.
    pub fn imm_B(self) -> (r: i32)
        ensures
            r as int == imm_b_of(self.word()),
    {
        let w = self.data as u32;
        let f = ((w >> 31u32) << 12u32) | (((w >> 7u32) & 0x1) << 11u32) | (((w >> 25u32) & 0x3f)
            << 5u32) | (((w >> 8u32) & 0xf) << 1u32);
        assert(f < 0x2000) by (bit_vector)
            requires
                f == ((w >> 31u32) << 12u32) | (((w >> 7u32) & 0x1) << 11u32) | (((w >> 25u32)
                    & 0x3f) << 5u32) | (((w >> 8u32) & 0xf) << 1u32),
        ;
        if f < 0x1000 {
            f as i32
        } else {
            (f as i32) - 0x2000
        }
    }
}

/// Every immediate fits its field width, the B and J immediates are even, and the I, S, B
/// and J immediates are negative exactly when bit 31 of the word is set.
pub proof fn lemma_immediates(w: u32)
    ensures
        -0x800 <= imm_i_of(w) < 0x800,
        -0x800 <= imm_s_of(w) < 0x800,
        -0x1000 <= imm_b_of(w) < 0x1000,
        -0x10_0000 <= imm_j_of(w) < 0x10_0000,
        imm_b_of(w) % 2 == 0,
        imm_j_of(w) % 2 == 0,
        (imm_i_of(w) < 0) == (w >> 31u32 == 1),
        (imm_s_of(w) < 0) == (w >> 31u32 == 1),
        (imm_b_of(w) < 0) == (w >> 31u32 == 1),
        (imm_j_of(w) < 0) == (w >> 31u32 == 1),
{
    let i = w >> 20u32;
    let s = s_field(w);
    let b = b_field(w);
    let j = j_field(w);
    assert(i < 0x1000 && (i >= 0x800) == (w >> 31u32 == 1)) by (bit_vector)
        requires
            i == w >> 20u32,
    ;
    assert(s < 0x1000 && (s >= 0x800) == (w >> 31u32 == 1)) by (bit_vector)
        requires
            s == ((w >> 25u32) << 5u32) | ((w >> 7u32) & 0x1f),
    ;
    assert(b < 0x2000 && (b >= 0x1000) == (w >> 31u32 == 1) && b & 1 == 0) by (bit_vector)
        requires
            b == ((w >> 31u32) << 12u32) | (((w >> 7u32) & 0x1) << 11u32) | (((w >> 25u32) & 0x3f)
                << 5u32) | (((w >> 8u32) & 0xf) << 1u32),
    ;
    assert(j < 0x20_0000 && (j >= 0x10_0000) == (w >> 31u32 == 1) && j & 1 == 0) by (bit_vector)
        requires
            j == ((w >> 31u32) << 20u32) | (((w >> 12u32) & 0xff) << 12u32) | (((w >> 20u32) & 0x1)
                << 11u32) | (((w >> 21u32) & 0x3ff) << 1u32),
    ;
    assert(b % 2 == 0) by (bit_vector)
        requires
            b & 1 == 0,
    ;
    assert(j % 2 == 0) by (bit_vector)
        requires
            j & 1 == 0,
    ;
}

} // verus!
