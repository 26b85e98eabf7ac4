use rvsim::inst::{inst_len, Inst32};

fn addi(rd: u32, rs1: u32, imm: i32) -> u32 {
    (((imm as u32) & 0xfff) << 20) | (rs1 << 15) | (rd << 7) | 0x13
}

#[test]
fn inst_len_by_low_bits() {
    assert_eq!(inst_len(0x0000), 1);
    assert_eq!(inst_len(0x0001), 1);
    assert_eq!(inst_len(0x0002), 1);
    assert_eq!(inst_len(0x0093), 2);
    assert_eq!(inst_len(0x0003), 2);
    assert_eq!(inst_len(0xffff), 2);
}

#[test]
fn inst_len_ignores_high_bits() {
    for tag in [0x0000u16, 0x0013, 0x003f, 0x0023, 0x0001] {
        for high in [0x0040u16, 0x1000, 0xff40, 0x8000] {
            assert_eq!(inst_len(tag), inst_len(tag | high));
        }
    }
}

#[test]
fn fields_of_addi() {
    let i = Inst32::new(0x0050_0093);
    assert_eq!(i.opcode(), 0x13);
    assert_eq!(i.rd(), 1);
    assert_eq!(i.funct3(), 0);
    assert_eq!(i.r1(), 0);
    assert_eq!(i.imm_I(), 5);
}

#[test]
fn fields_of_add() {
    // add x3, x1, x2
    let i = Inst32::new(0x0020_81b3);
    assert_eq!(i.opcode(), 0x33);
    assert_eq!(i.rd(), 3);
    assert_eq!(i.r1(), 1);
    assert_eq!(i.r2(), 2);
    assert_eq!(i.funct3(), 0);
    assert_eq!(i.funct7(), 0);
    // sub x3, x1, x2 has funct7 0x20
    assert_eq!(Inst32::new(0x4020_81b3).funct7(), 0x20);
}

#[test]
fn imm_i_sign_extends() {
    assert_eq!(Inst32::new(addi(1, 0, -1)).imm_I(), -1);
    assert_eq!(Inst32::new(addi(1, 0, -2048)).imm_I(), -2048);
    assert_eq!(Inst32::new(addi(1, 0, 2047)).imm_I(), 2047);
}

#[test]
fn imm_u_is_signed_upper_field() {
    assert_eq!(Inst32::new(0x0000_7337).imm_U(), 7);
    assert_eq!(Inst32::new(0xffff_f337).imm_U(), -1);
    assert_eq!(Inst32::new(0x8000_0337).imm_U(), -0x8_0000);
}

#[test]
fn imm_s_joins_two_fields() {
    // sw x2, -4(x3): imm = 0xffc -> [31:25] = 0x7f, [11:7] = 0x1c
    let w = (0x7fu32 << 25) | (2 << 20) | (3 << 15) | (2 << 12) | (0x1c << 7) | 0x23;
    assert_eq!(Inst32::new(w).imm_S(), -4);
    // sb x5, 0x7ff(x0)
    let w = (0x3fu32 << 25) | (5 << 20) | (0x1f << 7) | 0x23;
    assert_eq!(Inst32::new(w).imm_S(), 0x7ff);
}

#[test]
fn imm_b_is_even_and_signed() {
    // beq x1, x2, +8
    assert_eq!(Inst32::new(0x0020_8463).imm_B(), 8);
    // beq x0, x0, -4
    assert_eq!(Inst32::new(0xfe00_0ee3).imm_B(), -4);
    // every bit set
    assert_eq!(Inst32::new(0xffff_ffff).imm_B(), -2);
}

#[test]
fn imm_j_is_even_and_signed() {
    // jal x1, +8
    assert_eq!(Inst32::new(0x0080_00ef).imm_J(), 8);
    // jal x0, -8
    assert_eq!(Inst32::new(0xff9f_f06f).imm_J(), -8);
    assert_eq!(Inst32::new(0xffff_ffff).imm_J(), -2);
    // a word with only bit 20 set gives 1 << 11
    assert_eq!(Inst32::new(0x0010_006f).imm_J(), 0x800);
}

#[test]
fn immediates_follow_bit_31() {
    for w in [0x8000_0000u32, 0xdead_beef, 0x7fff_ffff, 0x1234_5678, 0] {
        let i = Inst32::new(w);
        let neg = w >> 31 == 1;
        assert_eq!(i.imm_I() < 0, neg);
        assert_eq!(i.imm_S() < 0, neg);
        assert_eq!(i.imm_B() < 0, neg);
        assert_eq!(i.imm_J() < 0, neg);
        assert_eq!(i.imm_B() % 2, 0);
        assert_eq!(i.imm_J() % 2, 0);
    }
}
