use rvsim::region::{ExitMeta, MemoryMeta, Region, RegionList, RegionMeta, SerialMeta};
use rvsim::simple::{setup, EXIT, RAM_SIZE, SERIAL_OUT, STACK_BASE};
use rvsim::vm::{Fault, Halt, VM};

fn addi(rd: u32, rs1: u32, imm: i32) -> u32 {
    (((imm as u32) & 0xfff) << 20) | (rs1 << 15) | (rd << 7) | 0x13
}

fn lui(rd: u32, imm20: u32) -> u32 {
    (imm20 << 12) | (rd << 7) | 0x37
}

fn auipc(rd: u32, imm20: u32) -> u32 {
    (imm20 << 12) | (rd << 7) | 0x17
}

fn add(rd: u32, rs1: u32, rs2: u32) -> u32 {
    (rs2 << 20) | (rs1 << 15) | (rd << 7) | 0x33
}

fn store(funct3: u32, rs2: u32, rs1: u32, imm: i32) -> u32 {
    let imm = (imm as u32) & 0xfff;
    ((imm >> 5) << 25) | (rs2 << 20) | (rs1 << 15) | (funct3 << 12) | ((imm & 0x1f) << 7) | 0x23
}

fn load(funct3: u32, rd: u32, rs1: u32, imm: i32) -> u32 {
    (((imm as u32) & 0xfff) << 20) | (rs1 << 15) | (funct3 << 12) | (rd << 7) | 0x03
}

fn branch(funct3: u32, rs1: u32, rs2: u32, imm: i32) -> u32 {
    let imm = (imm as u32) & 0x1fff;
    (((imm >> 12) & 1) << 31)
        | (((imm >> 5) & 0x3f) << 25)
        | (rs2 << 20)
        | (rs1 << 15)
        | (funct3 << 12)
        | (((imm >> 1) & 0xf) << 8)
        | (((imm >> 11) & 1) << 7)
        | 0x63
}

fn jal(rd: u32, imm: i32) -> u32 {
    let imm = (imm as u32) & 0x1f_ffff;
    (((imm >> 20) & 1) << 31)
        | (((imm >> 1) & 0x3ff) << 21)
        | (((imm >> 11) & 1) << 20)
        | (((imm >> 12) & 0xff) << 12)
        | (rd << 7)
        | 0x6f
}

fn jalr(rd: u32, rs1: u32, imm: i32) -> u32 {
    (((imm as u32) & 0xfff) << 20) | (rs1 << 15) | (rd << 7) | 0x67
}

fn image(words: &[u32]) -> Vec<u8> {
    let mut out = Vec::new();
    for w in words {
        out.extend_from_slice(&w.to_le_bytes());
    }
    out
}

fn machine(bytes: &[u8]) -> VM {
    let mut ram = bytes.to_vec();
    let s = setup(&mut ram);
    let mut vm = VM::new(s.layout, ram);
    vm.set_rsp(s.sp);
    vm
}

/// Steps until the machine halts, at most `limit` times.
fn run_to_halt(vm: &mut VM, limit: usize) -> Halt {
    for _ in 0..limit {
        if let Err(h) = vm.next() {
            return h;
        }
    }
    panic!("the machine did not halt");
}

#[test]
fn addi_only_program() {
    let mut vm = machine(&[0x93, 0x00, 0x50, 0x00]);
    assert_eq!(vm.next(), Ok(()));
    assert_eq!(vm.get_reg(1), 5);
    assert_eq!(vm.ip(), 4);
}

#[test]
fn serial_hello() {
    let prog = image(&[
        addi(5, 0, 0x48),
        lui(6, 0x7),
        addi(6, 6, -0x697),
        store(0, 5, 6, 0),
    ]);
    let mut vm = machine(&prog);
    for _ in 0..4 {
        assert_eq!(vm.next(), Ok(()));
    }
    assert_eq!(vm.get_reg(6), 0x6969);
    assert_eq!(vm.output, b"H".to_vec());
}

#[test]
fn exit_code_42() {
    let prog = image(&[addi(5, 0, 42), lui(6, 0x7), addi(6, 6, -0x690), store(0, 5, 6, 0)]);
    let mut vm = machine(&prog);
    for _ in 0..3 {
        assert_eq!(vm.next(), Ok(()));
    }
    assert_eq!(vm.get_reg(6), 0x6970);
    assert_eq!(vm.next(), Err(Halt::Exit(42)));
    assert!(vm.output.is_empty());
}

#[test]
fn branch_taken_skips_one() {
    let prog = image(&[
        addi(1, 0, 1),
        addi(2, 0, 1),
        branch(0, 1, 2, 8),
        addi(3, 0, 7),
        addi(4, 0, 9),
    ]);
    let mut vm = machine(&prog);
    let h = run_to_halt(&mut vm, 10);
    assert_eq!(vm.get_reg(3), 0);
    assert_eq!(vm.get_reg(4), 9);
    // the zero word after the program is a 16-bit form
    assert_eq!(h, Halt::Fault(Fault::UnsupportedLength { len: 1, addr: 20 }));
    assert_eq!(vm.ip(), 20);
}

#[test]
fn branch_fallthrough() {
    let prog = image(&[addi(1, 0, 1), addi(2, 0, 2), branch(0, 1, 2, 8), addi(3, 0, 7)]);
    let mut vm = machine(&prog);
    for _ in 0..3 {
        assert_eq!(vm.next(), Ok(()));
    }
    assert_eq!(vm.ip(), 12);
    assert_eq!(vm.next(), Ok(()));
    assert_eq!(vm.get_reg(3), 7);
}

#[test]
fn bne_and_bge() {
    let prog = image(&[
        addi(1, 0, -1),
        addi(2, 0, 1),
        branch(1, 1, 2, 8),  // taken: -1 != 1
        addi(3, 0, 1),
        branch(5, 1, 2, 8),  // not taken: -1 >= 1 is false (signed)
        branch(5, 2, 1, -4), // taken: 1 >= -1
    ]);
    let mut vm = machine(&prog);
    vm.next().unwrap();
    vm.next().unwrap();
    vm.next().unwrap();
    assert_eq!(vm.ip(), 16);
    vm.next().unwrap();
    assert_eq!(vm.ip(), 20);
    vm.next().unwrap();
    assert_eq!(vm.ip(), 16);
    assert_eq!(vm.get_reg(3), 0);
}

#[test]
fn jal_return_address() {
    let mut bytes = vec![0u8; 0x100];
    bytes.extend_from_slice(&jal(1, 8).to_le_bytes());
    let mut vm = machine(&bytes);
    vm.ip = 0x100;
    assert_eq!(vm.next(), Ok(()));
    assert_eq!(vm.get_reg(1), 0x104);
    assert_eq!(vm.ip(), 0x108);
}

#[test]
fn jal_to_x0_keeps_registers() {
    let mut vm = machine(&image(&[jal(0, -8)]));
    let before = vm.regs;
    assert_eq!(vm.next(), Ok(()));
    assert_eq!(vm.regs, before);
    assert_eq!(vm.ip, -8);
    assert_eq!(vm.ip(), 0xffff_fff8);
}

#[test]
fn jalr_links_then_jumps() {
    let prog = image(&[addi(5, 0, 0x40), jalr(1, 5, 4)]);
    let mut vm = machine(&prog);
    vm.next().unwrap();
    vm.next().unwrap();
    assert_eq!(vm.get_reg(1), 8);
    assert_eq!(vm.ip(), 0x44);
}

#[test]
fn jalr_reads_its_own_link() {
    // rd == rs1: the link is written first, so the target is (ip + 4) + imm
    let prog = image(&[addi(5, 0, 0x40), jalr(5, 5, 4)]);
    let mut vm = machine(&prog);
    vm.next().unwrap();
    vm.next().unwrap();
    assert_eq!(vm.get_reg(5), 8);
    assert_eq!(vm.ip(), 12);
}

#[test]
fn x0_stays_zero() {
    let prog = image(&[addi(0, 0, 5), lui(0, 0x12345), add(1, 0, 0)]);
    let mut vm = machine(&prog);
    for _ in 0..3 {
        assert_eq!(vm.next(), Ok(()));
        assert_eq!(vm.get_reg(0), 0);
        assert_eq!(vm.regs[0], 0);
    }
    assert_eq!(vm.get_reg(1), 0);
    vm.set_reg(0, 77);
    assert_eq!(vm.get_reg(0), 0);
}

#[test]
fn lui_auipc_add() {
    let mut bytes = vec![0u8; 0x10];
    bytes.extend_from_slice(&image(&[lui(1, 0x12345), auipc(2, 0x1), add(3, 1, 2), lui(4, 0xfffff)]));
    let mut vm = machine(&bytes);
    vm.ip = 0x10;
    for _ in 0..4 {
        vm.next().unwrap();
    }
    assert_eq!(vm.get_reg(1), 0x1234_5000);
    assert_eq!(vm.get_reg(2), 0x1014);
    assert_eq!(vm.get_reg(3), 0x1234_6014);
    assert_eq!(vm.get_reg(4), -4096);
}

#[test]
fn add_wraps() {
    let prog = image(&[lui(1, 0x80000), addi(2, 0, -1), add(3, 1, 2)]);
    let mut vm = machine(&prog);
    for _ in 0..3 {
        vm.next().unwrap();
    }
    assert_eq!(vm.get_reg(3), i32::MAX);
}

#[test]
fn store_and_load_words() {
    let prog = image(&[
        lui(1, 0x12345),
        addi(1, 1, 0x678),
        addi(2, 0, 0x400),
        store(2, 1, 2, 4), // sw x1, 4(x2)
        load(2, 3, 2, 4),  // lw x3, 4(x2)
        load(4, 4, 2, 4),  // lbu x4, 4(x2)
        store(1, 1, 2, 8), // sh x1, 8(x2)
        store(0, 1, 2, 12), // sb x1, 12(x2)
        addi(5, 0, -2),
        store(2, 5, 2, 16),
        load(2, 6, 2, 16),
        load(4, 7, 2, 16),
    ]);
    let mut vm = machine(&prog);
    for _ in 0..12 {
        assert_eq!(vm.next(), Ok(()));
    }
    assert_eq!(vm.get_reg(3), 0x1234_5678);
    assert_eq!(vm.get_reg(4), 0x78);
    assert_eq!(&vm.ram[0x404..0x408], &[0x78, 0x56, 0x34, 0x12]);
    assert_eq!(&vm.ram[0x408..0x40c], &[0x78, 0x56, 0x00, 0x00]);
    assert_eq!(&vm.ram[0x40c..0x410], &[0x78, 0x00, 0x00, 0x00]);
    assert_eq!(vm.get_reg(6), -2);
    assert_eq!(vm.get_reg(7), 0xfe);
}

#[test]
fn unimplemented_ops_fault() {
    // sub x3, x1, x2
    let mut vm = machine(&image(&[0x4020_81b3]));
    assert_eq!(
        vm.next(),
        Err(Halt::Fault(Fault::Unimplemented { opcode: 0x33, funct3: 0, funct7: 0x20 }))
    );
    assert_eq!(vm.ip(), 0);
    // blt x1, x2, +8
    let mut vm = machine(&image(&[branch(4, 1, 2, 8)]));
    assert_eq!(
        vm.next(),
        Err(Halt::Fault(Fault::Unimplemented { opcode: 0x63, funct3: 4, funct7: 0 }))
    );
    // lb x1, 0(x0)
    let mut vm = machine(&image(&[load(0, 1, 0, 0)]));
    assert!(matches!(vm.next(), Err(Halt::Fault(Fault::Unimplemented { opcode: 0x03, funct3: 0, .. }))));
    // an opcode outside the table
    let mut vm = machine(&image(&[0x0000_007f]));
    assert!(matches!(vm.next(), Err(Halt::Fault(Fault::Unimplemented { opcode: 0x7f, .. }))));
}

#[test]
fn out_of_bounds_store_faults() {
    let prog = image(&[lui(6, 0x7), addi(6, 6, -0x696), store(0, 5, 6, 0)]);
    let mut vm = machine(&prog);
    vm.next().unwrap();
    vm.next().unwrap();
    assert_eq!(vm.get_reg(6), 0x696a);
    assert_eq!(vm.next(), Err(Halt::Fault(Fault::OutOfBounds { addr: 0x696a, ip: 8 })));
}

#[test]
fn fetch_past_ram_faults() {
    let mut vm = machine(&[]);
    vm.ip = RAM_SIZE as i32;
    assert_eq!(vm.next(), Err(Halt::Fault(Fault::OutOfBounds { addr: RAM_SIZE, ip: RAM_SIZE as i32 })));
}

#[test]
fn write_then_read_round_trip() {
    let mut vm = machine(&[]);
    let data = [1u8, 2, 3, 4, 5, 250];
    assert_eq!(vm.write(0x1000, &data), Ok(()));
    assert_eq!(vm.read(0x1000, data.len()), Ok(data.to_vec()));
    assert_eq!(vm.write(0x10_0000, &data), Ok(()));
    assert_eq!(vm.read(0x10_0000, data.len()), Ok(data.to_vec()));
    assert!(vm.output.is_empty());
}

#[test]
fn write_across_serial_port() {
    let mut vm = machine(&[]);
    assert_eq!(vm.write(0x6967, &[1, 2, b'A']), Ok(()));
    assert_eq!(vm.output, vec![b'A']);
    assert_eq!(&vm.ram[0x6967..0x6969], &[1, 2]);
    // a write that reaches the gap after the serial port stops there
    assert_eq!(
        vm.write(0x6968, &[7, b'B', 9]),
        Err(Halt::Fault(Fault::OutOfBounds { addr: 0x696a, ip: 0 }))
    );
    assert_eq!(vm.ram[0x6968], 7);
    assert_eq!(vm.output, vec![b'A', b'B']);
}

#[test]
fn reads_pass_over_ports() {
    let mut vm = machine(&[]);
    vm.ram[0x6969] = 0x11;
    vm.ram[0x6970] = 0x22;
    assert_eq!(vm.read(0x6968, 2), Ok(vec![0, 0x11]));
    assert_eq!(vm.read(0x6970, 2), Ok(vec![0x22, 0]));
    assert_eq!(vm.read(0x6968, 4), Err(Fault::OutOfBounds { addr: 0x696a, ip: 0 }));
    assert_eq!(vm.read_u16(0x6969), Err(Fault::OutOfBounds { addr: 0x696a, ip: 0 }));
}

#[test]
fn little_endian_readers() {
    let mut vm = machine(&[0x93, 0x00, 0x50, 0x00]);
    assert_eq!(vm.read_u16(0), Ok(0x0093));
    assert_eq!(vm.read_u32(0), Ok(0x0050_0093));
    vm.ram[8] = 0xef;
    vm.ram[9] = 0xbe;
    assert_eq!(vm.read_u16(8), Ok(0xbeef));
}

#[test]
fn setup_layout() {
    let mut ram = vec![9u8; 10];
    let s = setup(&mut ram);
    assert_eq!(ram.len(), RAM_SIZE);
    assert_eq!(&ram[..10], &[9u8; 10]);
    assert!(ram[10..].iter().all(|b| *b == 0));
    assert_eq!(s.sp, STACK_BASE);
    assert_eq!(s.sp, 0xff_f000);
    let r = &s.layout.0;
    assert_eq!(r.len(), 4);
    assert_eq!((r[0].meta, r[0].addr, r[0].size), (RegionMeta::Memory, 0, SERIAL_OUT));
    assert_eq!((r[1].meta, r[1].addr, r[1].size), (RegionMeta::Serial, 0x6969, 1));
    assert_eq!((r[2].meta, r[2].addr, r[2].size), (RegionMeta::Exit, EXIT, 1));
    assert_eq!(EXIT, 0x6970);
    assert_eq!((r[3].meta, r[3].addr, r[3].size), (RegionMeta::Memory, 0x6971, RAM_SIZE - 0x6971));
}

#[test]
fn setup_keeps_a_large_image() {
    let mut ram = vec![1u8; RAM_SIZE + 16];
    let s = setup(&mut ram);
    assert_eq!(ram.len(), RAM_SIZE + 16);
    assert_eq!(s.layout.0[3].addr + s.layout.0[3].size, RAM_SIZE + 16);
}

#[test]
fn find_region_in_simple_layout() {
    let mut ram = Vec::new();
    let s = setup(&mut ram);
    let l = &s.layout;
    assert_eq!(l.find_region(0).unwrap().meta, RegionMeta::Memory);
    assert_eq!(l.find_region(0x6968).unwrap().addr, 0);
    assert_eq!(l.find_region(0x6969).unwrap().meta, RegionMeta::Serial);
    assert!(l.find_region(0x696a).is_none());
    assert!(l.find_region(0x696f).is_none());
    assert_eq!(l.find_region(0x6970).unwrap().meta, RegionMeta::Exit);
    assert_eq!(l.find_region(0x6971).unwrap().addr, 0x6971);
    assert_eq!(l.find_region(RAM_SIZE - 1).unwrap().addr, 0x6971);
    assert!(l.find_region(RAM_SIZE).is_none());
    for a in [0usize, 5, 0x6968, 0x6969, 0x6970, 0x6971, 0x10_0000, RAM_SIZE - 1] {
        let hits = l.0.iter().filter(|r| r.addr <= a && a < r.addr + r.size).count();
        assert_eq!(hits, 1);
        let r = l.find_region(a).unwrap();
        assert!(r.addr <= a && a < r.addr + r.size);
    }
}

#[test]
fn find_region_empty_list() {
    let l = RegionList(Vec::new());
    assert!(l.find_region(0).is_none());
}

#[test]
fn region_handlers() {
    let mut ram = vec![0u8; 16];
    let mut out = Vec::new();
    let mem = Region { meta: MemoryMeta::new(), addr: 4, size: 8 };
    assert_eq!(mem.write(&mut ram, &mut out, 2, &[7, 8]), Ok(()));
    assert_eq!(&ram[6..8], &[7, 8]);
    let mut got = Vec::new();
    mem.read(&ram, 1, 3, &mut got);
    assert_eq!(got, vec![0, 7, 8]);
    let serial = Region { meta: SerialMeta::new(), addr: 12, size: 2 };
    assert_eq!(serial.write(&mut ram, &mut out, 0, &[b'o', b'k']), Ok(()));
    assert_eq!(out, b"ok".to_vec());
    assert_eq!(ram[12], 0);
    let exit = Region { meta: ExitMeta::new(), addr: 14, size: 1 };
    assert_eq!(exit.write(&mut ram, &mut out, 0, &[3]), Err(Halt::Exit(3)));
    assert_eq!(out, b"ok".to_vec());
}

#[test]
fn set_rsp_sets_x2() {
    let mut vm = machine(&[]);
    assert_eq!(vm.get_reg(2), STACK_BASE as i32);
    vm.set_rsp(0x1234);
    assert_eq!(vm.get_reg(2), 0x1234);
    vm.set_rsp(0xffff_fff0);
    assert_eq!(vm.get_reg(2), -16);
}

#[test]
fn layout_fits_its_ram() {
    let mut ram = Vec::new();
    let s = setup(&mut ram);
    assert!(s.layout.fits(ram.len()));
    assert!(!s.layout.fits(ram.len() - 1));
    let overlapping = RegionList(vec![
        Region { meta: RegionMeta::Memory, addr: 0, size: 8 },
        Region { meta: RegionMeta::Serial, addr: 7, size: 1 },
    ]);
    assert!(!overlapping.fits(16));
    let unordered = RegionList(vec![
        Region { meta: RegionMeta::Memory, addr: 8, size: 8 },
        Region { meta: RegionMeta::Memory, addr: 0, size: 8 },
    ]);
    assert!(!unordered.fits(16));
    let wrapping = RegionList(vec![Region { meta: RegionMeta::Memory, addr: usize::MAX, size: 2 }]);
    assert!(!wrapping.fits(usize::MAX));
    assert!(RegionList(Vec::new()).fits(0));
}
