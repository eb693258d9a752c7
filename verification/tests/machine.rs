use rum::machine::boot;
use rum::machine::Fault;
use rum::machine::Instruction;
use rum::machine::Machine;
use rum::machine::Opcode;
use rum::machine::run_with_input;
use rum::machine::Step;

fn reg_word(op: u32, a: u32, b: u32, c: u32) -> u32 {
    (op << 28) | (a << 6) | (b << 3) | c
}

fn lv_word(a: u32, value: u32) -> u32 {
    (13 << 28) | (a << 25) | value
}

/// Drive a machine over the given input until it halts or faults, collecting
/// the bytes it outputs.
fn run_collect(program: Vec<u32>, input: Vec<u8>) -> (Vec<u8>, Step) {
    let mut m = Machine::new(program);
    let mut out: Vec<u8> = Vec::new();
    let mut pos: usize = 0;
    loop {
        match m.step() {
            Step::Continue => {}
            Step::Output(b) => out.push(b),
            Step::Input => {
                let byte = if pos < input.len() {
                    pos += 1;
                    Some(input[pos - 1])
                } else {
                    None
                };
                m.provide_input(byte);
            }
            s => return (out, s),
        }
    }
}

#[test]
fn decode_halt() {
    assert_eq!(
        Instruction::decode(0x7000_0000),
        Instruction::Reg { op: Opcode::Halt, ra: 0, rb: 0, rc: 0 }
    );
}

#[test]
fn decode_register_fields() {
    assert_eq!(
        Instruction::decode(reg_word(3, 5, 2, 7)),
        Instruction::Reg { op: Opcode::Add, ra: 5, rb: 2, rc: 7 }
    );
}

#[test]
fn decode_load_immediate() {
    assert_eq!(
        Instruction::decode(lv_word(3, 12345)),
        Instruction::Value { ra: 3, value: 12345 }
    );
    assert_eq!(
        Instruction::decode(lv_word(7, 0x01FF_FFFF)),
        Instruction::Value { ra: 7, value: 0x01FF_FFFF }
    );
}

#[test]
fn decode_invalid_opcodes() {
    assert_eq!(Instruction::decode(0xE000_0000), Instruction::Invalid);
    assert_eq!(Instruction::decode(0xF123_4567), Instruction::Invalid);
}

#[test]
fn halt_program_outputs_nothing() {
    let (out, s) = run_collect(vec![reg_word(7, 0, 0, 0)], Vec::new());
    assert!(out.is_empty());
    assert!(matches!(s, Step::Halted));
}

#[test]
fn hey_program() {
    let mut p = Vec::new();
    p.push(lv_word(1, 4)); // r1 = 4
    p.push(reg_word(8, 0, 2, 1)); // r2 = allocate(r1)
    let values = [72u32, 101, 121, 33];
    for (i, &v) in values.iter().enumerate() {
        p.push(lv_word(3, i as u32)); // r3 = address
        p.push(lv_word(4, v)); // r4 = value
        p.push(reg_word(2, 2, 3, 4)); // write(r2, r3, r4)
    }
    for i in 0..4u32 {
        p.push(lv_word(3, i)); // r3 = address
        p.push(reg_word(1, 5, 2, 3)); // r5 = read(r2, r3)
        p.push(reg_word(10, 0, 0, 5)); // output r5
    }
    p.push(reg_word(7, 0, 0, 0)); // halt
    let (out, s) = run_collect(p, Vec::new());
    assert_eq!(out, vec![72, 101, 121, 33]);
    assert_eq!(out, b"Hey!".to_vec());
    assert!(matches!(s, Step::Halted));
}

#[test]
fn invalid_opcode_faults_before_any_mutation() {
    let mut m = Machine::new(vec![0xE000_0000]);
    let s = m.step();
    assert!(matches!(s, Step::Fault(Fault::DecodeError)));
    assert_eq!(m.pc, 0);
}

#[test]
fn divide_by_zero_faults() {
    let p = vec![lv_word(1, 5), reg_word(5, 3, 1, 0)]; // r3 = r1 / r0, r0 == 0
    let (out, s) = run_collect(p, Vec::new());
    assert!(out.is_empty());
    assert!(matches!(s, Step::Fault(Fault::ArithmeticFault)));
}

#[test]
fn divide_computes_quotient() {
    let p = vec![
        lv_word(1, 42),
        lv_word(2, 5),
        reg_word(5, 3, 1, 2), // r3 = 42 / 5
        reg_word(10, 0, 0, 3), // output r3
        reg_word(7, 0, 0, 0),
    ];
    let (out, s) = run_collect(p, Vec::new());
    assert_eq!(out, vec![8]);
    assert!(matches!(s, Step::Halted));
}

#[test]
fn input_byte_reaches_register() {
    let p = vec![
        reg_word(11, 0, 0, 2), // input into r2
        reg_word(10, 0, 0, 2), // output r2
        reg_word(7, 0, 0, 0),
    ];
    let (out, s) = run_collect(p, vec![65]);
    assert_eq!(out, vec![65]);
    assert!(matches!(s, Step::Halted));
}

#[test]
fn input_exhaustion_yields_all_ones() {
    let p = vec![
        reg_word(11, 0, 0, 2), // input into r2: end of input
        reg_word(10, 0, 0, 2), // output low byte of r2
        reg_word(7, 0, 0, 0),
    ];
    let (out, s) = run_collect(p, Vec::new());
    assert_eq!(out, vec![0xFF]);
    assert!(matches!(s, Step::Halted));
}

#[test]
fn output_truncates_to_low_byte() {
    let p = vec![
        lv_word(1, 0x1FF), // r1 = 511
        reg_word(10, 0, 0, 1),
        reg_word(7, 0, 0, 0),
    ];
    let (out, _) = run_collect(p, Vec::new());
    assert_eq!(out, vec![0xFF]);
}

#[test]
fn conditional_move() {
    let p = vec![
        lv_word(1, 5),
        lv_word(2, 9),
        reg_word(0, 1, 2, 3), // r3 == 0: no move
        reg_word(10, 0, 0, 1), // output r1: still 5
        lv_word(3, 1),
        reg_word(0, 1, 2, 3), // r3 != 0: r1 = r2
        reg_word(10, 0, 0, 1), // output r1: now 9
        reg_word(7, 0, 0, 0),
    ];
    let (out, _) = run_collect(p, Vec::new());
    assert_eq!(out, vec![5, 9]);
}

#[test]
fn nand_and_add_wrap() {
    let p = vec![
        reg_word(6, 1, 0, 0), // r1 = nand(0, 0) = 0xFFFF_FFFF
        lv_word(2, 1),
        reg_word(3, 3, 1, 2), // r3 = r1 + 1 = 0 (mod 2^32)
        reg_word(10, 0, 0, 3), // output 0
        reg_word(7, 0, 0, 0),
    ];
    let (out, s) = run_collect(p, Vec::new());
    assert_eq!(out, vec![0]);
    assert!(matches!(s, Step::Halted));
}

#[test]
fn multiply_wraps() {
    let p = vec![
        lv_word(1, 0x1_0000), // r1 = 65536
        reg_word(4, 2, 1, 1), // r2 = r1 * r1 = 2^32 mod 2^32 = 0
        reg_word(10, 0, 0, 2), // output 0
        lv_word(3, 6),
        lv_word(4, 7),
        reg_word(4, 5, 3, 4), // r5 = 42
        reg_word(10, 0, 0, 5),
        reg_word(7, 0, 0, 0),
    ];
    let (out, _) = run_collect(p, Vec::new());
    assert_eq!(out, vec![0, 42]);
}

#[test]
fn load_program_jumps_over_invalid_word() {
    let p = vec![
        lv_word(1, 3), // r1 = 3
        reg_word(12, 0, 0, 1), // load program: r0 == 0 keeps segment 0, pc = r1
        0xE000_0000, // skipped
        reg_word(7, 0, 0, 0), // halt
    ];
    let (out, s) = run_collect(p, Vec::new());
    assert!(out.is_empty());
    assert!(matches!(s, Step::Halted));
}

#[test]
fn out_of_bounds_read_faults() {
    let p = vec![
        lv_word(2, 100),
        reg_word(1, 1, 0, 2), // r1 = read(segment r0 == 0, address r2 == 100)
    ];
    let (_, s) = run_collect(p, Vec::new());
    assert!(matches!(s, Step::Fault(Fault::SegmentFault)));
}

#[test]
fn unmapped_segment_write_faults() {
    let p = vec![
        lv_word(1, 42), // r1 = 42: never a mapped handle here
        reg_word(2, 1, 0, 0), // write(r1, 0, 0)
    ];
    let (_, s) = run_collect(p, Vec::new());
    assert!(matches!(s, Step::Fault(Fault::SegmentFault)));
}

#[test]
fn free_handle_zero_faults() {
    let p = vec![reg_word(9, 0, 0, 0)]; // free(r0 == 0)
    let (_, s) = run_collect(p, Vec::new());
    assert!(matches!(s, Step::Fault(Fault::SegmentFault)));
}

#[test]
fn running_off_the_end_faults() {
    let p = vec![lv_word(1, 1)];
    let (_, s) = run_collect(p, Vec::new());
    assert!(matches!(s, Step::Fault(Fault::SegmentFault)));
}

#[test]
fn swap_active_replaces_program() {
    // Build a fresh segment holding a single halt word, then install it and
    // jump to its start.
    let p = vec![
        lv_word(1, 1), // r1 = 1 (size)
        reg_word(8, 0, 2, 1), // r2 = allocate(1)
        lv_word(3, 0x7 << 12), // r3 = 0x7000: halt word needs its top bits...
        lv_word(4, 16),
        reg_word(4, 3, 3, 4), // r3 = r3 * 16 = 0x70000
        reg_word(4, 3, 3, 4), // r3 = 0x700000
        reg_word(4, 3, 3, 4), // r3 = 0x7000000
        lv_word(4, 16),
        reg_word(4, 3, 3, 4), // r3 = 0x70000000: the halt word
        lv_word(4, 0),
        reg_word(2, 2, 4, 3), // write(r2, 0, r3)
        lv_word(5, 0),
        reg_word(12, 0, 2, 5), // load program from r2, pc = 0
    ];
    let (out, s) = run_collect(p, Vec::new());
    assert!(out.is_empty());
    assert!(matches!(s, Step::Halted));
}

#[test]
fn boot_reads_big_endian_words() {
    let bytes = vec![0x12, 0x34, 0x56, 0x78, 0xDE, 0xAD, 0xBE, 0xEF, 0x01];
    let program = boot(&bytes);
    assert_eq!(program, vec![0x1234_5678, 0xDEAD_BEEF]);
}

#[test]
fn boot_of_halt_image_runs() {
    let bytes = vec![0x70, 0x00, 0x00, 0x00];
    let program = boot(&bytes);
    let (out, s) = run_collect(program, Vec::new());
    assert!(out.is_empty());
    assert!(matches!(s, Step::Halted));
}

#[test]
fn run_with_input_echoes_and_halts() {
    let p = vec![
        reg_word(11, 0, 0, 2), // input into r2
        reg_word(10, 0, 0, 2), // output r2
        reg_word(11, 0, 0, 2),
        reg_word(10, 0, 0, 2),
        reg_word(7, 0, 0, 0),
    ];
    let (out, s) = run_with_input(p, vec![b'o', b'k'], 100);
    assert_eq!(out, b"ok".to_vec());
    assert!(matches!(s, Step::Halted));
}

#[test]
fn run_with_input_respects_step_bound() {
    let p = vec![lv_word(1, 3), lv_word(2, 4), reg_word(7, 0, 0, 0)];
    let (out, s) = run_with_input(p.clone(), Vec::new(), 2);
    assert!(out.is_empty());
    assert!(matches!(s, Step::Continue)); // the bound ran out while still running
    let (_, s2) = run_with_input(p, Vec::new(), 3);
    assert!(matches!(s2, Step::Halted));
}
