//! The instruction decoder and the execution engine: a register file of
//! eight 32-bit words, a program counter, and a segment store seeded with the
//! program image as segment 0. `step` performs one fetch-decode-execute
//! cycle; the surrounding loop performs the byte input and output that a
//! `step` result asks for and hands read bytes back with `provide_input`.

use vstd::prelude::*;
use crate::bitpack;
use crate::memory::Memory;
use crate::memory::MemModel;
use crate::memory::alloc_model;
use crate::memory::free_model;
use crate::memory::read_model;
use crate::memory::swap_model;
use crate::memory::write_model;

verus! {

/// The operation named by the 4-bit opcode field, or `Illegal` for the two
/// encodings (14 and 15) that name no operation.
#[derive(Clone, Copy, Debug, PartialEq, Eq, Structural)]
pub enum Opcode {
    CMov,
    Load,
    Store,
    Add,
    Mul,
    Div,
    Nand,
    Halt,
    MapSegment,
    UnmapSegment,
    Output,
    Input,
    LoadProgram,
    LoadValue,
    Illegal,
}

/// A decoded instruction: either an operation over three 3-bit register
/// selectors, a load of a 25-bit immediate into a register, or the explicit
/// invalid marker for opcode encodings 14 and 15.
#[derive(Clone, Copy, Debug, PartialEq, Eq, Structural)]
pub enum Instruction {
    Reg { op: Opcode, ra: usize, rb: usize, rc: usize },
    Value { ra: usize, value: u32 },
    Invalid,
}

/// The fatal conditions that end execution abnormally.
#[derive(Clone, Copy, Debug, PartialEq, Eq, Structural)]
pub enum Fault {
    /// The fetched word's opcode bits encode 14 or 15.
    DecodeError,
    /// A read, write, free, or swap named a handle outside the currently
    /// allocated set, or an address outside a segment's length.
    SegmentFault,
    /// A divide instruction met a zero divisor.
    ArithmeticFault,
    /// The input stream reported an error distinct from clean exhaustion.
    InputFault,
    /// The program image could not be obtained.
    LoadFault,
}

/// What one execution step asks of its caller.
#[derive(Clone, Copy, Debug, PartialEq, Eq, Structural)]
pub enum Step {
    /// The instruction completed; fetch the next one.
    Continue,
    /// Write this byte to the output stream, then fetch the next instruction.
    Output(u8),
    /// Read one byte and hand it (or the end-of-input marker) to
    /// `provide_input` before the next step.
    Input,
    /// Clean termination.
    Halted,
    /// Abnormal termination.
    Fault(Fault),
}

/// The opcode of an instruction word: its top four bits.
pub open spec fn opcode_of(w: u32) -> Opcode {
    let op = w >> 28;
    if op == 0 {
        Opcode::CMov
    } else if op == 1 {
        Opcode::Load
    } else if op == 2 {
        Opcode::Store
    } else if op == 3 {
        Opcode::Add
    } else if op == 4 {
        Opcode::Mul
    } else if op == 5 {
        Opcode::Div
    } else if op == 6 {
        Opcode::Nand
    } else if op == 7 {
        Opcode::Halt
    } else if op == 8 {
        Opcode::MapSegment
    } else if op == 9 {
        Opcode::UnmapSegment
    } else if op == 10 {
        Opcode::Output
    } else if op == 11 {
        Opcode::Input
    } else if op == 12 {
        Opcode::LoadProgram
    } else if op == 13 {
        Opcode::LoadValue
    } else {
        Opcode::Illegal
    }
}

/// The meaning of an instruction word: opcodes 14 and 15 decode to the
/// invalid marker; load-immediate carries a 3-bit destination register and a
/// 25-bit immediate; every other operation carries three 3-bit register
/// selectors in the low nine bits.
pub open spec fn decode_model(w: u32) -> Instruction {
    let op = opcode_of(w);
    if op is Illegal {
        Instruction::Invalid
    } else if op is LoadValue {
        Instruction::Value { ra: ((w >> 25) & 0x7) as usize, value: w & 0x01ff_ffff }
    } else {
        Instruction::Reg {
            op,
            ra: ((w >> 6) & 0x7) as usize,
            rb: ((w >> 3) & 0x7) as usize,
            rc: (w & 0x7) as usize,
        }
    }
}

impl Instruction {
    /// Register selectors name one of the eight registers, immediates fit in
    /// 25 bits, and a register-form instruction carries a register-form
    /// operation.
    pub open spec fn wf(self) -> bool {
        match self {
            Instruction::Reg { op, ra, rb, rc } => ra < 8 && rb < 8 && rc < 8
                && !(op is LoadValue) && !(op is Illegal),
            Instruction::Value { ra, value } => ra < 8 && value < 0x0200_0000,
            Instruction::Invalid => true,
        }
    }

    /// Decode a raw 32-bit instruction word.
    pub fn decode(instruction: u32) -> (inst: Instruction)
        ensures
            inst == decode_model(instruction),
            inst.wf(),
    {
        let opcode = parse_opcode(instruction);
        match opcode {
            Opcode::Illegal => Instruction::Invalid,
            Opcode::LoadValue => {
                let ra = ((instruction >> 25) & 0x7) as usize;
                let value = instruction & 0x01ff_ffff;
                proof {
                    assert(((instruction >> 25) & 0x7) < 8 && (instruction & 0x01ff_ffff)
                        < 0x0200_0000) by (bit_vector);
                }
                Instruction::Value { ra, value }
            },
            _ => {
                let ra = ((instruction >> 6) & 0x7) as usize;
                let rb = ((instruction >> 3) & 0x7) as usize;
                let rc = (instruction & 0x7) as usize;
                proof {
                    assert(((instruction >> 6) & 0x7) < 8 && ((instruction >> 3) & 0x7) < 8 && (
                    instruction & 0x7) < 8) by (bit_vector);
                }
                Instruction::Reg { op: opcode, ra, rb, rc }
            },
        }
    }
}

/// Read the 4-bit opcode field from bits 31..28 of an instruction word.
pub fn parse_opcode(instruction: u32) -> (r: Opcode)
    ensures
        r == opcode_of(instruction),
{
    let op = bitpack::getu(instruction as u64, 4, 28);
    proof {
        assert(bitpack::field_of(instruction as u64, 4, 28) == (instruction >> 28) as u64)
            by (bit_vector);
    }
    if op == 0 {
        Opcode::CMov
    } else if op == 1 {
        Opcode::Load
    } else if op == 2 {
        Opcode::Store
    } else if op == 3 {
        Opcode::Add
    } else if op == 4 {
        Opcode::Mul
    } else if op == 5 {
        Opcode::Div
    } else if op == 6 {
        Opcode::Nand
    } else if op == 7 {
        Opcode::Halt
    } else if op == 8 {
        Opcode::MapSegment
    } else if op == 9 {
        Opcode::UnmapSegment
    } else if op == 10 {
        Opcode::Output
    } else if op == 11 {
        Opcode::Input
    } else if op == 12 {
        Opcode::LoadProgram
    } else if op == 13 {
        Opcode::LoadValue
    } else {
        Opcode::Illegal
    }
}

/// The register file: exactly eight 32-bit words.
pub struct Registers {
    pub r: Vec<u32>,
}

impl View for Registers {
    type V = Seq<u32>;

    open spec fn view(&self) -> Seq<u32> {
        self.r@
    }
}

impl Registers {
    /// All eight registers, initialized to zero.
    pub fn new() -> (rs: Registers)
        ensures
            rs@.len() == 8,
            forall|i: int| 0 <= i < 8 ==> rs@[i] == 0u32,
    {
        let mut r: Vec<u32> = Vec::new();
        let mut i: usize = 0;
        while i < 8
            invariant
                i <= 8,
                r@.len() == i,
                forall|j: int| 0 <= j < i ==> r@[j] == 0u32,
            decreases 8 - i,
        {
            r.push(0);
            i += 1;
        }
        Registers { r }
    }

    /// The value of register `i`.
    pub fn get(&self, i: usize) -> (v: u32)
        requires
            self@.len() == 8,
            i < 8,
        ensures
            v == self@[i as int],
    {
        self.r[i]
    }

    /// Set register `i` to `v`.
    pub fn set(&mut self, i: usize, v: u32)
        requires
            old(self)@.len() == 8,
            i < 8,
        ensures
            final(self)@ == old(self)@.update(i as int, v),
    {
        self.r.set(i, v);
    }
}

/// The mathematical model of the whole machine.
pub struct MachModel {
    pub regs: Seq<u32>,
    pub pc: usize,
    pub mem: MemModel,
    pub pending: Option<usize>,
}

impl MachModel {
    pub open spec fn wf(self) -> bool {
        &&& self.regs.len() == 8
        &&& self.mem.wf()
        &&& match self.pending {
            Some(i) => i < 8,
            None => true,
        }
    }
}

pub open spec fn with_pc(m: MachModel, pc: usize) -> MachModel {
    MachModel { regs: m.regs, pc, mem: m.mem, pending: m.pending }
}

pub open spec fn with_reg(m: MachModel, i: usize, v: u32) -> MachModel {
    MachModel { regs: m.regs.update(i as int, v), pc: m.pc, mem: m.mem, pending: m.pending }
}

pub open spec fn with_mem(m: MachModel, mem: MemModel) -> MachModel {
    MachModel { regs: m.regs, pc: m.pc, mem, pending: m.pending }
}

pub open spec fn with_pending(m: MachModel, pending: Option<usize>) -> MachModel {
    MachModel { regs: m.regs, pc: m.pc, mem: m.mem, pending }
}

/// A 32-bit register result: arithmetic is performed modulo `2^32`.
pub open spec fn wrap32(v: int) -> u32 {
    (v % 0x1_0000_0000) as u32
}

/// One fetch-decode-execute cycle from state `pre`: the successor state and
/// what the cycle asks of the driving loop. Fetching past the end of the
/// program, an invalid opcode, a segment violation, and a zero divisor are
/// the fatal outcomes; on a fault the state to its left is final.
pub open spec fn step_model(pre: MachModel) -> (MachModel, Step) {
    match read_model(pre.mem, 0, pre.pc) {
        Option::None => (pre, Step::Fault(Fault::SegmentFault)),
        Option::Some(w) => step_decoded(pre, decode_model(w)),
    }
}

/// Execution of one decoded instruction: the program counter has already
/// advanced past it except on a decode error, which leaves the state
/// untouched.
pub open spec fn step_decoded(pre: MachModel, inst: Instruction) -> (MachModel, Step) {
    match inst {
        Instruction::Invalid => (pre, Step::Fault(Fault::DecodeError)),
        Instruction::Value { ra, value } => {
            (with_reg(with_pc(pre, (pre.pc + 1) as usize), ra, value), Step::Continue)
        },
        Instruction::Reg { op, ra, rb, rc } => {
            let next = with_pc(pre, (pre.pc + 1) as usize);
            let va = pre.regs[ra as int];
            let vb = pre.regs[rb as int];
            let vc = pre.regs[rc as int];
            match op {
                Opcode::CMov => (
                    if vc != 0 {
                        with_reg(next, ra, vb)
                    } else {
                        next
                    },
                    Step::Continue,
                ),
                Opcode::Load => match read_model(pre.mem, vb as usize, vc as usize) {
                    Option::Some(v) => (with_reg(next, ra, v), Step::Continue),
                    Option::None => (next, Step::Fault(Fault::SegmentFault)),
                },
                Opcode::Store => if pre.mem.valid(va as usize) && (vb as nat) < pre.mem.seg(
                    va as usize,
                ).len() {
                    (
                        with_mem(next, write_model(pre.mem, va as usize, vb as usize, vc)),
                        Step::Continue,
                    )
                } else {
                    (next, Step::Fault(Fault::SegmentFault))
                },
                Opcode::Add => (with_reg(next, ra, wrap32(vb + vc)), Step::Continue),
                Opcode::Mul => (with_reg(next, ra, wrap32(vb * vc)), Step::Continue),
                Opcode::Div => if vc == 0 {
                    (next, Step::Fault(Fault::ArithmeticFault))
                } else {
                    (with_reg(next, ra, (vb / vc) as u32), Step::Continue)
                },
                Opcode::Nand => (with_reg(next, ra, !(vb & vc)), Step::Continue),
                Opcode::Halt => (next, Step::Halted),
                Opcode::MapSegment => {
                    let (m2, h) = alloc_model(pre.mem, vc as usize);
                    if h > 0xffff_ffff {
                        (with_mem(next, m2), Step::Fault(Fault::SegmentFault))
                    } else {
                        (with_reg(with_mem(next, m2), rb, h as u32), Step::Continue)
                    }
                },
                Opcode::UnmapSegment => if pre.mem.valid(vc as usize) && vc != 0 {
                    (with_mem(next, free_model(pre.mem, vc as usize)), Step::Continue)
                } else {
                    (next, Step::Fault(Fault::SegmentFault))
                },
                Opcode::Output => (next, Step::Output((vc & 0xff) as u8)),
                Opcode::Input => (with_pending(next, Some(rc)), Step::Input),
                Opcode::LoadProgram => if vb == 0 {
                    (with_pc(pre, vc as usize), Step::Continue)
                } else if pre.mem.valid(vb as usize) {
                    (with_pc(with_mem(pre, swap_model(pre.mem, vb as usize)), vc as usize),
                    Step::Continue)
                } else {
                    (next, Step::Fault(Fault::SegmentFault))
                },
                Opcode::LoadValue => (pre, Step::Fault(Fault::DecodeError)),
                Opcode::Illegal => (pre, Step::Fault(Fault::DecodeError)),
            }
        },
    }
}

/// The register value an input byte becomes: the byte zero-extended, or the
/// all-ones end-of-input marker.
pub open spec fn input_byte_value(byte: Option<u8>) -> u32 {
    match byte {
        Some(b) => b as u32,
        None => 0xffff_ffffu32,
    }
}

/// Delivery of one input byte (or end-of-input) to the register that the
/// pending input instruction named.
pub open spec fn input_model(pre: MachModel, byte: Option<u8>) -> MachModel {
    match pre.pending {
        Some(i) => with_pending(with_reg(pre, i, input_byte_value(byte)), None),
        None => pre,
    }
}

/// The machine state at start: all registers zero, the program counter at 0,
/// the program image as the only segment (under handle 0), and no input
/// pending.
pub open spec fn boot_model(program: Seq<u32>) -> MachModel {
    MachModel {
        regs: Seq::new(8, |i: int| 0u32),
        pc: 0,
        mem: MemModel { heap: seq![program], pool: Seq::empty(), mapped: seq![true] },
        pending: None,
    }
}

/// The virtual processor: register file, program counter, segment store, and
/// the register (if any) awaiting an input byte.
pub struct Machine {
    pub regs: Registers,
    pub pc: usize,
    pub mem: Memory,
    pub pending: Option<usize>,
}

impl View for Machine {
    type V = MachModel;

    open spec fn view(&self) -> MachModel {
        MachModel { regs: self.regs@, pc: self.pc, mem: self.mem@, pending: self.pending }
    }
}

impl Machine {
    pub open spec fn inv(self) -> bool {
        self@.wf()
    }

    /// A machine at start: all registers zero, the program counter at 0, and
    /// the program image as the only segment, under handle 0.
    pub fn new(program: Vec<u32>) -> (m: Machine)
        ensures
            m.inv(),
            m@ == boot_model(program@),
    {
        let ghost prog = program@;
        let m = Machine { regs: Registers::new(), pc: 0, mem: Memory::new(program), pending: None };
        proof {
            assert(m@.regs =~= boot_model(prog).regs);
            assert(m@.mem.heap =~= boot_model(prog).mem.heap);
            assert(m@.mem.pool =~= boot_model(prog).mem.pool);
            assert(m@.mem.mapped =~= boot_model(prog).mem.mapped);
        }
        m
    }

    /// Whether the machine is waiting for `provide_input`.
    pub fn awaiting_input(&self) -> (b: bool)
        ensures
            b == (self@.pending is Some),
    {
        self.pending.is_some()
    }

    /// One fetch-decode-execute cycle, exactly as `step_model` describes it.
    pub fn step(&mut self) -> (r: Step)
        requires
            old(self).inv(),
            old(self)@.pending is None,
        ensures
            final(self).inv(),
            final(self)@ == step_model(old(self)@).0,
            r == step_model(old(self)@).1,
    {
        let w = match self.mem.get_instruction(self.pc) {
            Some(w) => w,
            None => {
                return Step::Fault(Fault::SegmentFault);
            },
        };
        let inst = Instruction::decode(w);
        match inst {
            Instruction::Invalid => Step::Fault(Fault::DecodeError),
            Instruction::Value { ra, value } => {
                self.pc = self.pc + 1;
                self.regs.set(ra, value);
                Step::Continue
            },
            Instruction::Reg { op, ra, rb, rc } => {
                self.pc = self.pc + 1;
                match op {
                    Opcode::CMov => {
                        if self.regs.get(rc) != 0 {
                            let vb = self.regs.get(rb);
                            self.regs.set(ra, vb);
                        }
                        Step::Continue
                    },
                    Opcode::Load => {
                        let hb = self.regs.get(rb) as usize;
                        let ac = self.regs.get(rc) as usize;
                        match self.mem.load(hb, ac) {
                            Some(v) => {
                                self.regs.set(ra, v);
                                Step::Continue
                            },
                            None => Step::Fault(Fault::SegmentFault),
                        }
                    },
                    Opcode::Store => {
                        let ha = self.regs.get(ra) as usize;
                        let ab = self.regs.get(rb) as usize;
                        let vc = self.regs.get(rc);
                        if self.mem.store(ha, ab, vc) {
                            Step::Continue
                        } else {
                            Step::Fault(Fault::SegmentFault)
                        }
                    },
                    Opcode::Add => {
                        let s = (self.regs.get(rb) as u64) + (self.regs.get(rc) as u64);
                        self.regs.set(ra, (s % 0x1_0000_0000) as u32);
                        Step::Continue
                    },
                    Opcode::Mul => {
                        let x = self.regs.get(rb);
                        let y = self.regs.get(rc);
                        proof {
                            assert((x as u64) * (y as u64) < 0x1_0000_0000_0000_0000)
                                by (nonlinear_arith)
                                requires
                                    x < 0x1_0000_0000u64,
                                    y < 0x1_0000_0000u64,
                            ;
                        }
                        let p = (x as u64) * (y as u64);
                        self.regs.set(ra, (p % 0x1_0000_0000) as u32);
                        Step::Continue
                    },
                    Opcode::Div => {
                        let d = self.regs.get(rc);
                        if d == 0 {
                            Step::Fault(Fault::ArithmeticFault)
                        } else {
                            let q = self.regs.get(rb) / d;
                            self.regs.set(ra, q);
                            Step::Continue
                        }
                    },
                    Opcode::Nand => {
                        let v = !(self.regs.get(rb) & self.regs.get(rc));
                        self.regs.set(ra, v);
                        Step::Continue
                    },
                    Opcode::Halt => Step::Halted,
                    Opcode::MapSegment => {
                        let size = self.regs.get(rc) as usize;
                        let h = self.mem.allocate(size);
                        if h > 0xffff_ffff {
                            Step::Fault(Fault::SegmentFault)
                        } else {
                            self.regs.set(rb, h as u32);
                            Step::Continue
                        }
                    },
                    Opcode::UnmapSegment => {
                        let c = self.regs.get(rc) as usize;
                        if self.mem.deallocate(c) {
                            Step::Continue
                        } else {
                            Step::Fault(Fault::SegmentFault)
                        }
                    },
                    Opcode::Output => {
                        let v = self.regs.get(rc);
                        proof {
                            assert((v & 0xff) < 256) by (bit_vector);
                        }
                        Step::Output((v & 0xff) as u8)
                    },
                    Opcode::Input => {
                        self.pending = Some(rc);
                        Step::Input
                    },
                    Opcode::LoadProgram => {
                        let b = self.regs.get(rb);
                        let c = self.regs.get(rc);
                        if b == 0 {
                            self.pc = c as usize;
                            Step::Continue
                        } else if self.mem.load_segment(b as usize) {
                            self.pc = c as usize;
                            Step::Continue
                        } else {
                            Step::Fault(Fault::SegmentFault)
                        }
                    },
                    Opcode::LoadValue => {
                        proof {
                            assert(false);
                        }
                        Step::Fault(Fault::DecodeError)
                    },
                    Opcode::Illegal => {
                        proof {
                            assert(false);
                        }
                        Step::Fault(Fault::DecodeError)
                    },
                }
            },
        }
    }

    /// Deliver the byte that the pending input instruction asked for, or
    /// `None` for clean end-of-input, which stores the all-ones marker.
    pub fn provide_input(&mut self, byte: Option<u8>)
        requires
            old(self).inv(),
            old(self)@.pending is Some,
        ensures
            final(self).inv(),
            final(self)@ == input_model(old(self)@, byte),
    {
        match self.pending {
            Some(i) => {
                let v = match byte {
                    Some(b) => b as u32,
                    None => 0xffff_ffff,
                };
                self.regs.set(i, v);
                self.pending = None;
            },
            None => {
                proof {
                    assert(false);
                }
            },
        }
    }
}

/// Driving the machine for at most `fuel` steps: each input instruction
/// consumes the next byte of `input` (end-of-input once they run out) and
/// output bytes are collected in order. Yields the final state, the output,
/// and how the run ended: `Halted`, a `Fault`, or `Continue` when the step
/// bound ran out with the machine still running.
pub open spec fn run_model(pre: MachModel, input: Seq<u8>, fuel: nat) -> (MachModel, Seq<u8>, Step)
    decreases fuel,
{
    if fuel == 0 {
        (pre, Seq::empty(), Step::Continue)
    } else {
        let (post, s) = step_model(pre);
        match s {
            Step::Continue => run_model(post, input, (fuel - 1) as nat),
            Step::Output(b) => {
                let (fin, out, st) = run_model(post, input, (fuel - 1) as nat);
                (fin, seq![b] + out, st)
            },
            Step::Input => {
                let byte: Option<u8> = if input.len() > 0 {
                    Some(input[0])
                } else {
                    None
                };
                let rest = if input.len() > 0 {
                    input.skip(1)
                } else {
                    input
                };
                run_model(input_model(post, byte), rest, (fuel - 1) as nat)
            },
            Step::Halted => (post, Seq::empty(), s),
            Step::Fault(_) => (post, Seq::empty(), s),
        }
    }
}

/// Run a fresh machine on `program` until it halts, faults, or has executed
/// `max_steps` instructions, feeding it the bytes of `input` and collecting
/// what it outputs, exactly as `run_model` describes. The returned step is
/// `Halted`, a `Fault`, or `Continue` when the bound ran out first.
pub fn run_with_input(program: Vec<u32>, input: Vec<u8>, max_steps: usize) -> (r: (Vec<u8>, Step))
    ensures
        r.0@ == run_model(boot_model(program@), input@, max_steps as nat).1,
        r.1 == run_model(boot_model(program@), input@, max_steps as nat).2,
{
    let ghost prog = program@;
    let ghost target = run_model(boot_model(program@), input@, max_steps as nat);
    let mut m = Machine::new(program);
    let mut out: Vec<u8> = Vec::new();
    let mut pos: usize = 0;
    let mut left: usize = max_steps;
    proof {
        assert(input@.skip(0) =~= input@);
    }
    loop
        invariant
            m.inv(),
            m@.pending is None,
            pos <= input@.len(),
            prog == program@,
            target == run_model(boot_model(prog), input@, max_steps as nat),
            ({
                let (fin, o, st) = run_model(m@, input@.skip(pos as int), left as nat);
                target.1 == out@ + o && target.2 == st
            }),
        decreases left,
    {
        if left == 0 {
            proof {
                assert(out@ + Seq::<u8>::empty() =~= out@);
            }
            return (out, Step::Continue);
        }
        let ghost pre = m@;
        let ghost rem = input@.skip(pos as int);
        let s = m.step();
        left = left - 1;
        match s {
            Step::Continue => {},
            Step::Output(b) => {
                proof {
                    let (fin, o, st) = run_model(m@, rem, left as nat);
                    assert(out@ + (seq![b] + o) =~= out@.push(b) + o);
                }
                out.push(b);
            },
            Step::Input => {
                let byte: Option<u8> = if pos < input.len() {
                    let b = input[pos];
                    pos = pos + 1;
                    Some(b)
                } else {
                    None
                };
                proof {
                    if rem.len() > 0 {
                        assert(rem[0] == input@[pos - 1]);
                        assert(rem.skip(1) =~= input@.skip(pos as int));
                    }
                }
                m.provide_input(byte);
            },
            Step::Halted => {
                proof {
                    assert(out@ + Seq::<u8>::empty() =~= out@);
                }
                return (out, s);
            },
            Step::Fault(_) => {
                proof {
                    assert(out@ + Seq::<u8>::empty() =~= out@);
                }
                return (out, s);
            },
        }
    }
}

/// The big-endian reading of four bytes, most significant first.
pub open spec fn be_word_model(b0: u8, b1: u8, b2: u8, b3: u8) -> u32 {
    ((b0 as int) * 0x100_0000 + (b1 as int) * 0x1_0000 + (b2 as int) * 0x100 + (b3 as int)) as u32
}

/// Relies on byteorder's `BigEndian::read_u32` (`u32::from_be_bytes` on the
/// four bytes handed to it): the bytes are combined most significant first.
#[verifier::external_body]
fn be_word(b0: u8, b1: u8, b2: u8, b3: u8) -> (w: u32)
    ensures
        w == be_word_model(b0, b1, b2, b3),
{
    <byteorder::BigEndian as byteorder::ByteOrder>::read_u32(&[b0, b1, b2, b3])
}

/// Parse a program image: 32-bit words stored big-endian, concatenated with
/// no header. A trailing partial word is dropped.
pub fn boot(contents: &Vec<u8>) -> (program: Vec<u32>)
    ensures
        program@.len() == contents@.len() / 4,
        forall|i: int|
            0 <= i < program@.len() ==> program@[i] == be_word_model(
                contents@[4 * i],
                contents@[4 * i + 1],
                contents@[4 * i + 2],
                contents@[4 * i + 3],
            ),
{
    let n = contents.len() / 4;
    let mut program: Vec<u32> = Vec::new();
    let mut i: usize = 0;
    while i < n
        invariant
            n == contents@.len() / 4,
            contents@.len() <= usize::MAX,
            i <= n,
            program@.len() == i,
            forall|j: int|
                0 <= j < i ==> program@[j] == be_word_model(
                    contents@[4 * j],
                    contents@[4 * j + 1],
                    contents@[4 * j + 2],
                    contents@[4 * j + 3],
                ),
        decreases n - i,
    {
        proof {
            vstd::arithmetic::div_mod::lemma_fundamental_div_mod(contents@.len() as int, 4);
            vstd::arithmetic::div_mod::lemma_mod_bound(contents@.len() as int, 4);
        }
        let idx = 4 * i;
        let w = be_word(contents[idx], contents[idx + 1], contents[idx + 2], contents[idx + 3]);
        program.push(w);
        i += 1;
    }
    program
}

} // verus!
