//! The execution engine: three register-window bases and a program counter
//! over a `Memory`, advanced one instruction at a time by `Engine::step`.
//!
//! What one instruction does is the spec function `transition`, over the
//! abstract state `EngineState`. Byte input and output are not performed
//! here: `step` returns them as `Step::Read` and `Step::Write`, and the
//! caller completes a read with `Engine::complete_read`.

use vstd::prelude::*;
use vstd::arithmetic::power2::lemma2_to64;
use vstd::wrapping::i32_specs;
use crate::decode::{
    field, signed_field, word, to_cell, byte_address, cell_index, is_cell_address, MAX_CELLS,
    extract_u, extract_s, opcode, to_word, from_word, index_to_address, address_to_index, offset_pc,
};
use crate::memory::{Memory, block_fits, with_block, HEADER_CELLS};

verus! {

/// The tag of register-frame blocks.
pub const TAG_REGISTER_FRAME: i32 = 201;

pub const ADD: u32 = 0;
pub const SUB: u32 = 1;
pub const MUL: u32 = 2;
pub const DIV: u32 = 3;
pub const MOD: u32 = 4;
pub const LSL: u32 = 5;
pub const LSR: u32 = 6;
pub const AND: u32 = 7;
pub const OR: u32 = 8;
pub const XOR: u32 = 9;
pub const JLT: u32 = 10;
pub const JLE: u32 = 11;
pub const JEQ: u32 = 12;
pub const JNE: u32 = 13;
pub const JI: u32 = 14;
pub const TCAL: u32 = 15;
pub const CALL: u32 = 16;
pub const RET: u32 = 17;
pub const HALT: u32 = 18;
pub const LDLO: u32 = 19;
pub const LDHI: u32 = 20;
pub const MOVE: u32 = 21;
pub const RALO: u32 = 22;
pub const BALO: u32 = 23;
pub const BSIZ: u32 = 24;
pub const BTAG: u32 = 25;
pub const BGET: u32 = 26;
pub const BSET: u32 = 27;
pub const BREA: u32 = 28;
pub const BWRI: u32 = 29;

/// Why an instruction could not be executed.
#[derive(PartialEq, Eq, Structural, Clone, Copy, Debug)]
pub enum Fault {
    /// The opcode names no instruction.
    UnknownOpcode(u32),
    /// A cell index lies outside the memory.
    OutOfBounds,
    /// A value used as a byte address denotes no cell or no block.
    BadAddress(i32),
    /// `Div` or `Mod` by zero.
    DivideByZero,
    /// A jump leaves the range of cell indices.
    BadJump,
    /// `RegAlloc` names no base.
    BadWindow,
    /// A block does not fit in the memory left, or its size is negative.
    OutOfMemory,
}

/// What the caller has to do after one step.
#[derive(PartialEq, Eq, Structural, Clone, Copy, Debug)]
pub enum Step {
    /// Nothing: step again.
    Continue,
    /// The program halted with this result.
    Halt(i32),
    /// Read one byte of input and hand it to `complete_read` with this cell.
    Read(usize),
    /// Write this byte to the output.
    Write(u8),
    /// The instruction could not be executed; nothing was changed.
    Fault(Fault),
}

/// The abstract state of an engine.
pub struct EngineState {
    pub pc: nat,
    pub ib: nat,
    pub lb: nat,
    pub ob: nat,
    pub cells: Seq<i32>,
    /// The first cell not yet handed out by the allocator.
    pub free: nat,
}

/// The effect of one instruction.
pub enum Outcome {
    Continue(EngineState),
    Halt(i32),
    /// The state after the instruction, and the cell that receives the input.
    Read(EngineState, nat),
    Write(EngineState, u8),
    Fault(Fault),
}

impl EngineState {
    /// The cell index of register reference `r` (an 8-bit `[window:3 | offset:5]`).
    pub open spec fn reg_cell(self, r: nat) -> nat {
        let w = r / 32;
        let i = r % 32;
        if w < 6 {
            self.lb + i + 32 * w
        } else if w == 6 {
            self.ib + i
        } else {
            self.ob + i
        }
    }

    /// Bases fit the byte-address encoding, and the allocator's mark lies
    /// inside a memory whose every index has a byte address.
    pub open spec fn valid(self) -> bool {
        &&& self.cells.len() <= MAX_CELLS
        &&& self.free <= self.cells.len()
        &&& self.ib <= MAX_CELLS
        &&& self.lb <= MAX_CELLS
        &&& self.ob <= MAX_CELLS
    }

    pub open spec fn has(self, c: int) -> bool {
        0 <= c < self.cells.len()
    }

    pub open spec fn put(self, c: nat, v: i32) -> EngineState {
        EngineState { cells: self.cells.update(c as int, v), ..self }
    }

    pub open spec fn next(self) -> EngineState {
        EngineState { pc: self.pc + 1, ..self }
    }

    pub open spec fn ra(self, w: i32) -> nat {
        self.reg_cell(field(word(w), 18, 8))
    }

    pub open spec fn rb(self, w: i32) -> nat {
        self.reg_cell(field(word(w), 10, 8))
    }

    pub open spec fn rc(self, w: i32) -> nat {
        self.reg_cell(field(word(w), 2, 8))
    }
}

pub open spec fn abs(x: int) -> int {
    if x < 0 {
        -x
    } else {
        x
    }
}

/// Division truncated toward zero.
pub open spec fn trunc_div(x: int, y: int) -> int {
    if (x < 0) == (y < 0) {
        abs(x) / abs(y)
    } else {
        -(abs(x) / abs(y))
    }
}

/// The remainder of division truncated toward zero: it takes the sign of `x`.
pub open spec fn trunc_rem(x: int, y: int) -> int {
    if x < 0 {
        -(abs(x) % abs(y))
    } else {
        abs(x) % abs(y)
    }
}

/// A shift count taken modulo the cell width.
pub open spec fn shift_count(y: i32) -> u32 {
    (word(y) % 32) as u32
}

/// The result of the arithmetic or bitwise operation `op` on two cells, or
/// `None` for a division by zero.
pub open spec fn alu(op: nat, x: i32, y: i32) -> Option<i32> {
    if op == ADD {
        Some(i32_specs::wrapping_add(x, y))
    } else if op == SUB {
        Some(i32_specs::wrapping_sub(x, y))
    } else if op == MUL {
        Some(i32_specs::wrapping_mul(x, y))
    } else if op == DIV || op == MOD {
        if y == 0 {
            None
        } else if op == DIV {
            let q = trunc_div(x as int, y as int);
            Some(if q > i32::MAX { i32::MIN } else { q as i32 })
        } else {
            Some(trunc_rem(x as int, y as int) as i32)
        }
    } else if op == LSL {
        Some(to_cell(word(x) << shift_count(y)))
    } else if op == LSR {
        Some(to_cell(word(x) >> shift_count(y)))
    } else if op == AND {
        Some(x & y)
    } else if op == OR {
        Some(x | y)
    } else {
        Some(x ^ y)
    }
}

/// The signed comparison of a conditional branch.
pub open spec fn compare(op: nat, x: i32, y: i32) -> bool {
    if op == JLT {
        x < y
    } else if op == JLE {
        x <= y
    } else if op == JEQ {
        x == y
    } else {
        x != y
    }
}

/// A cell whose upper half is `hi` and whose lower half is that of `old`.
pub open spec fn ldhi_value(old: i32, hi: nat) -> i32 {
    to_cell((hi * 0x1_0000 + word(old) % 0x1_0000) as u32)
}

/// The cell that a read stores: the byte, or -1 at end of input.
pub open spec fn read_result(input: Option<u8>) -> i32 {
    match input {
        Some(b) => b as i32,
        None => -1i32,
    }
}

pub open spec fn arith_outcome(s: EngineState, w: i32, op: nat) -> Outcome {
    let (a, b, c) = (s.ra(w), s.rb(w), s.rc(w));
    if !(s.has(a as int) && s.has(b as int) && s.has(c as int)) {
        Outcome::Fault(Fault::OutOfBounds)
    } else {
        match alu(op, s.cells[b as int], s.cells[c as int]) {
            Some(v) => Outcome::Continue(s.put(a, v).next()),
            None => Outcome::Fault(Fault::DivideByZero),
        }
    }
}

pub open spec fn jump_outcome(s: EngineState, offset: int) -> Outcome {
    if 0 <= s.pc + offset <= usize::MAX {
        Outcome::Continue(EngineState { pc: (s.pc + offset) as nat, ..s })
    } else {
        Outcome::Fault(Fault::BadJump)
    }
}

pub open spec fn branch_outcome(s: EngineState, w: i32, op: nat) -> Outcome {
    let (a, b) = (s.ra(w), s.rb(w));
    if !(s.has(a as int) && s.has(b as int)) {
        Outcome::Fault(Fault::OutOfBounds)
    } else if compare(op, s.cells[a as int], s.cells[b as int]) {
        jump_outcome(s, signed_field(word(w), 0, 10))
    } else {
        jump_outcome(s, 1)
    }
}

/// `Call`: the output frame becomes the input frame, and its first four
/// cells receive the caller's bases and return index as byte addresses.
pub open spec fn call_outcome(s: EngineState, w: i32) -> Outcome {
    let a = s.ra(w);
    if !s.has(a as int) {
        Outcome::Fault(Fault::OutOfBounds)
    } else if !is_cell_address(s.cells[a as int] as int) {
        Outcome::Fault(Fault::BadAddress(s.cells[a as int]))
    } else if !s.has(s.ob + 3int) {
        Outcome::Fault(Fault::OutOfBounds)
    } else {
        let n = s.ob as int;
        Outcome::Continue(EngineState {
            pc: cell_index(s.cells[a as int] as int) as nat,
            ib: s.ob,
            lb: 0,
            ob: 0,
            cells: s.cells
                .update(n, byte_address(s.ib as int) as i32)
                .update(n + 1, byte_address(s.lb as int) as i32)
                .update(n + 2, byte_address(s.ob as int) as i32)
                .update(n + 3, byte_address(s.pc + 1int) as i32),
            free: s.free,
        })
    }
}

/// `TCal`: as `Call`, but the output frame receives the four context cells
/// of the current input frame instead of the caller's own context.
pub open spec fn tail_call_outcome(s: EngineState, w: i32) -> Outcome {
    let a = s.ra(w);
    if !s.has(a as int) {
        Outcome::Fault(Fault::OutOfBounds)
    } else if !is_cell_address(s.cells[a as int] as int) {
        Outcome::Fault(Fault::BadAddress(s.cells[a as int]))
    } else if !(s.has(s.ib + 3int) && s.has(s.ob + 3int)) {
        Outcome::Fault(Fault::OutOfBounds)
    } else {
        let (n, i) = (s.ob as int, s.ib as int);
        Outcome::Continue(EngineState {
            pc: cell_index(s.cells[a as int] as int) as nat,
            ib: s.ob,
            lb: 0,
            ob: 0,
            cells: s.cells
                .update(n, s.cells[i])
                .update(n + 1, s.cells[i + 1])
                .update(n + 2, s.cells[i + 2])
                .update(n + 3, s.cells[i + 3]),
            free: s.free,
        })
    }
}

/// `Ret`: the context saved in the input frame is installed again, and the
/// result `Mem[Ib+4]` goes to the first cell of the restored output frame.
pub open spec fn ret_outcome(s: EngineState) -> Outcome {
    let i = s.ib as int;
    if !s.has(i + 4) {
        Outcome::Fault(Fault::OutOfBounds)
    } else if !is_cell_address(s.cells[i + 3] as int) {
        Outcome::Fault(Fault::BadAddress(s.cells[i + 3]))
    } else if !is_cell_address(s.cells[i + 2] as int) {
        Outcome::Fault(Fault::BadAddress(s.cells[i + 2]))
    } else if !is_cell_address(s.cells[i + 1] as int) {
        Outcome::Fault(Fault::BadAddress(s.cells[i + 1]))
    } else if !is_cell_address(s.cells[i] as int) {
        Outcome::Fault(Fault::BadAddress(s.cells[i]))
    } else if !s.has(cell_index(s.cells[i + 2] as int)) {
        Outcome::Fault(Fault::OutOfBounds)
    } else {
        let ret_ob = cell_index(s.cells[i + 2] as int);
        Outcome::Continue(EngineState {
            pc: cell_index(s.cells[i + 3] as int) as nat,
            ib: cell_index(s.cells[i] as int) as nat,
            lb: cell_index(s.cells[i + 1] as int) as nat,
            ob: ret_ob as nat,
            cells: s.cells.update(ret_ob, s.cells[i + 4]),
            free: s.free,
        })
    }
}

/// The state with base `which` (0: `Lb`, 1: `Ib`, 2: `Ob`) set to `b`.
pub open spec fn with_base(s: EngineState, which: nat, b: nat) -> EngineState {
    if which == 0 {
        EngineState { lb: b, ..s }
    } else if which == 1 {
        EngineState { ib: b, ..s }
    } else {
        EngineState { ob: b, ..s }
    }
}

/// The state after a block of `tag` and `size` was allocated.
pub open spec fn allocated(s: EngineState, tag: i32, size: i32) -> EngineState {
    EngineState {
        cells: with_block(s.cells, s.free, tag, size),
        free: (s.free + HEADER_CELLS + size) as nat,
        ..s
    }
}

pub open spec fn reg_alloc_outcome(s: EngineState, w: i32) -> Outcome {
    let which = field(word(w), 24, 2);
    let size = field(word(w), 16, 8);
    if which == 3 {
        Outcome::Fault(Fault::BadWindow)
    } else if !block_fits(s.free, s.cells.len(), size as int) {
        Outcome::Fault(Fault::OutOfMemory)
    } else {
        let t = allocated(s, TAG_REGISTER_FRAME, size as i32);
        Outcome::Continue(with_base(t, which, (s.free + HEADER_CELLS) as nat).next())
    }
}

pub open spec fn block_alloc_outcome(s: EngineState, w: i32) -> Outcome {
    let (a, b) = (s.ra(w), s.rb(w));
    if !(s.has(a as int) && s.has(b as int)) {
        Outcome::Fault(Fault::OutOfBounds)
    } else if !block_fits(s.free, s.cells.len(), s.cells[b as int] as int) {
        Outcome::Fault(Fault::OutOfMemory)
    } else {
        let t = allocated(s, field(word(w), 2, 8) as i32, s.cells[b as int]);
        Outcome::Continue(t.put(a, byte_address(s.free + HEADER_CELLS) as i32).next())
    }
}

/// `BSize` (`tag` false) and `BTag` (`tag` true).
pub open spec fn block_info_outcome(s: EngineState, w: i32, tag: bool) -> Outcome {
    let (a, b) = (s.ra(w), s.rb(w));
    let back: int = if tag { 2 } else { 1 };
    if !(s.has(a as int) && s.has(b as int)) {
        Outcome::Fault(Fault::OutOfBounds)
    } else if !is_cell_address(s.cells[b as int] as int) || !s.has(
        cell_index(s.cells[b as int] as int) - back,
    ) {
        Outcome::Fault(Fault::BadAddress(s.cells[b as int]))
    } else {
        let blk = cell_index(s.cells[b as int] as int);
        Outcome::Continue(s.put(a, s.cells[blk - back]).next())
    }
}

/// `BGet` (`set` false) and `BSet` (`set` true).
pub open spec fn block_access_outcome(s: EngineState, w: i32, set: bool) -> Outcome {
    let (a, b, c) = (s.ra(w), s.rb(w), s.rc(w));
    if !(s.has(a as int) && s.has(b as int) && s.has(c as int)) {
        Outcome::Fault(Fault::OutOfBounds)
    } else if !is_cell_address(s.cells[b as int] as int) {
        Outcome::Fault(Fault::BadAddress(s.cells[b as int]))
    } else {
        let k = cell_index(s.cells[b as int] as int) + s.cells[c as int];
        if !(s.cells[c as int] >= 0 && s.has(k)) {
            Outcome::Fault(Fault::OutOfBounds)
        } else if set {
            Outcome::Continue(s.put(k as nat, s.cells[a as int]).next())
        } else {
            Outcome::Continue(s.put(a, s.cells[k]).next())
        }
    }
}

/// What the instruction at `pc` does.
pub open spec fn transition(s: EngineState) -> Outcome {
    if !s.has(s.pc as int) {
        Outcome::Fault(Fault::OutOfBounds)
    } else {
        let w = s.cells[s.pc as int];
        let op = field(word(w), 26, 6);
        let a = s.ra(w);
        if op <= XOR {
            arith_outcome(s, w, op)
        } else if op <= JNE {
            branch_outcome(s, w, op)
        } else if op == JI {
            jump_outcome(s, signed_field(word(w), 0, 26))
        } else if op == TCAL {
            tail_call_outcome(s, w)
        } else if op == CALL {
            call_outcome(s, w)
        } else if op == RET {
            ret_outcome(s)
        } else if op == RALO {
            reg_alloc_outcome(s, w)
        } else if op == BALO {
            block_alloc_outcome(s, w)
        } else if op == BSIZ || op == BTAG {
            block_info_outcome(s, w, op == BTAG)
        } else if op == BGET || op == BSET {
            block_access_outcome(s, w, op == BSET)
        } else if op == MOVE {
            let b = s.rb(w);
            if !(s.has(a as int) && s.has(b as int)) {
                Outcome::Fault(Fault::OutOfBounds)
            } else {
                Outcome::Continue(s.put(a, s.cells[b as int]).next())
            }
        } else if op > BWRI {
            Outcome::Fault(Fault::UnknownOpcode(op as u32))
        } else if !s.has(a as int) {
            Outcome::Fault(Fault::OutOfBounds)
        } else if op == HALT {
            Outcome::Halt(s.cells[a as int])
        } else if op == LDLO {
            Outcome::Continue(s.put(a, signed_field(word(w), 0, 18) as i32).next())
        } else if op == LDHI {
            Outcome::Continue(s.put(a, ldhi_value(s.cells[a as int], field(word(w), 0, 16))).next())
        } else if op == BREA {
            Outcome::Read(s.next(), a)
        } else {
            Outcome::Write(s.next(), (word(s.cells[a as int]) % 256) as u8)
        }
    }
}

/// Whether result `r` and the state `new` after a step from `old` are those
/// that outcome `o` prescribes.
pub open spec fn follows(old: EngineState, new: EngineState, r: Step, o: Outcome) -> bool {
    match o {
        Outcome::Continue(t) => r == Step::Continue && new == t,
        Outcome::Halt(v) => r == Step::Halt(v) && new == old,
        Outcome::Read(t, c) => r == Step::Read(c as usize) && new == t,
        Outcome::Write(t, b) => r == Step::Write(b) && new == t,
        Outcome::Fault(f) => r == Step::Fault(f) && new == old,
    }
}

/// An interpreter over a `Memory`: the program counter and the cell indices
/// of the input (`Ib`), local (`Lb`) and output (`Ob`) register frames.
pub struct Engine {
    pc: usize,
    ib: usize,
    lb: usize,
    ob: usize,
    mem: Memory,
}

impl View for Engine {
    type V = EngineState;

    closed spec fn view(&self) -> EngineState {
        EngineState {
            pc: self.pc as nat,
            ib: self.ib as nat,
            lb: self.lb as nat,
            ob: self.ob as nat,
            cells: self.mem.cells(),
            free: self.mem.free(),
        }
    }
}

/// The quotient of `x` by `y`, truncated toward zero and wrapped into a cell.
fn quotient(x: i32, y: i32) -> (r: i32)
    requires
        y != 0,
    ensures
        alu(DIV as nat, x, y) == Some(r),
{
    let ax: u64 = if x < 0 { (-(x as i64)) as u64 } else { x as u64 };
    let ay: u64 = if y < 0 { (-(y as i64)) as u64 } else { y as u64 };
    let q: u64 = ax / ay;
    proof {
        assert(q <= ax) by (nonlinear_arith)
            requires
                ay >= 1,
                q == ax / ay,
        ;
    }
    if (x < 0) == (y < 0) {
        if q > 0x7FFF_FFFF {
            i32::MIN
        } else {
            q as i32
        }
    } else {
        (-(q as i64)) as i32
    }
}

/// The remainder of `x` by `y`, which takes the sign of `x`.
fn remainder(x: i32, y: i32) -> (r: i32)
    requires
        y != 0,
    ensures
        alu(MOD as nat, x, y) == Some(r),
{
    let ax: u64 = if x < 0 { (-(x as i64)) as u64 } else { x as u64 };
    let ay: u64 = if y < 0 { (-(y as i64)) as u64 } else { y as u64 };
    let m: u64 = ax % ay;
    proof {
        assert(m <= ax) by (nonlinear_arith)
            requires
                ay >= 1,
                m == ax % ay,
        ;
    }
    if x < 0 {
        (-(m as i64)) as i32
    } else {
        m as i32
    }
}

/// Applies arithmetic or bitwise opcode `op` to two cells.
pub fn alu_exec(op: u32, x: i32, y: i32) -> (r: Option<i32>)
    requires
        op <= XOR,
    ensures
        r == alu(op as nat, x, y),
{
    if op == ADD {
        Some(x.wrapping_add(y))
    } else if op == SUB {
        Some(x.wrapping_sub(y))
    } else if op == MUL {
        Some(x.wrapping_mul(y))
    } else if op == DIV || op == MOD {
        if y == 0 {
            None
        } else if op == DIV {
            Some(quotient(x, y))
        } else {
            Some(remainder(x, y))
        }
    } else if op == LSL {
        let k = (to_word(y) % 32) as u32;
        Some(from_word(to_word(x) << k))
    } else if op == LSR {
        let k = (to_word(y) % 32) as u32;
        Some(from_word(to_word(x) >> k))
    } else if op == AND {
        Some(x & y)
    } else if op == OR {
        Some(x | y)
    } else {
        Some(x ^ y)
    }
}

/// Evaluates the signed comparison of conditional branch `op`.
fn compare_exec(op: u32, x: i32, y: i32) -> (r: bool)
    ensures
        r == compare(op as nat, x, y),
{
    if op == JLT {
        x < y
    } else if op == JLE {
        x <= y
    } else if op == JEQ {
        x == y
    } else {
        x != y
    }
}

impl Engine {
    pub open spec fn wf(&self) -> bool {
        self@.valid()
    }

    /// An engine over `mem` with the program counter and the three bases at 0.
    pub fn new(mem: Memory) -> (r: Engine)
        requires
            mem.wf(),
        ensures
            r.wf(),
            r@ == (EngineState { pc: 0, ib: 0, lb: 0, ob: 0, cells: mem.cells(), free: mem.free() }),
    {
        Engine { pc: 0, ib: 0, lb: 0, ob: 0, mem: mem }
    }

    /// The memory the engine runs on.
    pub fn memory(&self) -> (r: &Memory)
        ensures
            r.cells() == self@.cells,
            r.free() == self@.free,
    {
        &self.mem
    }

    /// The index of the next instruction.
    pub fn pc(&self) -> (r: usize)
        ensures
            r == self@.pc,
    {
        self.pc
    }

    /// The cell index of register reference `r`.
    fn reg_ix(&self, r: u32) -> (i: usize)
        requires
            self.wf(),
            r < 256,
        ensures
            i == self@.reg_cell(r as nat),
    {
        let i = (r % 32) as usize;
        let w = r / 32;
        if w < 6 {
            self.lb + i + 32 * (w as usize)
        } else if w == 6 {
            self.ib + i
        } else {
            self.ob + i
        }
    }

    fn ra_ix(&self, instr: i32) -> (i: usize)
        requires
            self.wf(),
        ensures
            i == self@.ra(instr),
    {
        proof {
            lemma2_to64();
        }
        self.reg_ix(extract_u(instr, 18, 8))
    }

    fn rb_ix(&self, instr: i32) -> (i: usize)
        requires
            self.wf(),
        ensures
            i == self@.rb(instr),
    {
        proof {
            lemma2_to64();
        }
        self.reg_ix(extract_u(instr, 10, 8))
    }

    fn rc_ix(&self, instr: i32) -> (i: usize)
        requires
            self.wf(),
        ensures
            i == self@.rc(instr),
    {
        proof {
            lemma2_to64();
        }
        self.reg_ix(extract_u(instr, 2, 8))
    }

    /// The cell at index `i`, or `None` outside the memory.
    fn cell(&self, i: usize) -> (r: Option<i32>)
        ensures
            r == (if self@.has(i as int) {
                Some(self@.cells[i as int])
            } else {
                None::<i32>
            }),
    {
        if i < self.mem.len() {
            Some(self.mem.load(i))
        } else {
            None
        }
    }

    fn ra(&self, instr: i32) -> (r: Option<i32>)
        requires
            self.wf(),
        ensures
            r == (if self@.has(self@.ra(instr) as int) {
                Some(self@.cells[self@.ra(instr) as int])
            } else {
                None::<i32>
            }),
    {
        self.cell(self.ra_ix(instr))
    }

    fn rb(&self, instr: i32) -> (r: Option<i32>)
        requires
            self.wf(),
        ensures
            r == (if self@.has(self@.rb(instr) as int) {
                Some(self@.cells[self@.rb(instr) as int])
            } else {
                None::<i32>
            }),
    {
        self.cell(self.rb_ix(instr))
    }

    fn rc(&self, instr: i32) -> (r: Option<i32>)
        requires
            self.wf(),
        ensures
            r == (if self@.has(self@.rc(instr) as int) {
                Some(self@.cells[self@.rc(instr) as int])
            } else {
                None::<i32>
            }),
    {
        self.cell(self.rc_ix(instr))
    }

    /// Stores `v` at cell `i` and moves on to the next instruction.
    fn put_next(&mut self, i: usize, v: i32)
        requires
            old(self).wf(),
            old(self)@.has(i as int),
            old(self)@.pc < old(self)@.cells.len(),
        ensures
            final(self).wf(),
            final(self)@ == old(self)@.put(i as nat, v).next(),
    {
        self.mem.store(i, v);
        self.pc = self.pc + 1;
    }

    /// `Ra := Rb op Rc`.
    fn arith(&mut self, instr: i32, op: u32) -> (r: Step)
        requires
            old(self).wf(),
            old(self)@.pc < old(self)@.cells.len(),
            op <= XOR,
        ensures
            final(self).wf(),
            follows(old(self)@, final(self)@, r, arith_outcome(old(self)@, instr, op as nat)),
    {
        let ra_ix = self.ra_ix(instr);
        match (self.cell(ra_ix), self.rb(instr), self.rc(instr)) {
            (Some(_), Some(l), Some(r)) => match alu_exec(op, l, r) {
                Some(v) => {
                    self.put_next(ra_ix, v);
                    Step::Continue
                },
                None => Step::Fault(Fault::DivideByZero),
            },
            _ => Step::Fault(Fault::OutOfBounds),
        }
    }

    /// Moves the program counter by `offset` cells.
    fn jump(&mut self, offset: i32) -> (r: Step)
        requires
            old(self).wf(),
        ensures
            final(self).wf(),
            follows(old(self)@, final(self)@, r, jump_outcome(old(self)@, offset as int)),
    {
        match offset_pc(self.pc, offset) {
            Some(pc) => {
                self.pc = pc;
                Step::Continue
            },
            None => Step::Fault(Fault::BadJump),
        }
    }

    /// A conditional branch on `Ra op Rb`.
    fn cond_pc(&mut self, instr: i32, op: u32) -> (r: Step)
        requires
            old(self).wf(),
        ensures
            final(self).wf(),
            follows(old(self)@, final(self)@, r, branch_outcome(old(self)@, instr, op as nat)),
    {
        match (self.ra(instr), self.rb(instr)) {
            (Some(l), Some(r)) => {
                if compare_exec(op, l, r) {
                    self.jump(extract_s(instr, 0, 10))
                } else {
                    self.jump(1)
                }
            },
            _ => Step::Fault(Fault::OutOfBounds),
        }
    }
}

impl Engine {
    /// `Call` (`tail` false) and `TCal` (`tail` true).
    fn call(&mut self, instr: i32, tail: bool) -> (r: Step)
        requires
            old(self).wf(),
            old(self)@.pc < old(self)@.cells.len(),
        ensures
            final(self).wf(),
            follows(
                old(self)@,
                final(self)@,
                r,
                if tail {
                    tail_call_outcome(old(self)@, instr)
                } else {
                    call_outcome(old(self)@, instr)
                },
            ),
    {
        let target = match self.ra(instr) {
            Some(t) => t,
            None => return Step::Fault(Fault::OutOfBounds),
        };
        let target_pc = match address_to_index(target) {
            Some(pc) => pc,
            None => return Step::Fault(Fault::BadAddress(target)),
        };
        let len = self.mem.len();
        let new_ib = self.ob;
        if tail && self.ib + 3 >= len || new_ib + 3 >= len {
            return Step::Fault(Fault::OutOfBounds);
        }
        let (ctx0, ctx1, ctx2, ctx3) = if tail {
            (
                self.mem.load(self.ib),
                self.mem.load(self.ib + 1),
                self.mem.load(self.ib + 2),
                self.mem.load(self.ib + 3),
            )
        } else {
            (
                index_to_address(self.ib),
                index_to_address(self.lb),
                index_to_address(self.ob),
                index_to_address(self.pc + 1),
            )
        };
        self.ib = new_ib;
        self.lb = 0;
        self.ob = 0;
        self.mem.store(new_ib, ctx0);
        self.mem.store(new_ib + 1, ctx1);
        self.mem.store(new_ib + 2, ctx2);
        self.mem.store(new_ib + 3, ctx3);
        self.pc = target_pc;
        Step::Continue
    }

    /// `Ret`.
    fn ret(&mut self) -> (r: Step)
        requires
            old(self).wf(),
        ensures
            final(self).wf(),
            follows(old(self)@, final(self)@, r, ret_outcome(old(self)@)),
    {
        if self.ib + 4 >= self.mem.len() {
            return Step::Fault(Fault::OutOfBounds);
        }
        let ret_value = self.mem.load(self.ib + 4);
        let c3 = self.mem.load(self.ib + 3);
        let c2 = self.mem.load(self.ib + 2);
        let c1 = self.mem.load(self.ib + 1);
        let c0 = self.mem.load(self.ib);
        let ret_pc = match address_to_index(c3) {
            Some(i) => i,
            None => return Step::Fault(Fault::BadAddress(c3)),
        };
        let ret_ob = match address_to_index(c2) {
            Some(i) => i,
            None => return Step::Fault(Fault::BadAddress(c2)),
        };
        let ret_lb = match address_to_index(c1) {
            Some(i) => i,
            None => return Step::Fault(Fault::BadAddress(c1)),
        };
        let ret_ib = match address_to_index(c0) {
            Some(i) => i,
            None => return Step::Fault(Fault::BadAddress(c0)),
        };
        if ret_ob >= self.mem.len() {
            return Step::Fault(Fault::OutOfBounds);
        }
        self.mem.store(ret_ob, ret_value);
        self.ob = ret_ob;
        self.lb = ret_lb;
        self.ib = ret_ib;
        self.pc = ret_pc;
        Step::Continue
    }

    /// `RegAlloc`: a register frame installed as one of the three bases.
    fn reg_alloc(&mut self, instr: i32) -> (r: Step)
        requires
            old(self).wf(),
            old(self)@.pc < old(self)@.cells.len(),
        ensures
            final(self).wf(),
            follows(old(self)@, final(self)@, r, reg_alloc_outcome(old(self)@, instr)),
    {
        proof {
            lemma2_to64();
        }
        let size = extract_u(instr, 16, 8);
        let which = extract_u(instr, 24, 2);
        if which == 3 {
            return Step::Fault(Fault::BadWindow);
        }
        match self.mem.allocate(TAG_REGISTER_FRAME, size as i32) {
            Some(b) => {
                if which == 0 {
                    self.lb = b;
                } else if which == 1 {
                    self.ib = b;
                } else {
                    self.ob = b;
                }
                self.pc = self.pc + 1;
                Step::Continue
            },
            None => Step::Fault(Fault::OutOfMemory),
        }
    }

    /// `BAlloc`: a block of the tag in the instruction and the size in `Rb`,
    /// whose byte address goes to `Ra`.
    fn block_alloc(&mut self, instr: i32) -> (r: Step)
        requires
            old(self).wf(),
            old(self)@.pc < old(self)@.cells.len(),
        ensures
            final(self).wf(),
            follows(old(self)@, final(self)@, r, block_alloc_outcome(old(self)@, instr)),
    {
        proof {
            lemma2_to64();
        }
        let ra_ix = self.ra_ix(instr);
        if ra_ix >= self.mem.len() {
            return Step::Fault(Fault::OutOfBounds);
        }
        let size = match self.rb(instr) {
            Some(v) => v,
            None => return Step::Fault(Fault::OutOfBounds),
        };
        let tag = extract_u(instr, 2, 8);
        match self.mem.allocate(tag as i32, size) {
            Some(b) => {
                let addr = index_to_address(b);
                self.put_next(ra_ix, addr);
                Step::Continue
            },
            None => Step::Fault(Fault::OutOfMemory),
        }
    }

    /// `BSize` (`tag` false) and `BTag` (`tag` true).
    fn block_info(&mut self, instr: i32, tag: bool) -> (r: Step)
        requires
            old(self).wf(),
            old(self)@.pc < old(self)@.cells.len(),
        ensures
            final(self).wf(),
            follows(old(self)@, final(self)@, r, block_info_outcome(old(self)@, instr, tag)),
    {
        let ra_ix = self.ra_ix(instr);
        if ra_ix >= self.mem.len() {
            return Step::Fault(Fault::OutOfBounds);
        }
        let addr = match self.rb(instr) {
            Some(v) => v,
            None => return Step::Fault(Fault::OutOfBounds),
        };
        let block_ix = match address_to_index(addr) {
            Some(b) => b,
            None => return Step::Fault(Fault::BadAddress(addr)),
        };
        let info = if tag {
            self.mem.block_tag(block_ix)
        } else {
            self.mem.block_size(block_ix)
        };
        match info {
            Some(v) => {
                self.put_next(ra_ix, v);
                Step::Continue
            },
            None => Step::Fault(Fault::BadAddress(addr)),
        }
    }

    /// `BGet` (`set` false) and `BSet` (`set` true).
    fn block_access(&mut self, instr: i32, set: bool) -> (r: Step)
        requires
            old(self).wf(),
            old(self)@.pc < old(self)@.cells.len(),
        ensures
            final(self).wf(),
            follows(old(self)@, final(self)@, r, block_access_outcome(old(self)@, instr, set)),
    {
        let ra_ix = self.ra_ix(instr);
        let (value, addr, index) = match (self.cell(ra_ix), self.rb(instr), self.rc(instr)) {
            (Some(v), Some(b), Some(c)) => (v, b, c),
            _ => return Step::Fault(Fault::OutOfBounds),
        };
        let block_ix = match address_to_index(addr) {
            Some(b) => b,
            None => return Step::Fault(Fault::BadAddress(addr)),
        };
        if index < 0 || block_ix >= self.mem.len() || index as usize >= self.mem.len() - block_ix {
            return Step::Fault(Fault::OutOfBounds);
        }
        let k = block_ix + index as usize;
        if set {
            self.put_next(k, value);
        } else {
            let v = self.mem.load(k);
            self.put_next(ra_ix, v);
        }
        Step::Continue
    }
}

impl Engine {
    /// `LdHi`: the upper half of `Ra` from the instruction, its lower half kept.
    fn load_high(&mut self, instr: i32) -> (r: Step)
        requires
            old(self).wf(),
            old(self)@.pc < old(self)@.cells.len(),
        ensures
            final(self).wf(),
            old(self)@.has(old(self)@.ra(instr) as int) ==> r == Step::Continue && final(self)@
                == old(self)@.put(
                old(self)@.ra(instr),
                ldhi_value(old(self)@.cells[old(self)@.ra(instr) as int], field(word(instr), 0, 16)),
            ).next(),
            !old(self)@.has(old(self)@.ra(instr) as int) ==> r == Step::Fault(Fault::OutOfBounds)
                && final(self)@ == old(self)@,
    {
        proof {
            lemma2_to64();
        }
        let ra_ix = self.ra_ix(instr);
        match self.cell(ra_ix) {
            Some(old_value) => {
                let hi = extract_u(instr, 0, 16);
                let lo = to_word(old_value) % 0x1_0000;
                self.put_next(ra_ix, from_word(hi * 0x1_0000 + lo));
                Step::Continue
            },
            None => Step::Fault(Fault::OutOfBounds),
        }
    }

    /// Executes the instruction at the program counter, as `transition` says.
    /// Where it faults, nothing is changed.
    pub fn step(&mut self) -> (r: Step)
        requires
            old(self).wf(),
        ensures
            final(self).wf(),
            follows(old(self)@, final(self)@, r, transition(old(self)@)),
    {
        if self.pc >= self.mem.len() {
            return Step::Fault(Fault::OutOfBounds);
        }
        let instr = self.mem.load(self.pc);
        let op = opcode(instr);
        if op <= XOR {
            return self.arith(instr, op);
        } else if op <= JNE {
            return self.cond_pc(instr, op);
        } else if op == JI {
            proof {
                lemma2_to64();
            }
            return self.jump(extract_s(instr, 0, 26));
        } else if op == TCAL {
            return self.call(instr, true);
        } else if op == CALL {
            return self.call(instr, false);
        } else if op == RET {
            return self.ret();
        } else if op == RALO {
            return self.reg_alloc(instr);
        } else if op == BALO {
            return self.block_alloc(instr);
        } else if op == BSIZ || op == BTAG {
            return self.block_info(instr, op == BTAG);
        } else if op == BGET || op == BSET {
            return self.block_access(instr, op == BSET);
        } else if op == MOVE {
            let ra_ix = self.ra_ix(instr);
            return match (self.cell(ra_ix), self.rb(instr)) {
                (Some(_), Some(v)) => {
                    self.put_next(ra_ix, v);
                    Step::Continue
                },
                _ => Step::Fault(Fault::OutOfBounds),
            };
        } else if op > BWRI {
            return Step::Fault(Fault::UnknownOpcode(op));
        } else if op == LDHI {
            return self.load_high(instr);
        }
        let ra_ix = self.ra_ix(instr);
        let value = match self.cell(ra_ix) {
            Some(v) => v,
            None => return Step::Fault(Fault::OutOfBounds),
        };
        if op == HALT {
            Step::Halt(value)
        } else if op == LDLO {
            proof {
                lemma2_to64();
            }
            let imm = extract_s(instr, 0, 18);
            self.put_next(ra_ix, imm);
            Step::Continue
        } else if op == BREA {
            self.pc = self.pc + 1;
            Step::Read(ra_ix)
        } else {
            self.pc = self.pc + 1;
            Step::Write((to_word(value) % 256) as u8)
        }
    }

    /// Completes a `Step::Read` for cell `cell`: stores the byte read, or -1
    /// at end of input.
    pub fn complete_read(&mut self, cell: usize, input: Option<u8>)
        requires
            old(self).wf(),
            old(self)@.has(cell as int),
        ensures
            final(self).wf(),
            final(self)@ == old(self)@.put(cell as nat, read_result(input)),
    {
        let v: i32 = match input {
            Some(b) => b as i32,
            None => -1,
        };
        self.mem.store(cell, v);
    }
}

} // verus!
