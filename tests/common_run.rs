use l3vm::decode::{extract_s, extract_u, opcode};
use l3vm::engine::{BALO, BGET, BREA, BSET, BSIZ, BTAG, BWRI, CALL, HALT, LDHI, LDLO, MOVE, RALO, RET, TCAL};
use l3vm::{Engine, Fault, Memory, Step};

fn enc(op: u32, ra: u32, rb: u32, rc: u32) -> i32 {
    ((op << 26) | (ra << 18) | (rb << 10) | (rc << 2)) as i32
}

fn ldlo(ra: u32, imm: i32) -> i32 {
    ((LDLO << 26) | (ra << 18) | ((imm as u32) & 0x3FFFF)) as i32
}

fn ldhi(ra: u32, imm: u32) -> i32 {
    ((LDHI << 26) | (ra << 18) | (imm & 0xFFFF)) as i32
}

fn halt(ra: u32) -> i32 {
    enc(HALT, ra, 0, 0)
}

fn jcond(op: u32, ra: u32, rb: u32, offset: i32) -> i32 {
    ((op << 26) | (ra << 18) | (rb << 10) | ((offset as u32) & 0x3FF)) as i32
}

fn reg_alloc(which: u32, size: u32) -> i32 {
    ((RALO << 26) | (which << 24) | (size << 16)) as i32
}

const I4: u32 = 6 * 32 + 4;
const O0: u32 = 7 * 32;
const O4: u32 = 7 * 32 + 4;

fn run(words: &[i32], input: &[u8]) -> (Result<i32, Fault>, Vec<u8>) {
    let mut mem = Memory::new(4096);
    assert!(mem.load_image(&words.to_vec()));
    let mut eng = Engine::new(mem);
    let mut out = Vec::new();
    let mut inp = input.iter();
    for _ in 0..100_000 {
        match eng.step() {
            Step::Continue => {}
            Step::Halt(v) => return (Ok(v), out),
            Step::Read(c) => eng.complete_read(c, inp.next().copied()),
            Step::Write(b) => out.push(b),
            Step::Fault(f) => return (Err(f), out),
        }
    }
    panic!("program did not halt");
}

#[test]
fn identity_halt() {
    let (r, out) = run(&[ldlo(0, 42), halt(0)], &[]);
    assert_eq!(r, Ok(42));
    assert!(out.is_empty());
}

#[test]
fn add_small_positives() {
    let prog = [ldlo(0, 3), ldlo(1, 4), enc(0, 2, 0, 1), halt(2)];
    assert_eq!(run(&prog, &[]).0, Ok(7));
}

#[test]
fn wrapping_overflow() {
    // 0x80000000 + 0x80000000 wraps to 0.
    let prog = [ldlo(0, 0), ldhi(0, 0x8000), enc(0, 1, 0, 0), halt(1)];
    assert_eq!(run(&prog, &[]).0, Ok(0));
}

#[test]
fn wrapping_overflow_low_bit_set() {
    // 0x80000001 + 0x80000001 wraps to 2.
    let prog = [ldlo(0, 1), ldhi(0, 0x8000), enc(0, 1, 0, 0), halt(1)];
    assert_eq!(run(&prog, &[]).0, Ok(2));
}

#[test]
fn conditional_branch_taken() {
    let prog = [
        ldlo(0, 1),
        ldlo(1, 2),
        jcond(10, 0, 1, 3),
        ldlo(2, 0),
        halt(2),
        ldlo(2, 1),
        halt(2),
    ];
    assert_eq!(run(&prog, &[]).0, Ok(1));
}

#[test]
fn conditional_branch_not_taken() {
    let prog = [
        ldlo(0, 2),
        ldlo(1, 1),
        jcond(10, 0, 1, 3),
        ldlo(2, 0),
        halt(2),
        ldlo(2, 1),
        halt(2),
    ];
    assert_eq!(run(&prog, &[]).0, Ok(0));
}

#[test]
fn backward_jump_with_negative_offset() {
    // Counts R0 down from 3 to 0 with JNE back by -2.
    let prog = [
        reg_alloc(0, 32),
        ldlo(0, 3),
        ldlo(1, 1),
        ldlo(2, 0),
        enc(1, 0, 0, 1),
        jcond(13, 0, 2, -1),
        halt(0),
    ];
    assert_eq!(run(&prog, &[]).0, Ok(0));
}

#[test]
fn heap_block_round_trip() {
    let prog = [
        reg_alloc(0, 32),
        ldlo(1, 3),
        enc(BALO, 0, 1, 5),
        ldlo(3, 99),
        ldlo(4, 1),
        enc(BSET, 3, 0, 4),
        enc(BGET, 2, 0, 4),
        halt(2),
    ];
    assert_eq!(run(&prog, &[]).0, Ok(99));
}

#[test]
fn block_tag_and_size() {
    let prog = [
        reg_alloc(0, 32),
        ldlo(1, 3),
        enc(BALO, 0, 1, 5),
        enc(BTAG, 2, 0, 0),
        enc(BSIZ, 3, 0, 0),
        enc(2, 4, 2, 3),
        halt(4),
    ];
    assert_eq!(run(&prog, &[]).0, Ok(15));
}

#[test]
fn echo_one_byte() {
    let prog = [enc(BREA, 0, 0, 0), enc(BWRI, 0, 0, 0), halt(0)];
    let (r, out) = run(&prog, &[0x41]);
    assert_eq!(r, Ok(65));
    assert_eq!(out, b"A".to_vec());
}

#[test]
fn read_at_end_of_input_gives_minus_one() {
    let prog = [enc(BREA, 0, 0, 0), halt(0)];
    assert_eq!(run(&prog, &[]), (Ok(-1), Vec::new()));
}

#[test]
fn write_sends_low_byte() {
    let prog = [ldlo(0, 0x142), enc(BWRI, 0, 0, 0), halt(0)];
    assert_eq!(run(&prog, &[]), (Ok(0x142), vec![0x42]));
}

#[test]
fn immediate_composition_builds_any_word() {
    for v in [0i32, 1, -1, 0x1234_5678, -0x1234_5678, i32::MIN, i32::MAX, 0x0002_8000, 0x7FFF_8000] {
        let u = v as u32;
        let prog = [ldlo(5, (u & 0x3FFFF) as i32), ldhi(5, (u >> 16) & 0xFFFF), halt(5)];
        assert_eq!(run(&prog, &[]).0, Ok(v));
    }
}

#[test]
fn call_then_ret_restores_caller() {
    let mut prog = vec![
        reg_alloc(0, 32),
        reg_alloc(2, 8),
        ldlo(0, 40),
        ldlo(1, 5),
        enc(MOVE, O4, 1, 0),
        enc(CALL, 0, 0, 0),
        enc(MOVE, 2, O0, 0),
        halt(2),
    ];
    prog.resize(10, 0);
    prog.push(enc(0, I4, I4, I4));
    prog.push(enc(RET, 0, 0, 0));
    assert_eq!(run(&prog, &[]).0, Ok(10));
}

#[test]
fn call_then_ret_restores_bases_and_pc() {
    let mut prog = vec![
        reg_alloc(0, 32),
        reg_alloc(2, 8),
        ldlo(0, 40),
        enc(CALL, 0, 0, 0),
        halt(1),
    ];
    prog.resize(10, 0);
    prog.push(ldlo(I4, 7));
    prog.push(enc(RET, 0, 0, 0));
    let mut mem = Memory::new(4096);
    assert!(mem.load_image(&prog));
    let mut eng = Engine::new(mem);
    for _ in 0..3 {
        assert_eq!(eng.step(), Step::Continue);
    }
    let (lb_frame, ob_frame) = (14usize, 48usize);
    assert_eq!(eng.memory().load(lb_frame + 0), 40);
    assert_eq!(eng.step(), Step::Continue);
    assert_eq!(eng.pc(), 10);
    assert_eq!(eng.memory().load(ob_frame + 0), 0);
    assert_eq!(eng.memory().load(ob_frame + 1), (lb_frame * 4) as i32);
    assert_eq!(eng.memory().load(ob_frame + 2), (ob_frame * 4) as i32);
    assert_eq!(eng.memory().load(ob_frame + 3), 16);
    assert_eq!(eng.step(), Step::Continue);
    assert_eq!(eng.step(), Step::Continue);
    assert_eq!(eng.pc(), 4);
    assert_eq!(eng.memory().load(ob_frame), 7);
    assert_eq!(eng.step(), Step::Halt(0));
}

#[test]
fn tail_call_returns_to_original_caller() {
    let mut prog = vec![
        reg_alloc(0, 32),
        reg_alloc(2, 8),
        ldlo(0, 40),
        ldlo(1, 5),
        enc(MOVE, O4, 1, 0),
        enc(CALL, 0, 0, 0),
        enc(MOVE, 2, O0, 0),
        halt(2),
    ];
    prog.resize(10, 0);
    prog.extend([
        reg_alloc(0, 32),
        reg_alloc(2, 8),
        ldlo(0, 80),
        enc(MOVE, O4, I4, 0),
        enc(TCAL, 0, 0, 0),
    ]);
    prog.resize(20, 0);
    prog.push(enc(0, I4, I4, I4));
    prog.push(enc(RET, 0, 0, 0));
    assert_eq!(run(&prog, &[]).0, Ok(10));
}

#[test]
fn arithmetic_and_bitwise_operations() {
    let cases: [(u32, i32, i32, i32); 14] = [
        (1, 3, 5, -2),
        (2, 0x10000, 0x10000, 0),
        (3, -7, 2, -3),
        (3, 7, -2, -3),
        (4, -7, 2, -1),
        (4, 7, -2, 1),
        (3, i32::MIN, -1, i32::MIN),
        (4, i32::MIN, -1, 0),
        (5, 1, 33, 2),
        (6, -1, 28, 0xF),
        (6, -16, 2, 0x3FFF_FFFC),
        (7, 0xC, 0xA, 0x8),
        (8, 0xC, 0xA, 0xE),
        (9, 0xC, 0xA, 0x6),
    ];
    for (op, x, y, want) in cases {
        let mut mem = Memory::new(64);
        assert!(mem.load_image(&vec![enc(op, 40, 41, 42)]));
        mem.store(41, x);
        mem.store(42, y);
        let mut eng = Engine::new(mem);
        assert_eq!(eng.step(), Step::Continue);
        assert_eq!(eng.memory().load(40), want, "op {} on {} and {}", op, x, y);
    }
}

#[test]
fn division_by_zero_faults_and_changes_nothing() {
    let mut mem = Memory::new(64);
    assert!(mem.load_image(&vec![enc(3, 40, 41, 42)]));
    mem.store(41, 7);
    let mut eng = Engine::new(mem);
    assert_eq!(eng.step(), Step::Fault(Fault::DivideByZero));
    assert_eq!(eng.pc(), 0);
    assert_eq!(eng.memory().load(40), 0);
}

#[test]
fn unknown_opcode_faults() {
    let prog = [(30u32 << 26) as i32];
    assert_eq!(run(&prog, &[]).0, Err(Fault::UnknownOpcode(30)));
}

#[test]
fn call_through_misaligned_address_faults() {
    let prog = [reg_alloc(2, 8), ldlo(5, 6), enc(CALL, 5, 0, 0)];
    assert_eq!(run(&prog, &[]).0, Err(Fault::BadAddress(6)));
}

#[test]
fn register_frame_too_large_faults() {
    let mut mem = Memory::new(40);
    assert!(mem.load_image(&vec![reg_alloc(0, 200)]));
    let mut eng = Engine::new(mem);
    assert_eq!(eng.step(), Step::Fault(Fault::OutOfMemory));
}

#[test]
fn register_frame_bad_window_faults() {
    assert_eq!(run(&[reg_alloc(3, 8)], &[]).0, Err(Fault::BadWindow));
}

#[test]
fn jump_before_start_faults() {
    let prog = [((14u32 << 26) | 0x3FF_FFFE) as i32];
    assert_eq!(run(&prog, &[]).0, Err(Fault::BadJump));
}

#[test]
fn running_off_the_memory_faults() {
    let mut mem = Memory::new(1);
    assert!(mem.load_image(&vec![ldlo(0, 1)]));
    let mut eng = Engine::new(mem);
    assert_eq!(eng.step(), Step::Continue);
    assert_eq!(eng.step(), Step::Fault(Fault::OutOfBounds));
}

#[test]
fn block_get_outside_memory_faults() {
    let prog = [reg_alloc(0, 32), ldlo(0, 8), ldlo(1, 5000), enc(BGET, 2, 0, 1)];
    assert_eq!(run(&prog, &[]).0, Err(Fault::OutOfBounds));
}

#[test]
fn decode_fields() {
    let w = 0xDEAD_BEEFu32 as i32;
    assert_eq!(extract_u(w, 0, 32), 0xDEAD_BEEF);
    assert_eq!(extract_u(w, 4, 8), 0xEE);
    assert_eq!(extract_u(w, 28, 4), 0xD);
    assert_eq!(extract_u(w, 32, 0), 0);
    assert_eq!(extract_s(w, 28, 4), -3);
    assert_eq!(extract_s(w, 0, 32), 0xDEAD_BEEFu32 as i32);
    assert_eq!(extract_s(w, 0, 4), -1);
    assert_eq!(extract_s(0x7, 0, 4), 7);
    assert_eq!(opcode(halt(0)), HALT);
    assert_eq!(opcode(-1), 63);
}
