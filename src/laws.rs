//! Laws of the machine, stated over `transition` and the decoding functions.

use vstd::prelude::*;
use vstd::arithmetic::power2::{pow2, lemma2_to64};
use vstd::arithmetic::div_mod::{
    lemma_fundamental_div_mod, lemma_mod_multiples_basic, lemma_mod_mod, lemma_mod_multiples_vanish,
};
use crate::decode::{field, signed_field, word, to_cell, byte_address, cell_index, is_cell_address};
use crate::engine::{
    EngineState, Outcome, transition, tail_call_outcome, ret_outcome, alu, ldhi_value, read_result, ADD, SUB, MUL, CALL, TCAL, RET,
    LDLO, LDHI, BREA,
};

verus! {

/// A cell index comes back unchanged from its byte address, and a
/// cell-aligned byte address comes back unchanged from its cell index.
pub proof fn lemma_address_round_trip(i: int, a: int)
    requires
        i >= 0,
        is_cell_address(a),
    ensures
        cell_index(byte_address(i)) == i,
        is_cell_address(byte_address(i)),
        byte_address(cell_index(a)) == a,
{
}

/// `Add`, `Sub` and `Mul` give the exact result reduced modulo 2^32 into
/// the range of a cell.
pub proof fn lemma_wrapping_arith(x: i32, y: i32)
    ensures
        alu(ADD as nat, x, y) matches Some(r) && (r - (x + y)) % 0x1_0000_0000 == 0,
        alu(SUB as nat, x, y) matches Some(r) && (r - (x - y)) % 0x1_0000_0000 == 0,
        alu(MUL as nat, x, y) matches Some(r) && (r - x * y) % 0x1_0000_0000 == 0,
{
    let m: int = 0x1_0000_0000;
    let p = x * y;
    lemma_fundamental_div_mod(p, m);
    let q = p / m;
    if p % m > i32::MAX {
        lemma_mod_multiples_basic(-(q + 1), m);
        assert(-(q + 1) * m == p % m - m - p) by (nonlinear_arith)
            requires
                p == m * q + p % m,
        ;
    } else {
        lemma_mod_multiples_basic(-q, m);
        assert(-q * m == p % m - p) by (nonlinear_arith)
            requires
                p == m * q + p % m,
        ;
    }
}

/// The 32-bit pattern of a cell determines it.
proof fn lemma_word_to_cell(v: i32)
    ensures
        to_cell(word(v)) == v,
{
}

/// The cell that `LdHi` with the upper half of `v` makes of the cell that
/// `LdLo` with the low 18 bits of `v` wrote is `v` itself.
proof fn lemma_ldlo_ldhi_value(lo_bits: nat, hi_bits: nat, v: i32)
    requires
        lo_bits == word(v) as nat % 0x4_0000,
        hi_bits == (word(v) as nat / 0x1_0000) % 0x1_0000,
    ensures
        ldhi_value(
            (if lo_bits >= 0x2_0000 {
                lo_bits - 0x4_0000
            } else {
                lo_bits as int
            }) as i32,
            hi_bits,
        ) == v,
{
    let vw = word(v) as int;
    let b = lo_bits as int;
    let l = (if b >= 0x2_0000 { b - 0x4_0000 } else { b }) as i32;
    lemma_mod_mod(vw, 0x1_0000, 4);
    if b >= 0x2_0000 {
        lemma_mod_multiples_vanish(65532, b, 0x1_0000);
        assert(word(l) as int == 65532 * 0x1_0000 + b);
    }
    assert(word(l) as int % 0x1_0000 == vw % 0x1_0000);
    lemma_fundamental_div_mod(vw, 0x1_0000);
    assert(hi_bits == vw / 0x1_0000);
    assert(hi_bits * 0x1_0000 + word(l) as int % 0x1_0000 == vw);
    lemma_word_to_cell(v);
}

/// `LdLo Ra, v & 0x3FFFF` followed by `LdHi Ra, (v >> 16) & 0xFFFF` leaves
/// `v` in `Ra`, for every cell `v`: the sign extension of the 18-bit
/// immediate never disturbs the lower half that `LdHi` keeps.
#[verifier::rlimit(50)]
pub proof fn lemma_immediate_composition(s: EngineState, v: i32)
    requires
        s.has(s.pc + 1int),
        field(word(s.cells[s.pc as int]), 26, 6) == LDLO,
        field(word(s.cells[s.pc + 1int]), 26, 6) == LDHI,
        field(word(s.cells[s.pc as int]), 18, 8) == field(word(s.cells[s.pc + 1int]), 18, 8),
        field(word(s.cells[s.pc as int]), 0, 18) == word(v) as nat % 0x4_0000,
        field(word(s.cells[s.pc + 1int]), 0, 16) == (word(v) as nat / 0x1_0000) % 0x1_0000,
        s.has(s.ra(s.cells[s.pc as int]) as int),
        s.ra(s.cells[s.pc as int]) != s.pc + 1,
    ensures
        transition(s) matches Outcome::Continue(t) && transition(t) matches Outcome::Continue(u) && {
            &&& u.pc == s.pc + 2
            &&& u.cells[s.ra(s.cells[s.pc as int]) as int] == v
        },
{
    lemma2_to64();
    let w1 = s.cells[s.pc as int];
    let w2 = s.cells[s.pc + 1int];
    let a = s.ra(w1);
    assert(pow2(17) == 0x2_0000 && pow2(18) == 0x4_0000);
    let l = signed_field(word(w1), 0, 18) as i32;
    lemma_ldlo_ldhi_value(field(word(w1), 0, 18), field(word(w2), 0, 16), v);
    let t = s.put(a, l).next();
    assert(transition(s) == Outcome::Continue(t));
    assert(t.cells[t.pc as int] == w2);
    assert(t.ra(w2) == a);
    assert(transition(t) == Outcome::Continue(t.put(a, ldhi_value(l, field(word(w2), 0, 16))).next()));
}

/// The four context cells at the start of the input frame.
pub open spec fn frame_context(s: EngineState) -> Seq<i32> {
    s.cells.subrange(s.ib as int, s.ib + 4int)
}

/// Whether `s` is about to execute instruction `op`.
pub open spec fn at(s: EngineState, op: u32) -> bool {
    s.has(s.pc as int) && field(word(s.cells[s.pc as int]), 26, 6) == op
}

/// The caller's state after a callee entered from `s0` by `Call` returns
/// from state `s`: its bases again, the instruction after the `Call`, and
/// the result `Mem[Ib+4]` in the first cell of its output frame.
pub open spec fn returned_to(s0: EngineState, s: EngineState) -> EngineState {
    EngineState {
        pc: s0.pc + 1,
        ib: s0.ib,
        lb: s0.lb,
        ob: s0.ob,
        cells: s.cells.update(s0.ob as int, s.cells[s.ib + 4int]),
        free: s.free,
    }
}

/// The context that `Call` from `s0` saves: the caller's bases and return
/// index, as byte addresses.
pub open spec fn saved_context(s0: EngineState) -> Seq<i32> {
    seq![
        byte_address(s0.ib as int) as i32,
        byte_address(s0.lb as int) as i32,
        byte_address(s0.ob as int) as i32,
        byte_address(s0.pc + 1int) as i32,
    ]
}

/// `Call` from `s0` leaves the caller's context at the start of the new
/// input frame, which is the caller's output frame.
proof fn lemma_call_saves(s0: EngineState, s1: EngineState)
    requires
        s0.valid(),
        at(s0, CALL),
        transition(s0) == Outcome::Continue(s1),
    ensures
        s1.ib == s0.ob,
        s1.cells.len() == s0.cells.len(),
        frame_context(s1) == saved_context(s0),
{
    assert(frame_context(s1) =~= saved_context(s0));
}

/// A `Ret` in a frame that holds the context saved by `Call` from `s0`
/// returns to the caller.
proof fn lemma_ret_to_saved(s0: EngineState, s: EngineState)
    requires
        s0.valid(),
        s0.has(s0.ob as int),
        s0.has(s0.pc as int),
        s.cells.len() == s0.cells.len(),
        s.has(s.ib + 4int),
        frame_context(s) == saved_context(s0),
        at(s, RET),
    ensures
        transition(s) == Outcome::Continue(returned_to(s0, s)),
{
    let i = s.ib as int;
    assert(s.cells[i] == frame_context(s)[0]);
    assert(s.cells[i + 1] == frame_context(s)[1]);
    assert(s.cells[i + 2] == frame_context(s)[2]);
    assert(s.cells[i + 3] == frame_context(s)[3]);
    assert(s.cells[i] as int == 4 * s0.ib);
    assert(s.cells[i + 1] as int == 4 * s0.lb);
    assert(s.cells[i + 2] as int == 4 * s0.ob);
    assert(s.cells[i + 3] as int == 4 * (s0.pc + 1));
    assert(transition(s) == ret_outcome(s));
}

/// After `Call` from `s0`, a `Ret` executed by the callee in any state `s2`
/// that still has the callee's input frame with its context cells intact
/// goes back to the caller: the caller's bases, the instruction after the
/// `Call`, and `Mem[Ib+4]` in the caller's `Ob[0]`.
pub proof fn lemma_call_ret(s0: EngineState, s1: EngineState, s2: EngineState)
    requires
        s0.valid(),
        at(s0, CALL),
        transition(s0) == Outcome::Continue(s1),
        s2.ib == s1.ib,
        s2.has(s2.ib + 4int),
        s2.cells.len() == s1.cells.len(),
        frame_context(s2) == frame_context(s1),
        at(s2, RET),
    ensures
        transition(s2) == Outcome::Continue(returned_to(s0, s2)),
        returned_to(s0, s2).cells[s0.ob as int] == s2.cells[s2.ib + 4int],
{
    lemma_call_saves(s0, s1);
    lemma_ret_to_saved(s0, s2);
}

/// `TCal` hands the callee's context cells on unchanged: from `Call A` in
/// `s0`, a tail call by `A` in `s2` and a `Ret` by `B` in `s4` bring the
/// caller to the same state as a `Ret` directly after `Call B` would
/// (`returned_to(s0, s4)`, as in `lemma_call_ret`), whatever else `A` did.
pub proof fn lemma_tail_call_transparent(
    s0: EngineState,
    s1: EngineState,
    s2: EngineState,
    s3: EngineState,
    s4: EngineState,
)
    requires
        s0.valid(),
        at(s0, CALL),
        transition(s0) == Outcome::Continue(s1),
        s2.ib == s1.ib,
        s2.has(s2.ib + 4int),
        frame_context(s2) == frame_context(s1),
        at(s2, TCAL),
        transition(s2) == Outcome::Continue(s3),
        s4.ib == s3.ib,
        s4.has(s4.ib + 4int),
        s4.cells.len() == s0.cells.len(),
        frame_context(s4) == frame_context(s3),
        at(s4, RET),
    ensures
        transition(s4) == Outcome::Continue(returned_to(s0, s4)),
{
    lemma_call_saves(s0, s1);
    assert(transition(s2) == tail_call_outcome(s2, s2.cells[s2.pc as int]));
    let i = s2.ib as int;
    assert(s2.cells[i] == frame_context(s2)[0]);
    assert(s2.cells[i + 1] == frame_context(s2)[1]);
    assert(s2.cells[i + 2] == frame_context(s2)[2]);
    assert(s2.cells[i + 3] == frame_context(s2)[3]);
    assert(frame_context(s3) =~= frame_context(s2));
    lemma_ret_to_saved(s0, s4);
}

/// `BRead` never faults on its own account: it asks for input, and at end
/// of input the cell of `Ra` receives -1.
pub proof fn lemma_read_at_eof(s: EngineState)
    requires
        at(s, BREA),
        s.has(s.ra(s.cells[s.pc as int]) as int),
    ensures
        transition(s) == Outcome::Read(s.next(), s.ra(s.cells[s.pc as int])),
        s.next().put(s.ra(s.cells[s.pc as int]), read_result(None)).cells[s.ra(
            s.cells[s.pc as int],
        ) as int] == -1,
{
}

} // verus!
