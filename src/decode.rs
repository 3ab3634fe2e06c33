//! Bitfield extraction over instruction words and the conversions between
//! cell indices and byte addresses.

use vstd::prelude::*;
use vstd::arithmetic::power2::{pow2, lemma2_to64};
use vstd::bits::{
    low_bits_mask, lemma_u32_shr_is_div, lemma_u32_shl_is_mul, lemma_u32_pow2_no_overflow,
    lemma_u32_low_bits_mask_is_mod,
};

verus! {

/// log2 of the number of bytes in a cell.
pub const LOG2_VALUE_BYTES: u32 = 2;

/// The largest number of cells a memory may hold, so that the byte address
/// of every cell index up to and including the length fits in a cell.
pub const MAX_CELLS: usize = 0x1FFF_FFFF;

/// The unsigned 32-bit pattern of a cell.
pub open spec fn word(w: i32) -> u32 {
    if w < 0 {
        (w + 0x1_0000_0000) as u32
    } else {
        w as u32
    }
}

/// The cell whose 32-bit pattern is `u`.
pub open spec fn to_cell(u: u32) -> i32 {
    if u >= 0x8000_0000 {
        (u - 0x1_0000_0000) as i32
    } else {
        u as i32
    }
}

/// The natural number held in the `len` bits of `w` that start at bit `start`.
pub open spec fn field(w: u32, start: nat, len: nat) -> nat {
    (w as nat / pow2(start)) % pow2(len)
}

/// The same bits read as a two's-complement number of `len` bits.
pub open spec fn signed_field(w: u32, start: nat, len: nat) -> int {
    let b = field(w, start, len);
    if len > 0 && b >= pow2((len - 1) as nat) {
        b - pow2(len)
    } else {
        b as int
    }
}

/// The byte address of cell index `i`.
pub open spec fn byte_address(i: int) -> int {
    i * 4
}

/// The cell index of byte address `a`.
pub open spec fn cell_index(a: int) -> int {
    a / 4
}

/// A byte address that denotes a cell: non-negative and cell-aligned.
pub open spec fn is_cell_address(a: int) -> bool {
    a >= 0 && a % 4 == 0
}

/// The 32-bit pattern of a cell.
pub fn to_word(w: i32) -> (r: u32)
    ensures
        r == word(w),
{
    if w < 0 {
        (w as i64 + 0x1_0000_0000i64) as u32
    } else {
        w as u32
    }
}

/// The cell whose 32-bit pattern is `u`.
pub fn from_word(u: u32) -> (r: i32)
    ensures
        r == to_cell(u),
{
    if u >= 0x8000_0000 {
        (u as i64 - 0x1_0000_0000i64) as i32
    } else {
        u as i32
    }
}

/// The unsigned field of `len` bits starting at bit `start` of `instr`.
pub fn extract_u(instr: i32, start: u32, len: u32) -> (r: u32)
    requires
        start + len <= 32,
    ensures
        r as nat == field(word(instr), start as nat, len as nat),
{
    let w = to_word(instr);
    proof {
        lemma2_to64();
    }
    if len == 0 {
        proof {
            assert(pow2(0) == 1);
        }
        return 0;
    }
    let shifted = w >> start;
    proof {
        lemma_u32_shr_is_div(w, start);
    }
    if len == 32 {
        proof {
            assert(pow2(start as nat) == 1);
            assert(pow2(32) == 0x1_0000_0000);
            assert(shifted as nat % pow2(32) == shifted as nat);
        }
        shifted
    } else {
        proof {
            lemma_u32_pow2_no_overflow(len as nat);
            lemma_u32_shl_is_mul(1u32, len);
        }
        let mask = (1u32 << len) - 1;
        proof {
            assert(low_bits_mask(len as nat) == pow2(len as nat) - 1);
            assert(mask == low_bits_mask(len as nat) as u32);
            lemma_u32_low_bits_mask_is_mod(shifted, len as nat);
            assert((shifted & mask) as nat == (shifted as nat) % pow2(len as nat));
        }
        shifted & mask
    }
}

/// The field of `len` bits starting at bit `start` of `instr`, sign-extended.
pub fn extract_s(instr: i32, start: u32, len: u32) -> (r: i32)
    requires
        1 <= len,
        start + len <= 32,
    ensures
        r as int == signed_field(word(instr), start as nat, len as nat),
{
    let bits = extract_u(instr, start, len);
    proof {
        vstd::bits::lemma_u64_pow2_no_overflow((len - 1) as nat);
        vstd::bits::lemma_u64_shl_is_mul(1u64, (len - 1) as u64);
        vstd::arithmetic::power2::lemma_pow2_unfold(len as nat);
        vstd::arithmetic::power2::lemma_pow2_pos(len as nat);
        lemma2_to64();
        if len < 32 {
            vstd::arithmetic::power2::lemma_pow2_strictly_increases(len as nat, 32);
        }
        assert(pow2(len as nat) <= 0x1_0000_0000);
    }
    let m: u64 = 1u64 << ((len - 1) as u64);
    if (bits as u64) >= m {
        ((bits as i64) - 2 * (m as i64)) as i32
    } else {
        bits as i32
    }
}

/// The opcode of an instruction: its top six bits.
pub fn opcode(instr: i32) -> (r: u32)
    ensures
        r as nat == field(word(instr), 26, 6),
        r < 64,
{
    proof {
        lemma2_to64();
    }
    extract_u(instr, 26, 6)
}

/// The byte address of a cell index.
pub fn index_to_address(index: usize) -> (r: i32)
    requires
        index <= MAX_CELLS,
    ensures
        r as int == byte_address(index as int),
{
    proof {
        lemma2_to64();
        lemma_u32_shl_is_mul(index as u32, LOG2_VALUE_BYTES);
    }
    ((index as u32) << LOG2_VALUE_BYTES) as i32
}

/// The cell index that a byte address denotes, or `None` where the address
/// is negative or not cell-aligned.
pub fn address_to_index(addr: i32) -> (r: Option<usize>)
    ensures
        r == (if is_cell_address(addr as int) {
            Some(cell_index(addr as int) as usize)
        } else {
            None::<usize>
        }),
        r matches Some(i) ==> i <= MAX_CELLS,
{
    if addr >= 0 && addr % 4 == 0 {
        Some((addr / 4) as usize)
    } else {
        None
    }
}

/// `pc` moved by a signed number of cells, or `None` where that leaves the
/// range of indices.
pub fn offset_pc(pc: usize, offset: i32) -> (r: Option<usize>)
    ensures
        r == (if 0 <= pc + offset <= usize::MAX {
            Some((pc + offset) as usize)
        } else {
            None::<usize>
        }),
{
    if offset >= 0 {
        let d = offset as usize;
        if pc <= usize::MAX - d {
            Some(pc + d)
        } else {
            None
        }
    } else {
        let d = (-(offset as i64)) as usize;
        if d <= pc {
            Some(pc - d)
        } else {
            None
        }
    }
}

} // verus!
