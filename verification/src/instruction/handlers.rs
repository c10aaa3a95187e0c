use vstd::prelude::*;

use crate::instruction::{AddressMode, Instruction};

pub mod control_flow;
pub mod general;
pub mod operators;

pub use control_flow::{djn, jmn, jmp, jmz, slt, sne, spl};
pub use general::mov;
pub use operators::{add, div, modulo, mul, sub};





verus! {

/// The cell `delta` steps away from cell `pc` in a circular core of `max`
/// cells. The remainder is the mathematical one, so the result lies in
/// `[0, max)` whatever the sign of `delta`.
pub open spec fn wrapped(max: int, pc: int, delta: int) -> int {
    (pc + delta) % max
}

/// The cell an operand refers to: the operand's number `reg`, read under
/// `mode` by the instruction at `pc`. Indirection goes one level deep, through
/// the field of the cell that the number points at. The decrementing and
/// incrementing modes resolve like the plain indirect ones; their change to
/// the core is made before and after the instruction runs, not here.
pub open spec fn effective_address(
    reg: int,
    mode: AddressMode,
    pc: int,
    memory: Seq<Instruction>,
) -> int {
    let max = memory.len() as int;
    let index = wrapped(max, pc, reg);
    match mode {
        AddressMode::Direct => index,
        AddressMode::Immediate => pc,
        AddressMode::IndirectA
        | AddressMode::PreDecrementIndirectA
        | AddressMode::PostIncrementIndirectA => wrapped(max, index, memory[index].a_reg as int),
        AddressMode::IndirectB
        | AddressMode::PreDecrementIndirectB
        | AddressMode::PostIncrementIndirectB => wrapped(max, index, memory[index].b_reg as int),
    }
}

/// A cell reached by stepping through a circular core is a cell of the core.
pub proof fn lemma_wrapped_in_core(max: int, pc: int, delta: int)
    requires
        max > 0,
    ensures
        0 <= wrapped(max, pc, delta) < max,
{
}

/// Every operand of an instruction inside the core refers to a cell inside
/// the core.
pub proof fn lemma_effective_address_in_core(
    reg: int,
    mode: AddressMode,
    pc: int,
    memory: Seq<Instruction>,
)
    requires
        0 <= pc < memory.len(),
    ensures
        0 <= effective_address(reg, mode, pc, memory) < memory.len(),
{
}

/// The mathematical remainder of a negative number, from the remainder of
/// its magnitude.
pub proof fn lemma_remainder_of_negative(x: int, m: int)
    requires
        m > 0,
        x < 0,
    ensures
        x % m == (if (-x) % m == 0 {
            0
        } else {
            m - (-x) % m
        }),
{
    let q = (-x) / m;
    let r = (-x) % m;
    vstd::arithmetic::div_mod::lemma_fundamental_div_mod(-x, m);
    if r == 0 {
        assert(x == (-q) * m + 0) by (nonlinear_arith)
            requires
                -x == m * q + r,
                r == 0,
        ;
        vstd::arithmetic::div_mod::lemma_fundamental_div_mod_converse(x, m, -q, 0);
    } else {
        assert(x == (-q - 1) * m + (m - r)) by (nonlinear_arith)
            requires
                -x == m * q + r,
        ;
        vstd::arithmetic::div_mod::lemma_fundamental_div_mod_converse(x, m, -q - 1, m - r);
    }
}

/// Brings any number into `[0, max)` by the mathematical remainder.
pub fn wrap_into(x: i128, max: usize) -> (res: usize)
    requires
        max > 0,
    ensures
        res == x as int % max as int,
        res < max,
{
    let m: i128 = max as i128;
    let t: i128 = x % m;
    proof {
        if x < 0 {
            lemma_remainder_of_negative(x as int, m as int);
        }
    }
    if t < 0 {
        (t + m) as usize
    } else {
        t as usize
    }
}

/// Steps `b` cells away from cell `a` in a circular core of `max` cells.
pub fn relative_address(max: usize, a: usize, b: isize) -> (res: usize)
    requires
        max > 0,
    ensures
        res == wrapped(max as int, a as int, b as int),
        res < max,
{
    wrap_into(a as i128 + b as i128, max)
}

/// Resolves an operand to the cell it refers to.
pub fn follow_address(
    reg: isize,
    mode: AddressMode,
    cur_address: usize,
    max: usize,
    memory: &[Instruction],
) -> (res: usize)
    requires
        max == memory@.len(),
        cur_address < max,
    ensures
        res == effective_address(reg as int, mode, cur_address as int, memory@),
        res < max,
{
    match mode {
        AddressMode::Direct => relative_address(max, cur_address, reg),
        AddressMode::Immediate => cur_address,
        AddressMode::IndirectA
        | AddressMode::PreDecrementIndirectA
        | AddressMode::PostIncrementIndirectA => {
            let index = relative_address(max, cur_address, reg);
            let instruction = memory[index];
            relative_address(max, index, instruction.a_reg)
        },
        AddressMode::IndirectB
        | AddressMode::PreDecrementIndirectB
        | AddressMode::PostIncrementIndirectB => {
            let index = relative_address(max, cur_address, reg);
            let instruction = memory[index];
            relative_address(max, index, instruction.b_reg)
        },
    }
}

} // verus!
