use vstd::prelude::*;

use crate::instruction::handlers::{effective_address, follow_address, wrap_into};
use crate::instruction::{Instruction, Modifier};

verus! {

/// The cell an instruction's A-operand refers to: where a jump goes.
pub open spec fn target(instruction: Instruction, pc: int, memory: Seq<Instruction>) -> int {
    effective_address(instruction.a_reg as int, instruction.a_mode, pc, memory)
}

/// The cell an instruction's B-operand refers to: what a conditional jump
/// tests and what a comparison compares with.
pub open spec fn tested(instruction: Instruction, pc: int, memory: Seq<Instruction>) -> int {
    effective_address(instruction.b_reg as int, instruction.b_mode, pc, memory)
}

/// Whether the modifier makes a test look at the A-field.
pub open spec fn looks_at_a(modifier: Modifier) -> bool {
    modifier != Modifier::B && modifier != Modifier::AB && modifier != Modifier::Unset
}

/// Whether the modifier makes a test look at the B-field.
pub open spec fn looks_at_b(modifier: Modifier) -> bool {
    modifier != Modifier::A && modifier != Modifier::BA && modifier != Modifier::Unset
}

/// The test of `JMZ`: every field looked at is zero.
pub open spec fn all_zero(modifier: Modifier, cell: Instruction) -> bool {
    (looks_at_a(modifier) ==> cell.a_reg == 0) && (looks_at_b(modifier) ==> cell.b_reg == 0)
}

/// The test of `DJN`: every field looked at is other than zero.
pub open spec fn none_zero(modifier: Modifier, cell: Instruction) -> bool {
    (looks_at_a(modifier) ==> cell.a_reg != 0) && (looks_at_b(modifier) ==> cell.b_reg != 0)
}

/// The cell after `DJN` has decremented, modulo the core size, every field
/// that the modifier looks at.
pub open spec fn decremented(modifier: Modifier, cell: Instruction, max: int) -> Instruction {
    Instruction {
        a_reg: if looks_at_a(modifier) {
            ((cell.a_reg - 1) % max) as isize
        } else {
            cell.a_reg
        },
        b_reg: if looks_at_b(modifier) {
            ((cell.b_reg - 1) % max) as isize
        } else {
            cell.b_reg
        },
        ..cell
    }
}

/// The core after a `DJN` at `pc` has run on it.
pub open spec fn core_after_djn(instruction: Instruction, pc: int, memory: Seq<Instruction>) -> Seq<
    Instruction,
> {
    let at = tested(instruction, pc, memory);
    memory.update(at, decremented(instruction.modifier, memory[at], memory.len() as int))
}

/// The test of `SEQ`: the fields that the modifier pairs are equal. Under
/// `I` the two cells are compared whole, operation, modifier and modes
/// included.
pub open spec fn equal_under(modifier: Modifier, source: Instruction, destination: Instruction) -> bool {
    match modifier {
        Modifier::A => source.a_reg == destination.a_reg,
        Modifier::B => source.b_reg == destination.b_reg,
        Modifier::AB => source.a_reg == destination.b_reg,
        Modifier::BA => source.b_reg == destination.a_reg,
        Modifier::F | Modifier::X => source.a_reg == destination.a_reg && source.b_reg
            == destination.b_reg,
        Modifier::I => source == destination,
        Modifier::Unset => false,
    }
}

/// The test of `SLT`: the source field is less than the destination field
/// that the modifier pairs it with.
pub open spec fn less_under(modifier: Modifier, source: Instruction, destination: Instruction) -> bool {
    match modifier {
        Modifier::A => source.a_reg < destination.a_reg,
        Modifier::B => source.b_reg < destination.b_reg,
        Modifier::AB => source.a_reg < destination.b_reg,
        Modifier::BA => source.b_reg < destination.a_reg,
        _ => false,
    }
}

/// `JMP`: the cell to go on at. The modifier and the B-operand play no part.
pub fn jmp(instruction: Instruction, cur_address: usize, max: usize, memory: &[Instruction]) -> (res:
    usize)
    requires
        max == memory@.len(),
        cur_address < max,
    ensures
        res == target(instruction, cur_address as int, memory@),
        res < max,
{
    follow_address(instruction.a_reg, instruction.a_mode, cur_address, max, memory)
}

/// `SPL`: the cell at which the new process starts. The modifier and the
/// B-operand play no part.
pub fn spl(instruction: Instruction, cur_address: usize, max: usize, memory: &[Instruction]) -> (res:
    usize)
    requires
        max == memory@.len(),
        cur_address < max,
    ensures
        res == target(instruction, cur_address as int, memory@),
        res < max,
{
    follow_address(instruction.a_reg, instruction.a_mode, cur_address, max, memory)
}

/// `JMZ`: the cell to jump to if the tested cell is zero in every field that
/// the modifier looks at, and nothing otherwise.
pub fn jmz(instruction: Instruction, cur_address: usize, max: usize, memory: &[Instruction]) -> (res:
    Option<usize>)
    requires
        max == memory@.len(),
        cur_address < max,
        instruction.modifier != Modifier::Unset,
    ensures
        res == (if all_zero(
            instruction.modifier,
            memory@[tested(instruction, cur_address as int, memory@)],
        ) {
            Some(target(instruction, cur_address as int, memory@) as usize)
        } else {
            None
        }),
        res is Some ==> res->0 < max,
{
    let test_index = follow_address(instruction.b_reg, instruction.b_mode, cur_address, max, memory);
    let cell = memory[test_index];
    let jump = match instruction.modifier {
        Modifier::A | Modifier::BA => cell.a_reg == 0,
        Modifier::B | Modifier::AB => cell.b_reg == 0,
        _ => cell.a_reg == 0 && cell.b_reg == 0,
    };
    if jump {
        Some(follow_address(instruction.a_reg, instruction.a_mode, cur_address, max, memory))
    } else {
        None
    }
}

/// `JMN`: the cell to jump to if the tested cell is other than zero in some
/// field that the modifier looks at, and nothing otherwise.
pub fn jmn(instruction: Instruction, cur_address: usize, max: usize, memory: &[Instruction]) -> (res:
    Option<usize>)
    requires
        max == memory@.len(),
        cur_address < max,
        instruction.modifier != Modifier::Unset,
    ensures
        res == (if !all_zero(
            instruction.modifier,
            memory@[tested(instruction, cur_address as int, memory@)],
        ) {
            Some(target(instruction, cur_address as int, memory@) as usize)
        } else {
            None
        }),
        res is Some ==> res->0 < max,
{
    let test_index = follow_address(instruction.b_reg, instruction.b_mode, cur_address, max, memory);
    let cell = memory[test_index];
    let jump = match instruction.modifier {
        Modifier::A | Modifier::BA => cell.a_reg != 0,
        Modifier::B | Modifier::AB => cell.b_reg != 0,
        _ => cell.a_reg != 0 || cell.b_reg != 0,
    };
    if jump {
        Some(follow_address(instruction.a_reg, instruction.a_mode, cur_address, max, memory))
    } else {
        None
    }
}

/// `DJN`: decrements, modulo the core size, every field of the tested cell
/// that the modifier looks at, and gives the cell to jump to if each of them
/// is then other than zero. Both operands are resolved before the decrement.
pub fn djn(
    instruction: Instruction,
    cur_address: usize,
    max: usize,
    memory: &mut [Instruction],
) -> (res: Option<usize>)
    requires
        max == old(memory)@.len(),
        cur_address < max,
        max <= isize::MAX,
        instruction.modifier != Modifier::Unset,
    ensures
        final(memory)@ == core_after_djn(instruction, cur_address as int, old(memory)@),
        res == (if none_zero(
            instruction.modifier,
            final(memory)@[tested(instruction, cur_address as int, old(memory)@)],
        ) {
            Some(target(instruction, cur_address as int, old(memory)@) as usize)
        } else {
            None
        }),
        res is Some ==> res->0 < max,
{
    let jump_index = follow_address(instruction.a_reg, instruction.a_mode, cur_address, max, memory);
    let test_index = follow_address(instruction.b_reg, instruction.b_mode, cur_address, max, memory);
    let cell = memory[test_index];
    let a_reg = match instruction.modifier {
        Modifier::B | Modifier::AB => cell.a_reg,
        _ => wrap_into(cell.a_reg as i128 - 1, max) as isize,
    };
    let b_reg = match instruction.modifier {
        Modifier::A | Modifier::BA => cell.b_reg,
        _ => wrap_into(cell.b_reg as i128 - 1, max) as isize,
    };
    memory[test_index].a_reg = a_reg;
    memory[test_index].b_reg = b_reg;
    let jump = match instruction.modifier {
        Modifier::A | Modifier::BA => a_reg != 0,
        Modifier::B | Modifier::AB => b_reg != 0,
        _ => a_reg != 0 && b_reg != 0,
    };
    if jump {
        Some(jump_index)
    } else {
        None
    }
}

/// `SEQ`: whether the next instruction is to be skipped, which it is when
/// the two cells are equal in what the modifier pairs.
pub fn seq(instruction: Instruction, cur_address: usize, max: usize, memory: &[Instruction]) -> (res:
    bool)
    requires
        max == memory@.len(),
        cur_address < max,
        instruction.modifier != Modifier::Unset,
    ensures
        res == equal_under(
            instruction.modifier,
            memory@[target(instruction, cur_address as int, memory@)],
            memory@[tested(instruction, cur_address as int, memory@)],
        ),
{
    let a_index = follow_address(instruction.a_reg, instruction.a_mode, cur_address, max, memory);
    let b_index = follow_address(instruction.b_reg, instruction.b_mode, cur_address, max, memory);
    let source = memory[a_index];
    let destination = memory[b_index];
    match instruction.modifier {
        Modifier::A => source.a_reg == destination.a_reg,
        Modifier::B => source.b_reg == destination.b_reg,
        Modifier::AB => source.a_reg == destination.b_reg,
        Modifier::BA => source.b_reg == destination.a_reg,
        Modifier::F | Modifier::X => source.a_reg == destination.a_reg && source.b_reg
            == destination.b_reg,
        _ => source == destination,
    }
}

/// `SNE`: whether the next instruction is to be skipped, which it is when
/// the two cells differ in what the modifier pairs.
pub fn sne(instruction: Instruction, cur_address: usize, max: usize, memory: &[Instruction]) -> (res:
    bool)
    requires
        max == memory@.len(),
        cur_address < max,
        instruction.modifier != Modifier::Unset,
    ensures
        res == !equal_under(
            instruction.modifier,
            memory@[target(instruction, cur_address as int, memory@)],
            memory@[tested(instruction, cur_address as int, memory@)],
        ),
{
    !seq(instruction, cur_address, max, memory)
}

/// `SLT`: whether the next instruction is to be skipped, which it is when
/// the source field is less than the destination field it is paired with.
pub fn slt(instruction: Instruction, cur_address: usize, max: usize, memory: &[Instruction]) -> (res:
    bool)
    requires
        max == memory@.len(),
        cur_address < max,
        instruction.modifier == Modifier::A || instruction.modifier == Modifier::B
            || instruction.modifier == Modifier::AB || instruction.modifier == Modifier::BA,
    ensures
        res == less_under(
            instruction.modifier,
            memory@[target(instruction, cur_address as int, memory@)],
            memory@[tested(instruction, cur_address as int, memory@)],
        ),
{
    let a_index = follow_address(instruction.a_reg, instruction.a_mode, cur_address, max, memory);
    let b_index = follow_address(instruction.b_reg, instruction.b_mode, cur_address, max, memory);
    let source = memory[a_index];
    let destination = memory[b_index];
    match instruction.modifier {
        Modifier::A => source.a_reg < destination.a_reg,
        Modifier::B => source.b_reg < destination.b_reg,
        Modifier::AB => source.a_reg < destination.b_reg,
        _ => source.b_reg < destination.a_reg,
    }
}

} // verus!
