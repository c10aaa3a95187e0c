use vstd::prelude::*;

use crate::instruction::handlers::effective_address;
use crate::instruction::handlers::operators::get_source_destination;
use crate::instruction::{Instruction, Modifier};

verus! {

/// The destination cell after a move from `source`. Under `I` the whole
/// cell is copied; under the other modifiers only number fields are, both
/// read before either is written.
pub open spec fn moved(modifier: Modifier, source: Instruction, destination: Instruction) -> Instruction {
    match modifier {
        Modifier::I => source,
        Modifier::A => Instruction { a_reg: source.a_reg, ..destination },
        Modifier::B => Instruction { b_reg: source.b_reg, ..destination },
        Modifier::AB => Instruction { b_reg: source.a_reg, ..destination },
        Modifier::BA => Instruction { a_reg: source.b_reg, ..destination },
        Modifier::F => Instruction { a_reg: source.a_reg, b_reg: source.b_reg, ..destination },
        Modifier::X => Instruction { a_reg: source.b_reg, b_reg: source.a_reg, ..destination },
        Modifier::Unset => destination,
    }
}

/// The core after a `MOV` at `pc` has run on it.
pub open spec fn core_after_mov(instruction: Instruction, pc: int, memory: Seq<Instruction>) -> Seq<
    Instruction,
> {
    let source = effective_address(instruction.a_reg as int, instruction.a_mode, pc, memory);
    let destination = effective_address(instruction.b_reg as int, instruction.b_mode, pc, memory);
    memory.update(destination, moved(instruction.modifier, memory[source], memory[destination]))
}

/// `MOV`: copies from the cell the A-operand refers to into the cell the
/// B-operand refers to, as the modifier says.
pub fn mov(instruction: Instruction, cur_address: usize, max: usize, memory: &mut Vec<Instruction>)
    requires
        max == old(memory)@.len(),
        cur_address < max,
        instruction.modifier != Modifier::Unset,
    ensures
        final(memory)@ == core_after_mov(instruction, cur_address as int, old(memory)@),
{
    let (source, destination) = get_source_destination(instruction, cur_address, max, memory);
    let from = memory[source];
    let to = memory[destination];
    match instruction.modifier {
        Modifier::I => {
            memory[destination] = from;
        },
        Modifier::A => {
            memory[destination].a_reg = from.a_reg;
        },
        Modifier::B => {
            memory[destination].b_reg = from.b_reg;
        },
        Modifier::AB => {
            memory[destination].b_reg = from.a_reg;
        },
        Modifier::BA => {
            memory[destination].a_reg = from.b_reg;
        },
        Modifier::F => {
            memory[destination].a_reg = from.a_reg;
            memory[destination].b_reg = from.b_reg;
        },
        Modifier::X => {
            memory[destination].a_reg = from.b_reg;
            memory[destination].b_reg = from.a_reg;
        },
        Modifier::Unset => {},
    }
}

} // verus!
