use vstd::prelude::*;

use crate::instruction::handlers::{effective_address, follow_address, wrap_into};
use crate::instruction::{Instruction, Modifier};

verus! {

/// The five arithmetic operations of the instruction set.
#[derive(Debug, Clone, Copy, PartialEq, Eq, Structural)]
pub enum Operator {
    Add,
    Sub,
    Mul,
    Div,
    Mod,
}

/// The size of a number without its sign.
pub open spec fn magnitude(x: int) -> int {
    if x < 0 {
        -x
    } else {
        x
    }
}

/// The quotient rounded towards zero.
pub open spec fn truncated_quotient(d: int, s: int) -> int {
    if (d >= 0) == (s > 0) {
        magnitude(d) / magnitude(s)
    } else {
        -(magnitude(d) / magnitude(s))
    }
}

/// The remainder that goes with the quotient rounded towards zero; it has the
/// sign of the dividend.
pub open spec fn truncated_remainder(d: int, s: int) -> int {
    if d >= 0 {
        magnitude(d) % magnitude(s)
    } else {
        -(magnitude(d) % magnitude(s))
    }
}

/// What an operation makes of a destination field `d` and a source field `s`
/// in a core of `max` cells: a number in `[0, max)`, or nothing when the
/// source is a zero divisor.
pub open spec fn combined(op: Operator, d: int, s: int, max: int) -> Option<int> {
    match op {
        Operator::Add => Some((d + s) % max),
        Operator::Sub => Some((d - s) % max),
        Operator::Mul => Some((d * s) % max),
        Operator::Div => if s == 0 {
            None
        } else {
            Some(truncated_quotient(d, s) % max)
        },
        Operator::Mod => if s == 0 {
            None
        } else {
            Some(truncated_remainder(d, s) % max)
        },
    }
}

/// The source field that a modifier pairs with the destination's A-field, if
/// it pairs any.
pub open spec fn operand_for_a(modifier: Modifier, source: Instruction) -> Option<isize> {
    match modifier {
        Modifier::A | Modifier::F | Modifier::I => Some(source.a_reg),
        Modifier::BA | Modifier::X => Some(source.b_reg),
        Modifier::B | Modifier::AB | Modifier::Unset => None,
    }
}

/// The source field that a modifier pairs with the destination's B-field, if
/// it pairs any. With no modifier given, arithmetic works as under `AB`.
pub open spec fn operand_for_b(modifier: Modifier, source: Instruction) -> Option<isize> {
    match modifier {
        Modifier::B | Modifier::F | Modifier::I => Some(source.b_reg),
        Modifier::AB | Modifier::X | Modifier::Unset => Some(source.a_reg),
        Modifier::A | Modifier::BA => None,
    }
}

/// A destination field after the operation: the combined number where the
/// field is paired and the operation has a result, the old field otherwise.
pub open spec fn field_after(op: Operator, d: isize, operand: Option<isize>, max: int) -> isize {
    match operand {
        Some(s) => match combined(op, d as int, s as int, max) {
            Some(v) => v as isize,
            None => d,
        },
        None => d,
    }
}

/// The destination cell after the operation. Both source fields are read
/// before either destination field is written.
pub open spec fn cell_after(
    op: Operator,
    modifier: Modifier,
    source: Instruction,
    destination: Instruction,
    max: int,
) -> Instruction {
    Instruction {
        a_reg: field_after(op, destination.a_reg, operand_for_a(modifier, source), max),
        b_reg: field_after(op, destination.b_reg, operand_for_b(modifier, source), max),
        ..destination
    }
}

/// Whether a paired source field is a zero divisor.
pub open spec fn divides_by_zero(op: Operator, operand: Option<isize>) -> bool {
    (op == Operator::Div || op == Operator::Mod) && operand == Some(0isize)
}

/// Whether the operation fails on the source cell: some source field that
/// the modifier selects is a zero divisor.
pub open spec fn fails(op: Operator, modifier: Modifier, source: Instruction) -> bool {
    divides_by_zero(op, operand_for_a(modifier, source)) || divides_by_zero(
        op,
        operand_for_b(modifier, source),
    )
}

/// The core after an arithmetic instruction at `pc` has run on it: the cell
/// its B-operand refers to is combined with the cell its A-operand refers to.
pub open spec fn core_after(
    op: Operator,
    instruction: Instruction,
    pc: int,
    memory: Seq<Instruction>,
) -> Seq<Instruction> {
    let source = effective_address(instruction.a_reg as int, instruction.a_mode, pc, memory);
    let destination = effective_address(instruction.b_reg as int, instruction.b_mode, pc, memory);
    memory.update(
        destination,
        cell_after(
            op,
            instruction.modifier,
            memory[source],
            memory[destination],
            memory.len() as int,
        ),
    )
}

/// Whether an arithmetic instruction at `pc` fails on the core, which costs
/// the process its life.
pub open spec fn fails_on_core(
    op: Operator,
    instruction: Instruction,
    pc: int,
    memory: Seq<Instruction>,
) -> bool {
    let source = effective_address(instruction.a_reg as int, instruction.a_mode, pc, memory);
    fails(op, instruction.modifier, memory[source])
}

/// Whether both number fields of a cell lie in `[0, max)`.
pub open spec fn fields_in_core(cell: Instruction, max: int) -> bool {
    0 <= cell.a_reg < max && 0 <= cell.b_reg < max
}

/// A field that an operation has written lies in `[0, max)`; a field it has
/// not written is as it was.
pub proof fn lemma_field_after(op: Operator, d: isize, operand: Option<isize>, max: int)
    requires
        0 < max <= isize::MAX,
    ensures
        operand is Some && combined(op, d as int, operand->0 as int, max) is Some ==> 0
            <= field_after(op, d, operand, max) < max,
        operand is None || combined(op, d as int, operand->0 as int, max) is None ==> field_after(
            op,
            d,
            operand,
            max,
        ) == d,
{
}

/// An arithmetic operation maps a destination cell whose fields lie in
/// `[0, max)` to such a cell again, whatever the source cell holds, the
/// modifier is, and whether or not a divisor is zero.
pub proof fn lemma_cell_after_in_core(
    op: Operator,
    modifier: Modifier,
    source: Instruction,
    destination: Instruction,
    max: int,
)
    requires
        0 < max <= isize::MAX,
        fields_in_core(destination, max),
    ensures
        fields_in_core(cell_after(op, modifier, source, destination, max), max),
{
    lemma_field_after(op, destination.a_reg, operand_for_a(modifier, source), max);
    lemma_field_after(op, destination.b_reg, operand_for_b(modifier, source), max);
}

/// After `ADD`, `SUB`, `MUL`, `DIV` or `MOD` has run, every field of the
/// destination cell lies in `[0, core size)`, provided the fields of that
/// cell did so before; all other cells are untouched.
pub proof fn lemma_arithmetic_keeps_fields_in_core(
    op: Operator,
    instruction: Instruction,
    pc: int,
    memory: Seq<Instruction>,
)
    requires
        0 <= pc < memory.len() <= isize::MAX,
        fields_in_core(
            memory[effective_address(instruction.b_reg as int, instruction.b_mode, pc, memory)],
            memory.len() as int,
        ),
    ensures
        fields_in_core(
            core_after(op, instruction, pc, memory)[effective_address(
                instruction.b_reg as int,
                instruction.b_mode,
                pc,
                memory,
            )],
            memory.len() as int,
        ),
        forall|i: int|
            0 <= i < memory.len() && i != effective_address(
                instruction.b_reg as int,
                instruction.b_mode,
                pc,
                memory,
            ) ==> core_after(op, instruction, pc, memory)[i] == memory[i],
{
    let source = effective_address(instruction.a_reg as int, instruction.a_mode, pc, memory);
    let destination = effective_address(instruction.b_reg as int, instruction.b_mode, pc, memory);
    lemma_cell_after_in_core(
        op,
        instruction.modifier,
        memory[source],
        memory[destination],
        memory.len() as int,
    );
}

/// Division by zero: a division or remainder leaves a destination field as
/// it was where the source field paired with it is zero, still updates the
/// other field where its divisor is not zero, and fails as soon as one
/// divisor that the modifier selects is zero.
pub proof fn lemma_division_by_zero(
    op: Operator,
    modifier: Modifier,
    source: Instruction,
    destination: Instruction,
    max: int,
)
    requires
        op == Operator::Div || op == Operator::Mod,
        0 < max <= isize::MAX,
    ensures
        fails(op, modifier, source) <==> operand_for_a(modifier, source) == Some(0isize)
            || operand_for_b(modifier, source) == Some(0isize),
        operand_for_a(modifier, source) == Some(0isize) ==> cell_after(
            op,
            modifier,
            source,
            destination,
            max,
        ).a_reg == destination.a_reg,
        operand_for_b(modifier, source) == Some(0isize) ==> cell_after(
            op,
            modifier,
            source,
            destination,
            max,
        ).b_reg == destination.b_reg,
        operand_for_a(modifier, source) is Some && operand_for_a(modifier, source) != Some(0isize)
            ==> cell_after(op, modifier, source, destination, max).a_reg == combined(
            op,
            destination.a_reg as int,
            operand_for_a(modifier, source)->0 as int,
            max,
        )->0,
        operand_for_b(modifier, source) is Some && operand_for_b(modifier, source) != Some(0isize)
            ==> cell_after(op, modifier, source, destination, max).b_reg == combined(
            op,
            destination.b_reg as int,
            operand_for_b(modifier, source)->0 as int,
            max,
        )->0,
{
}

/// The magnitude of a field, as a machine number.
fn magnitude_of(x: isize) -> (res: u128)
    ensures
        res == magnitude(x as int),
{
    let wide: i128 = x as i128;
    if wide < 0 {
        (-wide) as u128
    } else {
        wide as u128
    }
}

/// Combines a destination field with a source field.
fn combine(op: Operator, d: isize, s: isize, max: usize) -> (res: Option<isize>)
    requires
        0 < max <= isize::MAX,
    ensures
        res == match combined(op, d as int, s as int, max as int) {
            Some(v) => Some(v as isize),
            None => None,
        },
        res is Some ==> 0 <= res->0 < max,
{
    let wide: i128 = match op {
        Operator::Add => d as i128 + s as i128,
        Operator::Sub => d as i128 - s as i128,
        Operator::Mul => {
            assert(-0x4000_0000_0000_0000_0000_0000_0000_0000 <= (d as int) * (s as int)
                <= 0x4000_0000_0000_0000_0000_0000_0000_0000) by (nonlinear_arith)
                requires
                    -0x8000_0000_0000_0000 <= d as int <= 0x8000_0000_0000_0000,
                    -0x8000_0000_0000_0000 <= s as int <= 0x8000_0000_0000_0000,
            ;
            (d as i128) * (s as i128)
        },
        Operator::Div => {
            if s == 0 {
                return None;
            }
            let q: u128 = magnitude_of(d) / magnitude_of(s);
            if (d >= 0) == (s > 0) {
                q as i128
            } else {
                -(q as i128)
            }
        },
        Operator::Mod => {
            if s == 0 {
                return None;
            }
            let r: u128 = magnitude_of(d) % magnitude_of(s);
            if d >= 0 {
                r as i128
            } else {
                -(r as i128)
            }
        },
    };
    Some(wrap_into(wide, max) as isize)
}

/// A destination field after the operation, and whether the operation had a
/// result for it.
fn combine_field(op: Operator, d: isize, operand: Option<isize>, max: usize) -> (res: (isize, bool))
    requires
        0 < max <= isize::MAX,
    ensures
        res.0 == field_after(op, d, operand, max as int),
        res.1 == !divides_by_zero(op, operand),
{
    match operand {
        Some(s) => match combine(op, d, s, max) {
            Some(v) => (v, true),
            None => (d, false),
        },
        None => (d, true),
    }
}

/// The source field for the destination's A-field.
fn pick_for_a(modifier: Modifier, source: Instruction) -> (res: Option<isize>)
    ensures
        res == operand_for_a(modifier, source),
{
    match modifier {
        Modifier::A | Modifier::F | Modifier::I => Some(source.a_reg),
        Modifier::BA | Modifier::X => Some(source.b_reg),
        Modifier::B | Modifier::AB | Modifier::Unset => None,
    }
}

/// The source field for the destination's B-field.
fn pick_for_b(modifier: Modifier, source: Instruction) -> (res: Option<isize>)
    ensures
        res == operand_for_b(modifier, source),
{
    match modifier {
        Modifier::B | Modifier::F | Modifier::I => Some(source.b_reg),
        Modifier::AB | Modifier::X | Modifier::Unset => Some(source.a_reg),
        Modifier::A | Modifier::BA => None,
    }
}

/// The cells that an instruction's A-operand and B-operand refer to.
pub fn get_source_destination(
    instruction: Instruction,
    cur_address: usize,
    max: usize,
    memory: &Vec<Instruction>,
) -> (res: (usize, usize))
    requires
        max == memory@.len(),
        cur_address < max,
    ensures
        res.0 == effective_address(
            instruction.a_reg as int,
            instruction.a_mode,
            cur_address as int,
            memory@,
        ),
        res.1 == effective_address(
            instruction.b_reg as int,
            instruction.b_mode,
            cur_address as int,
            memory@,
        ),
        res.0 < max,
        res.1 < max,
{
    let source = follow_address(
        instruction.a_reg,
        instruction.a_mode,
        cur_address,
        max,
        memory.as_slice(),
    );
    let destination = follow_address(
        instruction.b_reg,
        instruction.b_mode,
        cur_address,
        max,
        memory.as_slice(),
    );
    (source, destination)
}

/// Runs an arithmetic instruction on the core and says whether it had a
/// result for every field it selects.
fn operate(
    op: Operator,
    instruction: Instruction,
    cur_address: usize,
    max: usize,
    memory: &mut Vec<Instruction>,
) -> (res: bool)
    requires
        max == old(memory)@.len(),
        cur_address < max,
        max <= isize::MAX,
    ensures
        final(memory)@ == core_after(op, instruction, cur_address as int, old(memory)@),
        res == !fails_on_core(op, instruction, cur_address as int, old(memory)@),
{
    let (source, destination) = get_source_destination(instruction, cur_address, max, memory);
    let from = memory[source];
    let to = memory[destination];
    let (a_reg, a_done) = combine_field(op, to.a_reg, pick_for_a(instruction.modifier, from), max);
    let (b_reg, b_done) = combine_field(op, to.b_reg, pick_for_b(instruction.modifier, from), max);
    memory[destination] = Instruction {
        op_code: to.op_code,
        modifier: to.modifier,
        a_reg,
        a_mode: to.a_mode,
        b_reg,
        b_mode: to.b_mode,
    };
    a_done && b_done
}

/// `ADD`: adds the source fields that the modifier selects to the
/// destination fields it pairs them with, modulo the core size.
pub fn add(instruction: Instruction, cur_address: usize, max: usize, memory: &mut Vec<Instruction>)
    requires
        max == old(memory)@.len(),
        cur_address < max,
        max <= isize::MAX,
    ensures
        final(memory)@ == core_after(Operator::Add, instruction, cur_address as int, old(memory)@),
{
    operate(Operator::Add, instruction, cur_address, max, memory);
}

/// `SUB`: subtracts the source fields that the modifier selects from the
/// destination fields it pairs them with, modulo the core size.
pub fn sub(instruction: Instruction, cur_address: usize, max: usize, memory: &mut Vec<Instruction>)
    requires
        max == old(memory)@.len(),
        cur_address < max,
        max <= isize::MAX,
    ensures
        final(memory)@ == core_after(Operator::Sub, instruction, cur_address as int, old(memory)@),
{
    operate(Operator::Sub, instruction, cur_address, max, memory);
}

/// `MUL`: multiplies the destination fields by the source fields that the
/// modifier pairs them with, modulo the core size.
pub fn mul(instruction: Instruction, cur_address: usize, max: usize, memory: &mut Vec<Instruction>)
    requires
        max == old(memory)@.len(),
        cur_address < max,
        max <= isize::MAX,
    ensures
        final(memory)@ == core_after(Operator::Mul, instruction, cur_address as int, old(memory)@),
{
    operate(Operator::Mul, instruction, cur_address, max, memory);
}

/// `DIV`: divides the destination fields by the source fields that the
/// modifier pairs them with, rounding towards zero. A field whose divisor is
/// zero stays as it was, the other still gets its quotient, and the result
/// is `Err`: the process that ran the instruction is to die.
pub fn div(
    instruction: Instruction,
    cur_address: usize,
    max: usize,
    memory: &mut Vec<Instruction>,
) -> (res: Result<(), ()>)
    requires
        max == old(memory)@.len(),
        cur_address < max,
        max <= isize::MAX,
    ensures
        final(memory)@ == core_after(Operator::Div, instruction, cur_address as int, old(memory)@),
        res is Err <==> fails_on_core(Operator::Div, instruction, cur_address as int, old(memory)@),
{
    if operate(Operator::Div, instruction, cur_address, max, memory) {
        Ok(())
    } else {
        Err(())
    }
}

/// `MOD`: replaces the destination fields by their remainders on division by
/// the source fields that the modifier pairs them with; the remainder goes
/// with the quotient rounded towards zero. A field whose divisor is zero
/// stays as it was, the other still gets its remainder, and the result is
/// `Err`: the process that ran the instruction is to die.
pub fn modulo(
    instruction: Instruction,
    cur_address: usize,
    max: usize,
    memory: &mut Vec<Instruction>,
) -> (res: Result<(), ()>)
    requires
        max == old(memory)@.len(),
        cur_address < max,
        max <= isize::MAX,
    ensures
        final(memory)@ == core_after(Operator::Mod, instruction, cur_address as int, old(memory)@),
        res is Err <==> fails_on_core(Operator::Mod, instruction, cur_address as int, old(memory)@),
{
    if operate(Operator::Mod, instruction, cur_address, max, memory) {
        Ok(())
    } else {
        Err(())
    }
}

} // verus!
