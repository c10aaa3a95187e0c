use vstd::prelude::*;

pub mod handlers;

verus! {

/// How an operand's number is turned into a place in the core.
#[derive(Debug, Clone, Copy, PartialEq, Eq, Structural)]
pub enum AddressMode {
    /// The number points, relative to the instruction, at the cell meant.
    Direct,
    /// The number is the value itself; the cell meant is the instruction.
    Immediate,
    /// The number points at a cell whose A-field points, relative to that
    /// cell, at the cell meant.
    IndirectA,
    /// The number points at a cell whose B-field points, relative to that
    /// cell, at the cell meant.
    IndirectB,
    /// As `IndirectA`, after the A-field pointed at has been decremented.
    PreDecrementIndirectA,
    /// As `IndirectB`, after the B-field pointed at has been decremented.
    PreDecrementIndirectB,
    /// As `IndirectA`; the A-field pointed at is incremented once the
    /// instruction has run.
    PostIncrementIndirectA,
    /// As `IndirectB`; the B-field pointed at is incremented once the
    /// instruction has run.
    PostIncrementIndirectB,
}

/// The operation an instruction performs.
#[derive(Debug, Clone, Copy, PartialEq, Eq, Structural)]
pub enum OpCode {
    MOV,
    ADD,
    SUB,
    MUL,
    DIV,
    MOD,
    DAT,
    JMP,
    SPL,
    JMZ,
    JMN,
    NOP,
    DJN,
    SEQ,
    SNE,
    SLT,
}

/// Which fields of the source and destination cells an operation touches.
#[derive(Debug, Clone, Copy, PartialEq, Eq, Structural)]
pub enum Modifier {
    /// No modifier was given.
    Unset,
    A,
    B,
    AB,
    BA,
    F,
    X,
    I,
}

/// One cell of the core.
#[derive(Debug, Clone, Copy, PartialEq, Eq, Structural)]
pub struct Instruction {
    /// The operation.
    pub op_code: OpCode,
    /// The fields the operation touches.
    pub modifier: Modifier,
    /// The A-field.
    pub a_reg: isize,
    /// How the A-field is resolved.
    pub a_mode: AddressMode,
    /// The B-field.
    pub b_reg: isize,
    /// How the B-field is resolved.
    pub b_mode: AddressMode,
}

impl AddressMode {
    /// The character that marks this mode in front of an operand's number.
    pub open spec fn mark(self) -> char {
        match self {
            AddressMode::Direct => '$',
            AddressMode::Immediate => '#',
            AddressMode::IndirectA => '*',
            AddressMode::IndirectB => '@',
            AddressMode::PreDecrementIndirectA => '{',
            AddressMode::PreDecrementIndirectB => '<',
            AddressMode::PostIncrementIndirectA => '}',
            AddressMode::PostIncrementIndirectB => '>',
        }
    }

    /// Gives the character that marks this mode in front of an operand's
    /// number.
    pub fn symbol(self) -> (res: char)
        ensures
            res == self.mark(),
    {
        match self {
            AddressMode::Direct => '$',
            AddressMode::Immediate => '#',
            AddressMode::IndirectA => '*',
            AddressMode::IndirectB => '@',
            AddressMode::PreDecrementIndirectA => '{',
            AddressMode::PreDecrementIndirectB => '<',
            AddressMode::PostIncrementIndirectA => '}',
            AddressMode::PostIncrementIndirectB => '>',
        }
    }
}

impl OpCode {
    /// Whether the engine can run this operation under `modifier`. A move, a
    /// conditional jump and a comparison need a modifier; `SLT` compares one
    /// pair of fields only. Arithmetic without a modifier works as under
    /// `AB`, and under `I` as under `F`; `DAT`, `JMP`, `SPL` and `NOP` do not
    /// look at their modifier.
    pub open spec fn takes(self, modifier: Modifier) -> bool {
        match self {
            OpCode::MOV | OpCode::JMZ | OpCode::JMN | OpCode::DJN | OpCode::SEQ | OpCode::SNE => {
                modifier != Modifier::Unset
            },
            OpCode::SLT => {
                modifier == Modifier::A || modifier == Modifier::B || modifier == Modifier::AB
                    || modifier == Modifier::BA
            },
            OpCode::ADD
            | OpCode::SUB
            | OpCode::MUL
            | OpCode::DIV
            | OpCode::MOD
            | OpCode::DAT
            | OpCode::JMP
            | OpCode::SPL
            | OpCode::NOP => true,
        }
    }

    /// Tells whether the engine can run this operation under `modifier`.
    pub fn accepts(self, modifier: Modifier) -> (res: bool)
        ensures
            res == self.takes(modifier),
    {
        match self {
            OpCode::MOV | OpCode::JMZ | OpCode::JMN | OpCode::DJN | OpCode::SEQ | OpCode::SNE => {
                modifier != Modifier::Unset
            },
            OpCode::SLT => {
                modifier == Modifier::A || modifier == Modifier::B || modifier == Modifier::AB
                    || modifier == Modifier::BA
            },
            _ => true,
        }
    }
}

impl Instruction {
    /// Builds an instruction from its six fields.
    pub fn new(
        op_code: OpCode,
        modifier: Modifier,
        a_reg: isize,
        a_mode: AddressMode,
        b_reg: isize,
        b_mode: AddressMode,
    ) -> (res: Instruction)
        ensures
            res == (Instruction { op_code, modifier, a_reg, a_mode, b_reg, b_mode }),
    {
        Instruction { op_code, modifier, a_reg, a_mode, b_reg, b_mode }
    }
}

} // verus!
