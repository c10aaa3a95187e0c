use std::collections::VecDeque;
use vstd::prelude::*;

use crate::instruction::handlers::control_flow::{
    all_zero, core_after_djn, equal_under, less_under, none_zero, target, tested,
};
use crate::instruction::handlers::general::core_after_mov;
use crate::instruction::handlers::operators::{core_after, fails_on_core, Operator};
use crate::instruction::handlers::{relative_address, wrap_into, wrapped};
use crate::instruction::{AddressMode, Instruction, Modifier, OpCode};
use crate::virtual_machine::placement::{
    generate_random_insertion_points, insertion_points, lens_of, seeded,
};

pub mod loading;
pub mod placement;
pub mod schedule;

verus! {

/// The settings of a match between warriors.
#[derive(Clone, Copy, Debug)]
pub struct MatchSettings {
    /// The least number of cells between two warriors when they are loaded.
    pub min_separation: usize,
    /// The most processes a single warrior may have.
    pub max_processes: usize,
    /// The number of cells in the core.
    pub core_size: usize,
}

impl MatchSettings {
    /// What a match can be set up with: a core that has cells, no more of
    /// them than a field can count, and room for at least one process per
    /// warrior.
    pub open spec fn valid(&self) -> bool {
        &&& 0 < self.core_size <= isize::MAX
        &&& 0 < self.max_processes
    }
}

impl Default for MatchSettings {
    fn default() -> (res: MatchSettings)
        ensures
            res.min_separation == 100,
            res.max_processes == 8000,
            res.core_size == 8000,
    {
        MatchSettings { min_separation: 100, max_processes: 8000, core_size: 8000 }
    }
}

/// Why the engine refuses what it is asked to do.
#[derive(Debug, Clone, Copy, PartialEq, Eq, Structural)]
pub enum EngineError {
    /// A match was asked for without any warrior.
    NoWarriors,
    /// The core has no room left to place a warrior in.
    InsufficientSpace,
    /// The instruction to run has a modifier that its operation cannot take.
    InvalidModifier,
}

/// The state of a machine: the core, each warrior's queue of processes, the
/// warrior whose turn it is, and the most processes a warrior may have.
pub struct MachineState {
    pub memory: Seq<Instruction>,
    pub queues: Seq<Seq<usize>>,
    pub current: usize,
    pub max_processes: usize,
}

/// What running one instruction leaves behind: the core, and the places at
/// which the warrior's processes go on, in the order they join the back of
/// its queue. No place means that the process has died.
pub struct Effect {
    pub memory: Seq<Instruction>,
    pub next: Seq<usize>,
}

/// The empty cell that the core is filled with before warriors are loaded.
pub open spec fn empty_cell() -> Instruction {
    Instruction {
        op_code: OpCode::DAT,
        modifier: Modifier::Unset,
        a_reg: 0,
        a_mode: AddressMode::Immediate,
        b_reg: 0,
        b_mode: AddressMode::Immediate,
    }
}

/// A core of `size` empty cells.
pub open spec fn empty_core(size: nat) -> Seq<Instruction> {
    Seq::new(size, |i: int| empty_cell())
}

/// The core with `program` written from cell `at` on.
pub open spec fn loaded(memory: Seq<Instruction>, at: int, program: Seq<Instruction>) -> Seq<
    Instruction,
> {
    Seq::new(
        memory.len(),
        |i: int|
            if at <= i < at + program.len() {
                program[i - at]
            } else {
                memory[i]
            },
    )
}

/// The programs as sequences of instructions.
pub open spec fn programs_of(programs: Seq<Vec<Instruction>>) -> Seq<Seq<Instruction>> {
    Seq::new(programs.len(), |k: int| programs[k]@)
}

/// The core with the first `count` of the programs written into it, each
/// from its start cell on, in their order.
pub open spec fn written(
    memory: Seq<Instruction>,
    programs: Seq<Seq<Instruction>>,
    offsets: Seq<usize>,
    count: nat,
) -> Seq<Instruction>
    decreases count,
{
    if count == 0 {
        memory
    } else {
        loaded(
            written(memory, programs, offsets, (count - 1) as nat),
            offsets[count - 1] as int,
            programs[count - 1],
        )
    }
}

/// The state in which a match begins when the warriors start at `offsets`:
/// the programs lie in an otherwise empty core, each warrior has one
/// process, at the cell its program starts at, and the first warrior has
/// the turn.
pub open spec fn battle_state(
    programs: Seq<Seq<Instruction>>,
    settings: MatchSettings,
    offsets: Seq<usize>,
) -> MachineState {
    MachineState {
        memory: written(empty_core(settings.core_size as nat), programs, offsets, programs.len()),
        queues: Seq::new(programs.len(), |w: int| seq![offsets[w]]),
        current: 0,
        max_processes: settings.max_processes,
    }
}

/// Whether a result says what setting up the match came to: a machine in
/// the state in which the match begins, or that the core has no room.
pub open spec fn begins(
    res: Result<VirtualMachine, EngineError>,
    programs: Seq<Seq<Instruction>>,
    settings: MatchSettings,
    points: Option<Seq<usize>>,
) -> bool {
    match points {
        Some(offsets) => res is Ok && res->Ok_0@ == battle_state(programs, settings, offsets),
        None => res is Err && res->Err_0 == EngineError::InsufficientSpace,
    }
}

/// The core after an operand's decrement, made before the instruction at
/// `pc` runs: under the decrementing modes the field that the operand's
/// number points at goes down by one, modulo the core size.
#[verifier::opaque]
pub open spec fn pre_decremented(
    memory: Seq<Instruction>,
    reg: int,
    mode: AddressMode,
    pc: int,
) -> Seq<Instruction> {
    let max = memory.len() as int;
    let index = wrapped(max, pc, reg);
    match mode {
        AddressMode::PreDecrementIndirectA => memory.update(
            index,
            Instruction { a_reg: ((memory[index].a_reg - 1) % max) as isize, ..memory[index] },
        ),
        AddressMode::PreDecrementIndirectB => memory.update(
            index,
            Instruction { b_reg: ((memory[index].b_reg - 1) % max) as isize, ..memory[index] },
        ),
        _ => memory,
    }
}

/// The core after an operand's increment, made after the instruction at `pc`
/// has run: under the incrementing modes the field that the operand's number
/// points at goes up by one, modulo the core size.
#[verifier::opaque]
pub open spec fn post_incremented(
    memory: Seq<Instruction>,
    reg: int,
    mode: AddressMode,
    pc: int,
) -> Seq<Instruction> {
    let max = memory.len() as int;
    let index = wrapped(max, pc, reg);
    match mode {
        AddressMode::PostIncrementIndirectA => memory.update(
            index,
            Instruction { a_reg: ((memory[index].a_reg + 1) % max) as isize, ..memory[index] },
        ),
        AddressMode::PostIncrementIndirectB => memory.update(
            index,
            Instruction { b_reg: ((memory[index].b_reg + 1) % max) as isize, ..memory[index] },
        ),
        _ => memory,
    }
}

/// What the instruction `instruction`, fetched from cell `pc`, does when it
/// runs on `memory`. `room` says whether the warrior may have one process
/// more than it has.
#[verifier::opaque]
pub open spec fn executed(
    instruction: Instruction,
    pc: int,
    memory: Seq<Instruction>,
    room: bool,
) -> Effect {
    let max = memory.len() as int;
    let fall = wrapped(max, pc, 1) as usize;
    let skip = wrapped(max, pc, 2) as usize;
    let jump = target(instruction, pc, memory) as usize;
    let source = memory[target(instruction, pc, memory)];
    let destination = memory[tested(instruction, pc, memory)];
    let modifier = instruction.modifier;
    match instruction.op_code {
        OpCode::MOV => Effect { memory: core_after_mov(instruction, pc, memory), next: seq![fall] },
        OpCode::ADD => Effect {
            memory: core_after(Operator::Add, instruction, pc, memory),
            next: seq![fall],
        },
        OpCode::SUB => Effect {
            memory: core_after(Operator::Sub, instruction, pc, memory),
            next: seq![fall],
        },
        OpCode::MUL => Effect {
            memory: core_after(Operator::Mul, instruction, pc, memory),
            next: seq![fall],
        },
        OpCode::DIV => Effect {
            memory: core_after(Operator::Div, instruction, pc, memory),
            next: if fails_on_core(Operator::Div, instruction, pc, memory) {
                seq![]
            } else {
                seq![fall]
            },
        },
        OpCode::MOD => Effect {
            memory: core_after(Operator::Mod, instruction, pc, memory),
            next: if fails_on_core(Operator::Mod, instruction, pc, memory) {
                seq![]
            } else {
                seq![fall]
            },
        },
        OpCode::DAT => Effect { memory, next: seq![] },
        OpCode::NOP => Effect { memory, next: seq![fall] },
        OpCode::JMP => Effect { memory, next: seq![jump] },
        OpCode::SPL => Effect {
            memory,
            next: if room {
                seq![fall, jump]
            } else {
                seq![fall]
            },
        },
        OpCode::JMZ => Effect {
            memory,
            next: if all_zero(modifier, destination) {
                seq![jump]
            } else {
                seq![fall]
            },
        },
        OpCode::JMN => Effect {
            memory,
            next: if !all_zero(modifier, destination) {
                seq![jump]
            } else {
                seq![fall]
            },
        },
        OpCode::DJN => Effect {
            memory: core_after_djn(instruction, pc, memory),
            next: if none_zero(
                modifier,
                core_after_djn(instruction, pc, memory)[tested(instruction, pc, memory)],
            ) {
                seq![jump]
            } else {
                seq![fall]
            },
        },
        OpCode::SEQ => Effect {
            memory,
            next: if equal_under(modifier, source, destination) {
                seq![skip]
            } else {
                seq![fall]
            },
        },
        OpCode::SNE => Effect {
            memory,
            next: if !equal_under(modifier, source, destination) {
                seq![skip]
            } else {
                seq![fall]
            },
        },
        OpCode::SLT => Effect {
            memory,
            next: if less_under(modifier, source, destination) {
                seq![skip]
            } else {
                seq![fall]
            },
        },
    }
}

/// What one turn of the process at cell `pc` leaves behind: the instruction
/// there is fetched, the operands' decrements are made, A before B, the
/// instruction runs, and the operands' increments are made, A before B.
pub open spec fn turn(memory: Seq<Instruction>, pc: int, room: bool) -> Effect {
    let instruction = memory[pc];
    let before = pre_decremented(
        pre_decremented(memory, instruction.a_reg as int, instruction.a_mode, pc),
        instruction.b_reg as int,
        instruction.b_mode,
        pc,
    );
    let effect = executed(instruction, pc, before, room);
    Effect {
        memory: post_incremented(
            post_incremented(effect.memory, instruction.a_reg as int, instruction.a_mode, pc),
            instruction.b_reg as int,
            instruction.b_mode,
            pc,
        ),
        next: effect.next,
    }
}

impl MachineState {
    /// What holds of every state a machine is ever in: the core has cells,
    /// there is a warrior, it is some warrior's turn, every process is at a
    /// cell of the core, and no warrior has more processes than it may.
    pub open spec fn valid(self) -> bool {
        &&& 0 < self.memory.len() <= isize::MAX
        &&& 0 < self.queues.len() <= usize::MAX
        &&& self.current < self.queues.len()
        &&& forall|w: int, i: int|
            0 <= w < self.queues.len() && 0 <= i < self.queues[w].len()
                ==> #[trigger] self.queues[w][i] < self.memory.len()
        &&& forall|w: int|
            0 <= w < self.queues.len() ==> (#[trigger] self.queues[w]).len() <= self.max_processes
    }

    /// The warrior whose turn comes after the current one's.
    pub open spec fn next_warrior(self) -> usize {
        ((self.current + 1) % self.queues.len() as int) as usize
    }

    /// Whether the warrior whose turn it is has a process left.
    pub open spec fn alive(self) -> bool {
        self.queues[self.current as int].len() > 0
    }

    /// The instruction that runs next; meaningful while the current warrior
    /// is alive.
    pub open spec fn fetched(self) -> Instruction {
        self.memory[self.queues[self.current as int][0] as int]
    }

    /// Whether the machine cannot go on: the instruction to run has a
    /// modifier that its operation cannot take.
    pub open spec fn stuck(self) -> bool {
        self.alive() && !self.fetched().op_code.takes(self.fetched().modifier)
    }

    /// The state one cycle later. A warrior without processes is passed
    /// over. Otherwise its first process leaves the queue and takes its
    /// turn, and the places at which the warrior goes on join the back of
    /// the queue; the warrior may get one process more only if the queue
    /// was not full before. Either way the turn passes to the next warrior.
    /// A machine that is stuck stays as it is.
    pub open spec fn step(self) -> MachineState {
        let queue = self.queues[self.current as int];
        if !self.alive() {
            MachineState { current: self.next_warrior(), ..self }
        } else if self.stuck() {
            self
        } else {
            let effect = turn(self.memory, queue[0] as int, queue.len() < self.max_processes);
            MachineState {
                memory: effect.memory,
                queues: self.queues.update(self.current as int, queue.drop_first() + effect.next),
                current: self.next_warrior(),
                max_processes: self.max_processes,
            }
        }
    }
}

/// The turn passes to the warrior after the current one, and from the last
/// warrior to the first.
pub proof fn lemma_next_warrior(s: MachineState)
    requires
        s.current < s.queues.len() <= usize::MAX,
    ensures
        s.next_warrior() == (if s.current + 1 == s.queues.len() {
            0
        } else {
            s.current + 1
        }),
{
    let n = s.queues.len() as int;
    if s.current + 1 == n {
        vstd::arithmetic::div_mod::lemma_mod_self_0(n);
    } else {
        vstd::arithmetic::div_mod::lemma_small_mod((s.current + 1) as nat, n as nat);
    }
}

/// A core war machine: the core, the warriors' process queues and the turn.
#[derive(Debug)]
pub struct VirtualMachine {
    memory: Vec<Instruction>,
    /// One queue of processes for each warrior; the process to run next is
    /// at the front.
    users_pcs: Vec<VecDeque<usize>>,
    /// The warrior whose turn it is.
    cur_user: usize,
    /// The most processes a single warrior may have.
    max_processes: usize,
}

/// A core of `size` empty cells.
pub fn generate_empty_memory(size: usize) -> (res: Vec<Instruction>)
    ensures
        res@ == empty_core(size as nat),
{
    let mut memory: Vec<Instruction> = Vec::new();
    let mut i: usize = 0;
    while i < size
        invariant
            i <= size,
            memory@ == empty_core(i as nat),
        decreases size - i,
    {
        memory.push(
            Instruction::new(
                OpCode::DAT,
                Modifier::Unset,
                0,
                AddressMode::Immediate,
                0,
                AddressMode::Immediate,
            ),
        );
        i += 1;
    }
    memory
}

/// Makes an operand's decrement, if its mode asks for one.
pub fn handle_pre_decrement(
    reg: isize,
    mode: AddressMode,
    cur_address: usize,
    max: usize,
    memory: &mut [Instruction],
)
    requires
        max == old(memory)@.len(),
        0 < max <= isize::MAX,
    ensures
        final(memory)@ == pre_decremented(old(memory)@, reg as int, mode, cur_address as int),
        final(memory)@.len() == max,
        forall|i: int|
            0 <= i < max ==> (#[trigger] final(memory)@[i]).op_code == old(memory)@[i].op_code
                && final(memory)@[i].modifier == old(memory)@[i].modifier,
{
    reveal(pre_decremented);
    match mode {
        AddressMode::PreDecrementIndirectA => {
            let index = relative_address(max, cur_address, reg);
            memory[index].a_reg = wrap_into(memory[index].a_reg as i128 - 1, max) as isize;
        },
        AddressMode::PreDecrementIndirectB => {
            let index = relative_address(max, cur_address, reg);
            memory[index].b_reg = wrap_into(memory[index].b_reg as i128 - 1, max) as isize;
        },
        _ => {},
    }
}

/// Makes an operand's increment, if its mode asks for one.
pub fn handle_post_increment(
    reg: isize,
    mode: AddressMode,
    cur_address: usize,
    max: usize,
    memory: &mut [Instruction],
)
    requires
        max == old(memory)@.len(),
        0 < max <= isize::MAX,
    ensures
        final(memory)@ == post_incremented(old(memory)@, reg as int, mode, cur_address as int),
        final(memory)@.len() == max,
{
    reveal(post_incremented);
    match mode {
        AddressMode::PostIncrementIndirectA => {
            let index = relative_address(max, cur_address, reg);
            memory[index].a_reg = wrap_into(memory[index].a_reg as i128 + 1, max) as isize;
        },
        AddressMode::PostIncrementIndirectB => {
            let index = relative_address(max, cur_address, reg);
            memory[index].b_reg = wrap_into(memory[index].b_reg as i128 + 1, max) as isize;
        },
        _ => {},
    }
}

/// The places of an instruction's outcome, in the order they join the queue.
pub open spec fn places(first: Option<usize>, second: Option<usize>) -> Seq<usize> {
    match (first, second) {
        (Some(a), Some(b)) => seq![a, b],
        (Some(a), None) => seq![a],
        (None, _) => seq![],
    }
}

/// Runs one instruction, fetched from cell `pc`, on the core, and gives the
/// places at which the warrior's processes go on.
fn execute(
    instruction: Instruction,
    pc: usize,
    max: usize,
    memory: &mut Vec<Instruction>,
    room: bool,
) -> (res: (Option<usize>, Option<usize>))
    requires
        max == old(memory)@.len(),
        pc < max <= isize::MAX,
        instruction.op_code.takes(instruction.modifier),
    ensures
        final(memory)@ == executed(instruction, pc as int, old(memory)@, room).memory,
        places(res.0, res.1) == executed(instruction, pc as int, old(memory)@, room).next,
        final(memory)@.len() == max,
        res.0 is Some ==> res.0->0 < max,
        res.1 is Some ==> res.1->0 < max,
        res.1 is Some ==> room,
{
    reveal(executed);
    let fall = relative_address(max, pc, 1);
    let skip = relative_address(max, pc, 2);
    let mut first: Option<usize> = Some(fall);
    let mut second: Option<usize> = None;
    match instruction.op_code {
        OpCode::MOV => {
            crate::instruction::handlers::general::mov(
                instruction,
                pc,
                max,
                memory,
            );
        },
        OpCode::ADD => {
            crate::instruction::handlers::operators::add(
                instruction,
                pc,
                max,
                memory,
            );
        },
        OpCode::SUB => {
            crate::instruction::handlers::operators::sub(
                instruction,
                pc,
                max,
                memory,
            );
        },
        OpCode::MUL => {
            crate::instruction::handlers::operators::mul(
                instruction,
                pc,
                max,
                memory,
            );
        },
        OpCode::DIV => {
            if crate::instruction::handlers::operators::div(
                instruction,
                pc,
                max,
                memory,
            ).is_err() {
                first = None;
            }
        },
        OpCode::MOD => {
            if crate::instruction::handlers::operators::modulo(
                instruction,
                pc,
                max,
                memory,
            ).is_err() {
                first = None;
            }
        },
        OpCode::DAT => {
            first = None;
        },
        OpCode::NOP => {},
        OpCode::JMP => {
            first = Some(
                crate::instruction::handlers::control_flow::jmp(
                    instruction,
                    pc,
                    max,
                    memory.as_slice(),
                ),
            );
        },
        OpCode::SPL => {
            if room {
                second = Some(
                    crate::instruction::handlers::control_flow::spl(
                        instruction,
                        pc,
                        max,
                        memory.as_slice(),
                    ),
                );
            }
        },
        OpCode::JMZ => {
            if let Some(new_addr) = crate::instruction::handlers::control_flow::jmz(
                instruction,
                pc,
                max,
                memory.as_slice(),
            ) {
                first = Some(new_addr);
            }
        },
        OpCode::JMN => {
            if let Some(new_addr) = crate::instruction::handlers::control_flow::jmn(
                instruction,
                pc,
                max,
                memory.as_slice(),
            ) {
                first = Some(new_addr);
            }
        },
        OpCode::DJN => {
            if let Some(new_addr) = crate::instruction::handlers::control_flow::djn(
                instruction,
                pc,
                max,
                memory.as_mut_slice(),
            ) {
                first = Some(new_addr);
            }
        },
        OpCode::SEQ => {
            if crate::instruction::handlers::control_flow::seq(
                instruction,
                pc,
                max,
                memory.as_slice(),
            ) {
                first = Some(skip);
            }
        },
        OpCode::SNE => {
            if crate::instruction::handlers::control_flow::sne(
                instruction,
                pc,
                max,
                memory.as_slice(),
            ) {
                first = Some(skip);
            }
        },
        OpCode::SLT => {
            if crate::instruction::handlers::control_flow::slt(
                instruction,
                pc,
                max,
                memory.as_slice(),
            ) {
                first = Some(skip);
            }
        },
    }
    (first, second)
}

/// Gives the process at cell `pc` its turn on the core, and says at which
/// places the warrior's processes go on.
fn take_turn(pc: usize, max: usize, memory: &mut Vec<Instruction>, room: bool) -> (res: (
    Option<usize>,
    Option<usize>,
))
    requires
        max == old(memory)@.len(),
        pc < max <= isize::MAX,
        old(memory)@[pc as int].op_code.takes(old(memory)@[pc as int].modifier),
    ensures
        final(memory)@ == turn(old(memory)@, pc as int, room).memory,
        places(res.0, res.1) == turn(old(memory)@, pc as int, room).next,
        final(memory)@.len() == max,
        res.0 is Some ==> res.0->0 < max,
        res.1 is Some ==> res.1->0 < max,
        res.1 is Some ==> room,
{
    let instruction = memory[pc];
    handle_pre_decrement(instruction.a_reg, instruction.a_mode, pc, max, memory.as_mut_slice());
    handle_pre_decrement(instruction.b_reg, instruction.b_mode, pc, max, memory.as_mut_slice());
    let res = execute(instruction, pc, max, memory, room);
    handle_post_increment(instruction.a_reg, instruction.a_mode, pc, max, memory.as_mut_slice());
    handle_post_increment(instruction.b_reg, instruction.b_mode, pc, max, memory.as_mut_slice());
    res
}

/// Takes the process that has had its turn from the front of the queue and
/// puts the places at which the warrior goes on at its back.
fn requeue(queue: &mut VecDeque<usize>, first: Option<usize>, second: Option<usize>)
    requires
        old(queue)@.len() > 0,
    ensures
        final(queue)@ == old(queue)@.drop_first() + places(first, second),
{
    queue.pop_front();
    if let Some(place) = first {
        queue.push_back(place);
        if let Some(place) = second {
            queue.push_back(place);
        }
    }
}

impl View for VirtualMachine {
    type V = MachineState;

    closed spec fn view(&self) -> MachineState {
        MachineState {
            memory: self.memory@,
            queues: Seq::new(self.users_pcs@.len(), |w: int| self.users_pcs@[w]@),
            current: self.cur_user,
            max_processes: self.max_processes,
        }
    }
}

impl VirtualMachine {
    /// Whether the machine is in a state that a machine can be in.
    pub open spec fn wf(&self) -> bool {
        self@.valid()
    }

    /// A machine for a single warrior: `program` lies at the start of a core
    /// of `size` cells, its one process starts at cell 0, and it may have up
    /// to 8000 processes.
    pub fn new_simple(size: usize, program: Vec<Instruction>) -> (res: VirtualMachine)
        requires
            0 < size <= isize::MAX,
            size >= program@.len(),
        ensures
            res.wf(),
            res@ == (MachineState {
                memory: loaded(empty_core(size as nat), 0, program@),
                queues: seq![seq![0usize]],
                current: 0,
                max_processes: 8000,
            }),
    {
        let mut memory = generate_empty_memory(size);
        let mut i: usize = 0;
        while i < program.len()
            invariant
                i <= program@.len() <= size,
                memory@ == loaded(empty_core(size as nat), 0, program@.take(i as int)),
            decreases program@.len() - i,
        {
            memory[i] = program[i];
            i += 1;
        }
        assert(program@.take(i as int) =~= program@);
        let mut queue: VecDeque<usize> = VecDeque::new();
        queue.push_back(0);
        let mut users_pcs: Vec<VecDeque<usize>> = Vec::new();
        users_pcs.push(queue);
        let res = VirtualMachine { memory, cur_user: 0, users_pcs, max_processes: 8000 };
        assert(res@.queues =~= seq![seq![0usize]]);
        res
    }

    /// A machine for a match between the warriors whose programs are given.
    /// The first program lies `min_separation` cells into the core; each
    /// later one lies at a cell drawn, by a generator made from `seed`,
    /// among the cells at which it can start with `min_separation` free
    /// cells between it and every other program. Each warrior has one
    /// process, at the start of its program.
    ///
    /// Without a program there is no match. Otherwise the result is what
    /// `insertion_points` and `battle_state` give for some sequence of
    /// draws: the machine ready to run, or `InsufficientSpace` when a
    /// program finds no cell to start at.
    pub fn new_battle(
        programs: &[Vec<Instruction>],
        match_settings: &MatchSettings,
        seed: u64,
    ) -> (res: Result<VirtualMachine, EngineError>)
        requires
            match_settings.valid(),
        ensures
            programs@.len() == 0 ==> res is Err && res->Err_0 == EngineError::NoWarriors,
            programs@.len() > 0 ==> exists|draws: Seq<int>|
                draws.len() + 1 == programs@.len() && begins(
                    res,
                    programs_of(programs@),
                    *match_settings,
                    #[trigger] insertion_points(
                        match_settings.core_size as int,
                        match_settings.min_separation as int,
                        crate::virtual_machine::loading::lengths(programs_of(programs@)),
                        draws,
                    ),
                ),
            res is Ok ==> res->Ok_0.wf(),
    {
        if programs.len() == 0 {
            return Err(EngineError::NoWarriors);
        }
        let size = match_settings.core_size;
        assert(lens_of(programs@) =~= crate::virtual_machine::loading::lengths(
            programs_of(programs@),
        ));
        let mut rng = seeded(seed);
        let found = generate_random_insertion_points(
            size,
            programs,
            match_settings.min_separation,
            &mut rng,
        );
        let ghost draws = choose|draws: Seq<int>|
            draws.len() + 1 == programs@.len() && crate::virtual_machine::placement::agrees(
                found,
                #[trigger] insertion_points(
                    size as int,
                    match_settings.min_separation as int,
                    lens_of(programs@),
                    draws,
                ),
            );
        let indices = match found {
            Ok(indices) => indices,
            Err(e) => return Err(e),
        };
        let ghost all = programs_of(programs@);
        let ghost empty = empty_core(size as nat);

        let mut memory = generate_empty_memory(size);
        let mut users_pcs: Vec<VecDeque<usize>> = Vec::new();
        let mut k: usize = 0;
        while k < programs.len()
            invariant
                k <= programs@.len() == indices@.len(),
                all == programs_of(programs@),
                empty == empty_core(size as nat),
                0 < size <= isize::MAX,
                memory@.len() == size,
                memory@ == written(empty, all, indices@, k as nat),
                users_pcs@.len() == k,
                forall|w: int| 0 <= w < k ==> (#[trigger] users_pcs@[w])@ == seq![indices@[w]],
                forall|j: int|
                    0 <= j < programs@.len() ==> (#[trigger] indices@[j]) + crate::virtual_machine::placement::footprint(
                        programs@[j]@.len(),
                    ) <= size,
            decreases programs@.len() - k,
        {
            let start = indices[k];
            let program = &programs[k];
            let ghost base = memory@;
            let mut i: usize = 0;
            while i < program.len()
                invariant
                    i <= program@.len(),
                    start + program@.len() <= size,
                    memory@.len() == size,
                    base.len() == size,
                    memory@ == loaded(base, start as int, program@.take(i as int)),
                decreases program@.len() - i,
            {
                memory[start + i] = program[i];
                i += 1;
            }
            let mut queue: VecDeque<usize> = VecDeque::new();
            queue.push_back(start);
            users_pcs.push(queue);
            k = k + 1;
        }
        let res = VirtualMachine {
            memory,
            cur_user: 0,
            users_pcs,
            max_processes: match_settings.max_processes,
        };
        proof {
            assert(res@.queues =~= Seq::new(all.len(), |w: int| seq![indices@[w]]));
            assert forall|w: int, i: int|
                0 <= w < res@.queues.len() && 0 <= i < res@.queues[w].len() implies #[trigger] res@.queues[w][i]
                < res@.memory.len() by {}
        }
        Ok(res)
    }

    /// The core.
    pub fn get_memory(&self) -> (res: &[Instruction])
        ensures
            res@ == self@.memory,
    {
        self.memory.as_slice()
    }

    /// Each warrior's queue of processes, the process to run next at the
    /// front.
    pub fn get_users_pcs(&self) -> (res: &[VecDeque<usize>])
        ensures
            res@.len() == self@.queues.len(),
            forall|w: int| 0 <= w < res@.len() ==> (#[trigger] res@[w])@ == self@.queues[w],
    {
        self.users_pcs.as_slice()
    }

    /// The warrior whose turn it is.
    pub fn get_cur_user(&self) -> (res: usize)
        ensures
            res == self@.current,
    {
        self.cur_user
    }

    /// Runs one cycle: the current warrior's next instruction, or nothing if
    /// that warrior has no process left; then the turn passes on. An
    /// instruction whose modifier its operation cannot take is refused, and
    /// the machine stays as it was.
    pub fn cycle(&mut self) -> (res: Result<(), EngineError>)
        requires
            old(self).wf(),
        ensures
            final(self).wf(),
            final(self)@ == old(self)@.step(),
            res == (if old(self)@.stuck() {
                Err(EngineError::InvalidModifier)
            } else {
                Ok(())
            }),
    {
        let user = self.cur_user;
        proof {
            lemma_next_warrior(old(self)@);
        }
        let next_user = if user + 1 == self.users_pcs.len() {
            0
        } else {
            user + 1
        };
        if self.users_pcs[user].len() == 0 {
            self.cur_user = next_user;
            return Ok(());
        }
        let pc = self.users_pcs[user][0];
        let instruction = self.memory[pc];
        if !instruction.op_code.accepts(instruction.modifier) {
            return Err(EngineError::InvalidModifier);
        }
        let room = self.users_pcs[user].len() < self.max_processes;
        let memory_len = self.memory.len();
        let (first, second) = take_turn(pc, memory_len, &mut self.memory, room);
        requeue(&mut self.users_pcs[user], first, second);
        self.cur_user = next_user;
        proof {
            let old_queue = old(self)@.queues[user as int];
            let next = places(first, second);
            let new_queue = old_queue.drop_first() + next;
            assert(self@.queues =~= old(self)@.queues.update(user as int, new_queue));
            assert forall|w: int, i: int|
                0 <= w < self@.queues.len() && 0 <= i < self@.queues[w].len() implies #[trigger] self@.queues[w][i]
                < self@.memory.len() by {}
            assert forall|w: int| 0 <= w < self@.queues.len() implies (#[trigger] self@.queues[w]).len()
                <= self@.max_processes by {}
        }
        Ok(())
    }
}

} // verus!
