use vstd::prelude::*;

use crate::instruction::handlers::lemma_effective_address_in_core;
use crate::instruction::{AddressMode, Instruction, Modifier, OpCode};
use crate::virtual_machine::{
    begins, executed, lemma_next_warrior, post_incremented, pre_decremented, turn, MachineState,
    MatchSettings, VirtualMachine,
};

verus! {

impl MachineState {
    /// The state after `cycles` cycles.
    pub open spec fn run(self, cycles: nat) -> MachineState
        decreases cycles,
    {
        if cycles == 0 {
            self
        } else {
            self.run((cycles - 1) as nat).step()
        }
    }

    /// Whether every warrior has a process left.
    pub open spec fn all_alive(self) -> bool {
        forall|w: int| 0 <= w < self.queues.len() ==> (#[trigger] self.queues[w]).len() > 0
    }

    /// In how many of the first `cycles` cycles warrior `w` runs an
    /// instruction.
    pub open spec fn runs_of(self, cycles: nat, w: int) -> nat
        decreases cycles,
    {
        if cycles == 0 {
            0
        } else {
            let before = self.run((cycles - 1) as nat);
            let ran: nat = if before.current == w && before.alive() && !before.stuck() {
                1
            } else {
                0
            };
            self.runs_of((cycles - 1) as nat, w) + ran
        }
    }
}

/// An operand's decrement and increment leave the core its size.
pub proof fn lemma_side_effects_keep_size(memory: Seq<Instruction>, instruction: Instruction, pc: int)
    requires
        0 <= pc < memory.len(),
    ensures
        pre_decremented(memory, instruction.a_reg as int, instruction.a_mode, pc).len()
            == memory.len(),
        post_incremented(memory, instruction.a_reg as int, instruction.a_mode, pc).len()
            == memory.len(),
        pre_decremented(memory, instruction.b_reg as int, instruction.b_mode, pc).len()
            == memory.len(),
        post_incremented(memory, instruction.b_reg as int, instruction.b_mode, pc).len()
            == memory.len(),
{
    reveal(pre_decremented);
    reveal(post_incremented);
}

/// Whatever instruction runs, the core keeps its size, the process goes on
/// at cells of the core, and at two of them only if the warrior has room.
pub proof fn lemma_executed_shape(
    instruction: Instruction,
    pc: int,
    memory: Seq<Instruction>,
    room: bool,
)
    requires
        0 <= pc < memory.len() <= usize::MAX,
    ensures
        executed(instruction, pc, memory, room).memory.len() == memory.len(),
        executed(instruction, pc, memory, room).next.len() <= 2,
        executed(instruction, pc, memory, room).next.len() == 2 ==> room,
        forall|i: int|
            0 <= i < executed(instruction, pc, memory, room).next.len() ==> (
            #[trigger] executed(instruction, pc, memory, room).next[i]) < memory.len(),
{
    reveal(executed);
    lemma_effective_address_in_core(instruction.a_reg as int, instruction.a_mode, pc, memory);
    lemma_effective_address_in_core(instruction.b_reg as int, instruction.b_mode, pc, memory);
}

/// A process's turn leaves the core its size, and the warrior goes on at
/// cells of the core, at two of them only if it has room.
pub proof fn lemma_turn_shape(memory: Seq<Instruction>, pc: int, room: bool)
    requires
        0 <= pc < memory.len() <= usize::MAX,
    ensures
        turn(memory, pc, room).memory.len() == memory.len(),
        turn(memory, pc, room).next.len() <= 2,
        turn(memory, pc, room).next.len() == 2 ==> room,
        forall|i: int|
            0 <= i < turn(memory, pc, room).next.len() ==> (#[trigger] turn(memory, pc, room).next[i])
                < memory.len(),
{
    let instruction = memory[pc];
    let first = pre_decremented(memory, instruction.a_reg as int, instruction.a_mode, pc);
    lemma_side_effects_keep_size(memory, instruction, pc);
    let before = pre_decremented(first, instruction.b_reg as int, instruction.b_mode, pc);
    lemma_side_effects_keep_size(first, instruction, pc);
    let effect = executed(instruction, pc, before, room);
    lemma_executed_shape(instruction, pc, before, room);
    let third = post_incremented(effect.memory, instruction.a_reg as int, instruction.a_mode, pc);
    lemma_side_effects_keep_size(effect.memory, instruction, pc);
    lemma_side_effects_keep_size(third, instruction, pc);
}

/// A cycle takes a state that a machine can be in to such a state again. In
/// particular no warrior ever has more processes than it may, and every
/// process is at a cell of the core.
pub proof fn lemma_step_valid(s: MachineState)
    requires
        s.valid(),
    ensures
        s.step().valid(),
{
    lemma_next_warrior(s);
    let after = s.step();
    if s.alive() && !s.stuck() {
        let queue = s.queues[s.current as int];
        lemma_turn_shape(s.memory, queue[0] as int, queue.len() < s.max_processes);
        assert forall|w: int, i: int|
            0 <= w < after.queues.len() && 0 <= i < after.queues[w].len() implies #[trigger] after.queues[w][i]
            < after.memory.len() by {}
        assert forall|w: int| 0 <= w < after.queues.len() implies (#[trigger] after.queues[w]).len()
            <= after.max_processes by {}
    }
}

/// However long a machine runs, it stays in a state that a machine can be
/// in: at all times every warrior's queue holds no more processes than the
/// warrior may have, and every process is at a cell of the core.
pub proof fn lemma_run_valid(s: MachineState, cycles: nat)
    requires
        s.valid(),
    ensures
        s.run(cycles).valid(),
        s.run(cycles).max_processes == s.max_processes,
        s.run(cycles).queues.len() == s.queues.len(),
        s.run(cycles).memory.len() == s.memory.len(),
        forall|w: int|
            0 <= w < s.queues.len() ==> (#[trigger] s.run(cycles).queues[w]).len()
                <= s.max_processes,
    decreases cycles,
{
    if cycles > 0 {
        let before = s.run((cycles - 1) as nat);
        lemma_run_valid(s, (cycles - 1) as nat);
        lemma_step_valid(before);
        if before.alive() && !before.stuck() {
            let queue = before.queues[before.current as int];
            lemma_turn_shape(before.memory, queue[0] as int, queue.len() < before.max_processes);
        }
    }
}

/// Two machines in the same state are in the same state after the same
/// number of cycles: the core and the queues of a match depend on nothing
/// but the state it began in and the number of cycles run.
pub proof fn lemma_run_reproducible(a: MachineState, b: MachineState, cycles: nat)
    requires
        a == b,
    ensures
        a.run(cycles) == b.run(cycles),
        a.run(cycles).memory == b.run(cycles).memory,
        a.run(cycles).queues == b.run(cycles).queues,
{
}

/// Two matches set up from the same programs and settings, with the same
/// draws, are alike, core and queues, after the same number of cycles.
pub proof fn lemma_match_reproducible(
    a: VirtualMachine,
    b: VirtualMachine,
    programs: Seq<Seq<Instruction>>,
    settings: MatchSettings,
    points: Option<Seq<usize>>,
    cycles: nat,
)
    requires
        begins(Ok(a), programs, settings, points),
        begins(Ok(b), programs, settings, points),
    ensures
        a@ == b@,
        a@.run(cycles).memory == b@.run(cycles).memory,
        a@.run(cycles).queues == b@.run(cycles).queues,
        a@.run(cycles).current == b@.run(cycles).current,
{
}

/// A warrior without a process never gets one again.
pub proof fn lemma_dead_stay_dead(s: MachineState, cycles: nat, w: int)
    requires
        s.valid(),
        0 <= w < s.queues.len(),
        s.queues[w].len() == 0,
    ensures
        s.run(cycles).queues[w].len() == 0,
    decreases cycles,
{
    if cycles > 0 {
        lemma_dead_stay_dead(s, (cycles - 1) as nat, w);
        lemma_run_valid(s, (cycles - 1) as nat);
    }
}

/// `DAT` kills: whatever its operands, the process that runs it leaves the
/// queue and nothing takes its place.
pub proof fn lemma_dat_kills(s: MachineState)
    requires
        s.valid(),
        s.alive(),
        s.fetched().op_code == OpCode::DAT,
    ensures
        s.step().queues[s.current as int] == s.queues[s.current as int].drop_first(),
{
    reveal(executed);
}

/// A jump one cell back from cell 0 goes to the last cell of the core.
pub proof fn lemma_jump_back_wraps(memory: Seq<Instruction>, modifier: Modifier, room: bool)
    requires
        0 < memory.len() <= usize::MAX,
    ensures
        executed(
            Instruction {
                op_code: OpCode::JMP,
                modifier,
                a_reg: -1isize,
                a_mode: AddressMode::Direct,
                b_reg: 0,
                b_mode: AddressMode::Direct,
            },
            0,
            memory,
            room,
        ).next == seq![(memory.len() - 1) as usize],
{
    reveal(executed);
    let n = memory.len() as int;
    vstd::arithmetic::div_mod::lemma_fundamental_div_mod_converse(-1, n, -1, n - 1);
}

/// `SPL` on a full queue is a `NOP`: run by a warrior without room for
/// another process, it does what `NOP` does with the same operands, and the
/// queue does not grow.
pub proof fn lemma_split_without_room(instruction: Instruction, pc: int, memory: Seq<Instruction>)
    requires
        instruction.op_code == OpCode::SPL,
    ensures
        executed(instruction, pc, memory, false) == executed(
            Instruction { op_code: OpCode::NOP, ..instruction },
            pc,
            memory,
            false,
        ),
        executed(instruction, pc, memory, false).next.len() == 1,
{
    reveal(executed);
}

/// A warrior whose queue is full does not get another process, whatever it
/// runs.
pub proof fn lemma_full_queue_stays_full(s: MachineState)
    requires
        s.valid(),
        s.alive(),
        s.queues[s.current as int].len() == s.max_processes,
    ensures
        s.step().queues[s.current as int].len() <= s.max_processes,
        s.fetched().op_code == OpCode::SPL && !s.stuck() ==> s.step().queues[s.current as int].len()
            == s.max_processes,
{
    lemma_step_valid(s);
    if !s.stuck() {
        let queue = s.queues[s.current as int];
        lemma_turn_shape(s.memory, queue[0] as int, false);
        if s.fetched().op_code == OpCode::SPL {
            let instruction = s.fetched();
            let pc = queue[0] as int;
            let before = pre_decremented(
                pre_decremented(s.memory, instruction.a_reg as int, instruction.a_mode, pc),
                instruction.b_reg as int,
                instruction.b_mode,
                pc,
            );
            lemma_split_without_room(instruction, pc, before);
        }
    }
}

/// Stepping from one multiple of `m` to the next raises the quotient by one,
/// and no other step raises it.
pub proof fn lemma_quotient_step(x: int, m: int)
    requires
        m > 0,
    ensures
        x / m - (x - 1) / m == (if x % m == 0 {
            1int
        } else {
            0int
        }),
{
    let q = x / m;
    let r = x % m;
    vstd::arithmetic::div_mod::lemma_fundamental_div_mod(x, m);
    if r == 0 {
        assert(x - 1 == (q - 1) * m + (m - 1)) by (nonlinear_arith)
            requires
                x == m * q + r,
                r == 0,
        ;
        vstd::arithmetic::div_mod::lemma_fundamental_div_mod_converse(x - 1, m, q - 1, m - 1);
    } else {
        assert(x - 1 == q * m + (r - 1)) by (nonlinear_arith)
            requires
                x == m * q + r,
        ;
        vstd::arithmetic::div_mod::lemma_fundamental_div_mod_converse(x - 1, m, q, r - 1);
    }
}

/// While every warrior is alive and the machine is not stuck, the turn goes
/// round the warriors in their order, and the number of instructions that a
/// warrior has run is the number of times the turn has come to it.
pub proof fn lemma_turns_go_round(s: MachineState, cycles: nat, w: int)
    requires
        s.valid(),
        0 <= w < s.queues.len(),
        forall|i: nat| i < cycles ==> (#[trigger] s.run(i)).all_alive() && !s.run(i).stuck(),
    ensures
        s.run(cycles).current == (s.current + cycles) % (s.queues.len() as int),
        s.runs_of(cycles, w) == (s.current + cycles - 1 - w) / (s.queues.len() as int) - (s.current
            - 1 - w) / (s.queues.len() as int),
    decreases cycles,
{
    let m = s.queues.len() as int;
    if cycles == 0 {
        vstd::arithmetic::div_mod::lemma_small_mod(s.current as nat, m as nat);
    } else {
        let n = (cycles - 1) as nat;
        let before = s.run(n);
        assert forall|i: nat| i < n implies (#[trigger] s.run(i)).all_alive() && !s.run(i).stuck() by {}
        lemma_turns_go_round(s, n, w);
        lemma_run_valid(s, n);
        lemma_next_warrior(before);
        // the turn passes on
        let x = s.current + n;
        vstd::arithmetic::div_mod::lemma_add_mod_noop(x, 1, m);
        vstd::arithmetic::div_mod::lemma_mod_bound(x + 1, m);
        if m > 1 {
            vstd::arithmetic::div_mod::lemma_small_mod(1, m as nat);
            if before.current + 1 == m {
                vstd::arithmetic::div_mod::lemma_mod_self_0(m);
            } else {
                vstd::arithmetic::div_mod::lemma_small_mod((before.current + 1) as nat, m as nat);
            }
        }
        // the count goes up when the turn was w's
        vstd::arithmetic::div_mod::lemma_mod_equivalence(x, w, m);
        vstd::arithmetic::div_mod::lemma_small_mod(w as nat, m as nat);
        lemma_quotient_step(x - w, m);
    }
}

/// Round-robin fairness: over `rounds` times as many cycles as there are
/// warriors, during which every warrior is alive and the machine is never
/// stuck, each warrior runs exactly `rounds` instructions.
pub proof fn lemma_round_robin(s: MachineState, rounds: nat, w: int)
    requires
        s.valid(),
        0 <= w < s.queues.len(),
        forall|i: nat|
            i < rounds * s.queues.len() ==> (#[trigger] s.run(i)).all_alive() && !s.run(i).stuck(),
    ensures
        s.runs_of(rounds * s.queues.len(), w) == rounds,
{
    let m = s.queues.len() as int;
    let x = s.current - 1 - w;
    lemma_turns_go_round(s, rounds * s.queues.len(), w);
    assert(x + rounds * m == m * rounds + x) by (nonlinear_arith);
    vstd::arithmetic::div_mod::lemma_div_multiples_vanish_fancy(rounds as int, x % m, m);
    vstd::arithmetic::div_mod::lemma_fundamental_div_mod(x, m);
    let q = x / m;
    let r = x % m;
    assert(x + rounds * m == (q + rounds) * m + r) by (nonlinear_arith)
        requires
            x == m * q + r,
    ;
    vstd::arithmetic::div_mod::lemma_fundamental_div_mod_converse(x + rounds * m, m, q + rounds, r);
}

} // verus!
