use vstd::prelude::*;

use crate::instruction::Instruction;
use crate::virtual_machine::placement::{
    apart, footprint, insertion_points, layout, lemma_layout_settled,
};
use crate::virtual_machine::{battle_state, empty_cell, empty_core, written, MatchSettings};

verus! {

/// The lengths of the programs.
pub open spec fn lengths(programs: Seq<Seq<Instruction>>) -> Seq<nat> {
    Seq::new(programs.len(), |k: int| programs[k].len())
}

/// Writing programs into the core leaves the core its size.
pub proof fn lemma_written_len(
    memory: Seq<Instruction>,
    programs: Seq<Seq<Instruction>>,
    offsets: Seq<usize>,
    count: nat,
)
    ensures
        written(memory, programs, offsets, count).len() == memory.len(),
    decreases count,
{
    if count > 0 {
        lemma_written_len(memory, programs, offsets, (count - 1) as nat);
    }
}

/// Programs that lie apart do not overwrite one another: once the first
/// `count` of them are written, each of them stands in the core whole, and
/// every other cell is as it was.
pub proof fn lemma_written_whole(
    memory: Seq<Instruction>,
    programs: Seq<Seq<Instruction>>,
    offsets: Seq<usize>,
    count: nat,
)
    requires
        count <= programs.len() == offsets.len(),
        forall|k: int| 0 <= k < count ==> (#[trigger] offsets[k]) + programs[k].len() <= memory.len(),
        forall|j: int, k: int|
            0 <= j < k < count ==> apart(
                #[trigger] offsets[j] as int,
                footprint(programs[j].len()),
                #[trigger] offsets[k] as int,
                footprint(programs[k].len()),
                0,
            ),
    ensures
        forall|k: int, i: int|
            0 <= k < count && 0 <= i < programs[k].len() ==> written(
                memory,
                programs,
                offsets,
                count,
            )[offsets[k] + i] == #[trigger] programs[k][i],
        forall|c: int|
            0 <= c < memory.len() && (forall|k: int|
                0 <= k < count ==> !((#[trigger] offsets[k]) <= c < offsets[k] + programs[k].len()))
                ==> #[trigger] written(memory, programs, offsets, count)[c] == memory[c],
    decreases count,
{
    if count > 0 {
        let last = count - 1;
        let before = written(memory, programs, offsets, last as nat);
        let after = written(memory, programs, offsets, count);
        lemma_written_whole(memory, programs, offsets, last as nat);
        lemma_written_len(memory, programs, offsets, last as nat);
        assert forall|k: int, i: int| 0 <= k < count && 0 <= i < programs[k].len() implies after[offsets[k]
            + i] == #[trigger] programs[k][i] by {}
        assert forall|c: int|
            0 <= c < memory.len() && (forall|k: int|
                0 <= k < count ==> !((#[trigger] offsets[k]) <= c < offsets[k] + programs[k].len()))
            implies #[trigger] after[c] == memory[c] by {}
    }
}

/// A match begins with every program whole in the core at its start cell,
/// with empty cells everywhere else, with at least the minimum separation
/// between any two programs, and with one process for each warrior, at the
/// start of its program.
pub proof fn lemma_battle_begins_well(
    programs: Seq<Seq<Instruction>>,
    settings: MatchSettings,
    draws: Seq<int>,
)
    requires
        settings.valid(),
        0 < programs.len() == draws.len() + 1,
        programs.len() <= usize::MAX,
        insertion_points(
            settings.core_size as int,
            settings.min_separation as int,
            lengths(programs),
            draws,
        ) is Some,
    ensures
        ({
            let offsets = insertion_points(
                settings.core_size as int,
                settings.min_separation as int,
                lengths(programs),
                draws,
            )->0;
            let begin = battle_state(programs, settings, offsets);
            &&& begin.valid()
            &&& offsets.len() == programs.len()
            &&& offsets[0] == settings.min_separation
            &&& begin.memory.len() == settings.core_size
            &&& forall|k: int|
                0 <= k < programs.len() ==> begin.queues[k] == seq![#[trigger] offsets[k]]
            &&& forall|k: int|
                0 <= k < programs.len() ==> (#[trigger] offsets[k]) + programs[k].len()
                    <= settings.core_size
            &&& forall|j: int, k: int|
                0 <= j < k < programs.len() ==> apart(
                    #[trigger] offsets[j] as int,
                    programs[j].len() as int,
                    #[trigger] offsets[k] as int,
                    programs[k].len() as int,
                    settings.min_separation as int,
                )
            &&& forall|k: int, i: int|
                0 <= k < programs.len() && 0 <= i < programs[k].len() ==> begin.memory[offsets[k]
                    + i] == #[trigger] programs[k][i]
            &&& forall|c: int|
                0 <= c < settings.core_size && (forall|k: int|
                    0 <= k < programs.len() ==> !((#[trigger] offsets[k]) <= c < offsets[k]
                        + programs[k].len())) ==> #[trigger] begin.memory[c] == empty_cell()
        }),
{
    let core = settings.core_size as int;
    let separation = settings.min_separation as int;
    let lens = lengths(programs);
    let all = layout(core, separation, lens, draws, lens.len())->0;
    let offsets = all.offsets;
    lemma_layout_settled(core, separation, lens, draws, lens.len());
    let empty = empty_core(settings.core_size as nat);
    assert forall|k: int| 0 <= k < programs.len() implies (#[trigger] offsets[k]) + programs[k].len()
        <= settings.core_size by {}
    assert forall|j: int, k: int| 0 <= j < k < programs.len() implies apart(
        #[trigger] offsets[j] as int,
        programs[j].len() as int,
        #[trigger] offsets[k] as int,
        programs[k].len() as int,
        separation,
    ) && apart(
        offsets[j] as int,
        footprint(programs[j].len()),
        offsets[k] as int,
        footprint(programs[k].len()),
        0,
    ) by {}
    lemma_written_len(empty, programs, offsets, programs.len());
    lemma_written_whole(empty, programs, offsets, programs.len());
    let begin = battle_state(programs, settings, offsets);
    assert forall|w: int, i: int|
        0 <= w < begin.queues.len() && 0 <= i < begin.queues[w].len() implies #[trigger] begin.queues[w][i]
        < begin.memory.len() by {}
    lemma_first_offset(core, separation, lens, draws, lens.len());
    assert forall|k: int, i: int|
        0 <= k < programs.len() && 0 <= i < programs[k].len() implies begin.memory[offsets[k] + i]
        == #[trigger] programs[k][i] by {}
    assert forall|c: int|
        0 <= c < settings.core_size && (forall|k: int|
            0 <= k < programs.len() ==> !((#[trigger] offsets[k]) <= c < offsets[k]
                + programs[k].len())) implies #[trigger] begin.memory[c] == empty_cell() by {}
}

/// The first warrior always starts `separation` cells into the core.
pub proof fn lemma_first_offset(
    core: int,
    separation: int,
    lens: Seq<nat>,
    draws: Seq<int>,
    placed: nat,
)
    requires
        1 <= placed,
        0 <= separation,
        0 <= core <= usize::MAX,
        layout(core, separation, lens, draws, placed) is Some,
    ensures
        layout(core, separation, lens, draws, placed)->0.offsets.len() == placed,
        layout(core, separation, lens, draws, placed)->0.offsets[0] == separation,
    decreases placed,
{
    if placed > 1 {
        lemma_first_offset(core, separation, lens, draws, (placed - 1) as nat);
    }
}

} // verus!
