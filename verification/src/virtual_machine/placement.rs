use rand::rngs::StdRng;
use vstd::prelude::*;

use crate::instruction::Instruction;
use crate::virtual_machine::EngineError;

verus! {

/// The generator `StdRng` of the `rand` crate. Nothing is known of what it
/// holds.
#[verifier::external_type_specification]
#[verifier::external_body]
pub struct ExStdRng(StdRng);

/// A run of free cells in the core.
#[derive(Debug, Clone, Copy, PartialEq, Eq, Structural)]
pub struct Block {
    /// The first cell of the run.
    pub start: usize,
    /// The number of cells in the run.
    pub len: usize,
}

/// The cells a warrior needs: one for each instruction, and at least the one
/// its process starts at.
pub open spec fn footprint(len: nat) -> int {
    if len == 0 {
        1
    } else {
        len as int
    }
}

/// The number of cells of a block at which a warrior of `size` cells can
/// start and still end inside the block.
pub open spec fn feasible_in(block: Block, size: int) -> int {
    if block.len >= size {
        block.len - size + 1
    } else {
        0
    }
}

/// The number of cells at which a warrior of `size` cells can start, over
/// all the blocks.
pub open spec fn feasible_total(blocks: Seq<Block>, size: int) -> int
    decreases blocks.len(),
{
    if blocks.len() == 0 {
        0
    } else {
        feasible_total(blocks.drop_last(), size) + feasible_in(blocks.last(), size)
    }
}

/// The block that holds the `n`-th start cell, counting from 0 through the
/// blocks in their order and through each block upwards.
pub open spec fn block_of(blocks: Seq<Block>, size: int, n: int) -> int
    decreases blocks.len(),
{
    if blocks.len() == 0 {
        0
    } else if n < feasible_total(blocks.drop_last(), size) {
        block_of(blocks.drop_last(), size, n)
    } else {
        blocks.len() - 1
    }
}

/// The `n`-th start cell.
pub open spec fn offset_of(blocks: Seq<Block>, size: int, n: int) -> int {
    let i = block_of(blocks, size, n);
    blocks[i].start + (n - feasible_total(blocks.take(i), size))
}

/// What is left of a block once a warrior of `size` cells lies in it from
/// cell `offset` on, with `separation` cells kept free on either side of the
/// warrior: the run before it and the run after it, as far as they have
/// cells.
pub open spec fn pieces(block: Block, offset: int, size: int, separation: int) -> Seq<Block> {
    let before = offset - block.start - separation;
    let after = block.start + block.len - (offset + size) - separation;
    (if before > 0 {
        seq![Block { start: block.start, len: before as usize }]
    } else {
        seq![]
    }) + (if after > 0 {
        seq![Block { start: (offset + size + separation) as usize, len: after as usize }]
    } else {
        seq![]
    })
}

/// The free blocks once a warrior of `size` cells lies at the `n`-th start
/// cell.
pub open spec fn split(blocks: Seq<Block>, size: int, separation: int, n: int) -> Seq<Block> {
    let i = block_of(blocks, size, n);
    blocks.take(i) + pieces(blocks[i], offset_of(blocks, size, n), size, separation)
        + blocks.skip(i + 1)
}

/// The free blocks once the first warrior, of `size` cells, lies
/// `separation` cells into a core of `core` cells: what is left behind the
/// warrior and its separation, if anything.
pub open spec fn initial_blocks(core: int, separation: int, size: int) -> Seq<Block> {
    let start = separation + size + separation;
    if start < core {
        seq![Block { start: start as usize, len: (core - start) as usize }]
    } else {
        seq![]
    }
}

/// Whether the blocks have cells and follow one another without overlap.
pub open spec fn ordered(blocks: Seq<Block>) -> bool {
    &&& forall|i: int| 0 <= i < blocks.len() ==> (#[trigger] blocks[i]).len >= 1
    &&& forall|i: int, j: int|
        0 <= i < j < blocks.len() ==> (#[trigger] blocks[i]).start + blocks[i].len <= (
        #[trigger] blocks[j]).start
}

/// The cell behind the last block, or 0 where there is no block.
pub open spec fn end_of(blocks: Seq<Block>) -> int {
    if blocks.len() == 0 {
        0
    } else {
        blocks.last().start + blocks.last().len
    }
}

/// All but the last of blocks in order are in order, and end before the
/// last begins.
pub proof fn lemma_ordered_front(blocks: Seq<Block>)
    requires
        ordered(blocks),
        blocks.len() > 0,
    ensures
        ordered(blocks.drop_last()),
        end_of(blocks.drop_last()) <= blocks.last().start,
{
    let front = blocks.drop_last();
    assert forall|i: int| 0 <= i < front.len() implies (#[trigger] front[i]).len >= 1 by {}
    assert forall|i: int, j: int| 0 <= i < j < front.len() implies (#[trigger] front[i]).start
        + front[i].len <= (#[trigger] front[j]).start by {}
}

/// Every block ends at or before the end of the last.
pub proof fn lemma_ends_before_end(blocks: Seq<Block>, i: int)
    requires
        ordered(blocks),
        0 <= i < blocks.len(),
    ensures
        blocks[i].start + blocks[i].len <= end_of(blocks),
{
}

/// There are no more start cells than cells before the end of the last
/// block.
pub proof fn lemma_total_bounded(blocks: Seq<Block>, size: int)
    requires
        ordered(blocks),
        size >= 1,
    ensures
        0 <= feasible_total(blocks, size) <= end_of(blocks),
    decreases blocks.len(),
{
    if blocks.len() > 0 {
        lemma_ordered_front(blocks);
        lemma_total_bounded(blocks.drop_last(), size);
    }
}

/// The start cells of the first `i + 1` blocks are those of the first `i`
/// and those of block `i`.
pub proof fn lemma_total_take(blocks: Seq<Block>, size: int, i: int)
    requires
        0 <= i < blocks.len(),
    ensures
        feasible_total(blocks.take(i + 1), size) == feasible_total(blocks.take(i), size)
            + feasible_in(blocks[i], size),
        feasible_in(blocks[i], size) >= 0,
{
    assert(blocks.take(i + 1).drop_last() =~= blocks.take(i));
}

/// The more blocks, the more start cells.
pub proof fn lemma_total_grows(blocks: Seq<Block>, size: int, i: int, j: int)
    requires
        0 <= i <= j <= blocks.len(),
    ensures
        feasible_total(blocks.take(i), size) <= feasible_total(blocks.take(j), size),
    decreases j - i,
{
    if i < j {
        lemma_total_take(blocks, size, j - 1);
        lemma_total_grows(blocks, size, i, j - 1);
    }
}

/// The block whose start cells the count `n` falls among is the block that
/// holds the `n`-th start cell.
pub proof fn lemma_block_found(blocks: Seq<Block>, size: int, n: int, i: int)
    requires
        0 <= i < blocks.len(),
        feasible_total(blocks.take(i), size) <= n < feasible_total(blocks.take(i + 1), size),
    ensures
        block_of(blocks, size, n) == i,
    decreases blocks.len(),
{
    let front = blocks.drop_last();
    if n < feasible_total(front, size) {
        assert(front.take(i) =~= blocks.take(i));
        assert(front.take(i + 1) =~= blocks.take(i + 1));
        lemma_block_found(front, size, n, i);
    } else {
        if i < blocks.len() - 1 {
            lemma_total_grows(blocks, size, i + 1, blocks.len() - 1);
        }
    }
}

/// Counts the cells at which a warrior of `size` cells can start.
pub fn count_choices(free_blocks: &Vec<Block>, size: usize) -> (res: usize)
    requires
        ordered(free_blocks@),
        end_of(free_blocks@) <= isize::MAX,
        size >= 1,
    ensures
        res == feasible_total(free_blocks@, size as int),
{
    let mut total: usize = 0;
    let mut i: usize = 0;
    while i < free_blocks.len()
        invariant
            i <= free_blocks@.len(),
            ordered(free_blocks@),
            end_of(free_blocks@) <= isize::MAX,
            size >= 1,
            total == feasible_total(free_blocks@.take(i as int), size as int),
        decreases free_blocks@.len() - i,
    {
        proof {
            lemma_total_take(free_blocks@, size as int, i as int);
            lemma_total_grows(free_blocks@, size as int, i as int + 1, free_blocks@.len() as int);
            assert(free_blocks@.take(free_blocks@.len() as int) =~= free_blocks@);
            lemma_total_bounded(free_blocks@, size as int);
        }
        let block = free_blocks[i];
        if block.len >= size {
            total = total + (block.len - size + 1);
        }
        i += 1;
    }
    assert(free_blocks@.take(i as int) =~= free_blocks@);
    total
}

/// Blocks stay in order when one of them gives way to blocks in order that
/// lie inside it, and they end no later than before.
pub proof fn lemma_replace_ordered(blocks: Seq<Block>, i: int, inner: Seq<Block>)
    requires
        ordered(blocks),
        0 <= i < blocks.len(),
        ordered(inner),
        forall|k: int|
            0 <= k < inner.len() ==> blocks[i].start <= (#[trigger] inner[k]).start && inner[k].start
                + inner[k].len <= blocks[i].start + blocks[i].len,
    ensures
        ordered(blocks.take(i) + inner + blocks.skip(i + 1)),
        end_of(blocks.take(i) + inner + blocks.skip(i + 1)) <= end_of(blocks),
{
    let res = blocks.take(i) + inner + blocks.skip(i + 1);
    let m = inner.len() as int;
    assert forall|p: int| 0 <= p < res.len() implies (#[trigger] res[p]).len >= 1 && res[p].start
        + res[p].len <= end_of(blocks) && (p < i ==> res[p] == blocks[p]) && (i <= p < i + m
        ==> res[p] == inner[p - i]) && (p >= i + m ==> res[p] == blocks[p - m + 1]) by {
        if p < i {
            lemma_ends_before_end(blocks, p);
        } else if p < i + m {
            lemma_ends_before_end(blocks, i);
        } else {
            lemma_ends_before_end(blocks, p - m + 1);
        }
    }
    assert forall|p: int, q: int| 0 <= p < q < res.len() implies (#[trigger] res[p]).start
        + res[p].len <= (#[trigger] res[q]).start by {}
}

/// Finds the block that holds the `n`-th start cell, and counts the start
/// cells of the blocks before it.
fn locate(free_blocks: &Vec<Block>, size: usize, n: usize) -> (res: (usize, usize))
    requires
        ordered(free_blocks@),
        end_of(free_blocks@) <= isize::MAX,
        size >= 1,
        n < feasible_total(free_blocks@, size as int),
    ensures
        res.0 < free_blocks@.len(),
        res.0 == block_of(free_blocks@, size as int, n as int),
        res.1 == feasible_total(free_blocks@.take(res.0 as int), size as int),
        res.1 <= n,
        n - res.1 < feasible_in(free_blocks@[res.0 as int], size as int),
{
    let ghost blocks = free_blocks@;
    let mut passed: usize = 0;
    let mut i: usize = 0;
    loop
        invariant
            free_blocks@ == blocks,
            i < blocks.len() == free_blocks.len(),
            passed == feasible_total(blocks.take(i as int), size as int),
            passed <= n < feasible_total(blocks, size as int),
            ordered(blocks),
            end_of(blocks) <= isize::MAX,
            size >= 1,
        ensures
            i < blocks.len(),
            passed == feasible_total(blocks.take(i as int), size as int),
            passed <= n < feasible_total(blocks.take(i as int + 1), size as int),
        decreases blocks.len() - i,
    {
        proof {
            lemma_total_take(blocks, size as int, i as int);
            lemma_ends_before_end(blocks, i as int);
        }
        let block = free_blocks[i];
        let here: usize = if block.len >= size {
            block.len - size + 1
        } else {
            0
        };
        if n - passed < here {
            break ;
        }
        passed = passed + here;
        i = i + 1;
    }
    proof {
        lemma_block_found(blocks, size as int, n as int, i as int);
        lemma_total_take(blocks, size as int, i as int);
    }
    (i, passed)
}

/// Lays a warrior of `size` cells at the `n`-th of the cells at which it can
/// start, takes the cells it covers and `min_separation` cells on either
/// side of it out of the free blocks, and gives the cell it starts at.
pub fn claim(free_blocks: &mut Vec<Block>, size: usize, min_separation: usize, n: usize) -> (offset:
    usize)
    requires
        ordered(old(free_blocks)@),
        end_of(old(free_blocks)@) <= isize::MAX,
        size >= 1,
        n < feasible_total(old(free_blocks)@, size as int),
    ensures
        offset == offset_of(old(free_blocks)@, size as int, n as int),
        final(free_blocks)@ == split(
            old(free_blocks)@,
            size as int,
            min_separation as int,
            n as int,
        ),
        ordered(final(free_blocks)@),
        end_of(final(free_blocks)@) <= end_of(old(free_blocks)@),
        offset + size <= end_of(old(free_blocks)@),
{
    let ghost blocks = free_blocks@;
    let (i, passed) = locate(free_blocks, size, n);
    proof {
        lemma_ends_before_end(blocks, i as int);
    }
    let block = free_blocks.remove(i);
    let lead: usize = n - passed;
    let offset: usize = block.start + lead;
    let tail: usize = block.len - size - lead;
    let ghost inner = pieces(block, offset as int, size as int, min_separation as int);
    if tail > min_separation {
        free_blocks.insert(
            i,
            Block { start: offset + size + min_separation, len: tail - min_separation },
        );
    }
    if lead > min_separation {
        free_blocks.insert(i, Block { start: block.start, len: lead - min_separation });
    }
    proof {
        lemma_replace_ordered(blocks, i as int, inner);
    }
    offset
}

/// Where the warriors placed so far start, and the blocks still free.
pub struct Layout {
    pub offsets: Seq<usize>,
    pub free: Seq<Block>,
}

/// The layout once the first `placed` of the warriors, whose lengths are
/// `lens`, lie in a core of `core` cells, or nothing if one of them found no
/// room. The first warrior starts `separation` cells into the core. Each
/// later one starts at the cell that its draw picks among the cells at
/// which it can start; the draw for warrior `k` is `draws[k - 1]`, taken
/// modulo the number of those cells.
pub open spec fn layout(
    core: int,
    separation: int,
    lens: Seq<nat>,
    draws: Seq<int>,
    placed: nat,
) -> Option<Layout>
    decreases placed,
{
    if placed == 0 {
        Some(Layout { offsets: seq![], free: seq![] })
    } else if placed == 1 {
        let size = footprint(lens[0]);
        if separation + size <= core {
            Some(
                Layout {
                    offsets: seq![separation as usize],
                    free: initial_blocks(core, separation, size),
                },
            )
        } else {
            None
        }
    } else {
        match layout(core, separation, lens, draws, (placed - 1) as nat) {
            Some(before) => {
                let size = footprint(lens[placed - 1]);
                let choices = feasible_total(before.free, size);
                if choices == 0 {
                    None
                } else {
                    let n = draws[placed - 2] % choices;
                    Some(
                        Layout {
                            offsets: before.offsets.push(offset_of(before.free, size, n) as usize),
                            free: split(before.free, size, separation, n),
                        },
                    )
                }
            },
            None => None,
        }
    }
}

/// The cells at which the warriors start once all of them are placed, or
/// nothing if one of them found no room.
pub open spec fn insertion_points(
    core: int,
    separation: int,
    lens: Seq<nat>,
    draws: Seq<int>,
) -> Option<Seq<usize>> {
    match layout(core, separation, lens, draws, lens.len()) {
        Some(all) => Some(all.offsets),
        None => None,
    }
}

/// The lengths of the programs.
pub open spec fn lens_of(programs: Seq<Vec<Instruction>>) -> Seq<nat> {
    Seq::new(programs.len(), |k: int| programs[k]@.len())
}

/// Whether a result says what the placement came to: the start cells, or
/// that the core has no room.
pub open spec fn agrees(res: Result<Vec<usize>, EngineError>, points: Option<Seq<usize>>) -> bool {
    match points {
        Some(offsets) => res is Ok && res->Ok_0@ == offsets,
        None => res == Err::<Vec<usize>, EngineError>(EngineError::InsufficientSpace),
    }
}

/// A layout does not depend on draws that are made after it.
pub proof fn lemma_layout_prefix(
    core: int,
    separation: int,
    lens: Seq<nat>,
    draws: Seq<int>,
    more: Seq<int>,
    placed: nat,
)
    requires
        forall|j: int| 0 <= j < placed - 1 ==> draws[j] == more[j],
    ensures
        layout(core, separation, lens, draws, placed) == layout(core, separation, lens, more, placed),
    decreases placed,
{
    if placed > 1 {
        lemma_layout_prefix(core, separation, lens, draws, more, (placed - 1) as nat);
    }
}

/// Once a warrior has found no room, none is found later either.
pub proof fn lemma_layout_stays_none(
    core: int,
    separation: int,
    lens: Seq<nat>,
    draws: Seq<int>,
    failed: nat,
    placed: nat,
)
    requires
        1 <= failed <= placed,
        layout(core, separation, lens, draws, failed) is None,
    ensures
        layout(core, separation, lens, draws, placed) is None,
    decreases placed,
{
    if failed < placed {
        lemma_layout_stays_none(core, separation, lens, draws, failed, (placed - 1) as nat);
    }
}

/// A single warrior gets its place exactly when it fits behind the
/// separation, whatever is drawn.
pub proof fn lemma_single_warrior(core: int, separation: int, len: nat, draws: Seq<int>)
    ensures
        insertion_points(core, separation, seq![len], draws) == (if separation + footprint(len)
            <= core {
            Some(seq![separation as usize])
        } else {
            None
        }),
{
}

/// Whether two runs of cells, given by their first cell and their length,
/// have at least `separation` cells between them.
pub open spec fn apart(start: int, len: int, other_start: int, other_len: int, separation: int) -> bool {
    start + len + separation <= other_start || other_start + other_len + separation <= start
}

/// Whether a layout keeps the warriors in the core and apart: every warrior
/// placed lies inside the core, any two of them have `separation` cells
/// between them, and the free blocks are in order, inside the core, and
/// `separation` cells away from every warrior and from one another.
pub open spec fn settled(all: Layout, lens: Seq<nat>, core: int, separation: int) -> bool {
    &&& ordered(all.free)
    &&& end_of(all.free) <= core
    &&& forall|i: int, j: int|
        0 <= i < j < all.free.len() ==> (#[trigger] all.free[i]).start + all.free[i].len + separation
            <= (#[trigger] all.free[j]).start
    &&& forall|k: int|
        0 <= k < all.offsets.len() ==> (#[trigger] all.offsets[k]) + footprint(lens[k]) <= core
    &&& forall|j: int, k: int|
        0 <= j < k < all.offsets.len() ==> apart(
            #[trigger] all.offsets[j] as int,
            footprint(lens[j]),
            #[trigger] all.offsets[k] as int,
            footprint(lens[k]),
            separation,
        )
    &&& forall|k: int, i: int|
        0 <= k < all.offsets.len() && 0 <= i < all.free.len() ==> apart(
            #[trigger] all.offsets[k] as int,
            footprint(lens[k]),
            (#[trigger] all.free[i]).start as int,
            all.free[i].len as int,
            separation,
        )
}

/// The `n`-th start cell lies in the block that holds it, so that a warrior
/// of `size` cells that starts there ends inside the block.
pub proof fn lemma_choice_in_block(blocks: Seq<Block>, size: int, n: int)
    requires
        0 <= n < feasible_total(blocks, size),
    ensures
        0 <= block_of(blocks, size, n) < blocks.len(),
        blocks[block_of(blocks, size, n)].start <= offset_of(blocks, size, n),
        offset_of(blocks, size, n) + size <= blocks[block_of(blocks, size, n)].start
            + blocks[block_of(blocks, size, n)].len,
        feasible_total(blocks.take(block_of(blocks, size, n)), size) <= n < feasible_total(
            blocks.take(block_of(blocks, size, n) + 1),
            size,
        ),
    decreases blocks.len(),
{
    let front = blocks.drop_last();
    if n < feasible_total(front, size) {
        lemma_choice_in_block(front, size, n);
        let i = block_of(front, size, n);
        assert(front.take(i) =~= blocks.take(i));
    }
    lemma_total_take(blocks, size, block_of(blocks, size, n));
}

/// What stands at each place once block `i` has given way to the blocks
/// `inner`.
pub proof fn lemma_replaced_at(blocks: Seq<Block>, i: int, inner: Seq<Block>, p: int)
    requires
        0 <= i < blocks.len(),
        0 <= p < blocks.len() - 1 + inner.len(),
    ensures
        (blocks.take(i) + inner + blocks.skip(i + 1)).len() == blocks.len() - 1 + inner.len(),
        p < i ==> (blocks.take(i) + inner + blocks.skip(i + 1))[p] == blocks[p],
        i <= p < i + inner.len() ==> (blocks.take(i) + inner + blocks.skip(i + 1))[p] == inner[p
            - i],
        p >= i + inner.len() ==> (blocks.take(i) + inner + blocks.skip(i + 1))[p] == blocks[p
            - inner.len() + 1],
{
}

/// Placing one more warrior keeps a layout settled.
pub proof fn lemma_placing_keeps_settled(
    before: Layout,
    lens: Seq<nat>,
    core: int,
    separation: int,
    n: int,
)
    requires
        settled(before, lens, core, separation),
        0 <= separation,
        core <= usize::MAX,
        before.offsets.len() < lens.len(),
        0 <= n < feasible_total(before.free, footprint(lens[before.offsets.len() as int])),
    ensures
        settled(
            Layout {
                offsets: before.offsets.push(
                    offset_of(before.free, footprint(lens[before.offsets.len() as int]), n) as usize,
                ),
                free: split(
                    before.free,
                    footprint(lens[before.offsets.len() as int]),
                    separation,
                    n,
                ),
            },
            lens,
            core,
            separation,
        ),
{
    let placed = before.offsets.len() as int;
    let size = footprint(lens[placed]);
    let blocks = before.free;
    let i = block_of(blocks, size, n);
    let offset = offset_of(blocks, size, n);
    lemma_choice_in_block(blocks, size, n);
    let block = blocks[i];
    lemma_ends_before_end(blocks, i);
    let inner = pieces(block, offset, size, separation);
    let free = blocks.take(i) + inner + blocks.skip(i + 1);
    let offsets = before.offsets.push(offset as usize);
    // the pieces lie in the block, in order, and clear of the warrior
    assert forall|k: int| 0 <= k < inner.len() implies block.start <= (#[trigger] inner[k]).start
        && inner[k].start + inner[k].len <= block.start + block.len && inner[k].len >= 1 && apart(
        offset,
        size,
        inner[k].start as int,
        inner[k].len as int,
        separation,
    ) by {}
    lemma_replace_ordered(blocks, i, inner);
    assert forall|p: int, q: int| 0 <= p < q < free.len() implies (#[trigger] free[p]).start
        + free[p].len + separation <= (#[trigger] free[q]).start by {
        lemma_replaced_at(blocks, i, inner, p);
        lemma_replaced_at(blocks, i, inner, q);
    }
    assert forall|k: int| 0 <= k < offsets.len() implies (#[trigger] offsets[k]) + footprint(
        lens[k],
    ) <= core by {}
    assert forall|j: int, k: int| 0 <= j < k < offsets.len() implies apart(
        #[trigger] offsets[j] as int,
        footprint(lens[j]),
        #[trigger] offsets[k] as int,
        footprint(lens[k]),
        separation,
    ) by {
        if k == placed {
            assert(apart(
                before.offsets[j] as int,
                footprint(lens[j]),
                blocks[i].start as int,
                blocks[i].len as int,
                separation,
            ));
        }
    }
    assert forall|k: int, p: int| 0 <= k < offsets.len() && 0 <= p < free.len() implies apart(
        #[trigger] offsets[k] as int,
        footprint(lens[k]),
        (#[trigger] free[p]).start as int,
        free[p].len as int,
        separation,
    ) by {
        lemma_replaced_at(blocks, i, inner, p);
    }
}

/// Minimum separation: however the draws fall, the warriors of a layout lie
/// inside the core, each in cells of its own, and any two of them have at
/// least `separation` cells between them.
pub proof fn lemma_layout_settled(
    core: int,
    separation: int,
    lens: Seq<nat>,
    draws: Seq<int>,
    placed: nat,
)
    requires
        0 <= separation,
        0 <= core <= usize::MAX,
        placed <= lens.len(),
        placed <= draws.len() + 1,
        layout(core, separation, lens, draws, placed) is Some,
    ensures
        layout(core, separation, lens, draws, placed)->0.offsets.len() == placed,
        settled(layout(core, separation, lens, draws, placed)->0, lens, core, separation),
    decreases placed,
{
    if placed > 1 {
        let before = layout(core, separation, lens, draws, (placed - 1) as nat)->0;
        lemma_layout_settled(core, separation, lens, draws, (placed - 1) as nat);
        let size = footprint(lens[placed - 1]);
        let choices = feasible_total(before.free, size);
        lemma_total_bounded(before.free, size);
        vstd::arithmetic::div_mod::lemma_mod_bound(draws[placed - 2], choices);
        lemma_placing_keeps_settled(before, lens, core, separation, draws[placed - 2] % choices);
    }
}

/// Makes the generator that `seed` stands for, by `SeedableRng::seed_from_u64`
/// of the `rand` crate. Nothing is claimed of the generator.
#[verifier::external_body]
pub(crate) fn seeded(seed: u64) -> StdRng {
    rand::SeedableRng::seed_from_u64(seed)
}

/// Draws a number below `bound` from the generator, by `Rng::gen_range` of
/// the `rand` crate with the bounds 0 and `bound`. All that is claimed is
/// that the number lies below the bound; which number comes is up to the
/// generator. `gen_range` panics on an empty range, so the bound must not be
/// zero.
#[verifier::external_body]
pub(crate) fn draw_below(rng: &mut StdRng, bound: usize) -> (n: usize)
    requires
        bound > 0,
    ensures
        n < bound,
{
    rand::Rng::gen_range(rng, 0, bound)
}

/// The cells a program needs in the core.
pub fn cells_needed(program: &Vec<Instruction>) -> (res: usize)
    ensures
        res == footprint(program@.len()),
        res >= 1,
{
    if program.len() == 0 {
        1
    } else {
        program.len()
    }
}

/// Places the first warrior `min_separation` cells into a core of `size`
/// cells, and gives the blocks that stay free, or nothing if the warrior
/// does not fit.
pub fn place_first(size: usize, needed: usize, min_separation: usize) -> (res: Option<Vec<Block>>)
    requires
        size <= isize::MAX,
        needed >= 1,
    ensures
        res is Some <==> min_separation + needed <= size,
        res is Some ==> res->0@ == initial_blocks(size as int, min_separation as int, needed as int)
            && ordered(res->0@) && end_of(res->0@) <= size,
{
    if min_separation > size || needed > size - min_separation {
        return None;
    }
    let room: usize = size - min_separation - needed;
    let mut free_blocks: Vec<Block> = Vec::new();
    if room > min_separation {
        free_blocks.push(
            Block { start: min_separation + needed + min_separation, len: room - min_separation },
        );
    }
    Some(free_blocks)
}

/// Chooses the cell at which each program starts in a core of `size` cells:
/// the first `min_separation` cells in, each later one at a cell drawn from
/// `rng` among the cells at which it can start, so that any two programs
/// keep at least `min_separation` free cells between them.
///
/// Whatever is drawn, the result is what `insertion_points` gives for some
/// sequence of draws: the start cells, or `InsufficientSpace` when a
/// program finds no cell to start at.
pub(crate) fn generate_random_insertion_points(
    size: usize,
    programs: &[Vec<Instruction>],
    min_separation: usize,
    rng: &mut StdRng,
) -> (res: Result<Vec<usize>, EngineError>)
    requires
        programs@.len() > 0,
        size <= isize::MAX,
    ensures
        exists|draws: Seq<int>|
            draws.len() + 1 == programs@.len() && agrees(
                res,
                #[trigger] insertion_points(
                    size as int,
                    min_separation as int,
                    lens_of(programs@),
                    draws,
                ),
            ),
        res is Ok ==> res->Ok_0@.len() == programs@.len() && forall|k: int|
            0 <= k < programs@.len() ==> (#[trigger] res->Ok_0@[k]) + footprint(programs@[k]@.len())
                <= size,
{
    let ghost core = size as int;
    let ghost separation = min_separation as int;
    let ghost lens = lens_of(programs@);
    let ghost mut draws: Seq<int> = Seq::empty();

    let mut free_blocks = match place_first(size, cells_needed(&programs[0]), min_separation) {
        Some(free_blocks) => free_blocks,
        None => {
            let ghost more = Seq::new((lens.len() - 1) as nat, |j: int| 0int);
            proof {
                lemma_layout_stays_none(core, separation, lens, more, 1, lens.len());
            }
            let res = Err(EngineError::InsufficientSpace);
            assert(agrees(res, insertion_points(core, separation, lens, more)));
            return res;
        },
    };
    let mut indices: Vec<usize> = Vec::new();
    indices.push(min_separation);

    let mut k: usize = 1;
    while k < programs.len()
        invariant
            1 <= k <= programs@.len(),
            core == size <= isize::MAX,
            separation == min_separation,
            lens == lens_of(programs@),
            draws.len() == k - 1,
            layout(core, separation, lens, draws, k as nat) == Some(
                Layout { offsets: indices@, free: free_blocks@ },
            ),
            ordered(free_blocks@),
            end_of(free_blocks@) <= size,
            indices@.len() == k,
            forall|j: int|
                0 <= j < k ==> (#[trigger] indices@[j]) + footprint(programs@[j]@.len()) <= size,
        decreases programs@.len() - k,
    {
        let needed = cells_needed(&programs[k]);
        let choices = count_choices(&free_blocks, needed);
        if choices == 0 {
            let ghost more = draws + Seq::new((lens.len() - k) as nat, |j: int| 0int);
            proof {
                lemma_layout_prefix(core, separation, lens, draws, more, k as nat);
                lemma_layout_stays_none(core, separation, lens, more, (k + 1) as nat, lens.len());
            }
            let res = Err(EngineError::InsufficientSpace);
            assert(agrees(res, insertion_points(core, separation, lens, more)));
            return res;
        }
        let n = draw_below(rng, choices);
        proof {
            let more = draws.push(n as int);
            lemma_layout_prefix(core, separation, lens, draws, more, k as nat);
            vstd::arithmetic::div_mod::lemma_small_mod(n as nat, choices as nat);
            draws = more;
        }
        let offset = claim(&mut free_blocks, needed, min_separation, n);
        indices.push(offset);
        k = k + 1;
    }
    let res = Ok(indices);
    assert(agrees(res, insertion_points(core, separation, lens, draws)));
    res
}

} // verus!
