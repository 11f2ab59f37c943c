//! The chain service: it takes candidate blocks, keeps every accepted block
//! in the arena with the cells it consumes and creates, and holds the cell
//! index of the canonical branch, unwinding and replaying it when the tip
//! moves.

use crate::cells::{
    applied, apply_fault, can_accept, can_apply, can_revert, cells_of, consistent, item_set,
    lemma_apply_keeps_consistent,
    lemma_can_apply_sets, lemma_revert_undoes_apply, reverted, status_of, BlockCells, CellError,
    CellSet, CellState, CellStatus,
};
use crate::fork::{
    arena_wf, branch_above, child_entry, child_refused, is_ancestor, is_common_ancestor,
    is_fork_point, lemma_ancestor_height, lemma_branch_links, BlockArena, BlockEntry, TipChange,
};
use vstd::prelude::*;

verus! {

/// How an accepted block stands to the canonical chain.
#[derive(Clone, Copy, Debug, PartialEq, Eq, Structural)]
pub enum AcceptanceStatus {
    /// The block is the new canonical tip.
    Canonical,
    /// The block is kept on a branch beside the canonical chain.
    SideBranch,
}

/// Why a block is not accepted.
#[derive(Clone, Copy, Debug, PartialEq, Eq, Structural)]
pub enum RejectionReason {
    /// The parent is not held, or shares no block with the canonical chain.
    Unconnectable,
    /// The block's height or accumulated work does not fit.
    OutOfRange,
    /// The block's cells cannot be applied on top of its parent.
    Cells(CellError),
}

/// A candidate block as the service takes it: where it stands, what work it
/// carries, and the cells it touches.
#[derive(Debug)]
pub struct Block {
    /// Place of the parent; `None` for the block that starts the chain.
    pub parent: Option<usize>,
    /// Height of a block that starts the chain; not read otherwise.
    pub root_height: u64,
    /// The block's own work.
    pub work: u128,
    pub cells: BlockCells,
}

/// Height, place and accumulated work of the canonical tip.
#[derive(Clone, Copy, Debug, PartialEq, Eq, Structural)]
pub struct ChainTipSnapshot {
    pub id: usize,
    pub height: u64,
    pub score: u128,
}

/// What the service holds: the blocks, the cells of each, the cell index of
/// the canonical branch, and the canonical tip.
pub struct ChainView {
    pub blocks: Seq<BlockEntry>,
    pub deltas: Seq<(Seq<u64>, Seq<u64>)>,
    pub cells: CellState,
    pub tip: Option<usize>,
}

/// The index without cells.
pub open spec fn empty_state() -> CellState {
    CellState { live: Set::empty(), dead: Set::empty() }
}

/// The cell index of the branch that ends in `x`: the blocks from the start
/// of the chain up to `x`, applied in order.
pub open spec fn state_of(blocks: Seq<BlockEntry>, deltas: Seq<(Seq<u64>, Seq<u64>)>, x: int) -> CellState
    decreases x,
{
    if 0 <= x < blocks.len() && x < deltas.len() {
        let base = match blocks[x].parent {
            Some(p) => if p < x {
                state_of(blocks, deltas, p as int)
            } else {
                empty_state()
            },
            None => empty_state(),
        };
        applied(base, deltas[x].0, deltas[x].1)
    } else {
        empty_state()
    }
}

/// The cell index that a block on top of `parent` is applied to.
pub open spec fn state_before(
    blocks: Seq<BlockEntry>,
    deltas: Seq<(Seq<u64>, Seq<u64>)>,
    parent: Option<usize>,
) -> CellState {
    match parent {
        Some(p) => state_of(blocks, deltas, p as int),
        None => empty_state(),
    }
}

/// The block at `x` can be applied on top of its parent.
pub open spec fn block_valid(blocks: Seq<BlockEntry>, deltas: Seq<(Seq<u64>, Seq<u64>)>, x: int) -> bool {
    can_apply(state_before(blocks, deltas, blocks[x].parent), deltas[x].0, deltas[x].1)
}

/// Every block has its cells, came after its parent, and can be applied on
/// top of it.
pub open spec fn blocks_wf(blocks: Seq<BlockEntry>, deltas: Seq<(Seq<u64>, Seq<u64>)>) -> bool {
    &&& arena_wf(blocks)
    &&& blocks.len() == deltas.len()
    &&& blocks.len() <= usize::MAX
    &&& forall|x: int| 0 <= x < blocks.len() ==> #[trigger] block_valid(blocks, deltas, x)
}

/// The service's invariant: the blocks are well formed, and the cell index
/// is that of the canonical tip's branch.
pub open spec fn chain_wf(v: ChainView) -> bool {
    &&& blocks_wf(v.blocks, v.deltas)
    &&& match v.tip {
        Some(t) => t < v.blocks.len() && v.cells == state_of(v.blocks, v.deltas, t as int),
        None => v.blocks.len() == 0 && v.cells == empty_state(),
    }
}

/// The index after the blocks from `x` down to, and without, its ancestor
/// `f` have been taken back from `s`, highest first.
pub open spec fn rewound(
    blocks: Seq<BlockEntry>,
    deltas: Seq<(Seq<u64>, Seq<u64>)>,
    s: CellState,
    x: int,
    f: int,
) -> CellState
    decreases x,
{
    if 0 <= x < blocks.len() && x < deltas.len() && x != f {
        let back = reverted(s, deltas[x].0, deltas[x].1);
        match blocks[x].parent {
            Some(p) => if p < x {
                rewound(blocks, deltas, back, p as int, f)
            } else {
                back
            },
            None => back,
        }
    } else {
        s
    }
}

/// A block can be placed on top of `parent`: with no block held, the first
/// one has no parent; later ones name a parent that is held and shares a
/// block with the canonical chain.
pub open spec fn connectable(v: ChainView, parent: Option<usize>) -> bool {
    match parent {
        None => v.tip.is_none(),
        Some(p) => shares_history(v, p),
    }
}

/// The block at `place` is held and shares a block with the canonical
/// chain.
pub open spec fn shares_history(v: ChainView, place: usize) -> bool {
    v.tip.is_some() && place < v.blocks.len() && exists|c: int| #[trigger]
        is_common_ancestor(v.blocks, c, v.tip.unwrap() as int, place as int)
}

/// A block of `work` on top of `parent` has strictly more accumulated work
/// than the canonical tip.
pub open spec fn heavier(v: ChainView, parent: Option<usize>, work: u128) -> bool {
    match v.tip {
        Some(t) => child_entry(v.blocks, parent, 0, work).score > v.blocks[t as int].score,
        None => true,
    }
}

/// On every branch of well-formed blocks, no cell is live and dead at once.
pub proof fn lemma_branch_consistent(blocks: Seq<BlockEntry>, deltas: Seq<(Seq<u64>, Seq<u64>)>, x: int)
    requires
        blocks_wf(blocks, deltas),
        0 <= x < blocks.len(),
    ensures
        consistent(state_of(blocks, deltas, x)),
        consistent(state_before(blocks, deltas, blocks[x].parent)),
        state_of(blocks, deltas, x) == applied(
            state_before(blocks, deltas, blocks[x].parent),
            deltas[x].0,
            deltas[x].1,
        ),
        can_revert(state_of(blocks, deltas, x), deltas[x].0, deltas[x].1),
        reverted(state_of(blocks, deltas, x), deltas[x].0, deltas[x].1) == state_before(
            blocks,
            deltas,
            blocks[x].parent,
        ),
    decreases x,
{
    assert(block_valid(blocks, deltas, x));
    match blocks[x].parent {
        Some(p) => {
            lemma_branch_consistent(blocks, deltas, p as int);
        },
        None => {},
    }
    let base = state_before(blocks, deltas, blocks[x].parent);
    lemma_apply_keeps_consistent(base, deltas[x].0, deltas[x].1);
    lemma_revert_undoes_apply(base, deltas[x].0, deltas[x].1);
}

/// In every state of the service no cell of the canonical branch is live
/// and dead at once.
pub proof fn lemma_canonical_consistent(v: ChainView)
    requires
        chain_wf(v),
    ensures
        consistent(v.cells),
{
    match v.tip {
        Some(t) => {
            lemma_branch_consistent(v.blocks, v.deltas, t as int);
        },
        None => {},
    }
}

/// A cell that is dead at a block stays dead on every branch above it.
pub proof fn lemma_dead_stays_dead(
    blocks: Seq<BlockEntry>,
    deltas: Seq<(Seq<u64>, Seq<u64>)>,
    a: int,
    x: int,
)
    requires
        blocks_wf(blocks, deltas),
        is_ancestor(blocks, a, x),
    ensures
        state_of(blocks, deltas, a).dead.subset_of(state_of(blocks, deltas, x).dead),
    decreases x,
{
    if a != x {
        let p = blocks[x].parent.unwrap() as int;
        lemma_dead_stays_dead(blocks, deltas, a, p);
        lemma_branch_consistent(blocks, deltas, x);
    }
}

/// A cell is spent at most once on a branch: no block consumes a cell that
/// a block below it on the same branch has consumed.
pub proof fn lemma_no_double_spend(
    blocks: Seq<BlockEntry>,
    deltas: Seq<(Seq<u64>, Seq<u64>)>,
    a: int,
    x: int,
    cell: u64,
)
    requires
        blocks_wf(blocks, deltas),
        is_ancestor(blocks, a, x),
        a != x,
        item_set(deltas[a].0).contains(cell),
    ensures
        !item_set(deltas[x].0).contains(cell),
{
    let p = blocks[x].parent.unwrap() as int;
    lemma_ancestor_height(blocks, a, p);
    lemma_branch_consistent(blocks, deltas, a);
    lemma_branch_consistent(blocks, deltas, x);
    lemma_dead_stays_dead(blocks, deltas, a, p);
    assert(state_of(blocks, deltas, a).dead.contains(cell));
    assert(state_of(blocks, deltas, p).dead.contains(cell));
    assert(block_valid(blocks, deltas, x));
    lemma_can_apply_sets(state_of(blocks, deltas, p), deltas[x].0, deltas[x].1);
}

/// Truncation is the inverse of application: taking back the blocks of a
/// branch from its tip `x` down to an ancestor `f` gives exactly the cell
/// index that the branch had at `f`.
pub proof fn lemma_truncate_inverts_apply(
    blocks: Seq<BlockEntry>,
    deltas: Seq<(Seq<u64>, Seq<u64>)>,
    x: int,
    f: int,
)
    requires
        blocks_wf(blocks, deltas),
        is_ancestor(blocks, f, x),
    ensures
        rewound(blocks, deltas, state_of(blocks, deltas, x), x, f) == state_of(blocks, deltas, f),
    decreases x,
{
    if x != f {
        lemma_branch_consistent(blocks, deltas, x);
        let p = blocks[x].parent.unwrap() as int;
        lemma_truncate_inverts_apply(blocks, deltas, p, f);
    }
}

/// A new block changes nothing of the branches that were there.
pub proof fn lemma_push_keeps_states(
    blocks: Seq<BlockEntry>,
    deltas: Seq<(Seq<u64>, Seq<u64>)>,
    entry: BlockEntry,
    delta: (Seq<u64>, Seq<u64>),
    x: int,
)
    requires
        arena_wf(blocks),
        blocks.len() == deltas.len(),
        0 <= x < blocks.len(),
    ensures
        state_of(blocks.push(entry), deltas.push(delta), x) == state_of(blocks, deltas, x),
    decreases x,
{
    assert(blocks.push(entry)[x] == blocks[x]);
    assert(deltas.push(delta)[x] == deltas[x]);
    match blocks[x].parent {
        Some(p) => {
            lemma_push_keeps_states(blocks, deltas, entry, delta, p as int);
        },
        None => {},
    }
}

/// A block that can be applied on top of its parent leaves the blocks well
/// formed when it is added.
pub proof fn lemma_push_keeps_wf(
    blocks: Seq<BlockEntry>,
    deltas: Seq<(Seq<u64>, Seq<u64>)>,
    parent: Option<usize>,
    root_height: u64,
    work: u128,
    delta: (Seq<u64>, Seq<u64>),
)
    requires
        blocks_wf(blocks, deltas),
        blocks.len() < usize::MAX,
        !child_refused(blocks, parent, work),
        arena_wf(blocks.push(child_entry(blocks, parent, root_height, work))),
        can_apply(state_before(blocks, deltas, parent), delta.0, delta.1),
    ensures
        blocks_wf(blocks.push(child_entry(blocks, parent, root_height, work)), deltas.push(delta)),
        state_of(
            blocks.push(child_entry(blocks, parent, root_height, work)),
            deltas.push(delta),
            blocks.len() as int,
        ) == applied(state_before(blocks, deltas, parent), delta.0, delta.1),
        forall|x: int|
            0 <= x < blocks.len() ==> #[trigger] state_of(
                blocks.push(child_entry(blocks, parent, root_height, work)),
                deltas.push(delta),
                x,
            ) == state_of(blocks, deltas, x),
{
    let entry = child_entry(blocks, parent, root_height, work);
    let more = blocks.push(entry);
    let more_deltas = deltas.push(delta);
    assert forall|x: int| 0 <= x < blocks.len() implies #[trigger] state_of(more, more_deltas, x)
        == state_of(blocks, deltas, x) by {
        lemma_push_keeps_states(blocks, deltas, entry, delta, x);
    }
    assert forall|x: int| 0 <= x < more.len() implies #[trigger] block_valid(
        more,
        more_deltas,
        x,
    ) by {
        if x < blocks.len() {
            assert(more[x] == blocks[x]);
            assert(more_deltas[x] == deltas[x]);
            assert(block_valid(blocks, deltas, x));
            match blocks[x].parent {
                Some(p) => {
                    assert(state_of(more, more_deltas, p as int) == state_of(
                        blocks,
                        deltas,
                        p as int,
                    ));
                },
                None => {},
            }
        } else {
            assert(more[x] == entry);
            assert(more_deltas[x] == delta);
            match parent {
                Some(p) => {
                    assert(state_of(more, more_deltas, p as int) == state_of(
                        blocks,
                        deltas,
                        p as int,
                    ));
                },
                None => {},
            }
        }
    }
    let n = blocks.len() as int;
    assert(more[n] == entry);
    assert(more_deltas[n] == delta);
    match parent {
        Some(p) => {
            assert(state_of(more, more_deltas, p as int) == state_of(blocks, deltas, p as int));
        },
        None => {},
    }
}

/// The cells of each block as pairs of sequences.
pub open spec fn deltas_view(deltas: Seq<BlockCells>) -> Seq<(Seq<u64>, Seq<u64>)> {
    Seq::new(deltas.len(), |i: int| (cells_of(deltas[i].inputs@), deltas[i].outputs@))
}

/// The chain service.
pub struct ChainService {
    arena: BlockArena,
    deltas: Vec<BlockCells>,
    cells: CellSet,
    tip: Option<usize>,
}

impl View for ChainService {
    type V = ChainView;

    closed spec fn view(&self) -> ChainView {
        ChainView {
            blocks: self.arena@,
            deltas: deltas_view(self.deltas@),
            cells: self.cells@,
            tip: self.tip,
        }
    }
}

impl ChainService {
    /// The service's invariant: see [`chain_wf`].
    pub open spec fn wf(&self) -> bool {
        chain_wf(self@)
    }

    /// A service that holds no block yet.
    pub fn new() -> (service: ChainService)
        ensures
            service.wf(),
            service@.blocks.len() == 0,
            service@.tip.is_none(),
    {
        let service = ChainService {
            arena: BlockArena::new(),
            deltas: Vec::new(),
            cells: CellSet::new(),
            tip: None,
        };
        proof {
            assert(service@.cells.live =~= empty_state().live);
            assert(service@.cells.dead =~= empty_state().dead);
            assert(service@.deltas.len() == 0);
        }
        service
    }

    /// The canonical tip, once a block has been accepted.
    pub fn canonical_tip(&self) -> (tip: Option<ChainTipSnapshot>)
        requires
            self.wf(),
        ensures
            tip == match self@.tip {
                Some(t) => Some(
                    ChainTipSnapshot {
                        id: t,
                        height: self@.blocks[t as int].height,
                        score: self@.blocks[t as int].score,
                    },
                ),
                None => None::<ChainTipSnapshot>,
            },
    {
        match self.tip {
            Some(t) => {
                let entry = self.arena.entry(t);
                Some(ChainTipSnapshot { id: t, height: entry.height, score: entry.score })
            },
            None => None,
        }
    }

    /// Where a cell stands on the canonical branch.
    pub fn get_cell(&self, cell: u64) -> (status: CellStatus)
        ensures
            status == status_of(self@.cells, cell),
    {
        self.cells.get_cell(cell)
    }

    /// Number of blocks held.
    pub fn len(&self) -> (n: usize)
        ensures
            n == self@.blocks.len(),
    {
        self.arena.len()
    }

    /// What a move of the canonical tip from `from` to `to` detaches and
    /// attaches, each in the order in which it is to be handled: detached
    /// blocks from the top down, attached blocks from the bottom up. `None`
    /// where the two share no block.
    pub fn tip_change(&self, from: usize, to: usize) -> (change: Option<TipChange>)
        requires
            self.wf(),
        ensures
            match change {
                Some(c) => is_fork_point(
                    self@.blocks,
                    c.fork_point as int,
                    from as int,
                    to as int,
                ) && c.detached@ == branch_above(self@.blocks, from as int, c.fork_point as int)
                    && c.attached@ == branch_above(
                    self@.blocks,
                    to as int,
                    c.fork_point as int,
                ).reverse(),
                None => forall|c: int|
                    !#[trigger] is_common_ancestor(self@.blocks, c, from as int, to as int),
            },
    {
        self.arena.tip_change(from, to)
    }

    // Takes the blocks from `from` down to its ancestor `to` back from the
    // cell index.
    fn rewind(&mut self, from: usize, to: usize)
        requires
            blocks_wf(old(self)@.blocks, old(self)@.deltas),
            is_ancestor(old(self)@.blocks, to as int, from as int),
            old(self)@.cells == state_of(old(self)@.blocks, old(self)@.deltas, from as int),
        ensures
            final(self)@.blocks == old(self)@.blocks,
            final(self)@.deltas == old(self)@.deltas,
            final(self)@.tip == old(self)@.tip,
            final(self)@.cells == state_of(old(self)@.blocks, old(self)@.deltas, to as int),
            final(self)@.cells == rewound(
                old(self)@.blocks,
                old(self)@.deltas,
                old(self)@.cells,
                from as int,
                to as int,
            ),
    {
        proof {
            lemma_truncate_inverts_apply(self@.blocks, self@.deltas, from as int, to as int);
        }
        let mut cur = from;
        while cur != to
            invariant
                self@.blocks == old(self)@.blocks,
                self@.deltas == old(self)@.deltas,
                self@.tip == old(self)@.tip,
                blocks_wf(self@.blocks, self@.deltas),
                is_ancestor(self@.blocks, to as int, cur as int),
                self@.cells == state_of(self@.blocks, self@.deltas, cur as int),
            decreases cur,
        {
            proof {
                lemma_branch_consistent(self@.blocks, self@.deltas, cur as int);
            }
            let below = self.arena.entry(cur).parent.unwrap();
            self.cells.revert_block(&self.deltas[cur]);
            cur = below;
        }
    }

    // Applies the blocks from above `from` up to its descendant `to` to the
    // cell index.
    fn replay(&mut self, from: usize, to: usize)
        requires
            blocks_wf(old(self)@.blocks, old(self)@.deltas),
            is_ancestor(old(self)@.blocks, from as int, to as int),
            old(self)@.cells == state_of(old(self)@.blocks, old(self)@.deltas, from as int),
        ensures
            final(self)@.blocks == old(self)@.blocks,
            final(self)@.deltas == old(self)@.deltas,
            final(self)@.tip == old(self)@.tip,
            final(self)@.cells == state_of(old(self)@.blocks, old(self)@.deltas, to as int),
    {
        let path = self.arena.collect_branch(to, from);
        let mut k: usize = path.len();
        proof {
            if path.len() > 0 {
                lemma_branch_links(self@.blocks, to as int, from as int, 0);
            }
        }
        while k > 0
            invariant
                self@.blocks == old(self)@.blocks,
                self@.deltas == old(self)@.deltas,
                self@.tip == old(self)@.tip,
                blocks_wf(self@.blocks, self@.deltas),
                is_ancestor(self@.blocks, from as int, to as int),
                path@ == branch_above(self@.blocks, to as int, from as int),
                k <= path.len(),
                self@.cells == state_of(
                    self@.blocks,
                    self@.deltas,
                    if k < path.len() {
                        path@[k as int] as int
                    } else {
                        from as int
                    },
                ),
                path.len() > 0 ==> path@[0] == to,
                path.len() == 0 ==> from == to,
            decreases k,
        {
            k -= 1;
            let place = path[k];
            proof {
                lemma_branch_links(self@.blocks, to as int, from as int, k as int);
                lemma_branch_consistent(self@.blocks, self@.deltas, place as int);
                assert(block_valid(self@.blocks, self@.deltas, place as int));
            }
            self.cells.commit(&self.deltas[place]);
        }
    }

    /// Where a cell stands on the branch that ends in `context`, which need
    /// not be the canonical one. The service is left as it was. `None` where
    /// `context` is not held or shares no block with the canonical chain.
    pub fn get_cell_at(&mut self, cell: u64, context: usize) -> (status: Option<CellStatus>)
        requires
            old(self).wf(),
        ensures
            final(self).wf(),
            final(self)@ == old(self)@,
            status == if shares_history(old(self)@, context) {
                Some(status_of(state_of(old(self)@.blocks, old(self)@.deltas, context as int), cell))
            } else {
                None::<CellStatus>
            },
    {
        let t = match self.tip {
            None => {
                return None;
            },
            Some(t) => t,
        };
        if context >= self.arena.len() {
            return None;
        }
        let f = match self.arena.find_fork_point(t, context) {
            None => {
                return None;
            },
            Some(f) => f,
        };
        proof {
            let v = old(self)@;
            assert(v.tip == Some(t));
            assert(context < v.blocks.len());
            assert(is_common_ancestor(v.blocks, f as int, v.tip.unwrap() as int, context as int));
            assert(shares_history(v, context));
        }
        self.rewind(t, f);
        self.replay(f, context);
        let status = self.cells.get_cell(cell);
        self.rewind(context, f);
        self.replay(f, t);
        Some(status)
    }

    /// Takes a candidate block with its cells and says whether it is now the
    /// canonical tip, a block on a side branch, or refused.
    ///
    /// The block is judged in this order: whether it can be connected,
    /// whether its numbers fit, whether its cells can be applied on top of
    /// its parent at its height. A refused block changes nothing. An accepted block is kept;
    /// it becomes the canonical tip only with strictly more accumulated work
    /// than the tip has, and then the cell index is that of its branch.
    pub fn submit_block(&mut self, block: Block) -> (verdict: Result<
        AcceptanceStatus,
        RejectionReason,
    >)
        requires
            old(self).wf(),
        ensures
            final(self).wf(),
            !connectable(old(self)@, block.parent) ==> verdict == Err::<AcceptanceStatus, RejectionReason>(
                RejectionReason::Unconnectable,
            ),
            connectable(old(self)@, block.parent) && (child_refused(old(self)@.blocks, block.parent, block.work)
                || old(self)@.blocks.len() >= usize::MAX) ==> verdict == Err::<
                AcceptanceStatus,
                RejectionReason,
            >(RejectionReason::OutOfRange),
            connectable(old(self)@, block.parent) && !child_refused(old(self)@.blocks, block.parent, block.work)
                && old(self)@.blocks.len() < usize::MAX ==> match verdict {
                Ok(status) => can_accept(
                    state_before(old(self)@.blocks, old(self)@.deltas, block.parent),
                    block.cells@,
                    child_entry(old(self)@.blocks, block.parent, block.root_height, block.work).height,
                ) && status == if heavier(old(self)@, block.parent, block.work) {
                    AcceptanceStatus::Canonical
                } else {
                    AcceptanceStatus::SideBranch
                },
                Err(RejectionReason::Cells(e)) => apply_fault(
                    state_before(old(self)@.blocks, old(self)@.deltas, block.parent),
                    block.cells@,
                    child_entry(old(self)@.blocks, block.parent, block.root_height, block.work).height,
                    e,
                ) && !can_accept(
                    state_before(old(self)@.blocks, old(self)@.deltas, block.parent),
                    block.cells@,
                    child_entry(old(self)@.blocks, block.parent, block.root_height, block.work).height,
                ),
                Err(_) => false,
            },
            verdict.is_err() ==> final(self)@ == old(self)@,
            verdict matches Ok(status) ==> final(self)@.blocks == old(self)@.blocks.push(
                child_entry(old(self)@.blocks, block.parent, block.root_height, block.work),
            ) && final(self)@.deltas == old(self)@.deltas.push((cells_of(block.cells.inputs@), block.cells.outputs@))
                && final(self)@.tip == if status == AcceptanceStatus::Canonical {
                Some(old(self)@.blocks.len() as usize)
            } else {
                old(self)@.tip
            },
    {
        let Block { parent, root_height, work, cells } = block;
        let id = self.arena.len();
        match (self.tip, parent) {
            (None, None) => {
                if id == usize::MAX {
                    return Err(RejectionReason::OutOfRange);
                }
                match self.cells.apply_block(&cells, root_height) {
                    Err(e) => {
                        return Err(RejectionReason::Cells(e));
                    },
                    Ok(()) => {},
                }
                proof {
                    lemma_push_keeps_wf(
                        self@.blocks,
                        self@.deltas,
                        parent,
                        root_height,
                        work,
                        (cells_of(cells.inputs@), cells.outputs@),
                    );
                }
                self.push_block(parent, root_height, work, cells);
                self.tip = Some(id);
                Ok(AcceptanceStatus::Canonical)
            },
            (Some(t), Some(p)) => {
                if p >= id {
                    return Err(RejectionReason::Unconnectable);
                }
                let f = match self.arena.find_fork_point(t, p) {
                    None => {
                        return Err(RejectionReason::Unconnectable);
                    },
                    Some(f) => f,
                };
                proof {
                    let v = old(self)@;
                    assert(v.tip == Some(t));
                    assert(is_common_ancestor(v.blocks, f as int, v.tip.unwrap() as int, p as int));
                    assert(shares_history(v, p));
                }
                let below = self.arena.entry(p);
                if below.height == u64::MAX || below.score > u128::MAX - work || id == usize::MAX {
                    return Err(RejectionReason::OutOfRange);
                }
                let wins = below.score + work > self.arena.entry(t).score;
                self.rewind(t, f);
                self.replay(f, p);
                proof {
                    lemma_branch_consistent(self@.blocks, self@.deltas, p as int);
                }
                match self.cells.apply_block(&cells, below.height + 1) {
                    Err(e) => {
                        self.rewind(p, f);
                        self.replay(f, t);
                        return Err(RejectionReason::Cells(e));
                    },
                    Ok(()) => {},
                }
                proof {
                    lemma_apply_keeps_consistent(
                        state_of(self@.blocks, self@.deltas, p as int),
                        cells_of(cells.inputs@),
                        cells.outputs@,
                    );
                    lemma_revert_undoes_apply(
                        state_of(self@.blocks, self@.deltas, p as int),
                        cells_of(cells.inputs@),
                        cells.outputs@,
                    );
                    lemma_push_keeps_wf(
                        self@.blocks,
                        self@.deltas,
                        parent,
                        root_height,
                        work,
                        (cells_of(cells.inputs@), cells.outputs@),
                    );
                }
                if wins {
                    self.push_block(parent, root_height, work, cells);
                    self.tip = Some(id);
                    Ok(AcceptanceStatus::Canonical)
                } else {
                    self.cells.revert_block(&cells);
                    self.rewind(p, f);
                    self.replay(f, t);
                    self.push_block(parent, root_height, work, cells);
                    Ok(AcceptanceStatus::SideBranch)
                }
            },
            _ => Err(RejectionReason::Unconnectable),
        }
    }

    // Files a block and its cells; the cell index is left as it is.
    fn push_block(&mut self, parent: Option<usize>, root_height: u64, work: u128, cells: BlockCells)
        requires
            arena_wf(old(self)@.blocks),
            old(self)@.blocks.len() == old(self)@.deltas.len(),
            !child_refused(old(self)@.blocks, parent, work),
        ensures
            final(self)@.blocks == old(self)@.blocks.push(
                child_entry(old(self)@.blocks, parent, root_height, work),
            ),
            arena_wf(final(self)@.blocks),
            final(self)@.deltas == old(self)@.deltas.push((cells_of(cells.inputs@), cells.outputs@)),
            final(self)@.cells == old(self)@.cells,
            final(self)@.tip == old(self)@.tip,
    {
        let placed = self.arena.insert(parent, root_height, work);
        self.deltas.push(cells);
        proof {
            assert(self@.deltas =~= old(self)@.deltas.push((cells_of(cells.inputs@), cells.outputs@)));
        }
    }

    /// Moves the canonical tip back to `target` and takes the blocks above it
    /// back from the cell index, highest first. Does nothing and answers
    /// `false` unless `target` lies on the canonical branch.
    pub fn truncate(&mut self, target: usize) -> (done: bool)
        requires
            old(self).wf(),
        ensures
            final(self).wf(),
            done == (old(self)@.tip matches Some(t) && is_ancestor(
                old(self)@.blocks,
                target as int,
                t as int,
            )),
            final(self)@.blocks == old(self)@.blocks,
            final(self)@.deltas == old(self)@.deltas,
            !done ==> final(self)@ == old(self)@,
            done ==> final(self)@.tip == Some(target) && final(self)@.cells == rewound(
                old(self)@.blocks,
                old(self)@.deltas,
                old(self)@.cells,
                old(self)@.tip.unwrap() as int,
                target as int,
            ),
    {
        let t = match self.tip {
            None => {
                return false;
            },
            Some(t) => t,
        };
        if target >= self.arena.len() {
            proof {
                if is_ancestor(self@.blocks, target as int, t as int) {
                    lemma_ancestor_height(self@.blocks, target as int, t as int);
                }
            }
            return false;
        }
        let found = self.arena.find_fork_point(t, target);
        let on_branch = match found {
            Some(f) => f == target,
            None => false,
        };
        proof {
            let blocks = self@.blocks;
            assert(is_ancestor(blocks, target as int, target as int));
            if is_ancestor(blocks, target as int, t as int) {
                assert(is_common_ancestor(blocks, target as int, t as int, target as int));
                let f = found.unwrap() as int;
                assert(is_ancestor(blocks, target as int, f));
                assert(is_ancestor(blocks, f, target as int));
                lemma_ancestor_height(blocks, target as int, f);
                lemma_ancestor_height(blocks, f, target as int);
            }
        }
        if !on_branch {
            return false;
        }
        self.rewind(t, target);
        self.tip = Some(target);
        true
    }
}

} // verus!
