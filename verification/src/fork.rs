//! Fork resolution over an arena of blocks: the fork point of two branches,
//! the comparison of their accumulated work, and the blocks to detach and to
//! attach when the canonical tip moves.

use vstd::prelude::*;

verus! {

/// What the arena keeps of a block. A block's place in the arena is its
/// identity, and places are given in order of arrival.
#[derive(Clone, Copy, Debug, PartialEq, Eq, Structural)]
pub struct BlockEntry {
    /// Place of the parent; `None` for a block whose parent is not retained.
    pub parent: Option<usize>,
    pub height: u64,
    /// Work accumulated from the start of the chain up to this block.
    pub score: u128,
}

/// Every parent arrived before its child, one height below it, and with no
/// more accumulated work.
pub open spec fn arena_wf(blocks: Seq<BlockEntry>) -> bool {
    forall|i: int|
        0 <= i < blocks.len() ==> match (#[trigger] blocks[i]).parent {
            Some(p) => p < i && blocks[p as int].height + 1 == blocks[i].height
                && blocks[p as int].score <= blocks[i].score,
            None => true,
        }
}

/// `c` is `x` or lies on the chain of parents below `x`.
pub open spec fn is_ancestor(blocks: Seq<BlockEntry>, c: int, x: int) -> bool
    decreases x,
{
    0 <= x < blocks.len() && (c == x || match blocks[x].parent {
        Some(p) => p < x && is_ancestor(blocks, c, p as int),
        None => false,
    })
}

/// `c` lies on both branches.
pub open spec fn is_common_ancestor(blocks: Seq<BlockEntry>, c: int, a: int, b: int) -> bool {
    is_ancestor(blocks, c, a) && is_ancestor(blocks, c, b)
}

/// `f` is the deepest block common to the branches of `a` and `b`: it lies on
/// both, and every block on both lies at or below it.
pub open spec fn is_fork_point(blocks: Seq<BlockEntry>, f: int, a: int, b: int) -> bool {
    is_common_ancestor(blocks, f, a, b) && forall|c: int|
        #[trigger] is_common_ancestor(blocks, c, a, b) ==> is_ancestor(blocks, c, f)
}

/// The blocks from `x` down to, and without, its ancestor `f`, highest first.
pub open spec fn branch_above(blocks: Seq<BlockEntry>, x: int, f: int) -> Seq<usize>
    decreases x,
{
    if 0 <= x < blocks.len() && x != f {
        match blocks[x].parent {
            Some(p) => if p < x {
                seq![x as usize] + branch_above(blocks, p as int, f)
            } else {
                seq![x as usize]
            },
            None => seq![x as usize],
        }
    } else {
        Seq::empty()
    }
}

/// The tip that is canonical once `candidate` has been weighed against `tip`:
/// the candidate only where it has strictly more accumulated work.
pub open spec fn winner(blocks: Seq<BlockEntry>, tip: int, candidate: int) -> int {
    if blocks[candidate].score > blocks[tip].score {
        candidate
    } else {
        tip
    }
}

/// A block of `work` on top of `parent` cannot be held: the parent is not
/// there, or the height or the accumulated work would not fit.
pub open spec fn child_refused(blocks: Seq<BlockEntry>, parent: Option<usize>, work: u128) -> bool {
    match parent {
        Some(p) => p >= blocks.len() || blocks[p as int].height == u64::MAX || blocks[p as int].score
            + work > u128::MAX,
        None => false,
    }
}

/// The entry of a block of `work` on top of `parent`; without a parent it
/// starts a chain at `root_height`.
pub open spec fn child_entry(
    blocks: Seq<BlockEntry>,
    parent: Option<usize>,
    root_height: u64,
    work: u128,
) -> BlockEntry {
    match parent {
        Some(p) => BlockEntry {
            parent,
            height: (blocks[p as int].height + 1) as u64,
            score: (blocks[p as int].score + work) as u128,
        },
        None => BlockEntry { parent, height: root_height, score: work },
    }
}

/// An ancestor is never higher than its descendant, and one of the same
/// height is the block itself.
pub proof fn lemma_ancestor_height(blocks: Seq<BlockEntry>, c: int, x: int)
    requires
        arena_wf(blocks),
        is_ancestor(blocks, c, x),
    ensures
        0 <= c <= x,
        blocks[c].height <= blocks[x].height,
        blocks[c].height == blocks[x].height ==> c == x,
    decreases x,
{
    if c != x {
        let p = blocks[x].parent.unwrap() as int;
        lemma_ancestor_height(blocks, c, p);
    }
}

/// Of two branches with different accumulated work the heavier one wins,
/// whichever of them was the tip when the other arrived.
pub proof fn lemma_heavier_branch_wins(blocks: Seq<BlockEntry>, a: int, b: int)
    requires
        blocks[a].score != blocks[b].score,
    ensures
        winner(blocks, a, b) == winner(blocks, b, a),
        blocks[winner(blocks, a, b)].score > blocks[a].score || blocks[winner(blocks, a, b)].score
            > blocks[b].score,
{
}

/// With equal accumulated work the tip that was there first stays.
pub proof fn lemma_tie_keeps_first_seen(blocks: Seq<BlockEntry>, tip: int, candidate: int)
    requires
        blocks[tip].score == blocks[candidate].score,
    ensures
        winner(blocks, tip, candidate) == tip,
{
}

/// Why two branches cannot be weighed against each other.
#[derive(Clone, Copy, Debug, PartialEq, Eq, Structural)]
pub enum ForkError {
    /// The retained history holds no block common to both branches.
    ForkPointNotFound,
}

/// The outcome of weighing a candidate against the canonical tip.
#[derive(Debug)]
pub enum ForkDecision {
    /// The canonical tip stays.
    Keep,
    /// The candidate becomes canonical.
    Switch {
        fork_point: usize,
        /// Blocks of the old branch above the fork point, highest first.
        detach: Vec<usize>,
        /// Blocks of the new branch above the fork point, lowest first.
        attach: Vec<usize>,
    },
}

/// What subscribers are told when the canonical tip moves.
#[derive(Debug)]
pub struct TipChange {
    pub fork_point: usize,
    /// Blocks that left the canonical chain, highest first.
    pub detached: Vec<usize>,
    /// Blocks that joined the canonical chain, lowest first.
    pub attached: Vec<usize>,
}

/// The arena of retained blocks.
pub struct BlockArena {
    blocks: Vec<BlockEntry>,
}

impl View for BlockArena {
    type V = Seq<BlockEntry>;

    closed spec fn view(&self) -> Seq<BlockEntry> {
        self.blocks@
    }
}

impl BlockArena {
    /// The arena's invariant: see [`arena_wf`].
    pub open spec fn wf(&self) -> bool {
        arena_wf(self@)
    }

    /// An arena without blocks.
    pub fn new() -> (arena: BlockArena)
        ensures
            arena@ == Seq::<BlockEntry>::empty(),
            arena.wf(),
    {
        BlockArena { blocks: Vec::new() }
    }

    /// Number of blocks held.
    pub fn len(&self) -> (n: usize)
        ensures
            n == self@.len(),
    {
        self.blocks.len()
    }

    /// The entry at place `id`.
    pub fn entry(&self, id: usize) -> (entry: BlockEntry)
        requires
            id < self@.len(),
        ensures
            entry == self@[id as int],
    {
        self.blocks[id]
    }

    /// The entry at place `id`, where there is one.
    pub fn get(&self, id: usize) -> (entry: Option<BlockEntry>)
        ensures
            entry == if id < self@.len() {
                Some(self@[id as int])
            } else {
                None::<BlockEntry>
            },
    {
        if id < self.blocks.len() {
            Some(self.blocks[id])
        } else {
            None
        }
    }

    /// Adds a block with its own `work` on top of `parent` and returns its
    /// place. A block without parent starts a chain at `root_height`. `None`
    /// where the parent is not held or the numbers would not fit: the arena is
    /// then unchanged.
    pub fn insert(&mut self, parent: Option<usize>, root_height: u64, work: u128) -> (id: Option<usize>)
        requires
            old(self).wf(),
        ensures
            final(self).wf(),
            child_refused(old(self)@, parent, work) ==> id.is_none() && final(self)@ == old(
                self,
            )@,
            !child_refused(old(self)@, parent, work) ==> id == Some(old(self)@.len() as usize)
                && final(self)@ == old(self)@.push(child_entry(old(self)@, parent, root_height, work)),
    {
        let entry = match parent {
            Some(p) => {
                if p >= self.blocks.len() {
                    return None;
                }
                let below = self.blocks[p];
                if below.height == u64::MAX || below.score > u128::MAX - work {
                    return None;
                }
                BlockEntry { parent, height: below.height + 1, score: below.score + work }
            },
            None => BlockEntry { parent, height: root_height, score: work },
        };
        let id = self.blocks.len();
        self.blocks.push(entry);
        proof {
            let before = old(self)@;
            let after = self@;
            assert forall|i: int| 0 <= i < after.len() implies match (#[trigger] after[i]).parent {
                Some(p) => p < i && after[p as int].height + 1 == after[i].height
                    && after[p as int].score <= after[i].score,
                None => true,
            } by {
                if i < before.len() {
                    assert(after[i] == before[i]);
                }
            }
        }
        Some(id)
    }

    /// Finds the fork point of the branches that end in `a` and `b` by walking
    /// both back, the higher one first. `None` exactly where the arena holds no
    /// block common to both, as it does not where it does not hold `a` or `b`.
    pub fn find_fork_point(&self, a: usize, b: usize) -> (found: Option<usize>)
        requires
            self.wf(),
        ensures
            match found {
                Some(f) => is_fork_point(self@, f as int, a as int, b as int),
                None => forall|c: int| !#[trigger] is_common_ancestor(self@, c, a as int, b as int),
            },
    {
        if a >= self.blocks.len() || b >= self.blocks.len() {
            return None;
        }
        let mut x = a;
        let mut y = b;
        loop
            invariant
                self.wf(),
                x < self@.len(),
                y < self@.len(),
                is_ancestor(self@, x as int, a as int),
                is_ancestor(self@, y as int, b as int),
                forall|c: int| #[trigger]
                    is_common_ancestor(self@, c, a as int, b as int) ==> is_common_ancestor(
                        self@,
                        c,
                        x as int,
                        y as int,
                    ),
            decreases x + y,
        {
            if x == y {
                return Some(x);
            }
            let ex = self.blocks[x];
            let ey = self.blocks[y];
            let step_x = ex.height >= ey.height;
            let step_y = ey.height >= ex.height;
            proof {
                assert forall|c: int| #[trigger]
                    is_common_ancestor(self@, c, x as int, y as int) implies (step_x ==> c != x) && (
                step_y ==> c != y) by {
                    lemma_ancestor_height(self@, c, x as int);
                    lemma_ancestor_height(self@, c, y as int);
                }
            }
            let mut nx = x;
            let mut ny = y;
            if step_x {
                match ex.parent {
                    Some(p) => {
                        nx = p;
                    },
                    None => {
                        return None;
                    },
                }
            }
            if step_y {
                match ey.parent {
                    Some(p) => {
                        ny = p;
                    },
                    None => {
                        return None;
                    },
                }
            }
            proof {
                lemma_ancestor_step(self@, nx as int, x as int, a as int);
                lemma_ancestor_step(self@, ny as int, y as int, b as int);
            }
            x = nx;
            y = ny;
        }
    }

    /// Collects the blocks from `x` down to, and without, its ancestor `f`,
    /// highest first.
    pub(crate) fn collect_branch(&self, x: usize, f: usize) -> (path: Vec<usize>)
        requires
            self.wf(),
            is_ancestor(self@, f as int, x as int),
        ensures
            path@ == branch_above(self@, x as int, f as int),
    {
        let mut path: Vec<usize> = Vec::new();
        let mut cur = x;
        while cur != f
            invariant
                self.wf(),
                is_ancestor(self@, f as int, cur as int),
                path@ + branch_above(self@, cur as int, f as int) == branch_above(
                    self@,
                    x as int,
                    f as int,
                ),
            decreases cur,
        {
            let ghost before = path@;
            let below = self.blocks[cur].parent.unwrap();
            path.push(cur);
            proof {
                assert(branch_above(self@, cur as int, f as int) == seq![cur] + branch_above(
                    self@,
                    below as int,
                    f as int,
                ));
                assert(path@ + branch_above(self@, below as int, f as int) =~= before + branch_above(
                    self@,
                    cur as int,
                    f as int,
                ));
            }
            cur = below;
        }
        proof {
            assert(branch_above(self@, cur as int, f as int) =~= Seq::<usize>::empty());
            assert(path@ + Seq::<usize>::empty() =~= path@);
        }
        path
    }

    /// The blocks that leave and join the canonical chain when the tip moves
    /// from `from` to `to`. `None` exactly where the two share no block.
    pub fn tip_change(&self, from: usize, to: usize) -> (change: Option<TipChange>)
        requires
            self.wf(),
        ensures
            match change {
                Some(c) => is_fork_point(self@, c.fork_point as int, from as int, to as int)
                    && c.detached@ == branch_above(self@, from as int, c.fork_point as int)
                    && c.attached@ == branch_above(self@, to as int, c.fork_point as int).reverse(),
                None => forall|c: int| !#[trigger] is_common_ancestor(self@, c, from as int, to as int),
            },
    {
        match self.find_fork_point(from, to) {
            None => None,
            Some(fork_point) => {
                let detached = self.collect_branch(from, fork_point);
                let down = self.collect_branch(to, fork_point);
                let attached = reversed(&down);
                Some(TipChange { fork_point, detached, attached })
            },
        }
    }

    /// Weighs `candidate` against the canonical `tip`. Without a block common
    /// to both branches the candidate cannot be connected. Otherwise the tip
    /// stays unless the candidate has strictly more accumulated work; where it
    /// has, the result names the fork point, the old branch to unwind from the
    /// top, and the new branch to apply from the bottom.
    pub fn resolve(&self, tip: usize, candidate: usize) -> (decision: Result<ForkDecision, ForkError>)
        requires
            self.wf(),
        ensures
            match decision {
                Err(ForkError::ForkPointNotFound) => forall|c: int| !#[trigger]
                    is_common_ancestor(self@, c, tip as int, candidate as int),
                Ok(ForkDecision::Keep) => winner(self@, tip as int, candidate as int) == tip
                    && exists|f: int| is_fork_point(self@, f, tip as int, candidate as int),
                Ok(ForkDecision::Switch { fork_point, detach, attach }) => winner(
                    self@,
                    tip as int,
                    candidate as int,
                ) == candidate && candidate != tip && is_fork_point(
                    self@,
                    fork_point as int,
                    tip as int,
                    candidate as int,
                ) && detach@ == branch_above(self@, tip as int, fork_point as int) && attach@
                    == branch_above(self@, candidate as int, fork_point as int).reverse(),
            },
    {
        let fork_point = match self.find_fork_point(tip, candidate) {
            None => {
                return Err(ForkError::ForkPointNotFound);
            },
            Some(f) => f,
        };
        if self.blocks[candidate].score <= self.blocks[tip].score {
            return Ok(ForkDecision::Keep);
        }
        let detach = self.collect_branch(tip, fork_point);
        let down = self.collect_branch(candidate, fork_point);
        let attach = reversed(&down);
        Ok(ForkDecision::Switch { fork_point, detach, attach })
    }
}

/// The same places in the opposite order.
pub fn reversed(items: &Vec<usize>) -> (out: Vec<usize>)
    ensures
        out@ == items@.reverse(),
{
    let n = items.len();
    let mut out: Vec<usize> = Vec::new();
    let mut i: usize = 0;
    while i < n
        invariant
            n == items.len(),
            i <= n,
            out.len() == i,
            forall|j: int| 0 <= j < i ==> out@[j] == items@[n - 1 - j],
        decreases n - i,
    {
        out.push(items[n - 1 - i]);
        i += 1;
    }
    proof {
        assert(out@ =~= items@.reverse());
    }
    out
}

/// The chain of parents is transitive one step at a time: where `x` lies
/// below `a`, so does `x` itself and so does the parent of `x`.
pub proof fn lemma_ancestor_step(blocks: Seq<BlockEntry>, p: int, x: int, a: int)
    requires
        arena_wf(blocks),
        is_ancestor(blocks, x, a),
        0 <= x < blocks.len(),
        p == x || (blocks[x].parent matches Some(q) && q == p),
    ensures
        is_ancestor(blocks, p, a),
    decreases a,
{
    if x == a {
        if p != x {
            assert(blocks[x].parent.is_some());
            assert(is_ancestor(blocks, p, p));
        }
    } else {
        let q = blocks[a].parent.unwrap() as int;
        lemma_ancestor_step(blocks, p, x, q);
    }
}

/// Each block of a branch has the next one as its parent, and the last one
/// has the block that the branch stands on.
pub proof fn lemma_branch_links(blocks: Seq<BlockEntry>, x: int, f: int, i: int)
    requires
        arena_wf(blocks),
        blocks.len() <= usize::MAX,
        is_ancestor(blocks, f, x),
        0 <= i < branch_above(blocks, x, f).len(),
    ensures
        0 <= branch_above(blocks, x, f)[i] < blocks.len(),
        is_ancestor(blocks, f, branch_above(blocks, x, f)[i] as int),
        blocks[branch_above(blocks, x, f)[i] as int].parent matches Some(p) && p as int == (if i + 1
            < branch_above(blocks, x, f).len() {
            branch_above(blocks, x, f)[i + 1] as int
        } else {
            f
        }),
        branch_above(blocks, x, f)[0] == x,
    decreases x,
{
    let p = blocks[x].parent.unwrap() as int;
    let rest = branch_above(blocks, p, f);
    assert(branch_above(blocks, x, f) == seq![x as usize] + rest);
    if i > 0 {
        lemma_branch_links(blocks, p, f, i - 1);
        assert(branch_above(blocks, x, f)[i] == rest[i - 1]);
        if i < rest.len() {
            assert(branch_above(blocks, x, f)[i + 1] == rest[i]);
        }
    } else {
        if rest.len() > 0 {
            lemma_branch_links(blocks, p, f, 0);
            assert(branch_above(blocks, x, f)[1] == rest[0]);
        } else {
            assert(p == f) by {
                if p != f {
                    assert(0 <= p < blocks.len());
                    assert(branch_above(blocks, p, f).len() > 0);
                }
            }
        }
    }
}

} // verus!
