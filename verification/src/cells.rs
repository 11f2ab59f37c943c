//! The live-cell index: which cells are spendable and which are spent on one
//! branch, how a block changes that, and how the change is taken back.

use std::collections::HashSet;
use vstd::prelude::*;

verus! {

broadcast use vstd::std_specs::hash::group_hash_axioms;

/// Why a block's cells cannot be applied.
#[derive(Clone, Copy, Debug, PartialEq, Eq, Structural)]
pub enum CellError {
    /// An input names a cell that the branch has never held.
    UnknownCell,
    /// An input names a cell that the branch, or an earlier input of the same
    /// block, has already consumed.
    DeadCell,
    /// An input is locked until a height that the block has not reached.
    ImmatureCell,
    /// An output names a cell that the branch, or an earlier output of the
    /// same block, has already created.
    CellExists,
}

/// Where a cell stands on the branch.
#[derive(Clone, Copy, Debug, PartialEq, Eq, Structural)]
pub enum CellStatus {
    Live,
    Dead,
    Unknown,
}

/// A reference to a cell that is to be consumed, with the height from which
/// the reference may be used.
#[derive(Clone, Copy, Debug, PartialEq, Eq, Structural)]
pub struct Input {
    pub cell: u64,
    pub since: u64,
}

/// The cells that a block consumes, the cells that it only reads, and the
/// cells that it creates.
#[derive(Debug)]
pub struct BlockCells {
    pub inputs: Vec<Input>,
    pub deps: Vec<u64>,
    pub outputs: Vec<u64>,
}

/// A block's cells as sequences.
pub struct BlockCellsView {
    pub inputs: Seq<Input>,
    pub deps: Seq<u64>,
    pub outputs: Seq<u64>,
}

impl View for BlockCells {
    type V = BlockCellsView;

    open spec fn view(&self) -> BlockCellsView {
        BlockCellsView { inputs: self.inputs@, deps: self.deps@, outputs: self.outputs@ }
    }
}

/// The cells that the inputs name, in order.
pub open spec fn cells_of(inputs: Seq<Input>) -> Seq<u64> {
    Seq::new(inputs.len(), |i: int| inputs[i].cell)
}

/// Every input's lock has elapsed at `height`.
pub open spec fn locks_elapsed(inputs: Seq<Input>, height: u64) -> bool {
    forall|i: int| 0 <= i < inputs.len() ==> (#[trigger] inputs[i]).since <= height
}

/// What is wrong with the dependency at place `i`: it is not live.
pub open spec fn dep_fault(s: CellState, deps: Seq<u64>, i: int) -> Option<CellError> {
    match status_of(s, deps[i]) {
        CellStatus::Live => None,
        CellStatus::Dead => Some(CellError::DeadCell),
        CellStatus::Unknown => Some(CellError::UnknownCell),
    }
}

/// Every dependency is live.
pub open spec fn deps_live(s: CellState, deps: Seq<u64>) -> bool {
    forall|i: int| 0 <= i < deps.len() ==> (#[trigger] dep_fault(s, deps, i)).is_none()
}

/// `e` is the fault of the first input that cannot be spent.
pub open spec fn first_input_fault(s: CellState, inputs: Seq<u64>, e: CellError) -> bool {
    exists|i: int|
        0 <= i < inputs.len() && #[trigger] input_fault(s, inputs, i) == Some(e) && forall|j: int|
            0 <= j < i ==> (#[trigger] input_fault(s, inputs, j)).is_none()
}

/// `e` is the fault of the first dependency that is not live.
pub open spec fn first_dep_fault(s: CellState, deps: Seq<u64>, e: CellError) -> bool {
    exists|i: int|
        0 <= i < deps.len() && #[trigger] dep_fault(s, deps, i) == Some(e) && forall|j: int|
            0 <= j < i ==> (#[trigger] dep_fault(s, deps, j)).is_none()
}

/// A block at `height` can be applied to `s`: its inputs can be spent and
/// its outputs are new, its dependencies are live, and no input is locked
/// beyond the height.
pub open spec fn can_accept(s: CellState, block: BlockCellsView, height: u64) -> bool {
    can_apply(s, cells_of(block.inputs), block.outputs) && deps_live(s, block.deps)
        && locks_elapsed(block.inputs, height)
}

/// The index as two sets of cell references.
pub struct CellState {
    pub live: Set<u64>,
    pub dead: Set<u64>,
}

/// No cell is live and dead at once.
pub open spec fn consistent(s: CellState) -> bool {
    s.live.disjoint(s.dead)
}

/// The item at place `i` also stands at an earlier place.
pub open spec fn occurs_before(items: Seq<u64>, i: int) -> bool {
    exists|j: int| 0 <= j < i && #[trigger] items[j] == items[i]
}

/// The items at the first `n` places, as a set.
pub open spec fn prefix_set(items: Seq<u64>, n: int) -> Set<u64> {
    Set::new(|x: u64| exists|j: int| 0 <= j < n && #[trigger] items[j] == x)
}

/// All items, as a set.
pub open spec fn item_set(items: Seq<u64>) -> Set<u64> {
    prefix_set(items, items.len() as int)
}

/// Where a cell stands in `s`.
pub open spec fn status_of(s: CellState, cell: u64) -> CellStatus {
    if s.live.contains(cell) {
        CellStatus::Live
    } else if s.dead.contains(cell) {
        CellStatus::Dead
    } else {
        CellStatus::Unknown
    }
}

/// What is wrong with the input at place `i`, given the inputs before it.
pub open spec fn input_fault(s: CellState, inputs: Seq<u64>, i: int) -> Option<CellError> {
    match status_of(s, inputs[i]) {
        CellStatus::Live => if occurs_before(inputs, i) {
            Some(CellError::DeadCell)
        } else {
            None
        },
        CellStatus::Dead => Some(CellError::DeadCell),
        CellStatus::Unknown => Some(CellError::UnknownCell),
    }
}

/// The output at place `i` names a cell that already exists.
pub open spec fn output_clash(s: CellState, outputs: Seq<u64>, i: int) -> bool {
    status_of(s, outputs[i]) != CellStatus::Unknown || occurs_before(outputs, i)
}

/// Every input is live and named once.
pub open spec fn inputs_spendable(s: CellState, inputs: Seq<u64>) -> bool {
    forall|i: int| 0 <= i < inputs.len() ==> (#[trigger] input_fault(s, inputs, i)).is_none()
}

/// Every output is new and named once.
pub open spec fn outputs_fresh(s: CellState, outputs: Seq<u64>) -> bool {
    forall|i: int| 0 <= i < outputs.len() ==> !#[trigger] output_clash(s, outputs, i)
}

/// The block's cells can be applied to `s`.
pub open spec fn can_apply(s: CellState, inputs: Seq<u64>, outputs: Seq<u64>) -> bool {
    inputs_spendable(s, inputs) && outputs_fresh(s, outputs)
}

/// `e` is the error of applying the block to `s` at `height`: that of the
/// first input that cannot be spent; with every input spendable, that of the
/// first dependency that is not live; with those in order, that of a lock
/// that has not elapsed; and last that of an output that already exists.
pub open spec fn apply_fault(s: CellState, block: BlockCellsView, height: u64, e: CellError) -> bool {
    let inputs = cells_of(block.inputs);
    if !inputs_spendable(s, inputs) {
        first_input_fault(s, inputs, e)
    } else if !deps_live(s, block.deps) {
        first_dep_fault(s, block.deps, e)
    } else if !locks_elapsed(block.inputs, height) {
        e == CellError::ImmatureCell
    } else {
        e == CellError::CellExists && !outputs_fresh(s, block.outputs)
    }
}

/// `s` after the block: its inputs have gone from live to dead, its outputs
/// are live.
pub open spec fn applied(s: CellState, inputs: Seq<u64>, outputs: Seq<u64>) -> CellState {
    CellState {
        live: s.live.difference(item_set(inputs)).union(item_set(outputs)),
        dead: s.dead.union(item_set(inputs)),
    }
}

/// The block's cells can be taken back from `s`: its outputs are live and its
/// inputs dead.
pub open spec fn can_revert(s: CellState, inputs: Seq<u64>, outputs: Seq<u64>) -> bool {
    item_set(outputs).subset_of(s.live) && item_set(inputs).subset_of(s.dead)
}

/// `s` with the block taken back: its outputs are gone, its inputs live again.
pub open spec fn reverted(s: CellState, inputs: Seq<u64>, outputs: Seq<u64>) -> CellState {
    CellState {
        live: s.live.difference(item_set(outputs)).union(item_set(inputs)),
        dead: s.dead.difference(item_set(inputs)),
    }
}

/// One more place adds one item to the set of a prefix.
pub proof fn lemma_prefix_set_step(items: Seq<u64>, n: int)
    requires
        0 <= n < items.len(),
    ensures
        prefix_set(items, n + 1) == prefix_set(items, n).insert(items[n]),
{
    assert forall|x: u64| prefix_set(items, n + 1).contains(x) <==> prefix_set(items, n).insert(
        items[n],
    ).contains(x) by {
        if prefix_set(items, n + 1).contains(x) {
            let j = choose|j: int| 0 <= j < n + 1 && #[trigger] items[j] == x;
            if j < n {
                assert(prefix_set(items, n).contains(x));
            }
        }
        if prefix_set(items, n).contains(x) {
            let j = choose|j: int| 0 <= j < n && #[trigger] items[j] == x;
            assert(0 <= j < n + 1 && items[j] == x);
        }
        if x == items[n] {
            assert(0 <= n < n + 1 && items[n] == x);
        }
    }
    assert(prefix_set(items, n + 1) =~= prefix_set(items, n).insert(items[n]));
}

/// The empty prefix holds nothing.
pub proof fn lemma_prefix_set_empty(items: Seq<u64>)
    ensures
        prefix_set(items, 0) == Set::<u64>::empty(),
{
    assert(prefix_set(items, 0) =~= Set::<u64>::empty());
}

/// Where a block can be applied, its inputs are live, its outputs are neither
/// live nor dead.
pub proof fn lemma_can_apply_sets(s: CellState, inputs: Seq<u64>, outputs: Seq<u64>)
    requires
        can_apply(s, inputs, outputs),
    ensures
        item_set(inputs).subset_of(s.live),
        item_set(outputs).disjoint(s.live),
        item_set(outputs).disjoint(s.dead),
{
    assert forall|x: u64| item_set(inputs).contains(x) implies s.live.contains(x) by {
        let j = choose|j: int| 0 <= j < inputs.len() && #[trigger] inputs[j] == x;
        assert(input_fault(s, inputs, j).is_none());
    }
    assert forall|x: u64| item_set(outputs).contains(x) implies !s.live.contains(x)
        && !s.dead.contains(x) by {
        let j = choose|j: int| 0 <= j < outputs.len() && #[trigger] outputs[j] == x;
        assert(!output_clash(s, outputs, j));
    }
}

/// Applying a block keeps live and dead apart: no cell is both after it.
pub proof fn lemma_apply_keeps_consistent(s: CellState, inputs: Seq<u64>, outputs: Seq<u64>)
    requires
        consistent(s),
        can_apply(s, inputs, outputs),
    ensures
        consistent(applied(s, inputs, outputs)),
        can_revert(applied(s, inputs, outputs), inputs, outputs),
{
    lemma_can_apply_sets(s, inputs, outputs);
}

/// Taking a block back undoes its application exactly.
pub proof fn lemma_revert_undoes_apply(s: CellState, inputs: Seq<u64>, outputs: Seq<u64>)
    requires
        consistent(s),
        can_apply(s, inputs, outputs),
    ensures
        reverted(applied(s, inputs, outputs), inputs, outputs) == s,
{
    lemma_can_apply_sets(s, inputs, outputs);
    let t = reverted(applied(s, inputs, outputs), inputs, outputs);
    assert(t.live =~= s.live);
    assert(t.dead =~= s.dead);
}

/// The live-cell index of one branch.
pub struct CellSet {
    live: HashSet<u64>,
    dead: HashSet<u64>,
}

impl View for CellSet {
    type V = CellState;

    closed spec fn view(&self) -> CellState {
        CellState { live: self.live@, dead: self.dead@ }
    }
}

impl CellSet {
    /// The index's invariant: see [`consistent`].
    pub open spec fn wf(&self) -> bool {
        consistent(self@)
    }

    /// An index without cells.
    pub fn new() -> (cells: CellSet)
        ensures
            cells@.live == Set::<u64>::empty(),
            cells@.dead == Set::<u64>::empty(),
            cells.wf(),
    {
        CellSet { live: HashSet::new(), dead: HashSet::new() }
    }

    /// Looks a cell up without changing anything.
    pub fn get_cell(&self, cell: u64) -> (status: CellStatus)
        ensures
            status == status_of(self@, cell),
    {
        if self.live.contains(&cell) {
            CellStatus::Live
        } else if self.dead.contains(&cell) {
            CellStatus::Dead
        } else {
            CellStatus::Unknown
        }
    }

    /// Resolves the inputs in order. The error is that of the first input
    /// that cannot be spent.
    pub fn resolve_inputs(&self, inputs: &Vec<Input>) -> (verdict: Result<(), CellError>)
        ensures
            match verdict {
                Ok(()) => inputs_spendable(self@, cells_of(inputs@)),
                Err(e) => !inputs_spendable(self@, cells_of(inputs@)) && first_input_fault(
                    self@,
                    cells_of(inputs@),
                    e,
                ),
            },
    {
        let ghost cells = cells_of(inputs@);
        let mut seen: HashSet<u64> = HashSet::new();
        let mut i: usize = 0;
        while i < inputs.len()
            invariant
                i <= inputs.len(),
                cells == cells_of(inputs@),
                seen@ == prefix_set(cells, i as int),
                forall|j: int| 0 <= j < i ==> (#[trigger] input_fault(self@, cells, j)).is_none(),
            decreases inputs.len() - i,
        {
            let cell = inputs[i].cell;
            proof {
                lemma_prefix_set_step(cells, i as int);
                assert(seen@.contains(cell) == occurs_before(cells, i as int));
            }
            let fault = match self.get_cell(cell) {
                CellStatus::Live => if seen.contains(&cell) {
                    Some(CellError::DeadCell)
                } else {
                    None
                },
                CellStatus::Dead => Some(CellError::DeadCell),
                CellStatus::Unknown => Some(CellError::UnknownCell),
            };
            match fault {
                Some(e) => {
                    assert(input_fault(self@, cells, i as int) == Some(e));
                    assert(!(input_fault(self@, cells, i as int)).is_none());
                    return Err(e);
                },
                None => {},
            }
            seen.insert(cell);
            i += 1;
        }
        Ok(())
    }

    /// Resolves the dependencies in order. The error is that of the first
    /// one that is not live.
    pub fn resolve_deps(&self, deps: &Vec<u64>) -> (verdict: Result<(), CellError>)
        ensures
            match verdict {
                Ok(()) => deps_live(self@, deps@),
                Err(e) => !deps_live(self@, deps@) && first_dep_fault(self@, deps@, e),
            },
    {
        let mut i: usize = 0;
        while i < deps.len()
            invariant
                i <= deps.len(),
                forall|j: int| 0 <= j < i ==> (#[trigger] dep_fault(self@, deps@, j)).is_none(),
            decreases deps.len() - i,
        {
            let fault = match self.get_cell(deps[i]) {
                CellStatus::Live => None,
                CellStatus::Dead => Some(CellError::DeadCell),
                CellStatus::Unknown => Some(CellError::UnknownCell),
            };
            match fault {
                Some(e) => {
                    assert(dep_fault(self@, deps@, i as int) == Some(e));
                    return Err(e);
                },
                None => {},
            }
            i += 1;
        }
        Ok(())
    }

    /// Whether every input's lock has elapsed at `height`.
    pub fn locks_have_elapsed(inputs: &Vec<Input>, height: u64) -> (elapsed: bool)
        ensures
            elapsed == locks_elapsed(inputs@, height),
    {
        let mut i: usize = 0;
        while i < inputs.len()
            invariant
                i <= inputs.len(),
                forall|j: int| 0 <= j < i ==> (#[trigger] inputs@[j]).since <= height,
            decreases inputs.len() - i,
        {
            if inputs[i].since > height {
                return false;
            }
            i += 1;
        }
        true
    }

    /// Whether every output names a new cell, once.
    pub fn outputs_are_fresh(&self, outputs: &Vec<u64>) -> (fresh: bool)
        ensures
            fresh == outputs_fresh(self@, outputs@),
    {
        let mut seen: HashSet<u64> = HashSet::new();
        let mut i: usize = 0;
        while i < outputs.len()
            invariant
                i <= outputs.len(),
                seen@ == prefix_set(outputs@, i as int),
                forall|j: int| 0 <= j < i ==> !#[trigger] output_clash(self@, outputs@, j),
            decreases outputs.len() - i,
        {
            let cell = outputs[i];
            proof {
                lemma_prefix_set_step(outputs@, i as int);
                assert(seen@.contains(cell) == occurs_before(outputs@, i as int));
            }
            if self.get_cell(cell) != CellStatus::Unknown || seen.contains(&cell) {
                assert(output_clash(self@, outputs@, i as int));
                return false;
            }
            seen.insert(cell);
            i += 1;
        }
        true
    }

    /// Applies a block at `height`: its inputs die, its outputs become
    /// live. On an error nothing changes. The inputs are resolved first, in
    /// order, then the dependencies, then the locks are tried, then the
    /// outputs.
    pub fn apply_block(&mut self, block: &BlockCells, height: u64) -> (verdict: Result<(), CellError>)
        requires
            old(self).wf(),
        ensures
            final(self).wf(),
            verdict.is_ok() == can_accept(old(self)@, block@, height),
            match verdict {
                Ok(()) => final(self)@ == applied(
                    old(self)@,
                    cells_of(block.inputs@),
                    block.outputs@,
                ),
                Err(e) => final(self)@ == old(self)@ && apply_fault(old(self)@, block@, height, e),
            },
    {
        match self.resolve_inputs(&block.inputs) {
            Err(e) => {
                return Err(e);
            },
            Ok(()) => {},
        }
        match self.resolve_deps(&block.deps) {
            Err(e) => {
                return Err(e);
            },
            Ok(()) => {},
        }
        if !CellSet::locks_have_elapsed(&block.inputs, height) {
            return Err(CellError::ImmatureCell);
        }
        if !self.outputs_are_fresh(&block.outputs) {
            return Err(CellError::CellExists);
        }
        self.commit(block);
        Ok(())
    }

    /// Applies the cells of a block that is known to fit: its inputs die, its
    /// outputs become live.
    pub fn commit(&mut self, block: &BlockCells)
        requires
            old(self).wf(),
            can_apply(old(self)@, cells_of(block.inputs@), block.outputs@),
        ensures
            final(self).wf(),
            final(self)@ == applied(old(self)@, cells_of(block.inputs@), block.outputs@),
    {
        let ghost inputs = cells_of(block.inputs@);
        let mut i: usize = 0;
        while i < block.inputs.len()
            invariant
                i <= block.inputs.len(),
                inputs == cells_of(block.inputs@),
                self@.live == old(self)@.live.difference(prefix_set(inputs, i as int)),
                self@.dead == old(self)@.dead.union(prefix_set(inputs, i as int)),
            decreases block.inputs.len() - i,
        {
            let cell = block.inputs[i].cell;
            proof {
                lemma_prefix_set_step(inputs, i as int);
            }
            self.live.remove(&cell);
            self.dead.insert(cell);
            proof {
                assert(self@.live =~= old(self)@.live.difference(prefix_set(inputs, i + 1)));
                assert(self@.dead =~= old(self)@.dead.union(prefix_set(inputs, i + 1)));
            }
            i += 1;
        }
        let ghost spent = self@.live;
        let mut k: usize = 0;
        while k < block.outputs.len()
            invariant
                k <= block.outputs.len(),
                self@.live == spent.union(prefix_set(block.outputs@, k as int)),
                self@.dead == old(self)@.dead.union(item_set(inputs)),
            decreases block.outputs.len() - k,
        {
            let cell = block.outputs[k];
            proof {
                lemma_prefix_set_step(block.outputs@, k as int);
            }
            self.live.insert(cell);
            proof {
                assert(self@.live =~= spent.union(prefix_set(block.outputs@, k + 1)));
            }
            k += 1;
        }
        proof {
            lemma_prefix_set_empty(block.outputs@);
            lemma_apply_keeps_consistent(old(self)@, inputs, block.outputs@);
            assert(self@.live =~= applied(old(self)@, inputs, block.outputs@).live);
        }
    }

    /// Whether the block's cells can be taken back: its outputs are live and
    /// its inputs dead.
    pub fn is_applied(&self, block: &BlockCells) -> (yes: bool)
        ensures
            yes == can_revert(self@, cells_of(block.inputs@), block.outputs@),
    {
        let mut i: usize = 0;
        while i < block.outputs.len()
            invariant
                i <= block.outputs.len(),
                prefix_set(block.outputs@, i as int).subset_of(self@.live),
            decreases block.outputs.len() - i,
        {
            proof {
                lemma_prefix_set_step(block.outputs@, i as int);
            }
            if !self.live.contains(&block.outputs[i]) {
                assert(item_set(block.outputs@).contains(block.outputs@[i as int]));
                return false;
            }
            i += 1;
        }
        let mut k: usize = 0;
        while k < block.inputs.len()
            invariant
                k <= block.inputs.len(),
                item_set(block.outputs@).subset_of(self@.live),
                prefix_set(cells_of(block.inputs@), k as int).subset_of(self@.dead),
            decreases block.inputs.len() - k,
        {
            proof {
                lemma_prefix_set_step(cells_of(block.inputs@), k as int);
            }
            if !self.dead.contains(&block.inputs[k].cell) {
                assert(item_set(cells_of(block.inputs@)).contains(cells_of(block.inputs@)[k as int]));
                return false;
            }
            k += 1;
        }
        true
    }

    /// Takes a block's cells back: its outputs are removed, its inputs are
    /// live again.
    pub fn revert_block(&mut self, block: &BlockCells)
        requires
            can_revert(old(self)@, cells_of(block.inputs@), block.outputs@),
        ensures
            final(self)@ == reverted(old(self)@, cells_of(block.inputs@), block.outputs@),
    {
        let mut i: usize = 0;
        while i < block.outputs.len()
            invariant
                i <= block.outputs.len(),
                self@.live == old(self)@.live.difference(prefix_set(block.outputs@, i as int)),
                self@.dead == old(self)@.dead,
            decreases block.outputs.len() - i,
        {
            let cell = block.outputs[i];
            proof {
                lemma_prefix_set_step(block.outputs@, i as int);
            }
            self.live.remove(&cell);
            proof {
                assert(self@.live =~= old(self)@.live.difference(
                    prefix_set(block.outputs@, i + 1),
                ));
            }
            i += 1;
        }
        let ghost cleared = self@.live;
        let mut k: usize = 0;
        while k < block.inputs.len()
            invariant
                k <= block.inputs.len(),
                self@.live == cleared.union(prefix_set(cells_of(block.inputs@), k as int)),
                self@.dead == old(self)@.dead.difference(prefix_set(cells_of(block.inputs@), k as int)),
            decreases block.inputs.len() - k,
        {
            let cell = block.inputs[k].cell;
            proof {
                lemma_prefix_set_step(cells_of(block.inputs@), k as int);
            }
            self.dead.remove(&cell);
            self.live.insert(cell);
            proof {
                assert(self@.live =~= cleared.union(prefix_set(cells_of(block.inputs@), k + 1)));
                assert(self@.dead =~= old(self)@.dead.difference(
                    prefix_set(cells_of(block.inputs@), k + 1),
                ));
            }
            k += 1;
        }
        proof {
            lemma_prefix_set_empty(cells_of(block.inputs@));
        }
    }
}

} // verus!
