//! Cursor over the instructions of a block that stays valid while the
//! block is changed.
//!
//! The cursor walks a snapshot of the block's instruction list taken when
//! it was created; each step yields one instruction and a fresh cursor at
//! the next position, so erasing or moving the yielded instruction does not
//! disturb the walk.

use vstd::prelude::*;
use crate::ir::{Module, BlockId, ValueId};

verus! {

/// Single-pass cursor over a snapshot of a block's instructions.
pub struct BlockCursor {
    block: BlockId,
    snapshot: Vec<ValueId>,
    next_index: usize,
}

/// What a cursor is: its block, the instructions it walks and the
/// position of the next one.
pub struct BlockCursorView {
    pub block: BlockId,
    pub snapshot: Seq<ValueId>,
    pub next_index: nat,
}

impl View for BlockCursor {
    type V = BlockCursorView;

    closed spec fn view(&self) -> BlockCursorView {
        BlockCursorView { block: self.block, snapshot: self.snapshot@, next_index: self.next_index as nat }
    }
}

/// One step of a walk: `c` has an instruction left, it is `v`, and `c2`
/// is the cursor past it.
pub open spec fn cursor_step(c: BlockCursorView, v: ValueId, c2: BlockCursorView) -> bool {
    &&& c.next_index < c.snapshot.len()
    &&& v == c.snapshot[c.next_index as int]
    &&& c2 == (BlockCursorView { block: c.block, snapshot: c.snapshot, next_index: c.next_index + 1 })
}

/// A walk that starts at the first of the instructions `insts` and takes
/// the steps `cursors[k]` to `cursors[k + 1]`, yielding `yielded[k]`,
/// yields the instructions of the snapshot in order, whatever happened to
/// the block meanwhile; after as many steps as there are instructions the
/// cursor has nothing left, so `next` answers `None`.
pub proof fn law_cursor_walks_snapshot(insts: Seq<ValueId>, cursors: Seq<BlockCursorView>, yielded: Seq<ValueId>)
    requires
        cursors.len() == yielded.len() + 1,
        cursors[0].snapshot == insts,
        cursors[0].next_index == 0,
        forall|k: int| 0 <= k < yielded.len() ==> #[trigger] cursor_step(cursors[k], yielded[k], cursors[k + 1]),
    ensures
        yielded.len() <= insts.len(),
        yielded == insts.take(yielded.len() as int),
        forall|k: int| 0 <= k < cursors.len() ==> (#[trigger] cursors[k]).snapshot == insts && cursors[k].next_index == k,
        yielded.len() == insts.len() ==> cursors[yielded.len() as int].next_index >= cursors[yielded.len() as int].snapshot.len(),
    decreases yielded.len(),
{
    if yielded.len() > 0 {
        let n = yielded.len() - 1;
        let cs = cursors.take(n + 1);
        let ys = yielded.take(n);
        assert forall|k: int| 0 <= k < ys.len() implies #[trigger] cursor_step(cs[k], ys[k], cs[k + 1]) by {
            assert(cursor_step(cursors[k], yielded[k], cursors[k + 1]));
        }
        law_cursor_walks_snapshot(insts, cs, ys);
        assert(cs[n] == cursors[n]);
        assert(cursor_step(cursors[n], yielded[n], cursors[n + 1]));
        assert forall|k: int| 0 <= k < cursors.len() implies (#[trigger] cursors[k]).snapshot == insts && cursors[k].next_index == k by {
            if k <= n {
                assert(cs[k] == cursors[k]);
            }
        }
        assert(yielded =~= insts.take(yielded.len() as int)) by {
            assert forall|k: int| 0 <= k < yielded.len() implies yielded[k] == insts.take(yielded.len() as int)[k] by {
                if k < n {
                    assert(ys[k] == yielded[k]);
                }
            }
        }
    }
}

impl BlockCursor {
    /// A cursor at the first instruction of `block`.
    pub fn at_start(m: &Module, block: BlockId) -> (r: BlockCursor)
        requires
            m.valid_block(block),
        ensures
            r@.block == block,
            r@.snapshot == m.blocks()[block.0 as int].insts@,
            r@.next_index == 0,
    {
        let insts = m.block_instructions(block);
        let n = insts.len();
        let mut snapshot: Vec<ValueId> = Vec::new();
        for i in 0..n
            invariant
                n == insts@.len(),
                snapshot@ == insts@.take(i as int),
        {
            snapshot.push(insts[i]);
            assert(snapshot@ =~= insts@.take(i + 1));
        }
        assert(snapshot@ =~= insts@);
        BlockCursor { block, snapshot, next_index: 0 }
    }

    /// The block the cursor walks.
    pub fn into_block(self) -> (r: BlockId)
        ensures
            r == self@.block,
    {
        self.block
    }

    /// The instruction at the current position and a cursor past it, or
    /// `None` once the snapshot is exhausted.
    pub fn next(self) -> (r: Option<(ValueId, BlockCursor)>)
        ensures
            self@.next_index < self@.snapshot.len() ==> (r matches Some(step) && step.0 == self@.snapshot[self@.next_index as int]
                && step.1@ == (BlockCursorView { block: self@.block, snapshot: self@.snapshot, next_index: self@.next_index + 1 })),
            self@.next_index >= self@.snapshot.len() ==> r is None,
            r matches Some(step) ==> cursor_step(self@, step.0, step.1@),
    {
        if self.next_index >= self.snapshot.len() {
            return None;
        }
        let id = self.snapshot[self.next_index];
        let next = BlockCursor { block: self.block, snapshot: self.snapshot, next_index: self.next_index + 1 };
        Some((id, next))
    }
}

} // verus!
