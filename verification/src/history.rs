//! Block history related primitives.
use std::collections::VecDeque;
use vstd::prelude::*;

use crate::block::{Block, Head};
use crate::crypto::blake3_digest;
use crate::{CoreError, EPOCH_LENGTH};

verus! {

/// The block history of the network: the heads of the most recent blocks,
/// oldest first.
#[derive(Debug, Clone)]
pub struct History {
    /// The blocks of the network
    pub blocks: VecDeque<Head>,
}

/// The last `EPOCH_LENGTH` entries of `heads` (all of them when there are fewer).
pub open spec fn recent(heads: Seq<Head>) -> Seq<Head> {
    if heads.len() > EPOCH_LENGTH {
        heads.skip(heads.len() - EPOCH_LENGTH)
    } else {
        heads
    }
}

/// The history window never holds more than `EPOCH_LENGTH` heads; it keeps
/// the newest ones, in order, and the newest head of `heads` is its last.
pub proof fn lemma_recent_window(heads: Seq<Head>)
    ensures
        recent(heads).len() <= EPOCH_LENGTH,
        heads.len() <= EPOCH_LENGTH ==> recent(heads) == heads,
        heads.len() > EPOCH_LENGTH ==> recent(heads).len() == EPOCH_LENGTH,
        recent(heads).len() <= heads.len(),
        forall|i: int|
            0 <= i < recent(heads).len() ==> #[trigger] recent(heads)[i] == heads[heads.len()
                - recent(heads).len() + i],
        heads.len() > 0 ==> recent(heads).last() == heads.last(),
{
}

impl History {
    /// An empty history.
    pub fn new() -> (history: History)
        ensures
            history.blocks@.len() == 0,
    {
        History { blocks: VecDeque::new() }
    }

    /// Import a new block into the history: its head is appended, and the
    /// oldest heads are dropped until at most `EPOCH_LENGTH` remain.
    pub fn import(&mut self, block: Block) -> (r: Result<(), CoreError>)
        ensures
            r is Ok,
            final(self).blocks@ == recent(old(self).blocks@.push(final(self).blocks@.last())),
            final(self).blocks@.len() >= 1,
            final(self).blocks@.last().slot == block.header.slot,
            final(self).blocks@.last().hash@ == blake3_digest(block.header.preimage()),
    {
        let head = block.head();
        let ghost pushed = self.blocks@.push(head);
        self.blocks.push_back(head);
        while self.blocks.len() > EPOCH_LENGTH
            invariant
                pushed.len() >= 1,
                pushed.last() == head,
                self.blocks@.len() >= 1,
                self.blocks@ == pushed.skip(pushed.len() - self.blocks@.len()),
                self.blocks@.len() <= pushed.len(),
                pushed.len() > EPOCH_LENGTH ==> self.blocks@.len() >= EPOCH_LENGTH,
                pushed.len() <= EPOCH_LENGTH ==> self.blocks@.len() == pushed.len(),
            decreases self.blocks@.len(),
        {
            let ghost before = self.blocks@;
            self.blocks.pop_front();
            assert(self.blocks@ =~= pushed.skip(pushed.len() - self.blocks@.len()));
        }
        proof {
            assert(self.blocks@.last() == pushed.last());
            if pushed.len() <= EPOCH_LENGTH {
                assert(self.blocks@ =~= pushed);
            }
        }
        Ok(())
    }
}

} // verus!
