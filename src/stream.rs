use vstd::prelude::*;
use crate::types::{is_chain, BlockInfo, HeaderHash};
use crate::walk::{start_view, view_finish, view_start, BlockIterState, NextBlock};

verus! {

/// Blocks from an ancestor (excluded) up to a descendant (included), in
/// increasing depth.
pub struct BlockStream {
    state: BlockIterState,
}

impl BlockStream {
    pub closed spec fn state(&self) -> BlockIterState {
        self.state
    }

    pub open spec fn wf(&self) -> bool {
        self.state().wf()
    }

    /// Streams the `distance` blocks that end at `to_info`.
    pub fn new(to_info: BlockInfo, distance: u64) -> (r: BlockStream)
        requires
            distance <= to_info.depth,
        ensures
            r.wf(),
            r.state().target() == to_info,
            r.state().remaining() == distance,
            !r.state().searching(),
            r.state()@ == start_view(to_info, distance),
    {
        BlockStream { state: BlockIterState::new(to_info, distance) }
    }

    /// `None` once the stream is over; else how to obtain the next block.
    pub fn poll(&mut self) -> (r: Option<NextBlock>)
        requires
            old(self).wf(),
            !old(self).state().searching(),
        ensures
            final(self).wf(),
            final(self).state().target() == old(self).state().target(),
            final(self).state().to_depth() == old(self).state().to_depth(),
            r is None <==> !old(self).state().spec_has_next(),
            r is None ==> *final(self) == *old(self),
            r is Some ==> final(self).state().cur_depth() == old(self).state().cur_depth() + 1,
            r matches Some(NextBlock::Known(info)) ==> {
                &&& info.depth == final(self).state().cur_depth()
                &&& !final(self).state().searching()
            },
            r matches Some(NextBlock::Search { start, distance }) ==> {
                &&& final(self).state().searching()
                &&& start == final(self).state().search_origin().parent_hash
                &&& distance == final(self).state().search_origin().depth
                    - final(self).state().cur_depth() - 1
            },
            final(self).state().cur_depth() == final(self).state().to_depth() && r is Some
                ==> r == Some(NextBlock::Known(final(self).state().target())),
            r is Some ==> (final(self).state()@, r->Some_0) == view_start(old(self).state()@),
    {
        if !self.state.has_next() {
            return None;
        }
        Some(self.state.start_next())
    }

    /// See `BlockIterState::check_answer`.
    pub fn check_answer(&self, visited: &Vec<BlockInfo>, found: &BlockInfo) -> (r: bool)
        requires
            self.wf(),
            self.state().searching(),
        ensures
            r == self.state().answer_fits(visited@, *found),
    {
        self.state.check_answer(visited, found)
    }

    /// See `BlockIterState::finish_search`.
    pub fn finish_search(&mut self, visited: Vec<BlockInfo>, found: BlockInfo) -> (r: BlockInfo)
        requires
            old(self).wf(),
            old(self).state().searching(),
            old(self).state().answer_fits(visited@, found),
        ensures
            final(self).wf(),
            !final(self).state().searching(),
            final(self).state().target() == old(self).state().target(),
            final(self).state().to_depth() == old(self).state().to_depth(),
            final(self).state().cur_depth() == old(self).state().cur_depth(),
            r == found,
            final(self).state()@ == view_finish(old(self).state()@, visited@),
    {
        self.state.finish_search(visited, found)
    }

    /// See `BlockIterState::abandon_search`.
    pub fn abandon_search(&mut self)
        requires
            old(self).wf(),
            old(self).state().searching(),
        ensures
            final(self).wf(),
            !final(self).state().searching(),
            final(self).state().target() == old(self).state().target(),
            final(self).state().to_depth() == old(self).state().to_depth(),
            final(self).state().cur_depth() == old(self).state().cur_depth(),
            final(self).state().frames() == old(self).state().frames(),
    {
        self.state.abandon_search()
    }
}

/// Blocks from a descendant back toward an ancestor (or genesis), in
/// decreasing depth, following parent hashes.
pub struct BlockStreamReversed {
    last_block: HeaderHash,
    to: Option<HeaderHash>,
    finished: bool,
}

impl BlockStreamReversed {
    /// Hash of the block that the next pull fetches.
    pub closed spec fn last_block(&self) -> HeaderHash {
        self.last_block
    }

    /// Hash at which the stream stops, the block at it included.
    pub closed spec fn stop(&self) -> Option<HeaderHash> {
        self.to
    }

    pub closed spec fn finished(&self) -> bool {
        self.finished
    }

    /// The stream that `new(from, to)` returns.
    pub closed spec fn spec_new(from: HeaderHash, to: Option<HeaderHash>) -> BlockStreamReversed {
        BlockStreamReversed { last_block: from, to, finished: false }
    }

    /// The stream after the block at `last_block`, with metadata `info`, was
    /// emitted.
    pub closed spec fn after(self, info: BlockInfo) -> BlockStreamReversed {
        match self.to {
            Some(t) => if t@ == self.last_block@ {
                BlockStreamReversed { finished: true, ..self }
            } else {
                BlockStreamReversed { last_block: info.parent_hash, ..self }
            },
            None => if info.depth > 1 {
                BlockStreamReversed { last_block: info.parent_hash, ..self }
            } else {
                BlockStreamReversed { finished: true, ..self }
            },
        }
    }

    pub fn new(from: HeaderHash, to: Option<HeaderHash>) -> (r: BlockStreamReversed)
        ensures
            r == Self::spec_new(from, to),
            r.last_block() == from,
            r.stop() == to,
            !r.finished(),
    {
        BlockStreamReversed { last_block: from, to, finished: false }
    }

    /// `None` once the stream is over; else the hash of the block (and
    /// metadata) to fetch and emit next.
    pub fn poll(&self) -> (r: Option<HeaderHash>)
        ensures
            r is None <==> self.finished(),
            r is Some ==> r == Some(self.last_block()),
    {
        if self.finished {
            None
        } else {
            Some(self.last_block)
        }
    }

    /// Records that the block at `last_block`, with metadata `info`, was
    /// emitted.
    pub fn advance(&mut self, info: &BlockInfo)
        requires
            !old(self).finished(),
        ensures
            *final(self) == old(self).after(*info),
            final(self).stop() == old(self).stop(),
            final(self).finished() ==> final(self).last_block() == old(self).last_block(),
            !final(self).finished() ==> final(self).last_block() == info.parent_hash,
            final(self).finished() <==> match old(self).stop() {
                Some(t) => t@ == old(self).last_block()@,
                None => info.depth <= 1,
            },
    {
        match self.to {
            Some(t) => {
                if t == self.last_block {
                    self.finished = true;
                } else {
                    self.last_block = info.parent_hash;
                }
            },
            None => {
                if info.depth > 1 {
                    self.last_block = info.parent_hash;
                } else {
                    self.finished = true;
                }
            },
        }
    }
}

/// A store whose metadata lookup answers with `chain`'s entries.
pub open spec fn serves(lookup: spec_fn(Seq<u8>) -> BlockInfo, chain: Seq<BlockInfo>) -> bool {
    forall|i: int| 0 <= i < chain.len() ==> lookup(#[trigger] chain[i].block_hash@) == chain[i]
}

/// Metadata of the blocks that `s` emits in at most `pulls` pulls when the
/// store answers lookups with `lookup`.
pub open spec fn reverse_trace(
    s: BlockStreamReversed,
    lookup: spec_fn(Seq<u8>) -> BlockInfo,
    pulls: nat,
) -> Seq<BlockInfo>
    decreases pulls,
{
    if pulls == 0 || s.finished() {
        seq![]
    } else {
        let info = lookup(s.last_block()@);
        seq![info] + reverse_trace(s.after(info), lookup, (pulls - 1) as nat)
    }
}

proof fn lemma_reverse_from(
    chain: Seq<BlockInfo>,
    lookup: spec_fn(Seq<u8>) -> BlockInfo,
    s: BlockStreamReversed,
    stop: int,
    k: int,
    pulls: nat,
)
    requires
        is_chain(chain),
        serves(lookup, chain),
        0 <= stop <= k < chain.len(),
        k + 1 <= pulls,
        !s.finished(),
        s.last_block() == chain[k].block_hash,
        s.stop() matches Some(t) ==> t == chain[stop].block_hash,
        s.stop() is None ==> stop == 0,
    ensures
        reverse_trace(s, lookup, pulls).len() == k - stop + 1,
        forall|j: int|
            0 <= j <= k - stop ==> #[trigger] reverse_trace(s, lookup, pulls)[j] == chain[k - j],
    decreases k,
{
    let info = lookup(s.last_block()@);
    assert(info == chain[k]);
    let next = s.after(info);
    let rest = reverse_trace(next, lookup, (pulls - 1) as nat);
    if k == stop {
        assert(next.finished());
        assert(rest.len() == 0);
    } else {
        if let Some(t) = s.stop() {
            assert(lookup(chain[stop].block_hash@) == chain[stop]);
            assert(t@ != s.last_block()@);
        }
        assert(next.last_block() == chain[k - 1].block_hash);
        lemma_reverse_from(chain, lookup, next, stop, k - 1, (pulls - 1) as nat);
    }
    assert(reverse_trace(s, lookup, pulls) == seq![info] + rest);
}

/// Streaming back from the tip of a chain with no stop hash emits every block
/// of the chain, in strictly decreasing depth, ending at genesis; one more
/// pull emits nothing.
pub proof fn lemma_reverse_to_genesis(chain: Seq<BlockInfo>, lookup: spec_fn(Seq<u8>) -> BlockInfo)
    requires
        is_chain(chain),
        chain.len() > 0,
        serves(lookup, chain),
    ensures
        ({
            let s = BlockStreamReversed::spec_new(chain.last().block_hash, None);
            let t = reverse_trace(s, lookup, chain.len());
            &&& t.len() == chain.len()
            &&& forall|j: int| 0 <= j < t.len() ==> #[trigger] t[j] == chain[chain.len() - 1 - j]
            &&& forall|j: int| 0 < j < t.len() ==> #[trigger] t[j].depth < t[j - 1].depth
            &&& t.last().depth == 1
            &&& reverse_trace(s, lookup, chain.len() + 1) == t
        }),
{
    let s = BlockStreamReversed::spec_new(chain.last().block_hash, None);
    let n = chain.len() as int;
    lemma_reverse_from(chain, lookup, s, 0, n - 1, chain.len());
    lemma_reverse_from(chain, lookup, s, 0, n - 1, (chain.len() + 1) as nat);
    let t = reverse_trace(s, lookup, chain.len());
    let t1 = reverse_trace(s, lookup, (chain.len() + 1) as nat);
    assert(t1 =~= t);
    assert forall|j: int| 0 < j < t.len() implies #[trigger] t[j].depth < t[j - 1].depth by {
        assert(t[j] == chain[n - 1 - j]);
        assert(t[j - 1] == chain[n - 1 - (j - 1)]);
    }
    assert(t[n - 1] == chain[0]);
}

/// Streaming back from a block of a chain down to an ancestor on it emits
/// the blocks from the start down to the ancestor, both included: one more
/// than the distance between them; one more pull emits nothing.
pub proof fn lemma_reverse_to_ancestor(
    chain: Seq<BlockInfo>,
    lookup: spec_fn(Seq<u8>) -> BlockInfo,
    ancestor: int,
    descendant: int,
)
    requires
        is_chain(chain),
        serves(lookup, chain),
        0 <= ancestor <= descendant < chain.len(),
    ensures
        ({
            let s = BlockStreamReversed::spec_new(
                chain[descendant].block_hash,
                Some(chain[ancestor].block_hash),
            );
            let t = reverse_trace(s, lookup, chain.len());
            &&& t.len() == chain[descendant].depth - chain[ancestor].depth + 1
            &&& forall|j: int| 0 <= j < t.len() ==> #[trigger] t[j] == chain[descendant - j]
            &&& t.last() == chain[ancestor]
            &&& reverse_trace(s, lookup, chain.len() + 1) == t
        }),
{
    let s = BlockStreamReversed::spec_new(
        chain[descendant].block_hash,
        Some(chain[ancestor].block_hash),
    );
    lemma_reverse_from(chain, lookup, s, ancestor, descendant, chain.len());
    lemma_reverse_from(chain, lookup, s, ancestor, descendant, (chain.len() + 1) as nat);
    let t = reverse_trace(s, lookup, chain.len());
    assert(reverse_trace(s, lookup, (chain.len() + 1) as nat) =~= t);
    assert(t[descendant - ancestor] == chain[ancestor]);
}

} // verus!
