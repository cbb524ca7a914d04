use vstd::prelude::*;
use crate::types::{is_chain, BlockInfo, HeaderHash};

verus! {

/// What the caller does to obtain the next block of a walk.
#[derive(Clone, Copy, Debug)]
pub enum NextBlock {
    /// The metadata of the next block is already known: fetch the block at
    /// its hash.
    Known(BlockInfo),
    /// Walk back from `start` to its ancestor `distance` steps away, keeping
    /// the metadata of every block visited before the last one, nearest
    /// first; then hand them and the last metadata to `finish_search`, and
    /// fetch the block at the hash that it returns.
    Search { start: HeaderHash, distance: u64 },
}

/// The state of a walk as a mathematical value.
pub ghost struct WalkView {
    pub to_depth: u64,
    pub cur_depth: u64,
    pub frames: Seq<BlockInfo>,
    pub searching: bool,
}

/// The walk that `BlockIterState::new(to_info, distance)` starts.
pub open spec fn start_view(to_info: BlockInfo, distance: u64) -> WalkView {
    WalkView {
        to_depth: to_info.depth,
        cur_depth: (to_info.depth - distance) as u64,
        frames: seq![to_info],
        searching: false,
    }
}

/// The walk after `start_next`, and what that call returns.
pub open spec fn view_start(v: WalkView) -> (WalkView, NextBlock) {
    let cur = (v.cur_depth + 1) as u64;
    let top = v.frames.last();
    if top.depth == cur {
        (WalkView { cur_depth: cur, frames: v.frames.drop_last(), ..v }, NextBlock::Known(top))
    } else {
        (
            WalkView { cur_depth: cur, searching: true, ..v },
            NextBlock::Search {
                start: top.parent_hash,
                distance: (top.depth - cur - 1) as u64,
            },
        )
    }
}

/// The walk after `finish_search` with the metadata `visited` on the way.
pub open spec fn view_finish(v: WalkView, visited: Seq<BlockInfo>) -> WalkView {
    WalkView { frames: v.frames + visited, searching: false, ..v }
}

/// Produces the blocks from a starting depth up to a target block, in
/// increasing depth, keeping the ancestor metadata that earlier searches
/// discovered so that shared chain segments are not walked twice.
pub struct BlockIterState {
    to_depth: u64,
    cur_depth: u64,
    /// Known ancestor metadata, deepest at the bottom.
    pending_infos: Vec<BlockInfo>,
    /// A search was handed out and its answer has not come back.
    searching: bool,
    target: Ghost<BlockInfo>,
}

impl BlockIterState {
    pub open spec fn to_depth(&self) -> u64 {
        self@.to_depth
    }

    pub open spec fn cur_depth(&self) -> u64 {
        self@.cur_depth
    }

    pub open spec fn frames(&self) -> Seq<BlockInfo> {
        self@.frames
    }

    pub open spec fn searching(&self) -> bool {
        self@.searching
    }

    /// Metadata of the block that the walk ends at.
    pub closed spec fn target(&self) -> BlockInfo {
        self.target@
    }

    pub closed spec fn view(&self) -> WalkView {
        WalkView {
            to_depth: self.to_depth,
            cur_depth: self.cur_depth,
            frames: self.pending_infos@,
            searching: self.searching,
        }
    }

    /// Number of blocks that the walk has still to produce.
    pub open spec fn remaining(&self) -> int {
        self.to_depth() - self.cur_depth()
    }

    pub open spec fn spec_has_next(&self) -> bool {
        self.cur_depth() < self.to_depth()
    }

    /// Frames are ordered by strictly decreasing depth from bottom to top, the
    /// bottom one is the target, and all lie deeper than the current depth
    /// while blocks remain.
    pub open spec fn wf(&self) -> bool {
        &&& self.to_depth() == self.target().depth
        &&& self.cur_depth() <= self.to_depth()
        &&& forall|i: int, j: int|
            0 <= i < j < self.frames().len() ==> self.frames()[i].depth > self.frames()[j].depth
        &&& self.frames().len() > 0 ==> self.frames()[0] == self.target()
        &&& self.spec_has_next() ==> self.frames().len() > 0
        &&& self.spec_has_next() ==> forall|i: int|
            0 <= i < self.frames().len() ==> self.frames()[i].depth > self.cur_depth()
        &&& self.searching() ==> self.spec_has_next() || self.frames().len() > 0
        &&& self.searching() ==> forall|i: int|
            0 <= i < self.frames().len() ==> self.frames()[i].depth > self.cur_depth()
    }

    /// The frame that the pending search started from.
    pub open spec fn search_origin(&self) -> BlockInfo {
        self.frames().last()
    }

    /// What a store that keeps its contract answers to the pending search:
    /// the visited metadata lie strictly between the current depth and the
    /// origin frame, nearest first, and the last one is at the current depth.
    pub open spec fn answer_fits(&self, visited: Seq<BlockInfo>, found: BlockInfo) -> bool {
        &&& found.depth == self.cur_depth()
        &&& forall|i: int|
            0 <= i < visited.len() ==> self.cur_depth() < #[trigger] visited[i].depth
                < self.search_origin().depth
        &&& forall|i: int, j: int| 0 <= i < j < visited.len() ==> visited[i].depth > visited[j].depth
    }

    /// Starts a walk that ends at `to_info` and produces the last `distance`
    /// blocks up to it.
    pub fn new(to_info: BlockInfo, distance: u64) -> (r: BlockIterState)
        requires
            distance <= to_info.depth,
        ensures
            r.wf(),
            r.target() == to_info,
            r.to_depth() == to_info.depth,
            r.cur_depth() == to_info.depth - distance,
            r.remaining() == distance,
            r.frames() == seq![to_info],
            !r.searching(),
            r@ == start_view(to_info, distance),
    {
        BlockIterState {
            to_depth: to_info.depth,
            cur_depth: to_info.depth - distance,
            pending_infos: vec![to_info],
            searching: false,
            target: Ghost(to_info),
        }
    }

    pub fn has_next(&self) -> (r: bool)
        ensures
            r == self.spec_has_next(),
    {
        self.cur_depth < self.to_depth
    }

    /// Moves one block deeper and says how to obtain it.
    pub fn start_next(&mut self) -> (r: NextBlock)
        requires
            old(self).wf(),
            !old(self).searching(),
            old(self).spec_has_next(),
        ensures
            final(self).wf(),
            final(self).target() == old(self).target(),
            final(self).to_depth() == old(self).to_depth(),
            final(self).cur_depth() == old(self).cur_depth() + 1,
            match r {
                NextBlock::Known(info) => {
                    &&& info.depth == final(self).cur_depth()
                    &&& info == old(self).frames().last()
                    &&& final(self).frames() == old(self).frames().drop_last()
                    &&& !final(self).searching()
                },
                NextBlock::Search { start, distance } => {
                    &&& final(self).searching()
                    &&& final(self).frames() == old(self).frames()
                    &&& start == final(self).search_origin().parent_hash
                    &&& distance == final(self).search_origin().depth - final(self).cur_depth() - 1
                },
            },
            final(self).cur_depth() == final(self).to_depth() ==> r == NextBlock::Known(
                final(self).target(),
            ),
            (final(self)@, r) == view_start(old(self)@),
    {
        self.cur_depth = self.cur_depth + 1;
        let top = self.pending_infos.pop().unwrap();
        if top.depth == self.cur_depth {
            proof {
                if self.cur_depth == self.to_depth && self.pending_infos@.len() > 0 {
                    let old_frames = self.pending_infos@.push(top);
                    assert(old_frames[0].depth > old_frames[old_frames.len() - 1].depth);
                }
            }
            NextBlock::Known(top)
        } else {
            let start = top.parent_hash;
            let distance = top.depth - self.cur_depth - 1;
            self.pending_infos.push(top);
            self.searching = true;
            proof {
                if self.cur_depth == self.to_depth {
                    assert(self.pending_infos@[0].depth > self.cur_depth);
                }
            }
            NextBlock::Search { start, distance }
        }
    }

    /// Tells whether an answer to the pending search is what a store that
    /// keeps its contract returns.
    pub fn check_answer(&self, visited: &Vec<BlockInfo>, found: &BlockInfo) -> (r: bool)
        requires
            self.wf(),
            self.searching(),
        ensures
            r == self.answer_fits(visited@, *found),
    {
        if found.depth != self.cur_depth {
            return false;
        }
        let origin_depth = self.pending_infos[self.pending_infos.len() - 1].depth;
        let mut i: usize = 0;
        while i < visited.len()
            invariant
                self.wf(),
                self.searching(),
                found.depth == self.cur_depth(),
                origin_depth == self.search_origin().depth,
                0 <= i <= visited@.len(),
                forall|k: int|
                    0 <= k < i ==> self.cur_depth() < #[trigger] visited@[k].depth < origin_depth,
                forall|k: int, l: int| 0 <= k < l < i ==> visited@[k].depth > visited@[l].depth,
            decreases visited@.len() - i,
        {
            let d = visited[i].depth;
            if d <= self.cur_depth || d >= origin_depth {
                return false;
            }
            if i > 0 && visited[i - 1].depth <= d {
                return false;
            }
            proof {
                assert forall|k: int, l: int| 0 <= k < l < i + 1 implies visited@[k].depth
                    > visited@[l].depth by {
                    if l == i && k < i - 1 {
                        assert(visited@[k].depth > visited@[i - 1].depth);
                    }
                }
            }
            i = i + 1;
        }
        true
    }

    /// Records the answer to the pending search and returns the metadata of
    /// the block to fetch.
    pub fn finish_search(&mut self, visited: Vec<BlockInfo>, found: BlockInfo) -> (r: BlockInfo)
        requires
            old(self).wf(),
            old(self).searching(),
            old(self).answer_fits(visited@, found),
        ensures
            final(self).wf(),
            !final(self).searching(),
            final(self).target() == old(self).target(),
            final(self).to_depth() == old(self).to_depth(),
            final(self).cur_depth() == old(self).cur_depth(),
            final(self).frames() == old(self).frames() + visited@,
            r == found,
            r.depth == final(self).cur_depth(),
            final(self)@ == view_finish(old(self)@, visited@),
    {
        let ghost frames0 = self.pending_infos@;
        let mut i: usize = 0;
        while i < visited.len()
            invariant
                old(self).wf(),
                old(self).searching(),
                old(self).answer_fits(visited@, found),
                frames0 == old(self).frames(),
                self.to_depth == old(self).to_depth(),
                self.cur_depth == old(self).cur_depth(),
                self.target == old(self).target,
                self.searching,
                0 <= i <= visited@.len(),
                self.pending_infos@ == frames0 + visited@.take(i as int),
            decreases visited@.len() - i,
        {
            self.pending_infos.push(visited[i]);
            proof {
                assert(visited@.take(i as int).push(visited@[i as int]) =~= visited@.take(i + 1));
            }
            i = i + 1;
        }
        self.searching = false;
        proof {
            assert(visited@.take(visited@.len() as int) =~= visited@);
            let fr = self.pending_infos@;
            let n0 = frames0.len() as int;
            assert forall|a: int, b: int| 0 <= a < b < fr.len() implies fr[a].depth
                > fr[b].depth by {
                if b >= n0 {
                    assert(fr[b] == visited@[b - n0]);
                    if a >= n0 {
                        assert(fr[a] == visited@[a - n0]);
                    } else {
                        assert(frames0[a].depth >= frames0[n0 - 1].depth);
                        assert(visited@[b - n0].depth < frames0[n0 - 1].depth);
                    }
                }
            }
            assert forall|a: int| 0 <= a < fr.len() implies fr[a].depth > self.cur_depth by {
                if a >= n0 {
                    assert(fr[a] == visited@[a - n0]);
                }
            }
        }
        found
    }

    /// Gives up the pending search, after the store failed to answer it.
    pub fn abandon_search(&mut self)
        requires
            old(self).wf(),
            old(self).searching(),
        ensures
            final(self).wf(),
            !final(self).searching(),
            final(self).target() == old(self).target(),
            final(self).to_depth() == old(self).to_depth(),
            final(self).cur_depth() == old(self).cur_depth(),
            final(self).frames() == old(self).frames(),
    {
        self.searching = false;
    }
}

/// What a store holding `chain` answers to the search that the walk `v`
/// has just handed out: every block from the origin's parent down to the
/// current depth, excluded, nearest first.
pub open spec fn chain_visited(chain: Seq<BlockInfo>, v: WalkView) -> Seq<BlockInfo> {
    let origin = v.frames.last();
    Seq::new((origin.depth - 1 - v.cur_depth) as nat, |j: int| chain[origin.depth - 2 - j])
}

/// Metadata of the blocks that the walk `v` produces in at most `pulls`
/// pulls when the store holds `chain`.
pub open spec fn forward_trace(v: WalkView, chain: Seq<BlockInfo>, pulls: nat) -> Seq<BlockInfo>
    decreases pulls,
{
    if pulls == 0 || v.cur_depth >= v.to_depth {
        seq![]
    } else {
        let (v1, step) = view_start(v);
        match step {
            NextBlock::Known(info) => seq![info] + forward_trace(v1, chain, (pulls - 1) as nat),
            NextBlock::Search { .. } => seq![chain[v1.cur_depth - 1]] + forward_trace(
                view_finish(v1, chain_visited(chain, v1)),
                chain,
                (pulls - 1) as nat,
            ),
        }
    }
}

/// The walk `v` runs along `chain`: its frames are the chain's entries at
/// their depths, by strictly decreasing depth from the target at the bottom,
/// and all deeper than the current depth while blocks remain.
pub open spec fn walk_on_chain(chain: Seq<BlockInfo>, v: WalkView) -> bool {
    &&& v.to_depth <= chain.len()
    &&& v.cur_depth <= v.to_depth
    &&& v.cur_depth < v.to_depth ==> v.frames.len() > 0
    &&& v.frames.len() > 0 ==> v.frames[0].depth == v.to_depth
    &&& forall|i: int, j: int| 0 <= i < j < v.frames.len() ==> v.frames[i].depth > v.frames[j].depth
    &&& forall|i: int|
        0 <= i < v.frames.len() ==> (#[trigger] v.frames[i]).depth <= v.to_depth
            && v.frames[i] == chain[v.frames[i].depth - 1]
            && (v.cur_depth < v.to_depth ==> v.cur_depth < v.frames[i].depth)
}

/// One step of a walk along a chain produces the chain's next block, and the
/// walk stays on the chain once a search is answered from it.
pub proof fn lemma_step_on_chain(chain: Seq<BlockInfo>, v: WalkView)
    requires
        is_chain(chain),
        walk_on_chain(chain, v),
        v.cur_depth < v.to_depth,
    ensures
        ({
            let (v1, step) = view_start(v);
            &&& v1.cur_depth == v.cur_depth + 1
            &&& v1.to_depth == v.to_depth
            &&& match step {
                NextBlock::Known(info) => {
                    &&& info == chain[v1.cur_depth - 1]
                    &&& walk_on_chain(chain, v1)
                    &&& !v1.searching == !v.searching
                },
                NextBlock::Search { .. } => {
                    &&& v1.searching
                    &&& walk_on_chain(chain, view_finish(v1, chain_visited(chain, v1)))
                },
            }
        }),
{
    let (v1, step) = view_start(v);
    let top = v.frames.last();
    let n = v.frames.len() as int;
    match step {
        NextBlock::Known(info) => {
            assert forall|i: int| 0 <= i < v1.frames.len() implies v1.cur_depth < (
            #[trigger] v1.frames[i]).depth by {
                assert(v.frames[i].depth > v.frames[n - 1].depth);
            }
            if v1.cur_depth < v1.to_depth {
                assert(n > 1);
            }
        },
        NextBlock::Search { .. } => {
            let visited = chain_visited(chain, v1);
            let v2 = view_finish(v1, visited);
            let fr = v2.frames;
            assert forall|a: int, b: int| 0 <= a < b < fr.len() implies fr[a].depth
                > fr[b].depth by {
                if b >= n {
                    if a < n {
                        assert(v.frames[a].depth >= top.depth);
                    }
                }
            }
            assert forall|i: int| 0 <= i < fr.len() implies (#[trigger] fr[i]).depth
                <= v2.to_depth && fr[i] == chain[fr[i].depth - 1] && v2.cur_depth
                < fr[i].depth by {
                if i < n {
                    assert(fr[i] == v.frames[i]);
                } else {
                    assert(fr[i] == visited[i - n]);
                }
            }
        },
    }
}

proof fn lemma_forward_from(chain: Seq<BlockInfo>, v: WalkView, pulls: nat)
    requires
        is_chain(chain),
        walk_on_chain(chain, v),
        pulls >= v.to_depth - v.cur_depth,
    ensures
        forward_trace(v, chain, pulls) == chain.subrange(v.cur_depth as int, v.to_depth as int),
    decreases v.to_depth - v.cur_depth,
{
    if v.cur_depth >= v.to_depth {
        assert(chain.subrange(v.cur_depth as int, v.to_depth as int) =~= seq![]);
    } else {
        let (v1, step) = view_start(v);
        let rest = chain.subrange(v1.cur_depth as int, v.to_depth as int);
        assert(chain.subrange(v.cur_depth as int, v.to_depth as int) =~= seq![
            chain[v.cur_depth as int],
        ] + rest);
        lemma_step_on_chain(chain, v);
        match step {
            NextBlock::Known(info) => {
                lemma_forward_from(chain, v1, (pulls - 1) as nat);
            },
            NextBlock::Search { .. } => {
                lemma_forward_from(
                    chain,
                    view_finish(v1, chain_visited(chain, v1)),
                    (pulls - 1) as nat,
                );
            },
        }
    }
}

/// When `from`, at index `t - distance` of a chain, is an ancestor of `to`,
/// at index `t`, the walk from `to` back `distance` blocks produces exactly
/// the `distance` blocks after `from` up to `to`, in increasing depth and
/// ending at `to`; one more pull produces nothing.
pub proof fn lemma_forward_walk(chain: Seq<BlockInfo>, t: int, distance: u64)
    requires
        is_chain(chain),
        0 <= t < chain.len(),
        distance <= t,
    ensures
        forward_trace(start_view(chain[t], distance), chain, distance as nat) == chain.subrange(
            t + 1 - distance,
            t + 1,
        ),
        forward_trace(start_view(chain[t], distance), chain, (distance + 1) as nat)
            == forward_trace(start_view(chain[t], distance), chain, distance as nat),
        distance > 0 ==> forward_trace(start_view(chain[t], distance), chain, distance as nat).last()
            == chain[t],
{
    let v = start_view(chain[t], distance);
    lemma_forward_from(chain, v, distance as nat);
    lemma_forward_from(chain, v, (distance + 1) as nat);
}

/// Two walks over overlapping ranges of one chain each produce exactly their
/// own range: what one walk discovers never enters the other.
pub proof fn lemma_overlapping_walks(
    chain: Seq<BlockInfo>,
    t1: int,
    distance1: u64,
    t2: int,
    distance2: u64,
)
    requires
        is_chain(chain),
        0 <= t1 < chain.len(),
        distance1 <= t1,
        0 <= t2 < chain.len(),
        distance2 <= t2,
    ensures
        forward_trace(start_view(chain[t1], distance1), chain, distance1 as nat)
            == chain.subrange(t1 + 1 - distance1, t1 + 1),
        forward_trace(start_view(chain[t2], distance2), chain, distance2 as nat)
            == chain.subrange(t2 + 1 - distance2, t2 + 1),
{
    lemma_forward_walk(chain, t1, distance1);
    lemma_forward_walk(chain, t2, distance2);
}

} // verus!
