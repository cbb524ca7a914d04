use vstd::prelude::*;
use crate::types::{BlockInfo, StorageError};
use crate::types::is_chain;
use crate::walk::{
    chain_visited, forward_trace, lemma_forward_walk, lemma_step_on_chain, start_view, view_finish,
    view_start, walk_on_chain, BlockIterState, NextBlock, WalkView,
};

verus! {

/// The next thing the driver of a branch send does.
#[derive(Debug)]
pub enum SendAction {
    /// Try to send again the item that the sink handed back last time.
    SendPending,
    /// Try to send `Err(e.into())`.
    SendError(StorageError),
    /// Obtain the next block as told (for a search, through the state's
    /// `check_answer` / `finish_search`, or `abandon_search` on failure),
    /// then try to send it, or the error that obtaining it gave.
    SendNext(NextBlock),
    /// Flush the sink.
    Flush,
    /// Close the sink.
    Close,
    /// Reschedule at once, then call `resume`.
    Yield,
    /// Wait until the sink wakes the task, then call `resume`.
    Suspend,
    /// Everything was sent and the sink is closed.
    Done,
}

/// The sink operation whose outcome the state waits for.
#[derive(Clone, Copy, Debug, PartialEq, Eq, Structural)]
pub enum SendPhase {
    /// Between two polls: call `resume`.
    Idle,
    Resending,
    Flushing,
    Closing,
    Sending,
    Closed,
}

/// The state of a branch send as a mathematical value.
pub ghost struct SendView {
    pub iter: Option<WalkView>,
    pub error: Option<StorageError>,
    pub pending: bool,
    pub phase: SendPhase,
}

pub open spec fn view_has_next(v: SendView) -> bool {
    v.iter is Some && v.iter->Some_0.cur_depth < v.iter->Some_0.to_depth
}

/// The send that `SendState::new(to_info, depth)` sets up.
pub open spec fn new_view(to_info: Result<BlockInfo, StorageError>, depth: Option<u64>) -> SendView {
    match to_info {
        Ok(info) => SendView {
            iter: Some(
                WalkView {
                    to_depth: info.depth,
                    cur_depth: match depth {
                        Some(d) => (info.depth - d) as u64,
                        None => 1,
                    },
                    frames: seq![info],
                    searching: false,
                },
            ),
            error: None,
            pending: false,
            phase: SendPhase::Idle,
        },
        Err(e) => SendView { iter: None, error: Some(e), pending: false, phase: SendPhase::Idle },
    }
}

pub open spec fn flush_or_close_view(v: SendView) -> (SendView, SendAction) {
    if view_has_next(v) {
        (SendView { phase: SendPhase::Flushing, ..v }, SendAction::Flush)
    } else {
        (SendView { phase: SendPhase::Closing, ..v }, SendAction::Close)
    }
}

/// The send after `resume`, and what that call returns.
pub open spec fn resume_view(v: SendView) -> (SendView, SendAction) {
    match v.error {
        Some(e) => (SendView { error: None, phase: SendPhase::Sending, ..v }, SendAction::SendError(e)),
        None => if v.pending {
            (SendView { phase: SendPhase::Resending, ..v }, SendAction::SendPending)
        } else {
            flush_or_close_view(v)
        },
    }
}

/// The send after `on_sink(ready)`, and what that call returns.
pub open spec fn on_sink_view(v: SendView, ready: bool) -> (SendView, SendAction) {
    if !ready {
        (
            SendView {
                phase: SendPhase::Idle,
                pending: v.pending || v.phase == SendPhase::Sending,
                ..v
            },
            SendAction::Suspend,
        )
    } else {
        match v.phase {
            SendPhase::Resending => flush_or_close_view(SendView { pending: false, ..v }),
            SendPhase::Flushing => {
                let (w, step) = view_start(v.iter->Some_0);
                (SendView { iter: Some(w), phase: SendPhase::Sending, ..v }, SendAction::SendNext(step))
            },
            SendPhase::Closing => (SendView { phase: SendPhase::Closed, ..v }, SendAction::Done),
            _ => if view_has_next(v) {
                (SendView { phase: SendPhase::Idle, ..v }, SendAction::Yield)
            } else {
                flush_or_close_view(v)
            },
        }
    }
}

/// Drives a walk into a sink that may refuse items, one item per poll, and
/// flushes the sink before each fetch.
pub struct SendState {
    iter: Option<BlockIterState>,
    error: Option<StorageError>,
    pending: bool,
    phase: SendPhase,
}

impl SendState {
    pub closed spec fn iter(&self) -> Option<BlockIterState> {
        self.iter
    }

    /// Setup error that is still to be sent.
    pub closed spec fn error(&self) -> Option<StorageError> {
        self.error
    }

    /// The sink handed back an item that is still to be sent.
    pub closed spec fn pending(&self) -> bool {
        self.pending
    }

    pub closed spec fn phase(&self) -> SendPhase {
        self.phase
    }

    pub closed spec fn view(&self) -> SendView {
        SendView {
            iter: match self.iter {
                Some(w) => Some(w@),
                None => None,
            },
            error: self.error,
            pending: self.pending,
            phase: self.phase,
        }
    }

    pub open spec fn spec_has_next(&self) -> bool {
        self.iter() is Some && self.iter()->Some_0.spec_has_next()
    }

    pub open spec fn searching(&self) -> bool {
        self.iter() is Some && self.iter()->Some_0.searching()
    }

    pub open spec fn wf(&self) -> bool {
        &&& self.iter() is Some ==> self.iter()->Some_0.wf()
        &&& self.error() is Some ==> self.iter() is None
        &&& self.searching() ==> self.phase() == SendPhase::Sending
        &&& self.phase() == SendPhase::Flushing ==> self.spec_has_next() && self.error() is None
        &&& self.phase() == SendPhase::Closing ==> !self.spec_has_next() && self.error() is None
        &&& self.phase() == SendPhase::Resending ==> self.pending()
        &&& self.phase() != SendPhase::Idle ==> self.error() is None
    }

    /// Sets up the send of the branch that ends at the target, from the
    /// store's answer to the target's metadata lookup. `depth` is how many
    /// blocks to send; all but genesis when it is `None`.
    pub fn new(to_info: Result<BlockInfo, StorageError>, depth: Option<u64>) -> (r: SendState)
        requires
            to_info matches Ok(info) ==> info.depth >= 1 && (depth matches Some(d) ==> d
                <= info.depth),
        ensures
            r.wf(),
            r.phase() == SendPhase::Idle,
            !r.pending(),
            match to_info {
                Ok(info) => {
                    &&& r.error() is None
                    &&& r.iter() is Some
                    &&& r.iter()->Some_0.target() == info
                    &&& r.iter()->Some_0.remaining() == match depth {
                        Some(d) => d as int,
                        None => info.depth - 1,
                    }
                    &&& !r.iter()->Some_0.searching()
                },
                Err(e) => r.error() == Some(e) && r.iter() is None,
            },
            r@ == new_view(to_info, depth),
    {
        match to_info {
            Ok(info) => {
                let distance = match depth {
                    Some(d) => d,
                    None => info.depth - 1,
                };
                SendState {
                    iter: Some(BlockIterState::new(info, distance)),
                    error: None,
                    pending: false,
                    phase: SendPhase::Idle,
                }
            },
            Err(e) => SendState { iter: None, error: Some(e), pending: false, phase: SendPhase::Idle },
        }
    }

    pub fn has_next(&self) -> (r: bool)
        ensures
            r == self.spec_has_next(),
    {
        match &self.iter {
            Some(it) => it.has_next(),
            None => false,
        }
    }

    fn flush_or_close(&mut self) -> (a: SendAction)
        requires
            old(self).wf(),
            !old(self).searching(),
            old(self).error() is None,
        ensures
            final(self).wf(),
            final(self).iter() == old(self).iter(),
            final(self).error() == old(self).error(),
            final(self).pending() == old(self).pending(),
            old(self).spec_has_next() ==> a is Flush && final(self).phase() == SendPhase::Flushing,
            !old(self).spec_has_next() ==> a is Close && final(self).phase() == SendPhase::Closing,
            (final(self)@, a) == flush_or_close_view(old(self)@),
    {
        if self.has_next() {
            self.phase = SendPhase::Flushing;
            SendAction::Flush
        } else {
            self.phase = SendPhase::Closing;
            SendAction::Close
        }
    }

    /// First step of each poll: resend what the sink handed back, else flush
    /// the sink while blocks remain and close it when none do.
    pub fn resume(&mut self) -> (a: SendAction)
        requires
            old(self).wf(),
            old(self).phase() == SendPhase::Idle,
        ensures
            final(self).wf(),
            final(self).iter() == old(self).iter(),
            final(self).pending() == old(self).pending(),
            match old(self).error() {
                Some(e) => a == SendAction::SendError(e) && final(self).error() is None
                    && final(self).phase() == SendPhase::Sending,
                None => final(self).error() is None && if old(self).pending() {
                    a is SendPending && final(self).phase() == SendPhase::Resending
                } else if old(self).spec_has_next() {
                    a is Flush && final(self).phase() == SendPhase::Flushing
                } else {
                    a is Close && final(self).phase() == SendPhase::Closing
                },
            },
            (final(self)@, a) == resume_view(old(self)@),
    {
        let e = self.error.take();
        match e {
            Some(e) => {
                self.phase = SendPhase::Sending;
                SendAction::SendError(e)
            },
            None => {
                if self.pending {
                    self.phase = SendPhase::Resending;
                    SendAction::SendPending
                } else {
                    self.flush_or_close()
                }
            },
        }
    }

    /// Takes the outcome of the sink operation last asked for: `ready` is
    /// false when the sink refused (and, for a send, handed the item back to
    /// be kept for `SendPending`).
    pub fn on_sink(&mut self, ready: bool) -> (a: SendAction)
        requires
            old(self).wf(),
            !old(self).searching(),
            old(self).phase() != SendPhase::Idle,
            old(self).phase() != SendPhase::Closed,
        ensures
            final(self).wf(),
            final(self).error() == old(self).error(),
            !ready && old(self).phase() != SendPhase::Sending ==> {
                &&& a is Suspend
                &&& final(self).phase() == SendPhase::Idle
                &&& final(self).iter() == old(self).iter()
                &&& final(self).pending() == old(self).pending()
            },
            !ready && old(self).phase() == SendPhase::Sending ==> {
                &&& a is Suspend
                &&& final(self).phase() == SendPhase::Idle
                &&& final(self).iter() == old(self).iter()
                &&& final(self).pending()
            },
            ready && old(self).phase() == SendPhase::Resending ==> {
                &&& !final(self).pending()
                &&& final(self).iter() == old(self).iter()
                &&& old(self).spec_has_next() ==> a is Flush
                &&& !old(self).spec_has_next() ==> a is Close
            },
            ready && old(self).phase() == SendPhase::Flushing ==> {
                &&& a is SendNext
                &&& final(self).phase() == SendPhase::Sending
                &&& final(self).pending() == old(self).pending()
                &&& final(self).iter() is Some
                &&& final(self).iter()->Some_0.target() == old(self).iter()->Some_0.target()
                &&& final(self).iter()->Some_0.to_depth() == old(self).iter()->Some_0.to_depth()
                &&& final(self).iter()->Some_0.cur_depth() == old(self).iter()->Some_0.cur_depth()
                    + 1
                &&& a matches SendAction::SendNext(NextBlock::Known(info)) ==> {
                    &&& info.depth == final(self).iter()->Some_0.cur_depth()
                    &&& !final(self).searching()
                }
                &&& a matches SendAction::SendNext(NextBlock::Search { start, distance }) ==> {
                    &&& final(self).searching()
                    &&& start == final(self).iter()->Some_0.search_origin().parent_hash
                    &&& distance == final(self).iter()->Some_0.search_origin().depth
                        - final(self).iter()->Some_0.cur_depth() - 1
                }
            },
            ready && old(self).phase() == SendPhase::Closing ==> {
                &&& a is Done
                &&& final(self).phase() == SendPhase::Closed
                &&& final(self).iter() == old(self).iter()
                &&& final(self).pending() == old(self).pending()
            },
            ready && old(self).phase() == SendPhase::Sending ==> {
                &&& final(self).iter() == old(self).iter()
                &&& final(self).pending() == old(self).pending()
                &&& old(self).spec_has_next() ==> a is Yield && final(self).phase() == SendPhase::Idle
                &&& !old(self).spec_has_next() ==> a is Close && final(self).phase()
                    == SendPhase::Closing
            },
            (final(self)@, a) == on_sink_view(old(self)@, ready),
    {
        if !ready {
            if self.phase == SendPhase::Sending {
                self.pending = true;
            }
            self.phase = SendPhase::Idle;
            return SendAction::Suspend;
        }
        match self.phase {
            SendPhase::Resending => {
                self.pending = false;
                self.phase = SendPhase::Idle;
                self.flush_or_close()
            },
            SendPhase::Flushing => {
                self.phase = SendPhase::Sending;
                let mut it = self.iter.take().unwrap();
                let step = it.start_next();
                self.iter = Some(it);
                SendAction::SendNext(step)
            },
            SendPhase::Closing => {
                self.phase = SendPhase::Closed;
                SendAction::Done
            },
            _ => {
                if self.has_next() {
                    self.phase = SendPhase::Idle;
                    SendAction::Yield
                } else {
                    self.phase = SendPhase::Idle;
                    self.flush_or_close()
                }
            },
        }
    }

    /// See `BlockIterState::check_answer`.
    pub fn check_answer(&self, visited: &Vec<BlockInfo>, found: &BlockInfo) -> (r: bool)
        requires
            self.wf(),
            self.searching(),
        ensures
            r == self.iter()->Some_0.answer_fits(visited@, *found),
    {
        match &self.iter {
            Some(it) => it.check_answer(visited, found),
            None => false,
        }
    }

    /// See `BlockIterState::finish_search`.
    pub fn finish_search(&mut self, visited: Vec<BlockInfo>, found: BlockInfo) -> (r: BlockInfo)
        requires
            old(self).wf(),
            old(self).searching(),
            old(self).iter()->Some_0.answer_fits(visited@, found),
        ensures
            final(self).wf(),
            !final(self).searching(),
            final(self).phase() == old(self).phase(),
            final(self).pending() == old(self).pending(),
            final(self).error() == old(self).error(),
            final(self).iter() is Some,
            final(self).iter()->Some_0.target() == old(self).iter()->Some_0.target(),
            final(self).iter()->Some_0.to_depth() == old(self).iter()->Some_0.to_depth(),
            final(self).iter()->Some_0.cur_depth() == old(self).iter()->Some_0.cur_depth(),
            r == found,
            final(self)@ == (SendView {
                iter: Some(view_finish(old(self)@.iter->Some_0, visited@)),
                ..old(self)@
            }),
    {
        let mut it = self.iter.take().unwrap();
        let r = it.finish_search(visited, found);
        self.iter = Some(it);
        r
    }

    /// See `BlockIterState::abandon_search`.
    pub fn abandon_search(&mut self)
        requires
            old(self).wf(),
            old(self).searching(),
        ensures
            final(self).wf(),
            !final(self).searching(),
            final(self).phase() == old(self).phase(),
            final(self).pending() == old(self).pending(),
            final(self).error() == old(self).error(),
            final(self).iter() is Some,
            final(self).iter()->Some_0.target() == old(self).iter()->Some_0.target(),
            final(self).iter()->Some_0.to_depth() == old(self).iter()->Some_0.to_depth(),
            final(self).iter()->Some_0.cur_depth() == old(self).iter()->Some_0.cur_depth(),
            final(self)@ == (SendView {
                iter: Some((WalkView { searching: false, ..old(self)@.iter->Some_0 })),
                ..old(self)@
            }),
    {
        let mut it = self.iter.take().unwrap();
        it.abandon_search();
        self.iter = Some(it);
    }
}

/// Items `Ok` of the chain's blocks at indices `lo` up to `hi`, excluded.
pub open spec fn chain_items(chain: Seq<BlockInfo>, lo: int, hi: int) -> Seq<
    Result<BlockInfo, StorageError>,
> {
    Seq::new((hi - lo) as nat, |j: int| Ok(chain[lo + j]))
}

/// The send state after the item that action `a` offers is obtained, and
/// that item, when the store holds `chain` and `held` is the item that the
/// sink handed back.
pub open spec fn offered(
    v: SendView,
    a: SendAction,
    held: Option<Result<BlockInfo, StorageError>>,
    chain: Seq<BlockInfo>,
) -> (SendView, Result<BlockInfo, StorageError>) {
    match a {
        SendAction::SendError(e) => (v, Err(e)),
        SendAction::SendNext(NextBlock::Known(info)) => (v, Ok(info)),
        SendAction::SendNext(NextBlock::Search { .. }) => {
            let w = v.iter->Some_0;
            (
                SendView { iter: Some(view_finish(w, chain_visited(chain, w))), ..v },
                Ok(chain[w.cur_depth - 1]),
            )
        },
        _ => (v, held->Some_0),
    }
}

/// What a driver delivers to the sink from state `v` and action `a` on, in at
/// most `fuel` actions, and whether it got to `Done`, when the store holds
/// `chain` and the sink answers its `n`-th operation with `sink(n)`.
pub open spec fn send_run(
    v: SendView,
    a: SendAction,
    held: Option<Result<BlockInfo, StorageError>>,
    chain: Seq<BlockInfo>,
    sink: spec_fn(nat) -> bool,
    n: nat,
    fuel: nat,
) -> (Seq<Result<BlockInfo, StorageError>>, bool)
    decreases fuel,
{
    if fuel == 0 {
        (seq![], false)
    } else if a is Done {
        (seq![], true)
    } else if a is Yield || a is Suspend {
        let (v2, a2) = resume_view(v);
        send_run(v2, a2, held, chain, sink, n, (fuel - 1) as nat)
    } else if a is Flush || a is Close {
        let (v2, a2) = on_sink_view(v, sink(n));
        send_run(v2, a2, held, chain, sink, n + 1, (fuel - 1) as nat)
    } else {
        let (v1, item) = offered(v, a, held, chain);
        let r = sink(n);
        let (v2, a2) = on_sink_view(v1, r);
        let rest = send_run(
            v2,
            a2,
            if r {
                None
            } else {
                Some(item)
            },
            chain,
            sink,
            n + 1,
            (fuel - 1) as nat,
        );
        (
            if r {
                seq![item] + rest.0
            } else {
                rest.0
            },
            rest.1,
        )
    }
}

/// The items still owed to the sink.
pub open spec fn owed(
    v: SendView,
    a: SendAction,
    held: Option<Result<BlockInfo, StorageError>>,
    chain: Seq<BlockInfo>,
) -> Seq<Result<BlockInfo, StorageError>> {
    let tail = match v.iter {
        Some(w) => chain_items(chain, w.cur_depth as int, w.to_depth as int),
        None => seq![],
    };
    match a {
        SendAction::SendNext(_) => seq![Ok(chain[v.iter->Some_0.cur_depth - 1])] + tail,
        SendAction::SendError(e) => seq![Err(e)],
        _ => match held {
            Some(h) => seq![h] + tail,
            None => tail,
        },
    }
}

spec fn run_inv(
    v: SendView,
    a: SendAction,
    held: Option<Result<BlockInfo, StorageError>>,
    chain: Seq<BlockInfo>,
) -> bool {
    &&& is_chain(chain)
    &&& v.error is None
    &&& v.iter matches Some(w) ==> match a {
        SendAction::SendNext(NextBlock::Known(info)) => {
            &&& info == chain[w.cur_depth - 1]
            &&& walk_on_chain(chain, w)
            &&& !w.searching
            &&& w.cur_depth >= 1
        },
        SendAction::SendNext(NextBlock::Search { .. }) => {
            &&& w.searching
            &&& w.cur_depth >= 1
            &&& walk_on_chain(chain, view_finish(w, chain_visited(chain, w)))
        },
        _ => walk_on_chain(chain, w) && !w.searching,
    }
    &&& a is SendPending ==> v.phase == SendPhase::Resending && held is Some && v.pending
    &&& a is Flush ==> v.phase == SendPhase::Flushing && held is None && !v.pending
        && view_has_next(v)
    &&& a is Close ==> v.phase == SendPhase::Closing && held is None && !v.pending
        && !view_has_next(v)
    &&& a is SendNext ==> v.phase == SendPhase::Sending && held is None && v.iter is Some
        && !v.pending
    &&& a is SendError ==> v.phase == SendPhase::Sending && held is None && v.iter is None
        && !v.pending
    &&& (a is Yield || a is Suspend) ==> v.phase == SendPhase::Idle && (held is Some <==> v.pending)
    &&& a is Done ==> v.phase == SendPhase::Closed && held is None && !view_has_next(v)
}

proof fn lemma_run(
    v: SendView,
    a: SendAction,
    held: Option<Result<BlockInfo, StorageError>>,
    chain: Seq<BlockInfo>,
    sink: spec_fn(nat) -> bool,
    n: nat,
    fuel: nat,
)
    requires
        run_inv(v, a, held, chain),
    ensures
        ({
            let (out, done) = send_run(v, a, held, chain, sink, n, fuel);
            let o = owed(v, a, held, chain);
            &&& out.len() <= o.len()
            &&& out == o.subrange(0, out.len() as int)
            &&& done ==> out == o
        }),
    decreases fuel,
{
    let o = owed(v, a, held, chain);
    if fuel == 0 {
        return;
    }
    if a is Done {
        if let Some(w) = v.iter {
            assert(o =~= seq![]);
        }
        return;
    }
    if a is Yield || a is Suspend {
        let (v2, a2) = resume_view(v);
        lemma_run(v2, a2, held, chain, sink, n, (fuel - 1) as nat);
        assert(owed(v2, a2, held, chain) =~= o);
        return;
    }
    if a is Flush || a is Close {
        let r = sink(n);
        let (v2, a2) = on_sink_view(v, r);
        if r && a is Flush {
            let w = v.iter->Some_0;
            lemma_step_on_chain(chain, w);
            let w1 = v2.iter->Some_0;
            assert(owed(v2, a2, held, chain) =~= o);
        } else if r {
            if let Some(w) = v.iter {
                assert(o =~= seq![]);
            }
        }
        lemma_run(v2, a2, held, chain, sink, n + 1, (fuel - 1) as nat);
        if !r {
            assert(owed(v2, a2, held, chain) =~= o);
        }
        return;
    }
    let (v1, item) = offered(v, a, held, chain);
    let r = sink(n);
    let (v2, a2) = on_sink_view(v1, r);
    let held2 = if r {
        None
    } else {
        Some(item)
    };
    if let Some(w1) = v1.iter {
        assert(walk_on_chain(chain, w1) && !w1.searching);
    }
    lemma_run(v2, a2, held2, chain, sink, n + 1, (fuel - 1) as nat);
    let rest = send_run(v2, a2, held2, chain, sink, n + 1, (fuel - 1) as nat);
    let o2 = owed(v2, a2, held2, chain);
    if r {
        assert(o =~= seq![item] + o2);
        assert((seq![item] + rest.0) =~= o.subrange(0, rest.0.len() + 1 as int));
    } else {
        assert(o2 =~= o);
    }
}

/// Number of actions within which a driver whose sink is always ready gets
/// to `Done`.
spec fn actions_left(v: SendView, a: SendAction, held: Option<Result<BlockInfo, StorageError>>) -> int {
    let r = match v.iter {
        Some(w) => w.to_depth - w.cur_depth,
        None => 0,
    };
    let refill = if r > 0 {
        3 * r + 2
    } else {
        3
    };
    match a {
        SendAction::Done => 1,
        SendAction::Close => 2,
        SendAction::SendError(_) => 3,
        SendAction::Flush => 3 * r + 1,
        SendAction::SendNext(_) => 3 * r + 3,
        SendAction::SendPending => refill,
        _ => if held is Some {
            refill + 1
        } else {
            refill
        },
    }
}

proof fn lemma_run_done(
    v: SendView,
    a: SendAction,
    held: Option<Result<BlockInfo, StorageError>>,
    chain: Seq<BlockInfo>,
    sink: spec_fn(nat) -> bool,
    n: nat,
    fuel: nat,
)
    requires
        run_inv(v, a, held, chain),
        forall|k: nat| #[trigger] sink(k),
        fuel >= actions_left(v, a, held),
    ensures
        send_run(v, a, held, chain, sink, n, fuel).1,
    decreases fuel,
{
    assert(sink(n));
    if a is Done {
        return;
    }
    if a is Yield || a is Suspend {
        let (v2, a2) = resume_view(v);
        lemma_run_done(v2, a2, held, chain, sink, n, (fuel - 1) as nat);
        return;
    }
    if a is Flush || a is Close {
        let (v2, a2) = on_sink_view(v, true);
        if a is Flush {
            lemma_step_on_chain(chain, v.iter->Some_0);
        }
        lemma_run_done(v2, a2, held, chain, sink, n + 1, (fuel - 1) as nat);
        return;
    }
    let (v1, item) = offered(v, a, held, chain);
    let (v2, a2) = on_sink_view(v1, true);
    lemma_run_done(v2, a2, None, chain, sink, n + 1, (fuel - 1) as nat);
}

/// Whatever the sink accepts or refuses, a branch send along a chain
/// delivers the blocks that the forward walk over the same range produces,
/// in that order, none twice and none skipped; once it is done it has
/// delivered all of them, and with a sink that is always ready it is done
/// within `3 * distance + 2` actions.
pub proof fn lemma_branch_send(
    chain: Seq<BlockInfo>,
    t: int,
    distance: u64,
    sink: spec_fn(nat) -> bool,
    fuel: nat,
)
    requires
        is_chain(chain),
        0 <= t < chain.len(),
        distance <= t,
    ensures
        ({
            let (v, a) = resume_view(new_view(Ok(chain[t]), Some(distance)));
            let (out, done) = send_run(v, a, None, chain, sink, 0, fuel);
            let walk = forward_trace(start_view(chain[t], distance), chain, distance as nat);
            &&& out.len() <= walk.len()
            &&& forall|j: int| 0 <= j < out.len() ==> out[j] == Ok::<BlockInfo, StorageError>(
                #[trigger] walk[j],
            )
            &&& done ==> out.len() == walk.len()
            &&& (forall|k: nat| #[trigger] sink(k)) && fuel >= 3 * distance + 2 ==> done
        }),
{
    let (v, a) = resume_view(new_view(Ok(chain[t]), Some(distance)));
    lemma_forward_walk(chain, t, distance);
    lemma_run(v, a, None, chain, sink, 0, fuel);
    if (forall|k: nat| #[trigger] sink(k)) && fuel >= 3 * distance + 2 {
        lemma_run_done(v, a, None, chain, sink, 0, fuel);
    }
    let (out, done) = send_run(v, a, None, chain, sink, 0, fuel);
    let o = owed(v, a, None, chain);
    let walk = forward_trace(start_view(chain[t], distance), chain, distance as nat);
    assert forall|j: int| 0 <= j < out.len() implies out[j] == Ok::<BlockInfo, StorageError>(
        #[trigger] walk[j],
    ) by {
        assert(out[j] == o[j]);
    }
}

/// When the target's metadata lookup fails, whatever the sink accepts or
/// refuses, the only item delivered is that error, and the send is done only
/// once the sink has it (and was closed).
pub proof fn lemma_branch_send_missing_target(
    e: StorageError,
    depth: Option<u64>,
    chain: Seq<BlockInfo>,
    sink: spec_fn(nat) -> bool,
    fuel: nat,
)
    requires
        is_chain(chain),
    ensures
        ({
            let (v, a) = resume_view(new_view(Err(e), depth));
            let (out, done) = send_run(v, a, None, chain, sink, 0, fuel);
            &&& out.len() <= 1
            &&& out.len() == 1 ==> out[0] == Err::<BlockInfo, StorageError>(e)
            &&& done ==> out == seq![Err::<BlockInfo, StorageError>(e)]
        }),
{
    let (v, a) = resume_view(new_view(Err(e), depth));
    lemma_run(v, a, None, chain, sink, 0, fuel);
}

} // verus!
