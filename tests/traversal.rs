use blockchain_storage::send::{SendAction, SendState};
use blockchain_storage::storage::{
    exists_or_false, find_closest_ancestor, found_or_none, stream_from_to,
    stream_from_to_reversed,
};
use blockchain_storage::stream::{BlockStream, BlockStreamReversed};
use blockchain_storage::types::{BlockInfo, HeaderHash, StorageError};
use blockchain_storage::walk::{BlockIterState, NextBlock};

fn hash(n: u64) -> HeaderHash {
    let mut bytes = [0u8; 32];
    bytes[..8].copy_from_slice(&n.to_le_bytes());
    bytes[31] = 0xab;
    HeaderHash { bytes }
}

/// Chain of `len` blocks; block `i` (0-based) is at depth `i + 1`.
fn chain(len: u64, fork: u64) -> Vec<BlockInfo> {
    (0..len)
        .map(|i| BlockInfo {
            block_hash: hash(fork * 1000 + i + 1),
            depth: i + 1,
            parent_hash: if i == 0 { hash(0) } else { hash(fork * 1000 + i) },
        })
        .collect()
}

fn index_of(chain: &[BlockInfo], h: &HeaderHash) -> Option<usize> {
    chain.iter().position(|b| b.block_hash == *h)
}

/// Answers a search as a store with back links of length `stride` does.
fn search(chain: &[BlockInfo], start: HeaderHash, distance: u64, stride: usize) -> (Vec<BlockInfo>, BlockInfo) {
    let k = index_of(chain, &start).expect("start of search is stored");
    let target = k - distance as usize;
    let mut visited = Vec::new();
    let mut cur = k;
    while cur > target {
        visited.push(chain[cur]);
        cur = if cur - target >= stride { cur - stride } else { target };
    }
    (visited, chain[target])
}

fn is_ancestor(chain: &[BlockInfo], from: &HeaderHash, to: &HeaderHash) -> Result<Option<u64>, StorageError> {
    let f = index_of(chain, from).ok_or(StorageError::BlockNotFound)?;
    let t = index_of(chain, to).ok_or(StorageError::BlockNotFound)?;
    Ok(if f <= t { Some((t - f) as u64) } else { None })
}

fn info_of(chain: &[BlockInfo], h: &HeaderHash) -> Result<BlockInfo, StorageError> {
    index_of(chain, h).map(|i| chain[i]).ok_or(StorageError::BlockNotFound)
}

fn drain(stream: &mut BlockStream, chain: &[BlockInfo], stride: usize) -> Vec<BlockInfo> {
    let mut out = Vec::new();
    while let Some(step) = stream.poll() {
        let info = match step {
            NextBlock::Known(info) => info,
            NextBlock::Search { start, distance } => {
                let (visited, found) = search(chain, start, distance, stride);
                assert!(stream.check_answer(&visited, &found));
                stream.finish_search(visited, found)
            }
        };
        out.push(info);
    }
    out
}

fn drain_reversed(stream: &mut BlockStreamReversed, chain: &[BlockInfo]) -> Vec<BlockInfo> {
    let mut out = Vec::new();
    while let Some(h) = stream.poll() {
        let info = info_of(chain, &h).unwrap();
        out.push(info);
        stream.advance(&info);
    }
    out
}

#[test]
fn forward_stream_yields_distance_blocks_ending_at_target() {
    let c = chain(20, 0);
    for stride in [1usize, 3, 7] {
        for (from, to) in [(0usize, 19usize), (4, 15), (10, 11), (7, 7)] {
            let a = is_ancestor(&c, &c[from].block_hash, &c[to].block_hash);
            let mut s = stream_from_to(a, info_of(&c, &c[to].block_hash)).ok().unwrap();
            let out = drain(&mut s, &c, stride);
            assert_eq!(out.len(), to - from);
            for (j, b) in out.iter().enumerate() {
                assert_eq!(b.block_hash, c[from + 1 + j].block_hash);
                assert_eq!(b.depth, (from + 2 + j) as u64);
            }
            if to > from {
                assert_eq!(out.last().unwrap().block_hash, c[to].block_hash);
            }
        }
    }
}

#[test]
fn forward_stream_refuses_non_ancestor() {
    let c = chain(10, 0);
    let a = is_ancestor(&c, &c[8].block_hash, &c[3].block_hash);
    let r = stream_from_to(a, info_of(&c, &c[3].block_hash));
    assert!(matches!(r, Err(StorageError::CannotIterate)));
}

#[test]
fn forward_stream_reports_missing_block() {
    let c = chain(10, 0);
    let a = is_ancestor(&c, &hash(777), &c[3].block_hash);
    let r = stream_from_to(a, info_of(&c, &c[3].block_hash));
    assert!(matches!(r, Err(StorageError::BlockNotFound)));
    let r = stream_from_to(Ok(Some(2)), Err(StorageError::BackendError("disk".to_string())));
    assert!(matches!(r, Err(StorageError::BackendError(m)) if m == "disk"));
}

#[test]
fn forward_stream_refuses_distance_beyond_genesis() {
    let c = chain(5, 0);
    let r = stream_from_to(Ok(Some(5)), Ok(c[4]));
    assert!(matches!(r, Err(StorageError::CannotIterate)));
}

#[test]
fn reverse_stream_reaches_genesis() {
    let c = chain(12, 0);
    let mut s = stream_from_to_reversed(c[11].block_hash, None, Ok(None)).ok().unwrap();
    let out = drain_reversed(&mut s, &c);
    assert_eq!(out.len(), 12);
    for w in out.windows(2) {
        assert!(w[0].depth > w[1].depth);
    }
    assert_eq!(out.last().unwrap().depth, 1);
    assert_eq!(s.poll(), None);
}

#[test]
fn reverse_stream_stops_at_ancestor() {
    let c = chain(12, 0);
    let a = is_ancestor(&c, &c[3].block_hash, &c[9].block_hash);
    let distance = a.clone().ok().unwrap().unwrap();
    let mut s = stream_from_to_reversed(c[9].block_hash, Some(c[3].block_hash), a).ok().unwrap();
    let out = drain_reversed(&mut s, &c);
    assert_eq!(out.len() as u64, distance + 1);
    assert_eq!(out[0].block_hash, c[9].block_hash);
    assert_eq!(out.last().unwrap().block_hash, c[3].block_hash);
}

#[test]
fn reverse_stream_refuses_non_ancestor() {
    let c = chain(12, 0);
    let a = is_ancestor(&c, &c[9].block_hash, &c[3].block_hash);
    let r = stream_from_to_reversed(c[9].block_hash, Some(c[3].block_hash), a);
    assert!(matches!(r, Err(StorageError::CannotIterate)));
    let r = stream_from_to_reversed(c[9].block_hash, Some(hash(555)), Err(StorageError::BlockNotFound));
    assert!(matches!(r, Err(StorageError::BlockNotFound)));
}

#[test]
fn overlapping_walks_stay_independent() {
    let c = chain(30, 0);
    let mut a = BlockStream::new(c[29], 25);
    let mut b = BlockStream::new(c[20], 18);
    let mut out_a = Vec::new();
    let mut out_b = Vec::new();
    loop {
        let mut progressed = false;
        for (s, out) in [(&mut a, &mut out_a), (&mut b, &mut out_b)] {
            if let Some(step) = s.poll() {
                progressed = true;
                let info = match step {
                    NextBlock::Known(info) => info,
                    NextBlock::Search { start, distance } => {
                        let (visited, found) = search(&c, start, distance, 4);
                        s.finish_search(visited, found)
                    }
                };
                out.push(info);
            }
        }
        if !progressed {
            break;
        }
    }
    let want_a: Vec<HeaderHash> = c[5..30].iter().map(|b| b.block_hash).collect();
    let want_b: Vec<HeaderHash> = c[3..21].iter().map(|b| b.block_hash).collect();
    assert_eq!(out_a.iter().map(|b| b.block_hash).collect::<Vec<_>>(), want_a);
    assert_eq!(out_b.iter().map(|b| b.block_hash).collect::<Vec<_>>(), want_b);
}

#[test]
fn walk_of_zero_blocks_is_empty() {
    let c = chain(4, 0);
    let w = BlockIterState::new(c[3], 0);
    assert!(!w.has_next());
}

#[test]
fn walk_rejects_inconsistent_answer() {
    let c = chain(10, 0);
    let mut w = BlockIterState::new(c[9], 5);
    match w.start_next() {
        NextBlock::Search { start, distance } => {
            assert_eq!(start, c[8].block_hash);
            assert_eq!(distance, 3);
            let (visited, _) = search(&c, start, distance, 1);
            assert!(w.check_answer(&visited, &c[5]));
            assert!(!w.check_answer(&visited, &c[4]));
            let mut reordered = visited.clone();
            reordered.reverse();
            assert!(!w.check_answer(&reordered, &c[5]));
        }
        NextBlock::Known(_) => panic!("first block of a walk must be searched"),
    }
}

#[test]
fn closest_ancestor_prefers_smallest_distance() {
    let c = chain(20, 0);
    let other = chain(20, 1);
    let x = c[15].block_hash;
    let checkpoints = vec![c[10].block_hash, c[13].block_hash, other[12].block_hash, hash(999)];
    let answers: Vec<_> = checkpoints
        .iter()
        .map(|h| {
            if index_of(&other, h).is_some() {
                Ok(None)
            } else {
                is_ancestor(&c, h, &x)
            }
        })
        .collect();
    let r = find_closest_ancestor(&checkpoints, Ok(true), &answers).ok().unwrap().unwrap();
    assert_eq!(r.header_hash, c[13].block_hash);
    assert_eq!(r.distance, 2);
}

#[test]
fn closest_ancestor_none_when_nothing_qualifies() {
    let c = chain(10, 0);
    let checkpoints = vec![hash(501), hash(502)];
    let answers = vec![Err(StorageError::BlockNotFound), Err(StorageError::BlockNotFound)];
    assert!(matches!(find_closest_ancestor(&checkpoints, Ok(true), &answers), Ok(None)));
    let checkpoints = vec![c[8].block_hash, c[9].block_hash];
    let answers = vec![Ok(None), Ok(None)];
    assert!(matches!(find_closest_ancestor(&checkpoints, Ok(true), &answers), Ok(None)));
    assert!(matches!(find_closest_ancestor(&vec![], Ok(true), &vec![]), Ok(None)));
}

#[test]
fn closest_ancestor_keeps_first_on_tie_and_stops_on_error() {
    let checkpoints = vec![hash(1), hash(2), hash(3)];
    let answers = vec![Ok(Some(4)), Ok(Some(4)), Ok(Some(9))];
    let r = find_closest_ancestor(&checkpoints, Ok(true), &answers).ok().unwrap().unwrap();
    assert_eq!(r.header_hash, hash(1));
    assert_eq!(r.distance, 4);
    let answers = vec![Ok(Some(4)), Err(StorageError::BackendError("io".to_string())), Ok(Some(1))];
    assert!(matches!(
        find_closest_ancestor(&checkpoints, Ok(true), &answers),
        Err(StorageError::BackendError(m)) if m == "io"
    ));
}

#[test]
fn lookups_absorb_not_found() {
    assert!(matches!(found_or_none(Ok::<u32, StorageError>(7)), Ok(Some(7))));
    assert!(matches!(found_or_none::<u32>(Err(StorageError::BlockNotFound)), Ok(None)));
    assert!(matches!(found_or_none::<u32>(Err(StorageError::CannotIterate)), Err(StorageError::CannotIterate)));
    assert!(matches!(exists_or_false(Ok(true)), Ok(true)));
    assert!(matches!(exists_or_false(Err(StorageError::BlockNotFound)), Ok(false)));
    assert!(matches!(
        exists_or_false(Err(StorageError::BackendError("x".to_string()))),
        Err(StorageError::BackendError(_))
    ));
}

#[test]
fn lookups_read_your_write() {
    let mut store: Vec<BlockInfo> = Vec::new();
    let b = chain(1, 0)[0];
    store.push(b);
    let got = found_or_none(info_of(&store, &b.block_hash));
    assert!(matches!(got, Ok(Some(i)) if i.block_hash == b.block_hash));
    let exists = exists_or_false(info_of(&store, &b.block_hash).map(|_| true));
    assert!(matches!(exists, Ok(true)));
    let missing = exists_or_false(info_of(&store, &hash(42)).map(|_| true));
    assert!(matches!(missing, Ok(false)));
}

#[test]
fn header_hash_equality_compares_all_bytes() {
    let a = hash(5);
    let mut b = a;
    assert!(a == b);
    b.bytes[31] = 0;
    assert!(a != b);
    b = a;
    b.bytes[0] = 9;
    assert!(a != b);
}

struct TestSink {
    accepted: Vec<Result<BlockInfo, StorageError>>,
    ready_next: bool,
    alternate: bool,
    flushes: usize,
    closed: bool,
}

impl TestSink {
    fn ready(&mut self) -> bool {
        let r = self.ready_next;
        if self.alternate {
            self.ready_next = !self.ready_next;
        }
        r
    }
}

fn drive_send(state: &mut SendState, sink: &mut TestSink, c: &[BlockInfo]) -> usize {
    let mut pending: Option<Result<BlockInfo, StorageError>> = None;
    let mut polls = 1;
    let mut action = state.resume();
    loop {
        action = match action {
            SendAction::SendPending => {
                let item = pending.take().unwrap();
                let ok = sink.ready();
                if ok {
                    sink.accepted.push(item);
                } else {
                    pending = Some(item);
                }
                state.on_sink(ok)
            }
            SendAction::SendError(e) => {
                let item = Err(e);
                let ok = sink.ready();
                if ok {
                    sink.accepted.push(item);
                } else {
                    pending = Some(item);
                }
                state.on_sink(ok)
            }
            SendAction::SendNext(step) => {
                let item = match step {
                    NextBlock::Known(info) => Ok(info),
                    NextBlock::Search { start, distance } => {
                        let (visited, found) = search(c, start, distance, 2);
                        assert!(state.check_answer(&visited, &found));
                        Ok(state.finish_search(visited, found))
                    }
                };
                let ok = sink.ready();
                if ok {
                    sink.accepted.push(item);
                } else {
                    pending = Some(item);
                }
                state.on_sink(ok)
            }
            SendAction::Flush => {
                let ok = sink.ready();
                if ok {
                    sink.flushes += 1;
                }
                state.on_sink(ok)
            }
            SendAction::Close => {
                let ok = sink.ready();
                if ok {
                    sink.closed = true;
                }
                state.on_sink(ok)
            }
            SendAction::Yield | SendAction::Suspend => {
                polls += 1;
                state.resume()
            }
            SendAction::Done => return polls,
        };
    }
}

#[test]
fn branch_send_of_missing_target_sends_one_error() {
    let mut state = SendState::new(Err(StorageError::BlockNotFound), None);
    let mut sink = TestSink { accepted: Vec::new(), ready_next: true, alternate: false, flushes: 0, closed: false };
    drive_send(&mut state, &mut sink, &[]);
    assert_eq!(sink.accepted.len(), 1);
    assert!(matches!(sink.accepted[0], Err(StorageError::BlockNotFound)));
    assert!(sink.closed);
}

#[test]
fn branch_send_survives_a_refusing_sink() {
    let c = chain(15, 0);
    let mut state = SendState::new(Ok(c[14]), Some(9));
    let mut sink = TestSink { accepted: Vec::new(), ready_next: false, alternate: true, flushes: 0, closed: false };
    drive_send(&mut state, &mut sink, &c);
    let got: Vec<HeaderHash> = sink.accepted.iter().map(|r| r.as_ref().ok().unwrap().block_hash).collect();
    let mut s = BlockStream::new(c[14], 9);
    let want: Vec<HeaderHash> = drain(&mut s, &c, 3).iter().map(|b| b.block_hash).collect();
    assert_eq!(got, want);
    assert!(sink.closed);
}

#[test]
fn branch_send_without_depth_starts_after_genesis() {
    let c = chain(6, 0);
    let mut state = SendState::new(Ok(c[5]), None);
    let mut sink = TestSink { accepted: Vec::new(), ready_next: true, alternate: false, flushes: 0, closed: false };
    let polls = drive_send(&mut state, &mut sink, &c);
    let got: Vec<u64> = sink.accepted.iter().map(|r| r.as_ref().ok().unwrap().depth).collect();
    assert_eq!(got, vec![2, 3, 4, 5, 6]);
    // one item per poll, flushing before each fetch
    assert_eq!(polls, 5);
    assert_eq!(sink.flushes, 5);
    assert!(sink.closed);
}

#[test]
fn failed_search_is_abandoned_and_walk_goes_on() {
    let c = chain(10, 0);
    let mut s = BlockStream::new(c[9], 4);
    match s.poll() {
        Some(NextBlock::Search { start, distance }) => {
            assert_eq!(start, c[8].block_hash);
            assert_eq!(distance, 2);
            s.abandon_search();
        }
        other => panic!("expected a search, got {:?}", other),
    }
    let rest = drain(&mut s, &c, 1);
    let depths: Vec<u64> = rest.iter().map(|b| b.depth).collect();
    assert_eq!(depths, vec![8, 9, 10]);
}

#[test]
fn closest_ancestor_reports_missing_descendant() {
    let c = chain(10, 0);
    let x = hash(888);
    let checkpoints = vec![c[2].block_hash, c[5].block_hash];
    let answers: Vec<_> = checkpoints.iter().map(|h| is_ancestor(&c, h, &x)).collect();
    let exists = exists_or_false(info_of(&c, &x).map(|_| true));
    assert!(matches!(
        find_closest_ancestor(&checkpoints, exists, &answers),
        Err(StorageError::BlockNotFound)
    ));
    assert!(matches!(
        find_closest_ancestor(&checkpoints, Err(StorageError::BackendError("db".to_string())), &answers),
        Err(StorageError::BackendError(m)) if m == "db"
    ));
}
