use vstd::prelude::*;
use crate::types::{Ancestor, BlockInfo, HeaderHash, StorageError};
use crate::stream::{BlockStream, BlockStreamReversed};
use crate::walk::start_view;

verus! {

/// A single-block lookup where a missing block is an ordinary outcome.
pub open spec fn spec_found_or_none<T>(r: Result<T, StorageError>) -> Result<Option<T>, StorageError> {
    match r {
        Ok(v) => Ok(Some(v)),
        Err(StorageError::BlockNotFound) => Ok(None),
        Err(e) => Err(e),
    }
}

/// Turns the store's answer to a block lookup into an optional value: a
/// missing block is `None`, other errors pass through.
pub fn found_or_none<T>(r: Result<T, StorageError>) -> (o: Result<Option<T>, StorageError>)
    ensures
        o == spec_found_or_none(r),
{
    match r {
        Ok(v) => Ok(Some(v)),
        Err(StorageError::BlockNotFound) => Ok(None),
        Err(e) => Err(e),
    }
}

/// Turns the store's answer to an existence check into a `bool`: a missing
/// block does not exist, other errors pass through.
pub fn exists_or_false(r: Result<bool, StorageError>) -> (o: Result<bool, StorageError>)
    ensures
        o == match r {
            Ok(b) => Ok(b),
            Err(StorageError::BlockNotFound) => Ok(false),
            Err(e) => Err(e),
        },
{
    match r {
        Ok(b) => Ok(b),
        Err(StorageError::BlockNotFound) => Ok(false),
        Err(e) => Err(e),
    }
}

/// The distance that the store's ancestry answer gives, or the error that
/// makes the pair unusable as a range: no relation is `CannotIterate`.
pub open spec fn spec_ancestry(a: Result<Option<u64>, StorageError>) -> Result<u64, StorageError> {
    match a {
        Ok(Some(d)) => Ok(d),
        Ok(None) => Err(StorageError::CannotIterate),
        Err(e) => Err(e),
    }
}

/// Sets up the stream of blocks after `from` up to `to`, from the store's
/// answers to "is `from` an ancestor of `to`" (`ancestry`) and to the
/// metadata lookup of `to` (`to_info`, only read when `ancestry` gives a
/// distance). A distance that reaches beyond genesis relates no two stored
/// blocks and is `CannotIterate` too.
pub fn stream_from_to(
    ancestry: Result<Option<u64>, StorageError>,
    to_info: Result<BlockInfo, StorageError>,
) -> (r: Result<BlockStream, StorageError>)
    ensures
        match spec_ancestry(ancestry) {
            Err(e) => r == Err::<BlockStream, StorageError>(e),
            Ok(d) => match to_info {
                Err(e) => r == Err::<BlockStream, StorageError>(e),
                Ok(info) => if d < info.depth {
                    &&& r is Ok
                    &&& r->Ok_0.wf()
                    &&& r->Ok_0.state().target() == info
                    &&& r->Ok_0.state().remaining() == d
                    &&& !r->Ok_0.state().searching()
                    &&& r->Ok_0.state()@ == start_view(info, d)
                } else {
                    r == Err::<BlockStream, StorageError>(StorageError::CannotIterate)
                },
            },
        },
{
    let distance = match ancestry {
        Ok(Some(d)) => d,
        Ok(None) => return Err(StorageError::CannotIterate),
        Err(e) => return Err(e),
    };
    match to_info {
        Err(e) => Err(e),
        Ok(info) => {
            if distance < info.depth {
                Ok(BlockStream::new(info, distance))
            } else {
                Err(StorageError::CannotIterate)
            }
        },
    }
}

/// Sets up the stream of blocks from `from` back to `to` (included), or to
/// genesis when `to` is `None`. `ancestry` is the store's answer to "is `to`
/// an ancestor of `from`", only read when `to` is given.
pub fn stream_from_to_reversed(
    from: HeaderHash,
    to: Option<HeaderHash>,
    ancestry: Result<Option<u64>, StorageError>,
) -> (r: Result<BlockStreamReversed, StorageError>)
    ensures
        match (to, spec_ancestry(ancestry)) {
            (Some(_), Err(e)) => r == Err::<BlockStreamReversed, StorageError>(e),
            _ => r == Ok::<BlockStreamReversed, StorageError>(
                BlockStreamReversed::spec_new(from, to),
            ),
        },
        r is Ok ==> {
            &&& r->Ok_0.last_block() == from
            &&& r->Ok_0.stop() == to
            &&& !r->Ok_0.finished()
        },
        to is None ==> r is Ok,
{
    if to.is_some() {
        match ancestry {
            Err(e) => return Err(e),
            Ok(None) => return Err(StorageError::CannotIterate),
            Ok(Some(_)) => {},
        }
    }
    Ok(BlockStreamReversed::new(from, to))
}

/// What the resolver holds after the first `n` checkpoints.
pub open spec fn closest_upto(
    checkpoints: Seq<HeaderHash>,
    answers: Seq<Result<Option<u64>, StorageError>>,
    n: int,
) -> Result<Option<Ancestor>, StorageError>
    decreases n,
{
    if n <= 0 {
        Ok(None)
    } else {
        match closest_upto(checkpoints, answers, n - 1) {
            Err(e) => Err(e),
            Ok(best) => match answers[n - 1] {
                Err(StorageError::BlockNotFound) => Ok(best),
                Err(e) => Err(e),
                Ok(None) => Ok(best),
                Ok(Some(d)) => if best is None || best->Some_0.distance > d {
                    Ok(Some(Ancestor { header_hash: checkpoints[n - 1], distance: d }))
                } else {
                    Ok(best)
                },
            },
        }
    }
}

proof fn lemma_closest_error_stays(
    checkpoints: Seq<HeaderHash>,
    answers: Seq<Result<Option<u64>, StorageError>>,
    m: int,
    n: int,
)
    requires
        0 <= m <= n,
        closest_upto(checkpoints, answers, m) is Err,
    ensures
        closest_upto(checkpoints, answers, n) == closest_upto(checkpoints, answers, m),
    decreases n - m,
{
    if m < n {
        lemma_closest_error_stays(checkpoints, answers, m, n - 1);
    }
}

/// Picks, among `checkpoints`, the ancestor of a descendant block nearest to
/// it. `descendant` is the store's answer to "does the descendant exist": a
/// missing descendant is `BlockNotFound`, and an error there is returned.
/// `answers[i]` is the store's answer to "is `checkpoints[i]` an ancestor of
/// the descendant": checkpoints that are absent or unrelated are skipped, the
/// first other error is returned, and on equal distances the earlier
/// checkpoint is kept.
pub fn find_closest_ancestor(
    checkpoints: &Vec<HeaderHash>,
    descendant: Result<bool, StorageError>,
    answers: &Vec<Result<Option<u64>, StorageError>>,
) -> (r: Result<Option<Ancestor>, StorageError>)
    requires
        checkpoints@.len() == answers@.len(),
    ensures
        descendant matches Err(e) ==> r == Err::<Option<Ancestor>, StorageError>(e),
        descendant == Ok::<bool, StorageError>(false) ==> r == Err::<
            Option<Ancestor>,
            StorageError,
        >(StorageError::BlockNotFound),
        descendant == Ok::<bool, StorageError>(true) ==> r == closest_upto(
            checkpoints@,
            answers@,
            checkpoints@.len() as int,
        ),
{
    match descendant {
        Err(e) => return Err(e),
        Ok(false) => return Err(StorageError::BlockNotFound),
        Ok(true) => {},
    }
    let mut best: Option<Ancestor> = None;
    let mut i: usize = 0;
    while i < checkpoints.len()
        invariant
            checkpoints@.len() == answers@.len(),
            descendant == Ok::<bool, StorageError>(true),
            0 <= i <= checkpoints@.len(),
            closest_upto(checkpoints@, answers@, i as int) == Ok::<Option<Ancestor>, StorageError>(
                best,
            ),
        decreases checkpoints@.len() - i,
    {
        match &answers[i] {
            Err(StorageError::BlockNotFound) => {},
            Err(e) => {
                let r = Err(e.clone());
                proof {
                    lemma_closest_error_stays(
                        checkpoints@,
                        answers@,
                        i + 1,
                        checkpoints@.len() as int,
                    );
                }
                return r;
            },
            Ok(None) => {},
            Ok(Some(d)) => {
                let closer = match &best {
                    None => true,
                    Some(b) => b.distance > *d,
                };
                if closer {
                    best = Some(Ancestor { header_hash: checkpoints[i], distance: *d });
                }
            },
        }
        i = i + 1;
    }
    Ok(best)
}

/// While no checkpoint was refused by a hard error, the resolver holds the
/// checkpoint with the smallest distance among those that are ancestors,
/// the earliest on equal distances, and nothing when none is.
pub proof fn lemma_closest_is_nearest(
    checkpoints: Seq<HeaderHash>,
    answers: Seq<Result<Option<u64>, StorageError>>,
    n: int,
)
    requires
        0 <= n <= checkpoints.len(),
        checkpoints.len() == answers.len(),
        closest_upto(checkpoints, answers, n) is Ok,
    ensures
        closest_upto(checkpoints, answers, n) == Ok::<Option<Ancestor>, StorageError>(None)
            ==> forall|j: int| 0 <= j < n ==> !(#[trigger] answers[j] matches Ok(Some(_))),
        closest_upto(checkpoints, answers, n) matches Ok(Some(a)) ==> {
            &&& exists|i: int|
                0 <= i < n && checkpoints[i] == a.header_hash && #[trigger] answers[i] == Ok::<
                    Option<u64>,
                    StorageError,
                >(Some(a.distance)) && forall|j: int|
                    0 <= j < i ==> !(#[trigger] answers[j] matches Ok(Some(d)) && d <= a.distance)
            &&& forall|j: int|
                0 <= j < n ==> (#[trigger] answers[j] matches Ok(Some(d)) ==> a.distance <= d)
        },
    decreases n,
{
    if n > 0 {
        let prev = closest_upto(checkpoints, answers, n - 1);
        if prev is Err {
            lemma_closest_error_stays(checkpoints, answers, n - 1, n);
        } else {
            lemma_closest_is_nearest(checkpoints, answers, n - 1);
            let cur = closest_upto(checkpoints, answers, n);
            if let Ok(Some(a)) = cur {
                if prev != cur {
                    assert(answers[n - 1] == Ok::<Option<u64>, StorageError>(Some(a.distance)));
                    assert(checkpoints[n - 1] == a.header_hash);
                    if let Ok(Some(b)) = prev {
                        let i = choose|i: int|
                            0 <= i < n - 1 && checkpoints[i] == b.header_hash && #[trigger] answers[i]
                                == Ok::<Option<u64>, StorageError>(Some(b.distance)) && forall|j: int|
                                0 <= j < i ==> !(#[trigger] answers[j] matches Ok(Some(d)) && d
                                    <= b.distance);
                        assert(answers[i] matches Ok(Some(_)));
                    }
                } else {
                    let i = choose|i: int|
                        0 <= i < n - 1 && checkpoints[i] == a.header_hash && #[trigger] answers[i]
                            == Ok::<Option<u64>, StorageError>(Some(a.distance)) && forall|j: int|
                            0 <= j < i ==> !(#[trigger] answers[j] matches Ok(Some(d)) && d
                                <= a.distance);
                    assert(0 <= i < n && checkpoints[i] == a.header_hash);
                }
            }
        }
    }
}

/// When every checkpoint is absent from the store or not an ancestor, no
/// ancestor is found.
pub proof fn lemma_no_candidate(
    checkpoints: Seq<HeaderHash>,
    answers: Seq<Result<Option<u64>, StorageError>>,
)
    requires
        checkpoints.len() == answers.len(),
        forall|i: int|
            0 <= i < answers.len() ==> #[trigger] answers[i] == Ok::<Option<u64>, StorageError>(
                None,
            ) || answers[i] == Err::<Option<u64>, StorageError>(StorageError::BlockNotFound),
    ensures
        closest_upto(checkpoints, answers, checkpoints.len() as int) == Ok::<
            Option<Ancestor>,
            StorageError,
        >(None),
{
    lemma_no_candidate_upto(checkpoints, answers, checkpoints.len() as int);
}

proof fn lemma_no_candidate_upto(
    checkpoints: Seq<HeaderHash>,
    answers: Seq<Result<Option<u64>, StorageError>>,
    n: int,
)
    requires
        0 <= n <= answers.len(),
        forall|i: int|
            0 <= i < answers.len() ==> #[trigger] answers[i] == Ok::<Option<u64>, StorageError>(
                None,
            ) || answers[i] == Err::<Option<u64>, StorageError>(StorageError::BlockNotFound),
    ensures
        closest_upto(checkpoints, answers, n) == Ok::<Option<Ancestor>, StorageError>(None),
    decreases n,
{
    if n > 0 {
        lemma_no_candidate_upto(checkpoints, answers, n - 1);
        assert(answers[n - 1] == Ok::<Option<u64>, StorageError>(None) || answers[n - 1] == Err::<
            Option<u64>,
            StorageError,
        >(StorageError::BlockNotFound));
    }
}

} // verus!
