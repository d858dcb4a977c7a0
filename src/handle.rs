use crate::sequential::ConnectionLike;
use vstd::prelude::*;

verus! {

/// How many requests the mailbox holds before a submission has to wait.
pub const MAILBOX_CAPACITY: usize = 50;

/// Why a request on the multiplexed handle failed.
#[derive(PartialEq, Eq, Structural, Debug)]
pub enum MuxError<E> {
    /// The engine stopped without answering: the connection is closed.
    Closed,
    /// The engine reported this error for the request.
    Failed(E),
}

/// A cheap-to-duplicate front end to the multiplexing engine: `P` is the
/// sending end of the mailbox.
#[derive(Clone)]
pub struct MultiplexedConnection<P> {
    pub pipeline: P,
    pub db: i64,
}

impl<P> MultiplexedConnection<P> {
    pub fn new(pipeline: P, db: i64) -> (r: Self)
        ensures
            r.pipeline == pipeline,
            r.db == db,
    {
        MultiplexedConnection { pipeline, db }
    }
}

impl<P> ConnectionLike for MultiplexedConnection<P> {
    fn get_db(&self) -> (r: i64)
        ensures
            r == self.db,
    {
        self.db
    }
}

/// What a caller makes of its completion slot: `None` when the slot was dropped
/// unwritten (or the mailbox was closed), else the outcome the engine wrote.
pub fn slot_outcome<I, E>(received: Option<Result<Vec<I>, E>>) -> (r: Result<Vec<I>, MuxError<E>>)
    ensures
        match received {
            None => r == Err::<Vec<I>, MuxError<E>>(MuxError::Closed),
            Some(Ok(v)) => r == Ok::<Vec<I>, MuxError<E>>(v),
            Some(Err(e)) => r == Err::<Vec<I>, MuxError<E>>(MuxError::Failed(e)),
        },
{
    match received {
        None => Err(MuxError::Closed),
        Some(Ok(v)) => Ok(v),
        Some(Err(e)) => Err(MuxError::Failed(e)),
    }
}

/// Unwraps the outcome of a request that asked for one value.
pub fn single_response<I, E>(outcome: Result<Vec<I>, MuxError<E>>) -> (r: Result<I, MuxError<E>>)
    requires
        outcome matches Ok(v) ==> v@.len() == 1,
    ensures
        match outcome {
            Ok(v) => r == Ok::<I, MuxError<E>>(v@[0]),
            Err(e) => r == Err::<I, MuxError<E>>(e),
        },
{
    match outcome {
        Ok(mut v) => {
            let x = v.pop().unwrap();
            Ok(x)
        },
        Err(e) => Err(e),
    }
}

/// The number of responses a batch reads: `offset` leading ones to skip, then
/// `count` to keep. `None` when that number does not fit in a `usize`.
pub fn batch_response_count(offset: usize, count: usize) -> (r: Option<usize>)
    ensures
        offset + count <= usize::MAX ==> r == Some((offset + count) as usize),
        offset + count > usize::MAX ==> r is None,
{
    offset.checked_add(count)
}

/// Drops the first `offset` responses of a batch and keeps the rest, in order.
pub fn skip_leading<V>(values: Vec<V>, offset: usize) -> (r: Vec<V>)
    requires
        offset <= values@.len(),
    ensures
        r@ == values@.skip(offset as int),
{
    let ghost all = values@;
    let mut values = values;
    let kept = values.split_off(offset);
    assert(kept@ =~= all.skip(offset as int));
    kept
}

} // verus!
