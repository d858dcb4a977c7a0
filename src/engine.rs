use std::collections::VecDeque;
use vstd::prelude::*;

verus! {

/// What the engine knows of one request whose responses are still being gathered:
/// the slot that receives the outcome, how many values it waits for, and the
/// values gathered so far.
pub type Pending<O, I> = (O, nat, Seq<I>);

/// The bookkeeping record of a request that was written to the transport.
pub struct InFlight<O, I> {
    pub output: O,
    pub response_count: usize,
    pub buffer: Vec<I>,
}

impl<O, I> InFlight<O, I> {
    pub open spec fn model(&self) -> Pending<O, I> {
        (self.output, self.response_count as nat, self.buffer@)
    }
}

/// An entry still waits for at least one value.
pub open spec fn pending_ok<O, I>(e: Pending<O, I>) -> bool {
    e.2.len() < e.1
}

/// Every entry of a queue still waits for at least one value.
pub open spec fn queue_ok<O, I>(q: Seq<Pending<O, I>>) -> bool {
    forall|i: int| 0 <= i < q.len() ==> #[trigger] pending_ok(q[i])
}

/// The outcome handed to a completion slot.
pub type Resolution<O, I, E> = (O, Result<Seq<I>, E>);

/// One read value (or read error) applied to the in-flight queue: the new queue
/// and the slot resolved, if any. Only the head is ever touched.
pub open spec fn step<O, I, E>(q: Seq<Pending<O, I>>, item: Result<I, E>) -> (
    Seq<Pending<O, I>>,
    Option<Resolution<O, I, E>>,
) {
    if q.len() == 0 {
        (q, None)
    } else {
        match item {
            Err(e) => (q.drop_first(), Some((q[0].0, Err(e)))),
            Ok(v) => {
                let got = q[0].2.push(v);
                if got.len() < q[0].1 {
                    (q.update(0, (q[0].0, q[0].1, got)), None)
                } else {
                    (q.drop_first(), Some((q[0].0, Ok(got))))
                }
            },
        }
    }
}

/// Applies a run of successfully decoded values one by one, collecting the
/// resolutions in the order they happen.
pub open spec fn feed<O, I, E>(q: Seq<Pending<O, I>>, vals: Seq<I>) -> (
    Seq<Pending<O, I>>,
    Seq<Resolution<O, I, E>>,
)
    decreases vals.len(),
{
    if vals.len() == 0 {
        (q, Seq::empty())
    } else {
        let (q1, r) = step::<O, I, E>(q, Ok(vals[0]));
        let (q2, rs) = feed::<O, I, E>(q1, vals.drop_first());
        match r {
            Some(x) => (q2, seq![x] + rs),
            None => (q2, rs),
        }
    }
}

/// The resolutions that FIFO popping owes: the head takes the next values it
/// still lacks, then the entry behind it takes the following ones, and so on.
pub open spec fn fifo_resolutions<O, I, E>(q: Seq<Pending<O, I>>, vals: Seq<I>) -> Seq<
    Resolution<O, I, E>,
>
    decreases q.len(),
{
    if q.len() == 0 {
        Seq::empty()
    } else {
        let need = q[0].1 - q[0].2.len();
        if vals.len() < need {
            Seq::empty()
        } else {
            seq![(q[0].0, Ok(q[0].2 + vals.take(need)))] + fifo_resolutions::<O, I, E>(
                q.drop_first(),
                vals.skip(need),
            )
        }
    }
}

/// FIFO resolution: feeding decoded values to a well-formed in-flight queue
/// resolves its entries strictly from the head, each with exactly the values it
/// lacked, taken from the stream in arrival order.
pub proof fn lemma_fifo_resolution<O, I, E>(q: Seq<Pending<O, I>>, vals: Seq<I>)
    requires
        queue_ok(q),
    ensures
        feed::<O, I, E>(q, vals).1 == fifo_resolutions::<O, I, E>(q, vals),
    decreases vals.len(),
{
    if vals.len() == 0 {
        if q.len() > 0 {
            assert(pending_ok(q[0]));
        }
    } else if q.len() == 0 {
        lemma_fifo_resolution::<O, I, E>(q, vals.drop_first());
    } else {
        assert(pending_ok(q[0]));
        let (o, c, b) = q[0];
        let need = c - b.len();
        let v0 = vals[0];
        let rest = vals.drop_first();
        if need == 1 {
            let q1 = q.drop_first();
            assert forall|i: int| 0 <= i < q1.len() implies #[trigger] pending_ok(q1[i]) by {
                assert(pending_ok(q[i + 1]));
            }
            lemma_fifo_resolution::<O, I, E>(q1, rest);
            assert(b + vals.take(1) =~= b.push(v0));
            assert(vals.skip(1) =~= rest);
        } else {
            let q1 = q.update(0, (o, c, b.push(v0)));
            assert forall|i: int| 0 <= i < q1.len() implies #[trigger] pending_ok(q1[i]) by {
                if i > 0 {
                    assert(pending_ok(q[i]));
                }
            }
            lemma_fifo_resolution::<O, I, E>(q1, rest);
            assert(q1.drop_first() =~= q.drop_first());
            if vals.len() >= need {
                assert(b.push(v0) + rest.take(need - 1) =~= b + vals.take(need));
                assert(rest.skip(need - 1) =~= vals.skip(need));
            }
        }
    }
}

/// Batch atomicity: the head entry receives, as one list and in arrival order,
/// exactly the values it still lacks; nothing else is resolved and the entries
/// behind it are left untouched.
pub proof fn lemma_batch_atomic<O, I, E>(q: Seq<Pending<O, I>>, vals: Seq<I>)
    requires
        queue_ok(q),
        q.len() > 0,
        vals.len() == q[0].1 - q[0].2.len(),
    ensures
        feed::<O, I, E>(q, vals) == (q.drop_first(), seq![(q[0].0, Ok::<Seq<I>, E>(q[0].2 + vals))]),
    decreases vals.len(),
{
    assert(pending_ok(q[0]));
    let (o, c, b) = q[0];
    let v0 = vals[0];
    let rest = vals.drop_first();
    if vals.len() == 1 {
        assert(b + vals =~= b.push(v0));
        assert(rest.len() == 0);
        assert(step::<O, I, E>(q, Ok(v0)) == (q.drop_first(), Some((o, Ok::<Seq<I>, E>(b.push(v0))))));
        assert(feed::<O, I, E>(q.drop_first(), rest) == (q.drop_first(), Seq::<Resolution<O, I, E>>::empty()));
        assert(seq![(o, Ok::<Seq<I>, E>(b.push(v0)))] + Seq::<Resolution<O, I, E>>::empty() =~= seq![(o, Ok::<Seq<I>, E>(b.push(v0)))]);
    } else {
        let q1 = q.update(0, (o, c, b.push(v0)));
        assert forall|i: int| 0 <= i < q1.len() implies #[trigger] pending_ok(q1[i]) by {
            if i > 0 {
                assert(pending_ok(q[i]));
            }
        }
        lemma_batch_atomic::<O, I, E>(q1, rest);
        assert(q1.drop_first() =~= q.drop_first());
        assert(b.push(v0) + rest =~= b + vals);
    }
}

/// The completion slots of a queue, head first.
pub open spec fn slots<O, I>(q: Seq<Pending<O, I>>) -> Seq<O> {
    q.map_values(|e: Pending<O, I>| e.0)
}

/// The slots named by a run of resolutions, in the order they were resolved.
pub open spec fn resolved_slots<O, I, E>(rs: Seq<Resolution<O, I, E>>) -> Seq<O> {
    rs.map_values(|r: Resolution<O, I, E>| r.0)
}

/// Draining loses no request: after any run of values, the slots resolved so
/// far followed by the slots still queued are exactly the slots queued at the
/// start, in order. So the queue is empty, and closing may go on, only once every
/// slot that was in flight has been written.
pub proof fn lemma_drain_resolves_all<O, I, E>(q: Seq<Pending<O, I>>, vals: Seq<I>)
    requires
        queue_ok(q),
    ensures
        resolved_slots(feed::<O, I, E>(q, vals).1) + slots(feed::<O, I, E>(q, vals).0) == slots(q),
    decreases vals.len(),
{
    if vals.len() == 0 {
        assert(resolved_slots(Seq::<Resolution<O, I, E>>::empty()) + slots(q) =~= slots(q));
    } else {
        let (q1, r) = step::<O, I, E>(q, Ok(vals[0]));
        assert(queue_ok(q1)) by {
            if q.len() > 0 {
                assert(pending_ok(q[0]));
                assert forall|i: int| 0 <= i < q1.len() implies #[trigger] pending_ok(q1[i]) by {
                    if q1.len() == q.len() {
                        if i > 0 {
                            assert(pending_ok(q[i]));
                        }
                    } else {
                        assert(pending_ok(q[i + 1]));
                    }
                }
            }
        }
        lemma_drain_resolves_all::<O, I, E>(q1, vals.drop_first());
        let (q2, rs) = feed::<O, I, E>(q1, vals.drop_first());
        if q.len() > 0 {
            let got = q[0].2.push(vals[0]);
            if got.len() < q[0].1 {
                assert(slots(q1) =~= slots(q));
            } else {
                assert(resolved_slots(seq![r.unwrap()] + rs) =~= seq![q[0].0] + resolved_slots(rs));
                assert(slots(q) =~= seq![q[0].0] + slots(q1));
                assert(resolved_slots(seq![r.unwrap()] + rs) + slots(q2) =~= seq![q[0].0] + (
                resolved_slots(rs) + slots(q2)));
            }
        }
    }
}

/// The resolution a step produced, as a run of zero or one.
pub open spec fn opt_seq<X>(r: Option<X>) -> Seq<X> {
    match r {
        Some(x) => seq![x],
        None => Seq::empty(),
    }
}

/// Feeding one more value continues from where the shorter run left the queue:
/// a run of single steps, applied one after the other, is what `feed` describes.
pub proof fn lemma_feed_push<O, I, E>(q: Seq<Pending<O, I>>, vals: Seq<I>, v: I)
    ensures
        feed::<O, I, E>(q, vals.push(v)) == (
            step::<O, I, E>(feed::<O, I, E>(q, vals).0, Ok(v)).0,
            feed::<O, I, E>(q, vals).1 + opt_seq(step::<O, I, E>(feed::<O, I, E>(q, vals).0, Ok(v)).1),
        ),
    decreases vals.len(),
{
    let w = vals.push(v);
    if vals.len() == 0 {
        assert(w.len() == 1 && w[0] == v);
        assert(w.drop_first().len() == 0);
        let (q1, r) = step::<O, I, E>(q, Ok(v));
        assert(feed::<O, I, E>(q, vals) == (q, Seq::<Resolution<O, I, E>>::empty()));
        assert(feed::<O, I, E>(q1, w.drop_first()) == (q1, Seq::<Resolution<O, I, E>>::empty()));
        match r {
            Some(x) => {
                assert(seq![x] + Seq::<Resolution<O, I, E>>::empty() =~= Seq::<Resolution<O, I, E>>::empty() + opt_seq(r));
            },
            None => {
                assert(Seq::<Resolution<O, I, E>>::empty() =~= Seq::<Resolution<O, I, E>>::empty() + opt_seq(r));
            },
        }
    } else {
        assert(w[0] == vals[0]);
        assert(w.drop_first() =~= vals.drop_first().push(v));
        let (q1, r) = step::<O, I, E>(q, Ok(vals[0]));
        lemma_feed_push::<O, I, E>(q1, vals.drop_first(), v);
        let (q2, rs) = feed::<O, I, E>(q1, vals.drop_first());
        let (_, r2) = step::<O, I, E>(q2, Ok(v));
        assert(opt_seq(r) + (rs + opt_seq(r2)) =~= (opt_seq(r) + rs) + opt_seq(r2));
        match r {
            Some(x) => {
                assert(opt_seq(r) == seq![x]);
            },
            None => {
                assert(opt_seq(r) + rs =~= rs);
                assert(opt_seq(r) + (rs + opt_seq(r2)) =~= rs + opt_seq(r2));
            },
        }
    }
}

/// How an outcome handed to a slot reads in the model.
pub open spec fn resolution_model<O, I, E>(x: (O, Result<Vec<I>, E>)) -> Resolution<O, I, E> {
    (
        x.0,
        match x.1 {
            Ok(v) => Ok(v@),
            Err(e) => Err(e),
        },
    )
}

/// The result of handing one item of the transport's value stream to the engine.
pub struct ReadOutcome<O, I, E> {
    /// A completion slot to write, with what to write into it.
    pub resolved: Option<(O, Result<Vec<I>, E>)>,
    /// Slots dropped without an outcome: their callers see the connection closed.
    pub abandoned: Vec<O>,
    /// The driver stops reading after this item.
    pub stop: bool,
}

/// The driver's next move.
#[derive(PartialEq, Eq, Structural, Debug, Clone, Copy)]
pub enum DriverAction {
    /// Take the next request from the mailbox, or the next value read.
    Accept,
    /// Read only: responses are still owed after closing began.
    Drain,
    /// Close the transport and stop.
    Close,
}

/// The consumer side of the multiplexer: the ordered queue of requests written
/// to the transport and not yet answered, and an error seen while waiting for the
/// transport to accept a write.
pub struct PipelineSink<O, I, E> {
    pub in_flight: VecDeque<InFlight<O, I>>,
    pub error: Option<E>,
    /// Raised once no new request will come: the driver drains, then closes.
    pub closing: bool,
}

impl<O, I, E> PipelineSink<O, I, E> {
    /// The in-flight queue, head first.
    pub open spec fn queue(&self) -> Seq<Pending<O, I>> {
        self.in_flight@.map_values(|e: InFlight<O, I>| e.model())
    }

    pub open spec fn wf(&self) -> bool {
        queue_ok(self.queue())
    }

    pub fn new() -> (r: Self)
        ensures
            r.wf(),
            r.queue() == Seq::<Pending<O, I>>::empty(),
            r.error is None,
            !r.closing,
    {
        PipelineSink { in_flight: VecDeque::new(), error: None, closing: false }
    }

    /// Routes one decoded value, or a decode error, to the head of the in-flight
    /// queue. A value with no request waiting for it is dropped.
    pub fn send_result(&mut self, result: Result<I, E>) -> (r: Option<(O, Result<Vec<I>, E>)>)
        requires
            old(self).wf(),
        ensures
            final(self).wf(),
            final(self).error == old(self).error,
            final(self).closing == old(self).closing,
            final(self).queue() == step(old(self).queue(), result).0,
            match step(old(self).queue(), result).1 {
                None => r is None,
                Some((o, Err(e))) => r == Some((o, Err::<Vec<I>, E>(e))),
                Some((o, Ok(vals))) => r matches Some((o2, Ok(v))) && o2 == o && v@ == vals,
            },
            r matches Some((_, Ok(v))) ==> v@.len() == old(self).queue()[0].1,
    {
        let ghost q = self.queue();
        let entry = self.in_flight.pop_front();
        proof {
            assert(self.queue() =~= if q.len() > 0 { q.drop_first() } else { q });
        }
        match entry {
            None => None,
            Some(mut entry) => {
                assert(entry.model() == q[0]);
                assert(pending_ok(q[0]));
                match result {
                    Err(err) => Some((entry.output, Err(err))),
                    Ok(item) => {
                        entry.buffer.push(item);
                        if entry.buffer.len() < entry.response_count {
                            self.in_flight.push_front(entry);
                            proof {
                                assert(self.queue() =~= q.update(0, entry.model()));
                                assert forall|i: int| 0 <= i < self.queue().len() implies #[trigger] pending_ok(
                                    self.queue()[i],
                                ) by {
                                    if i > 0 {
                                        assert(pending_ok(q[i]));
                                    }
                                }
                            }
                            None
                        } else {
                            Some((entry.output, Ok(entry.buffer)))
                        }
                    },
                }
            },
        }
    }

    /// Routes a run of decoded values, in order, through `send_result`, and
    /// returns the slots resolved on the way with their outcomes. They are
    /// exactly what FIFO popping owes: the head first, each with the values it
    /// lacked, taken in arrival order.
    pub fn send_results(&mut self, vals: Vec<I>) -> (r: Vec<(O, Result<Vec<I>, E>)>)
        requires
            old(self).wf(),
        ensures
            final(self).wf(),
            final(self).error == old(self).error,
            final(self).closing == old(self).closing,
            final(self).queue() == feed::<O, I, E>(old(self).queue(), vals@).0,
            r@.map_values(|x: (O, Result<Vec<I>, E>)| resolution_model(x)) == fifo_resolutions::<
                O,
                I,
                E,
            >(old(self).queue(), vals@),
    {
        let ghost q0 = self.queue();
        let ghost all = vals@;
        let mut rest = vals;
        let mut out: Vec<(O, Result<Vec<I>, E>)> = Vec::new();
        let ghost mut i: int = 0;
        proof {
            assert(all.take(0) =~= Seq::<I>::empty());
            assert(rest@ =~= all.skip(0));
            assert(out@.map_values(|x: (O, Result<Vec<I>, E>)| resolution_model(x)) =~= Seq::<
                Resolution<O, I, E>,
            >::empty());
        }
        while rest.len() > 0
            invariant
                0 <= i <= all.len(),
                rest@ == all.skip(i),
                self.wf(),
                self.error == old(self).error,
                self.closing == old(self).closing,
                self.queue() == feed::<O, I, E>(q0, all.take(i)).0,
                out@.map_values(|x: (O, Result<Vec<I>, E>)| resolution_model(x)) == feed::<
                    O,
                    I,
                    E,
                >(q0, all.take(i)).1,
            decreases rest@.len(),
        {
            let ghost before = out@;
            let v = rest.remove(0);
            proof {
                assert(v == all[i]);
                assert(all.take(i + 1) =~= all.take(i).push(v));
                lemma_feed_push::<O, I, E>(q0, all.take(i), v);
            }
            let got = self.send_result(Ok(v));
            match got {
                Some(x) => {
                    out.push(x);
                    proof {
                        assert(out@.map_values(|x: (O, Result<Vec<I>, E>)| resolution_model(x))
                            =~= before.map_values(
                            |x: (O, Result<Vec<I>, E>)| resolution_model(x),
                        ) + seq![resolution_model(x)]);
                    }
                },
                None => {},
            }
            proof {
                i = i + 1;
                assert(rest@ =~= all.skip(i));
            }
        }
        proof {
            assert(all.take(i) =~= all);
            lemma_fifo_resolution::<O, I, E>(q0, all);
        }
        out
    }

    /// Records the outcome of waiting for the transport to accept a write; a
    /// failure is kept and handed to the next request instead of writing it.
    pub fn poll_ready(&mut self, ready: Result<(), E>)
        ensures
            final(self).in_flight == old(self).in_flight,
            final(self).closing == old(self).closing,
            match ready {
                Ok(()) => final(self).error == old(self).error,
                Err(e) => final(self).error == Some(e),
            },
    {
        if let Err(e) = ready {
            self.error = Some(e);
        }
    }

    /// Starts sending one request. A failure kept from a readiness wait is
    /// handed to this request instead: its slot comes back with that failure,
    /// the failure is cleared, nothing is queued and the request must not be
    /// written. Otherwise the slot comes back in `Ok` and the request is to be
    /// written, then reported through `record_write`.
    pub fn start_send(&mut self, output: O) -> (r: Result<O, (O, E)>)
        ensures
            final(self).error is None,
            final(self).in_flight == old(self).in_flight,
            final(self).closing == old(self).closing,
            match old(self).error {
                Some(e) => r == Err::<O, (O, E)>((output, e)),
                None => r == Ok::<O, (O, E)>(output),
            },
    {
        match self.error.take() {
            Some(e) => Err((output, e)),
            None => Ok(output),
        }
    }

    /// Accounts for a request after its bytes were handed to the transport and
    /// flushed. On success it joins the tail of the in-flight queue with an empty
    /// buffer; on failure its slot is handed back with the error and the queue is
    /// left as it was.
    pub fn record_write(&mut self, output: O, response_count: usize, written: Result<(), E>) -> (r:
        Result<(), (O, E)>)
        requires
            old(self).wf(),
            response_count >= 1,
        ensures
            final(self).wf(),
            final(self).error == old(self).error,
            final(self).closing == old(self).closing,
            match written {
                Ok(()) => r is Ok && final(self).queue() == old(self).queue().push(
                    (output, response_count as nat, Seq::<I>::empty()),
                ),
                Err(e) => r == Err::<(), (O, E)>((output, e)) && final(self).queue() == old(
                    self,
                ).queue(),
            },
    {
        match written {
            Ok(()) => {
                let ghost q = self.queue();
                let entry = InFlight { output, response_count, buffer: Vec::new() };
                self.in_flight.push_back(entry);
                proof {
                    assert(self.queue() =~= q.push(entry.model()));
                    assert forall|i: int| 0 <= i < self.queue().len() implies #[trigger] pending_ok(
                        self.queue()[i],
                    ) by {
                        if i < q.len() {
                            assert(pending_ok(q[i]));
                        }
                    }
                }
                Ok(())
            },
            Err(e) => Err((output, e)),
        }
    }

    /// No new request will come: from now on the driver only drains.
    pub fn poll_close(&mut self)
        ensures
            final(self).closing,
            final(self).in_flight == old(self).in_flight,
            final(self).error == old(self).error,
    {
        self.closing = true;
    }

    /// What the driver does next: take requests and read values while open;
    /// once closing, keep reading while any response is still owed, and close
    /// the transport only when none is.
    pub fn next_action(&self) -> (r: DriverAction)
        ensures
            r == if !self.closing {
                DriverAction::Accept
            } else if self.queue().len() > 0 {
                DriverAction::Drain
            } else {
                DriverAction::Close
            },
    {
        if !self.closing {
            DriverAction::Accept
        } else if self.in_flight.len() > 0 {
            DriverAction::Drain
        } else {
            DriverAction::Close
        }
    }

    /// Whether closing must first wait for the responses still owed.
    pub fn must_drain(&self) -> (r: bool)
        ensures
            r == (self.queue().len() > 0),
    {
        self.in_flight.len() > 0
    }

    /// Takes every entry out of the queue, head first, and hands back their slots.
    pub fn abandon_all(&mut self) -> (r: Vec<O>)
        ensures
            final(self).queue() == Seq::<Pending<O, I>>::empty(),
            final(self).error == old(self).error,
            final(self).closing == old(self).closing,
            r@ == slots(old(self).queue()),
    {
        let ghost q = self.queue();
        let mut out: Vec<O> = Vec::new();
        while self.in_flight.len() > 0
            invariant
                out@ + slots(self.queue()) == slots(q),
                self.error == old(self).error,
                self.closing == old(self).closing,
            decreases self.in_flight@.len(),
        {
            let ghost before = self.queue();
            let e = self.in_flight.pop_front().unwrap();
            proof {
                assert(self.queue() =~= before.drop_first());
            }
            out.push(e.output);
            proof {
                assert(out@ + slots(self.queue()) =~= out@.drop_last() + slots(before));
            }
        }
        proof {
            assert(self.queue() =~= Seq::<Pending<O, I>>::empty());
            assert(out@ =~= out@ + slots(self.queue()));
        }
        out
    }

    /// Handles one item pulled from the transport's value stream. `None` means
    /// the stream has ended: the driver stops. A value goes to the head entry. An
    /// error resolves the head entry with it; the transport is then taken as
    /// failed, the driver stops, and every other entry is dropped unresolved.
    pub fn poll_read(&mut self, item: Option<Result<I, E>>) -> (r: ReadOutcome<O, I, E>)
        requires
            old(self).wf(),
        ensures
            final(self).wf(),
            final(self).error == old(self).error,
            final(self).closing == old(self).closing,
            match item {
                None => {
                    &&& r.stop
                    &&& r.resolved is None
                    &&& r.abandoned@.len() == 0
                    &&& final(self).queue() == old(self).queue()
                },
                Some(Ok(v)) => {
                    &&& !r.stop
                    &&& r.abandoned@.len() == 0
                    &&& final(self).queue() == step(old(self).queue(), Ok::<I, E>(v)).0
                    &&& match step(old(self).queue(), Ok::<I, E>(v)).1 {
                        None => r.resolved is None,
                        Some((o, Err(e))) => r.resolved == Some((o, Err::<Vec<I>, E>(e))),
                        Some((o, Ok(vals))) => r.resolved matches Some((o2, Ok(w))) && o2 == o
                            && w@ == vals,
                    }
                },
                Some(Err(e)) => {
                    &&& r.stop
                    &&& final(self).queue() == Seq::<Pending<O, I>>::empty()
                    &&& if old(self).queue().len() == 0 {
                        &&& r.resolved is None
                        &&& r.abandoned@.len() == 0
                    } else {
                        &&& r.resolved == Some((old(self).queue()[0].0, Err::<Vec<I>, E>(e)))
                        &&& r.abandoned@ == slots(old(self).queue().drop_first())
                    }
                },
            },
    {
        match item {
            None => ReadOutcome { resolved: None, abandoned: Vec::new(), stop: true },
            Some(Ok(v)) => {
                let resolved = self.send_result(Ok(v));
                ReadOutcome { resolved, abandoned: Vec::new(), stop: false }
            },
            Some(Err(e)) => {
                let resolved = self.send_result(Err(e));
                let abandoned = self.abandon_all();
                ReadOutcome { resolved, abandoned, stop: true }
            },
        }
    }
}

} // verus!
