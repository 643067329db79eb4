//! The classification worker's request queue, and what a caller makes of a
//! reply.
//!
//! One worker owns the model and serves requests one at a time, in the
//! order they were accepted. The queue is bounded, so that callers wait
//! when the model falls behind.

use std::collections::VecDeque;
use vstd::prelude::*;
use crate::sentiment::PolarityScore;

verus! {

/// The number of requests that the queue of a spawned classifier holds.
pub const QUEUE_CAPACITY: usize = 10;

/// A request to the worker: the texts of one batch, and the handle that the
/// reply is sent through.
#[derive(Debug)]
pub struct Message<R> {
    /// The texts to classify, in the order of the batch.
    pub texts: Vec<String>,
    /// Where the scores go.
    pub reply: R,
}

/// The mathematical value of a request.
pub struct MessageView<R> {
    /// The texts to classify, in the order of the batch.
    pub texts: Seq<Seq<char>>,
    /// Where the scores go.
    pub reply: R,
}

impl<R> View for Message<R> {
    type V = MessageView<R>;

    open spec fn view(&self) -> MessageView<R> {
        MessageView { texts: self.texts.deep_view(), reply: self.reply }
    }
}

/// Why a request was not accepted.
#[derive(Clone, Copy, Debug, PartialEq, Eq, Structural)]
pub enum Rejection {
    /// The queue is full: the caller waits and tries again.
    Full,
    /// The queue was closed: the classifier is unavailable.
    Closed,
}

/// A request that was not accepted, handed back whole.
#[derive(Debug)]
pub struct Rejected<R> {
    /// Why it was not accepted.
    pub reason: Rejection,
    /// The request itself.
    pub message: Message<R>,
}

/// What the worker does next.
#[derive(Debug)]
pub enum WorkerStep<R> {
    /// Classify the texts of this request and send the scores to its reply
    /// handle.
    Classify(Message<R>),
    /// Wait for a request.
    Idle,
    /// End: the queue is closed and drained.
    Stop,
}

/// Why a caller got no scores.
#[derive(Clone, Copy, Debug, PartialEq, Eq, Structural)]
pub enum ClassifierError {
    /// The worker has ended, or dropped the reply handle.
    Unavailable,
    /// The reply does not hold one score for each text.
    LengthMismatch,
}

/// The mathematical state of the queue.
pub struct QueueState<R> {
    /// The number of requests that the queue holds at most.
    pub capacity: nat,
    /// The accepted requests that the worker has not taken yet, oldest first.
    pub pending: Seq<MessageView<R>>,
    /// Whether the queue was closed.
    pub closed: bool,
}

impl<R> QueueState<R> {
    /// The queue holds no more requests than its capacity.
    pub open spec fn wf(self) -> bool {
        self.pending.len() <= self.capacity
    }

    /// Whether a request is accepted: the queue is open and has room.
    pub open spec fn has_room(self) -> bool {
        !self.closed && self.pending.len() < self.capacity
    }

    /// The state after a request was accepted: it stands behind all others.
    pub open spec fn accepted(self, message: MessageView<R>) -> Self {
        QueueState { pending: self.pending.push(message), ..self }
    }

    /// The state after the worker took the oldest request.
    pub open spec fn taken(self) -> Self {
        QueueState { pending: self.pending.drop_first(), ..self }
    }

    /// The state after the requests were accepted one after the other.
    pub open spec fn accepted_all(self, messages: Seq<MessageView<R>>) -> Self
        decreases messages.len(),
    {
        if messages.len() == 0 {
            self
        } else {
            self.accepted_all(messages.drop_last()).accepted(messages.last())
        }
    }

    /// The state after the worker took the `n` oldest requests.
    pub open spec fn served(self, n: nat) -> Self
        decreases n,
    {
        if n == 0 {
            self
        } else {
            self.served((n - 1) as nat).taken()
        }
    }
}

/// The scores of a worker whose model gives each text the score `model` of
/// it: one for each text, in the order of the texts.
pub open spec fn classified(
    model: spec_fn(Seq<char>) -> PolarityScore,
    texts: Seq<Seq<char>>,
) -> Seq<PolarityScore> {
    texts.map_values(model)
}

/// What a caller that asked for `requested` texts makes of a reply.
pub open spec fn reply_outcome(requested: nat, reply: Option<Seq<PolarityScore>>) -> Result<
    Seq<PolarityScore>,
    ClassifierError,
> {
    match reply {
        None => Err(ClassifierError::Unavailable),
        Some(got) => if got.len() == requested {
            Ok(got)
        } else {
            Err(ClassifierError::LengthMismatch)
        },
    }
}

/// The scores of an optional reply.
pub open spec fn scores_of(reply: Option<Vec<PolarityScore>>) -> Option<Seq<PolarityScore>> {
    match reply {
        Some(got) => Some(got@),
        None => None,
    }
}

/// The bounded first-in, first-out queue between the callers and the worker.
#[derive(Debug)]
pub struct SentimentClassifier<R> {
    capacity: usize,
    pending: VecDeque<Message<R>>,
    closed: bool,
}

impl<R> View for SentimentClassifier<R> {
    type V = QueueState<R>;

    closed spec fn view(&self) -> QueueState<R> {
        QueueState {
            capacity: self.capacity as nat,
            pending: self.pending@.map_values(|message: Message<R>| message@),
            closed: self.closed,
        }
    }
}

impl<R> SentimentClassifier<R> {
    /// The state of the queue is well formed.
    #[verifier::type_invariant]
    pub open spec fn wf(&self) -> bool {
        self@.wf()
    }

    /// Creates the queue of a new worker: open, empty, with room for
    /// `QUEUE_CAPACITY` requests.
    pub fn spawn() -> (classifier: Self)
        ensures
            classifier@ == (QueueState::<R> {
                capacity: QUEUE_CAPACITY as nat,
                pending: Seq::empty(),
                closed: false,
            }),
    {
        let classifier = SentimentClassifier {
            capacity: QUEUE_CAPACITY,
            pending: VecDeque::new(),
            closed: false,
        };
        assert(classifier@.pending =~= Seq::<MessageView<R>>::empty());
        classifier
    }

    /// Number of accepted requests that the worker has not taken yet.
    pub fn len(&self) -> (n: usize)
        ensures
            n == self@.pending.len(),
    {
        self.pending.len()
    }

    /// Whether the queue was closed.
    pub fn is_closed(&self) -> (closed: bool)
        ensures
            closed == self@.closed,
    {
        self.closed
    }

    /// Submits the texts of a batch. The request is accepted when the queue
    /// is open and has room, and then stands behind all earlier requests.
    /// Otherwise the queue is unchanged and the request is handed back:
    /// with `Closed` when the queue was closed, else with `Full`.
    pub fn predict(&mut self, texts: Vec<String>, reply: R) -> (sent: Result<(), Rejected<R>>)
        ensures
            sent is Ok <==> old(self)@.has_room(),
            sent is Ok ==> final(self)@ == old(self)@.accepted(
                MessageView { texts: texts.deep_view(), reply: reply },
            ),
            sent matches Err(rejected) ==> {
                &&& final(self)@ == old(self)@
                &&& rejected.message.texts == texts
                &&& rejected.message.reply == reply
                &&& rejected.reason == if old(self)@.closed {
                    Rejection::Closed
                } else {
                    Rejection::Full
                }
            },
    {
        proof {
            use_type_invariant(&*self);
        }
        let message = Message { texts, reply };
        if self.closed {
            Err(Rejected { reason: Rejection::Closed, message })
        } else if self.pending.len() >= self.capacity {
            Err(Rejected { reason: Rejection::Full, message })
        } else {
            let mut pending: VecDeque<Message<R>> = VecDeque::new();
            std::mem::swap(&mut pending, &mut self.pending);
            pending.push_back(message);
            self.pending = pending;
            assert(self@.pending =~= old(self)@.pending.push(message@));
            Ok(())
        }
    }

    /// Closes the queue: no further request is accepted. The requests that
    /// were accepted before are still served.
    pub fn close(&mut self)
        ensures
            final(self)@ == (QueueState { closed: true, ..old(self)@ }),
    {
        proof {
            use_type_invariant(&*self);
        }
        self.closed = true;
    }

    /// Tells the worker what to do next, and takes the oldest request out of
    /// the queue if there is one. The worker stops only when the queue is
    /// closed and empty.
    pub fn next_request(&mut self) -> (step: WorkerStep<R>)
        ensures
            match step {
                WorkerStep::Classify(message) => {
                    &&& old(self)@.pending.len() > 0
                    &&& message@ == old(self)@.pending[0]
                    &&& final(self)@ == old(self)@.taken()
                },
                WorkerStep::Idle => {
                    &&& old(self)@.pending.len() == 0
                    &&& !old(self)@.closed
                    &&& final(self)@ == old(self)@
                },
                WorkerStep::Stop => {
                    &&& old(self)@.pending.len() == 0
                    &&& old(self)@.closed
                    &&& final(self)@ == old(self)@
                },
            },
    {
        proof {
            use_type_invariant(&*self);
        }
        let mut pending: VecDeque<Message<R>> = VecDeque::new();
        std::mem::swap(&mut pending, &mut self.pending);
        let oldest = pending.pop_front();
        self.pending = pending;
        match oldest {
            Some(message) => {
                assert(self@.pending =~= old(self)@.pending.drop_first());
                WorkerStep::Classify(message)
            },
            None => {
                assert(self@.pending =~= old(self)@.pending);
                if self.closed {
                    WorkerStep::Stop
                } else {
                    WorkerStep::Idle
                }
            },
        }
    }
}

/// What a caller makes of the outcome of a request for `requested` texts.
/// A reply with one score for each text is passed on as it came, so that
/// the score at each position belongs to the text at that position. No
/// reply means that the worker is gone; a reply of another length is
/// refused.
pub fn checked_reply(requested: usize, reply: Option<Vec<PolarityScore>>) -> (scores: Result<
    Vec<PolarityScore>,
    ClassifierError,
>)
    ensures
        match scores {
            Ok(passed) => reply_outcome(requested as nat, scores_of(reply)) == Ok::<
                Seq<PolarityScore>,
                ClassifierError,
            >(passed@),
            Err(error) => reply_outcome(requested as nat, scores_of(reply)) == Err::<
                Seq<PolarityScore>,
                ClassifierError,
            >(error),
        },
        scores is Ok <==> (reply matches Some(got) && got.len() == requested),
        scores matches Ok(passed) ==> reply == Some(passed) && passed.len() == requested,
        scores matches Err(error) ==> error == if reply is None {
            ClassifierError::Unavailable
        } else {
            ClassifierError::LengthMismatch
        },
{
    match reply {
        None => Err(ClassifierError::Unavailable),
        Some(got) => {
            if got.len() == requested {
                Ok(got)
            } else {
                Err(ClassifierError::LengthMismatch)
            }
        },
    }
}

/// Requests are served first in, first out: an accepted request stands
/// behind every earlier one and changes none of them, and the worker takes
/// the oldest and leaves the others in their order.
pub proof fn lemma_first_in_first_out<R>(queue: QueueState<R>, message: MessageView<R>)
    requires
        queue.wf(),
    ensures
        queue.accepted(message).pending.len() == queue.pending.len() + 1,
        queue.accepted(message).pending.last() == message,
        forall|i: int|
            0 <= i < queue.pending.len() ==> #[trigger] queue.accepted(message).pending[i]
                == queue.pending[i],
        forall|i: int|
            0 <= i < queue.pending.len() - 1 ==> #[trigger] queue.taken().pending[i]
                == queue.pending[i + 1],
        queue.pending.len() > 0 ==> queue.taken().accepted(message) == queue.accepted(
            message,
        ).taken(),
        queue.has_room() ==> queue.accepted(message).wf(),
        queue.pending.len() > 0 ==> queue.taken().wf(),
{
    if queue.pending.len() > 0 {
        assert(queue.taken().accepted(message).pending =~= queue.accepted(
            message,
        ).taken().pending);
    }
}

/// Serving the `n` oldest requests leaves the others in their order.
proof fn lemma_served<R>(queue: QueueState<R>, n: nat)
    requires
        n <= queue.pending.len(),
    ensures
        queue.served(n).pending == queue.pending.skip(n as int),
        queue.served(n).capacity == queue.capacity,
        queue.served(n).closed == queue.closed,
    decreases n,
{
    if n == 0 {
        assert(queue.pending.skip(0) =~= queue.pending);
    } else {
        lemma_served(queue, (n - 1) as nat);
        assert(queue.pending.skip(n - 1).drop_first() =~= queue.pending.skip(n as int));
    }
}

/// Requests accepted one after the other stand behind those that were
/// pending, in the order they came.
proof fn lemma_accepted_all<R>(queue: QueueState<R>, messages: Seq<MessageView<R>>)
    ensures
        queue.accepted_all(messages).pending == queue.pending + messages,
    decreases messages.len(),
{
    if messages.len() == 0 {
        assert(queue.pending + messages =~= queue.pending);
    } else {
        lemma_accepted_all(queue, messages.drop_last());
        assert((queue.pending + messages.drop_last()).push(messages.last()) =~= queue.pending
            + messages);
    }
}

/// A request meets its own reply, whatever else is asked of the worker.
/// Once the requests that were pending before it are served, the worker
/// takes this request, with its own texts and its own reply handle, however
/// many requests were accepted after it. When the worker's model gives each
/// text the score `model` of it, the scores sent to that handle are one for
/// each text, the score at each position is that of the text at that
/// position, and the caller receives exactly these scores.
pub proof fn lemma_request_meets_its_reply<R>(
    queue: QueueState<R>,
    message: MessageView<R>,
    later: Seq<MessageView<R>>,
    model: spec_fn(Seq<char>) -> PolarityScore,
)
    ensures
        ({
            let waiting = queue.accepted(message).accepted_all(later);
            let turn = waiting.served(queue.pending.len());
            let scores = classified(model, message.texts);
            &&& turn.pending.len() > 0
            &&& turn.pending[0] == message
            &&& turn.taken().pending == later
            &&& scores.len() == message.texts.len()
            &&& forall|i: int|
                0 <= i < message.texts.len() ==> #[trigger] scores[i] == model(message.texts[i])
            &&& reply_outcome(message.texts.len(), Some(scores)) == Ok::<
                Seq<PolarityScore>,
                ClassifierError,
            >(scores)
        }),
{
    let waiting = queue.accepted(message).accepted_all(later);
    lemma_accepted_all(queue.accepted(message), later);
    lemma_served(waiting, queue.pending.len());
    let turn = waiting.served(queue.pending.len());
    assert(turn.pending =~= seq![message] + later);
    assert(turn.taken().pending =~= later);
}

} // verus!
