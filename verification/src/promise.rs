//! A value that a background task delivers, as the views track it: the
//! view starts a task, polls it each frame, takes the value once it is
//! ready and marks it handled. The task itself runs outside; each poll
//! hands its state in.

use vstd::prelude::*;

verus! {

/// The state of a background task when it is polled.
pub enum PollState<T> {
    /// Still running.
    Updating,
    /// Finished with a value.
    Success(T),
    /// Finished with an error, given as its message.
    Error(String),
    /// Holds nothing.
    Empty,
}

/// What a tracked value stands for: whether a task is awaited, the value
/// it delivered, the error it ended with, and whether the value was taken.
pub struct PromiseState<T> {
    pub waiting: bool,
    pub value: Option<T>,
    pub error: Option<Seq<char>>,
    pub handled: bool,
}

/// A value delivered by a background task.
pub struct PromisedValue<T> {
    waiting: bool,
    pub value: Option<T>,
    error: Option<String>,
    handled: bool,
}

impl<T> View for PromisedValue<T> {
    type V = PromiseState<T>;

    closed spec fn view(&self) -> PromiseState<T> {
        PromiseState {
            waiting: self.waiting,
            value: self.value,
            error: match self.error {
                Some(e) => Some(e@),
                None => None,
            },
            handled: self.handled,
        }
    }
}

/// Nothing awaited, no value, no error.
pub open spec fn idle_state<T>() -> PromiseState<T> {
    PromiseState { waiting: false, value: None, error: None, handled: false }
}

/// A new task was started: it is awaited, and what the last one left is
/// dropped.
pub open spec fn after_set<T>(s: PromiseState<T>) -> PromiseState<T> {
    PromiseState { waiting: true, value: None, error: None, handled: false }
}

/// A poll: with a task awaited, a finished task leaves its value or its
/// error and is no longer awaited; otherwise nothing changes.
pub open spec fn after_poll<T>(s: PromiseState<T>, p: PollState<T>) -> PromiseState<T> {
    if !s.waiting {
        s
    } else {
        match p {
            PollState::Success(v) => PromiseState { waiting: false, value: Some(v), ..s },
            PollState::Error(e) => PromiseState { waiting: false, error: Some(e@), ..s },
            _ => s,
        }
    }
}

/// The value was taken.
pub open spec fn after_handle<T>(s: PromiseState<T>) -> PromiseState<T> {
    PromiseState { handled: true, ..s }
}

/// A task is awaited and has delivered nothing yet.
pub open spec fn polling<T>(s: PromiseState<T>) -> bool {
    s.waiting && s.value is None
}

/// A value arrived and was not taken yet.
pub open spec fn ready<T>(s: PromiseState<T>) -> bool {
    !s.waiting && s.value is Some && !s.handled
}

impl<T> PromisedValue<T> {
    /// Nothing awaited yet.
    pub fn new() -> (r: Self)
        ensures
            r@ == idle_state::<T>(),
    {
        PromisedValue { waiting: false, value: None, error: None, handled: false }
    }

    /// Takes in the state of the awaited task.
    pub fn poll(&mut self, state: PollState<T>)
        ensures
            final(self)@ == after_poll(old(self)@, state),
    {
        if !self.waiting {
            return;
        }
        match state {
            PollState::Success(v) => {
                self.value = Some(v);
                self.waiting = false;
            },
            PollState::Error(e) => {
                self.error = Some(e);
                self.waiting = false;
            },
            _ => {},
        }
    }

    /// Polls, then takes out the error the task ended with, if any, as a
    /// record of `context` and the message.
    pub fn poll_recording(&mut self, state: PollState<T>, context: &str) -> (r: Option<(String, String)>)
        ensures
            final(self)@ == (PromiseState { error: None, ..after_poll(old(self)@, state) }),
            match after_poll(old(self)@, state).error {
                Some(e) => r matches Some(rec) && rec.0@ == context@ && rec.1@ == e,
                None => r is None,
            },
    {
        self.poll(state);
        match self.error.take() {
            Some(e) => Some((context.to_string(), e)),
            None => None,
        }
    }

    /// A new task was started.
    pub fn set(&mut self)
        ensures
            final(self)@ == after_set(old(self)@),
    {
        self.waiting = true;
        self.value = None;
        self.error = None;
        self.handled = false;
    }

    pub fn is_polling(&self) -> (r: bool)
        ensures
            r == polling(self@),
    {
        self.waiting && self.value.is_none()
    }

    pub fn is_ready(&self) -> (r: bool)
        ensures
            r == ready(self@),
    {
        !self.waiting && self.value.is_some() && !self.handled
    }

    /// The value the task delivered, if any.
    pub fn get(&self) -> (r: &Option<T>)
        ensures
            *r == self@.value,
    {
        &self.value
    }

    /// Replaces the value delivered.
    pub fn set_value(&mut self, v: T)
        ensures
            final(self)@ == (PromiseState { value: Some(v), ..old(self)@ }),
    {
        self.value = Some(v);
    }

    /// Marks the value as taken.
    pub fn handle(&mut self)
        ensures
            final(self)@ == after_handle(old(self)@),
    {
        self.handled = true;
    }
}

impl<T> Default for PromisedValue<T> {
    fn default() -> (r: Self)
        ensures
            r@ == idle_state::<T>(),
    {
        PromisedValue::new()
    }
}

/// Once a task is started it is being polled and nothing is ready.
pub proof fn lemma_set_starts_polling<T>(s: PromiseState<T>)
    ensures
        polling(after_set(s)),
        !ready(after_set(s)),
        after_set(s).error is None,
{
}

/// A task that succeeds after being started leaves its value ready, until
/// it is handled; handling keeps the value.
pub proof fn lemma_success_is_ready_until_handled<T>(s: PromiseState<T>, v: T)
    ensures
        ready(after_poll(after_set(s), PollState::Success(v))),
        after_poll(after_set(s), PollState::Success(v)).value == Some(v),
        !ready(after_handle(after_poll(after_set(s), PollState::Success(v)))),
        after_handle(after_poll(after_set(s), PollState::Success(v))).value == Some(v),
{
}

/// A task that fails after being started leaves its error and no value:
/// it is neither polling nor ready.
pub proof fn lemma_error_is_not_ready<T>(s: PromiseState<T>, e: String)
    ensures
        after_poll(after_set(s), PollState::Error(e)).error == Some(e@),
        !polling(after_poll(after_set(s), PollState::Error(e))),
        !ready(after_poll(after_set(s), PollState::Error(e))),
{
}

/// With no task awaited, polling changes nothing, whatever it reports.
pub proof fn lemma_idle_poll_unchanged<T>(s: PromiseState<T>, p: PollState<T>)
    requires
        !s.waiting,
    ensures
        after_poll(s, p) == s,
{
}

/// A task still running leaves the state as it was.
pub proof fn lemma_updating_unchanged<T>(s: PromiseState<T>)
    ensures
        after_poll(s, PollState::Updating) == s,
        after_poll(s, PollState::Empty) == s,
{
}

/// A poll that reports no outcome: the task is still running, or holds nothing.
pub open spec fn pending<T>(p: PollState<T>) -> bool {
    p is Updating || p is Empty
}

/// The state after a sequence of polls, in order.
pub open spec fn after_polls<T>(s: PromiseState<T>, ps: Seq<PollState<T>>) -> PromiseState<T>
    decreases ps.len(),
{
    if ps.len() == 0 {
        s
    } else {
        after_poll(after_polls(s, ps.drop_last()), ps.last())
    }
}

proof fn lemma_polls_concat<T>(s: PromiseState<T>, a: Seq<PollState<T>>, b: Seq<PollState<T>>)
    ensures
        after_polls(s, a + b) == after_polls(after_polls(s, a), b),
    decreases b.len(),
{
    if b.len() == 0 {
        assert(a + b =~= a);
    } else {
        lemma_polls_concat(s, a, b.drop_last());
        assert((a + b).drop_last() =~= a + b.drop_last());
        assert((a + b).last() == b.last());
    }
}

proof fn lemma_pending_polls<T>(s: PromiseState<T>, ps: Seq<PollState<T>>)
    requires
        forall|i: int| 0 <= i < ps.len() ==> pending(#[trigger] ps[i]),
    ensures
        after_polls(s, ps) == s,
    decreases ps.len(),
{
    if ps.len() > 0 {
        lemma_pending_polls(s, ps.drop_last());
        assert(pending(ps[ps.len() - 1]));
    }
}

proof fn lemma_idle_polls<T>(s: PromiseState<T>, ps: Seq<PollState<T>>)
    requires
        !s.waiting,
    ensures
        after_polls(s, ps) == s,
    decreases ps.len(),
{
    if ps.len() > 0 {
        lemma_idle_polls(s, ps.drop_last());
    }
}

/// The life of a task, over any number of polls: once it is started it is
/// polling with nothing ready for as long as the polls report no outcome.
/// At the first poll that reports success its value arrives and is ready,
/// and stays ready, whatever later polls report, until it is handled; at
/// the first poll that reports an error the error is kept, there is no
/// value, and the task is neither polling nor ready, whatever later polls
/// report.
pub proof fn lemma_task_lifecycle<T>(
    s: PromiseState<T>,
    before: Seq<PollState<T>>,
    outcome: PollState<T>,
    after: Seq<PollState<T>>,
)
    requires
        forall|i: int| 0 <= i < before.len() ==> pending(#[trigger] before[i]),
    ensures
        polling(after_polls(after_set(s), before)),
        !ready(after_polls(after_set(s), before)),
        after_polls(after_set(s), before).value is None,
        match outcome {
            PollState::Success(v) => {
                let done = after_polls(after_set(s), before.push(outcome) + after);
                &&& done.value == Some(v)
                &&& ready(done)
                &&& !polling(done)
                &&& done == after_polls(after_set(s), before.push(outcome))
                &&& !ready(after_handle(done))
                &&& after_handle(done).value == Some(v)
            },
            PollState::Error(e) => {
                let done = after_polls(after_set(s), before.push(outcome) + after);
                &&& done.value is None
                &&& done.error == Some(e@)
                &&& !polling(done)
                &&& !ready(done)
                &&& done == after_polls(after_set(s), before.push(outcome))
            },
            _ => after_polls(after_set(s), before.push(outcome)) == after_set(s),
        },
{
    let s0 = after_set(s);
    lemma_pending_polls(s0, before);
    let mid = after_polls(s0, before.push(outcome));
    assert(before.push(outcome).drop_last() =~= before);
    assert(mid == after_poll(s0, outcome));
    lemma_polls_concat(s0, before.push(outcome), after);
    match outcome {
        PollState::Success(_) => lemma_idle_polls(mid, after),
        PollState::Error(_) => lemma_idle_polls(mid, after),
        _ => {},
    }
}

} // verus!
