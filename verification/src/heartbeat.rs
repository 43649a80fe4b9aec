//! Telling the daemon that a job is alive while it runs.
//!
//! A [`Beat`] decides when a ping is due and when a job is over. Whoever can wait
//! for the job and ping the daemon does so and hands back what came of it.

use vstd::prelude::*;

verus! {

/// What a beat needs next.
#[derive(Clone, Copy, Debug, PartialEq, Eq, Structural)]
pub enum BeatAction {
    /// Wait for the end of the job or of an interval, whichever comes first.
    Wait,
    /// Ping the daemon.
    Ping,
    /// Return what the job returned.
    Return,
    /// Fail as the ping failed.
    Fail,
}

/// What came of an action.
pub enum BeatEvent<T, E> {
    /// The job has returned this.
    Finished(Result<T, E>),
    /// The interval has elapsed.
    Elapsed,
    /// The daemon was pinged.
    Pinged,
    /// Pinging the daemon has failed.
    PingFailed(E),
}

enum Phase<T, E> {
    Waiting,
    Pinging,
    Returned(Result<T, E>),
    Failed(E),
}

/// The heartbeat of a job that returns a `T` or fails with an `E`.
pub struct Beat<T, E> {
    phase: Phase<T, E>,
}

/// A beat, as a mathematical value.
pub ghost enum BeatView<T, E> {
    /// The job runs.
    Waiting,
    /// A ping is due.
    Pinging,
    /// The job has returned this.
    Returned(Result<T, E>),
    /// A ping has failed.
    Failed(E),
}

impl<T, E> View for Beat<T, E> {
    type V = BeatView<T, E>;

    closed spec fn view(&self) -> BeatView<T, E> {
        match self.phase {
            Phase::Waiting => BeatView::Waiting,
            Phase::Pinging => BeatView::Pinging,
            Phase::Returned(result) => BeatView::Returned(result),
            Phase::Failed(err) => BeatView::Failed(err),
        }
    }
}

impl<T, E> BeatView<T, E> {
    /// What has to be done next.
    pub open spec fn action(self) -> BeatAction {
        match self {
            BeatView::Waiting => BeatAction::Wait,
            BeatView::Pinging => BeatAction::Ping,
            BeatView::Returned(_) => BeatAction::Return,
            BeatView::Failed(_) => BeatAction::Fail,
        }
    }

    /// Whether the job is over or given up.
    pub open spec fn has_ended(self) -> bool {
        self is Returned || self is Failed
    }

    /// Whether `event` can come of the action of this beat.
    pub open spec fn accepts(self, event: BeatEvent<T, E>) -> bool {
        match self {
            BeatView::Waiting => event is Finished || event is Elapsed,
            BeatView::Pinging => event is Pinged || event is PingFailed,
            _ => false,
        }
    }

    /// The beat after `event` came of its action.
    pub open spec fn step(self, event: BeatEvent<T, E>) -> BeatView<T, E> {
        match event {
            BeatEvent::Finished(result) => BeatView::Returned(result),
            BeatEvent::Elapsed => BeatView::Pinging,
            BeatEvent::Pinged => BeatView::Waiting,
            BeatEvent::PingFailed(err) => BeatView::Failed(err),
        }
    }

    /// What an ended beat hands on: what the job returned, or why a ping failed.
    pub open spec fn result(self) -> Result<T, E> {
        match self {
            BeatView::Returned(result) => result,
            BeatView::Failed(err) => Err(err),
            _ => arbitrary(),
        }
    }
}

impl<T, E> Beat<T, E> {
    /// The heartbeat of a job that has just begun.
    pub fn new() -> (beat: Beat<T, E>)
        ensures
            beat@ == BeatView::<T, E>::Waiting,
    {
        Beat { phase: Phase::Waiting }
    }

    /// What has to be done next.
    pub fn action(&self) -> (action: BeatAction)
        ensures
            action == self@.action(),
    {
        match &self.phase {
            Phase::Waiting => BeatAction::Wait,
            Phase::Pinging => BeatAction::Ping,
            Phase::Returned(_) => BeatAction::Return,
            Phase::Failed(_) => BeatAction::Fail,
        }
    }

    /// Goes on with what came of the last action.
    pub fn advance(&mut self, event: BeatEvent<T, E>)
        requires
            old(self)@.accepts(event),
        ensures
            final(self)@ == old(self)@.step(event),
    {
        self.phase = match event {
            BeatEvent::Finished(result) => Phase::Returned(result),
            BeatEvent::Elapsed => Phase::Pinging,
            BeatEvent::Pinged => Phase::Waiting,
            BeatEvent::PingFailed(err) => Phase::Failed(err),
        };
    }

    /// What the job returned or, if a ping failed, why; nothing as long as the job
    /// runs.
    pub fn into_result(self) -> (result: Option<Result<T, E>>)
        ensures
            result == if self@.has_ended() {
                Some(self@.result())
            } else {
                None
            },
    {
        match self.phase {
            Phase::Returned(result) => Some(result),
            Phase::Failed(err) => Some(Err(err)),
            _ => None,
        }
    }
}

/// Whether `log` can be what came of the actions of `beat`, one after the other.
pub open spec fn is_run<T, E>(beat: BeatView<T, E>, log: Seq<BeatEvent<T, E>>) -> bool
    decreases log.len(),
{
    log.len() > 0 ==> is_run(beat, log.drop_last()) && after_run(beat, log.drop_last()).accepts(
        log.last(),
    )
}

/// The beat after `log` came of its actions, one after the other.
pub open spec fn after_run<T, E>(
    beat: BeatView<T, E>,
    log: Seq<BeatEvent<T, E>>,
) -> BeatView<T, E>
    decreases log.len(),
{
    if log.len() == 0 {
        beat
    } else {
        after_run(beat, log.drop_last()).step(log.last())
    }
}

/// How many intervals have elapsed.
pub open spec fn intervals<T, E>(log: Seq<BeatEvent<T, E>>) -> nat
    decreases log.len(),
{
    if log.len() == 0 {
        0
    } else if log.last() is Elapsed {
        intervals(log.drop_last()) + 1
    } else {
        intervals(log.drop_last())
    }
}

/// How many pings were made, whether or not they reached the daemon.
pub open spec fn pings<T, E>(log: Seq<BeatEvent<T, E>>) -> nat
    decreases log.len(),
{
    if log.len() == 0 {
        0
    } else if log.last() is Pinged || log.last() is PingFailed {
        pings(log.drop_last()) + 1
    } else {
        pings(log.drop_last())
    }
}

/// There is one ping for every interval that has elapsed; only the last of them
/// may still be due.
pub proof fn law_one_ping_per_interval<T, E>(log: Seq<BeatEvent<T, E>>)
    requires
        is_run(BeatView::<T, E>::Waiting, log),
    ensures
        intervals(log) == pings(log) + if after_run(BeatView::<T, E>::Waiting, log) is Pinging {
            1
        } else {
            0int
        },
    decreases log.len(),
{
    if log.len() > 0 {
        law_one_ping_per_interval(log.drop_last());
    }
}

/// Only the last event of a run can end it: nothing, and no ping in particular,
/// follows the end of the job or a ping that failed.
pub proof fn law_nothing_follows_the_end<T, E>(log: Seq<BeatEvent<T, E>>, i: int)
    requires
        is_run(BeatView::<T, E>::Waiting, log),
        0 <= i < log.len(),
        log[i] is Finished || log[i] is PingFailed,
    ensures
        i == log.len() - 1,
        after_run(BeatView::<T, E>::Waiting, log).has_ended(),
        forall|event: BeatEvent<T, E>|
            !(#[trigger] after_run(BeatView::<T, E>::Waiting, log).accepts(event)),
    decreases log.len(),
{
    if i < log.len() - 1 {
        law_nothing_follows_the_end(log.drop_last(), i);
    }
}

/// A heartbeat returns if and only if the job has, with what it returned, and
/// fails if and only if a ping has, as the ping failed.
pub proof fn law_the_end_decides_the_result<T, E>(log: Seq<BeatEvent<T, E>>)
    requires
        is_run(BeatView::<T, E>::Waiting, log),
        log.len() > 0,
    ensures
        ({
            let end = after_run(BeatView::<T, E>::Waiting, log);
            &&& end.action() is Return <==> log.last() is Finished
            &&& end.action() is Fail <==> log.last() is PingFailed
            &&& log.last() matches BeatEvent::Finished(result) ==> end.result() == result
            &&& log.last() matches BeatEvent::PingFailed(err) ==> end.result() == Err::<T, E>(err)
        }),
{
}

/// What a heartbeat needs next follows from the last event alone: at first and
/// after a ping it waits, after an interval it pings, and then the job has returned
/// or a ping has failed.
pub proof fn law_last_event_decides_the_action<T, E>(log: Seq<BeatEvent<T, E>>)
    requires
        is_run(BeatView::<T, E>::Waiting, log),
    ensures
        ({
            let end = after_run(BeatView::<T, E>::Waiting, log);
            &&& end.action() == if log.len() == 0 {
                BeatAction::Wait
            } else {
                match log.last() {
                    BeatEvent::Finished(_) => BeatAction::Return,
                    BeatEvent::Elapsed => BeatAction::Ping,
                    BeatEvent::Pinged => BeatAction::Wait,
                    BeatEvent::PingFailed(_) => BeatAction::Fail,
                }
            }
            &&& end.has_ended() <==> log.len() > 0 && (log.last() is Finished
                || log.last() is PingFailed)
        }),
{
}

/// Every end of a wait or of a ping is taken, and nothing else.
pub proof fn law_events_answer_the_action<T, E>(beat: BeatView<T, E>, event: BeatEvent<T, E>)
    ensures
        beat.accepts(event) <==> match beat.action() {
            BeatAction::Wait => event is Finished || event is Elapsed,
            BeatAction::Ping => event is Pinged || event is PingFailed,
            _ => false,
        },
{
}

} // verus!
