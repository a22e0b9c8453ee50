//! Who may take the global interpreter lock, and who waits for it.
use vstd::prelude::*;

verus! {

/// How many times the current thread holds the global interpreter lock.
pub struct ThreadGilCount {
    count: usize,
}

impl View for ThreadGilCount {
    type V = usize;

    closed spec fn view(&self) -> usize {
        self.count
    }
}

impl ThreadGilCount {
    /// The count of a thread that does not hold the lock.
    pub fn new() -> (count: Self)
        ensures
            count@ == 0,
    {
        ThreadGilCount { count: 0 }
    }
}

/// Whether the thread with this count holds the lock.
pub fn is_gil_acquired_in_this_thread(count: &ThreadGilCount) -> (acquired: bool)
    ensures
        acquired == (count@ > 0),
{
    count.count > 0
}

/// A count after the lock was taken: it stops at its largest value.
pub open spec fn one_more(count: int) -> int {
    if count < usize::MAX {
        count + 1
    } else {
        count
    }
}

/// A count after the lock was given back: it stops at zero.
pub open spec fn one_less(count: int) -> int {
    if count > 0 {
        count - 1
    } else {
        0
    }
}

/// A mark that the current thread holds the lock once more.
pub struct GILLocalCounter;

impl GILLocalCounter {
    /// Counts the lock as taken once more.
    pub fn new(count: &mut ThreadGilCount) -> (counter: Self)
        ensures
            final(count)@ == one_more(old(count)@ as int),
    {
        count.count = count.count.saturating_add(1);
        GILLocalCounter
    }

    /// Counts the lock as given back once.
    pub fn drop(self, count: &mut ThreadGilCount)
        ensures
            final(count)@ == one_less(old(count)@ as int),
    {
        count.count = count.count.saturating_sub(1);
    }
}

/// Taking the lock and giving it back leaves the count as it was, unless the count
/// was at its largest value.
pub proof fn give_back_undoes_take(count: int)
    requires
        0 <= count < usize::MAX,
    ensures
        one_less(one_more(count)) == count,
        one_more(count) > 0,
{
}

/// A task that wants to run with the lock. `L` is the handle by which it listens for
/// the lock being released.
pub struct GILFuture<L> {
    listener: Option<L>,
}

impl<L> View for GILFuture<L> {
    type V = Option<L>;

    closed spec fn view(&self) -> Option<L> {
        self.listener
    }
}

/// What a task does next to run with the lock.
pub enum GilStep<L> {
    /// Run: the thread holds the lock already.
    Run,
    /// Try to take the lock; the listener is what the task was waiting with.
    TryLock(Option<L>),
}

/// What a task does after it tried to take the lock.
pub enum LockStep<L> {
    /// Run, release the lock, wake one waiting task if `notify`, and let go of the
    /// listener, which wakes the next one.
    RunAndRelease { notify: bool, listener: Option<L> },
    /// Start to listen.
    Listen,
    /// Poll this listener.
    Poll(L),
}

/// What a task does after it polled its listener.
pub enum PollStep {
    /// Begin again.
    Again,
    /// Wait to be woken.
    Pending,
}

/// What a task does next that waits with `listener`.
pub open spec fn gil_step<L>(listener: Option<L>, acquired: bool) -> GilStep<L> {
    if acquired {
        GilStep::Run
    } else {
        GilStep::TryLock(listener)
    }
}

/// What a task does after it tried to take the lock.
pub open spec fn lock_step<L>(listener: Option<L>, taken: bool) -> LockStep<L> {
    if taken {
        LockStep::RunAndRelease { notify: listener is None, listener }
    } else {
        match listener {
            None => LockStep::Listen,
            Some(l) => LockStep::Poll(l),
        }
    }
}

/// What a task does after it polled its listener.
pub open spec fn poll_step(ready: bool) -> PollStep {
    if ready {
        PollStep::Again
    } else {
        PollStep::Pending
    }
}

impl<L> GILFuture<L> {
    /// A task that does not listen yet.
    pub fn new() -> (future: Self)
        ensures
            future@ is None,
    {
        GILFuture { listener: None }
    }

    /// Begins an attempt. A thread that holds the lock runs at once; every other task
    /// takes its listener along to the attempt.
    pub fn poll_gil(&mut self, acquired: bool) -> (step: GilStep<L>)
        ensures
            step == gil_step(old(self)@, acquired),
            final(self)@ == (if acquired {
                old(self)@
            } else {
                None
            }),
    {
        if acquired {
            GilStep::Run
        } else {
            GilStep::TryLock(self.listener.take())
        }
    }

    /// Whether the lock was taken, from whether it was held before.
    pub fn try_lock(held_before: bool) -> (taken: bool)
        ensures
            taken == !held_before,
    {
        !held_before
    }

    /// Goes on after an attempt to take the lock. A task that was not woken by a
    /// listener has to wake one waiting task itself; one that was does so by letting
    /// its listener go.
    pub fn on_lock(listener: Option<L>, taken: bool) -> (step: LockStep<L>)
        ensures
            step == lock_step(listener, taken),
    {
        if taken {
            let notify = listener.is_none();
            return LockStep::RunAndRelease { notify, listener };
        }
        match listener {
            None => LockStep::Listen,
            Some(l) => LockStep::Poll(l),
        }
    }

    /// Goes on after the listener was polled: a task that has to wait keeps it.
    pub fn on_poll(&mut self, listener: L, ready: bool) -> (step: PollStep)
        ensures
            step == poll_step(ready),
            final(self)@ == (if ready {
                old(self)@
            } else {
                Some(listener)
            }),
    {
        if ready {
            PollStep::Again
        } else {
            self.listener = Some(listener);
            PollStep::Pending
        }
    }
}

/// What a task meets in one attempt to take the lock.
pub struct Round<L> {
    /// Whether the lock was held when the task tried to take it.
    pub held_before: bool,
    /// The listener that the task gets if it starts to listen.
    pub listener: L,
    /// Whether the listener is ready when it is polled.
    pub ready: bool,
}

/// What one poll of a task has come to.
pub struct Progress<L, R> {
    /// How often the task has run.
    pub runs: int,
    /// How often the thread holds the lock.
    pub count: int,
    /// Whether the lock was held when the task came upon it last.
    pub found: bool,
    /// Whether the lock is held after what the task did about it.
    pub left: bool,
    /// What the task waits with.
    pub listener: Option<L>,
    /// Whether a waiting task was woken, by notice or by letting a listener go.
    pub woken: bool,
    /// The end of the poll, if it has come: the result of the run, or a wait.
    pub end: Option<GilPoll<R>>,
}

/// How a poll ends.
pub enum GilPoll<R> {
    Ready(R),
    Pending,
}

/// A poll after the task has run, which counts the lock as taken once more and as
/// given back. `left` is whether the lock is held afterwards.
pub open spec fn after_run<L, R>(progress: Progress<L, R>, left: bool, result: R) -> Progress<
    L,
    R,
> {
    Progress {
        runs: progress.runs + 1,
        count: one_less(one_more(progress.count)),
        left,
        end: Some(GilPoll::Ready(result)),
        ..progress
    }
}

/// A poll after one round of it, in which a run gives `result`. The attempt to take the
/// lock leaves it held; a task that has run releases it.
pub open spec fn after_round<L, R>(
    progress: Progress<L, R>,
    round: Round<L>,
    result: R,
) -> Progress<L, R> {
    if progress.end is Some {
        progress
    } else {
        match gil_step(progress.listener, progress.count > 0) {
            GilStep::Run => after_run(progress, progress.left, result),
            GilStep::TryLock(listener) => {
                let tried = Progress {
                    found: round.held_before,
                    left: true,
                    listener: None,
                    ..progress
                };
                match lock_step(listener, !round.held_before) {
                    LockStep::RunAndRelease { notify, listener: kept } => after_run(
                        Progress { woken: notify || kept is Some, ..tried },
                        false,
                        result,
                    ),
                    LockStep::Listen => after_listening(tried, round.listener, round.ready),
                    LockStep::Poll(l) => after_listening(tried, l, round.ready),
                }
            },
        }
    }
}

/// A poll after the listener was polled.
pub open spec fn after_listening<L, R>(
    progress: Progress<L, R>,
    listener: L,
    ready: bool,
) -> Progress<L, R> {
    match poll_step(ready) {
        PollStep::Again => progress,
        PollStep::Pending => Progress {
            listener: Some(listener),
            end: Some(GilPoll::Pending),
            ..progress
        },
    }
}

/// A poll after these rounds, by a task that waits with `listener`, on a thread that
/// holds the lock `count` times; `held` is whether anyone holds it at the beginning.
pub open spec fn after_rounds<L, R>(
    count: int,
    held: bool,
    listener: Option<L>,
    rounds: Seq<Round<L>>,
    result: R,
) -> Progress<L, R>
    decreases rounds.len(),
{
    if rounds.len() == 0 {
        Progress { runs: 0, count, found: held, left: held, listener, woken: false, end: None }
    } else {
        after_round(
            after_rounds(count, held, listener, rounds.drop_last(), result),
            rounds.last(),
            result,
        )
    }
}

/// A poll that is ready has run the task exactly once, with the result of that run. A
/// poll that is pending has not run it, has found the lock held by another, and leaves
/// the task listening. Either way, and in between, the count of the thread is as it was,
/// and the lock as the task found it.
pub proof fn poll_runs_once_or_waits<L, R>(
    count: int,
    held: bool,
    listener: Option<L>,
    rounds: Seq<Round<L>>,
    result: R,
)
    requires
        0 <= count < usize::MAX,
    ensures
        ({
            let progress = after_rounds(count, held, listener, rounds, result);
            &&& progress.count == count
            &&& progress.left == progress.found
            &&& match progress.end {
                Some(GilPoll::Ready(r)) => progress.runs == 1 && r == result && (count == 0
                    ==> progress.woken && !progress.found),
                Some(GilPoll::Pending) => progress.runs == 0 && count == 0 && progress.found
                    && progress.listener is Some,
                None => progress.runs == 0,
            }
        }),
    decreases rounds.len(),
{
    if rounds.len() > 0 {
        poll_runs_once_or_waits(count, held, listener, rounds.drop_last(), result);
    }
}

/// A thread that holds the lock already runs the task at once and does not touch the
/// lock; any other task runs as soon as it comes upon the lock free.
pub proof fn poll_runs_when_it_can<L, R>(
    count: int,
    held: bool,
    listener: Option<L>,
    rounds: Seq<Round<L>>,
    result: R,
)
    requires
        0 <= count < usize::MAX,
        rounds.len() > 0,
        after_rounds(count, held, listener, rounds.drop_last(), result).end is None,
    ensures
        ({
            let progress = after_rounds(count, held, listener, rounds, result);
            &&& progress.end == Some(GilPoll::Ready(result)) <==> (count > 0
                || !rounds.last().held_before)
            &&& count > 0 ==> rounds.len() == 1 && progress.left == held && progress.listener
                == listener
        }),
    decreases rounds.len(),
{
    let front = rounds.drop_last();
    poll_runs_once_or_waits(count, held, listener, front, result);
    if front.len() > 0 {
        let before = after_rounds(count, held, listener, front.drop_last(), result);
        poll_runs_once_or_waits(count, held, listener, front.drop_last(), result);
        assert(before.end is None);
        if count > 0 {
            assert(after_round(before, front.last(), result).end is Some);
        }
    }
}

/// Each time the lock is taken the count grows by one, and each time it is given back it
/// shrinks by one; it does not fall below zero.
pub proof fn count_is_how_often_the_lock_is_held(count: int)
    requires
        0 <= count < usize::MAX,
    ensures
        one_more(count) == count + 1,
        one_less(count + 1) == count,
        one_less(0) == 0,
{
}

/// A thread that holds the lock runs at once, and every other task tries to take the lock
/// with the listener that it has. A task that takes the lock wakes another one itself
/// exactly where it has no listener to let go. One that does not take it polls the
/// listener that it has, or starts to listen where it has none, and waits until the
/// listener is ready.
pub proof fn listener_is_carried_along<L>(listener: Option<L>, flag: bool)
    ensures
        gil_step(listener, true) is Run,
        gil_step(listener, false) == GilStep::TryLock(listener),
        lock_step(listener, true) == (LockStep::RunAndRelease {
            notify: !(listener is Some),
            listener,
        }),
        listener matches Some(l) ==> lock_step(listener, false) == LockStep::Poll(l),
        listener is None ==> lock_step(listener, false) is Listen,
        flag ==> poll_step(flag) is Again,
        !flag ==> poll_step(flag) is Pending,
{
}

}
