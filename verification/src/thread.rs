//! The dispatch queue: tasks wait in the order in which they were handed in,
//! and one worker takes them out one at a time.
//!
//! The queue decides; whoever drives it owns the lock, sleeps for the pauses
//! it names and runs the tasks it hands out.

use vstd::prelude::*;

verus! {

/// The state of the dispatch: whether a worker runs, what waits for it, and
/// how long the worker pauses between two looks at the queue.
pub struct TaskQueue<T> {
    /// Whether a worker has been started. It is never stopped.
    pub running: bool,
    /// The waiting tasks, oldest first.
    pub pending: Vec<T>,
    /// The worker's pause, in milliseconds, after it found nothing to do.
    pub idle_cooldown: u64,
    /// The worker's pause, in milliseconds, after it ran a task.
    pub working_cooldown: u64,
    /// Whether the worker's last look at the queue gave it a task.
    pub was_working: bool,
}

impl<T> TaskQueue<T> {
    /// A queue without a worker: every task runs on its caller.
    pub fn new() -> (queue: TaskQueue<T>)
        ensures
            !queue.running,
            queue.pending@.len() == 0,
            !queue.was_working,
            queue.idle_cooldown == 0,
            queue.working_cooldown == 0,
    {
        TaskQueue {
            running: false,
            pending: Vec::new(),
            idle_cooldown: 0,
            working_cooldown: 0,
            was_working: false,
        }
    }

    /// The number of waiting tasks.
    pub fn len(&self) -> (count: usize)
        ensures
            count == self.pending@.len(),
    {
        self.pending.len()
    }
}

/// Starts the worker with its two pauses. Returns whether a worker has to
/// be spawned: only the first start asks for one.
pub fn start_log_thread<T>(
    queue: &mut TaskQueue<T>,
    idle_iteration_cooldown_in_milli: u64,
    working_iteration_cooldown_in_milli: u64,
) -> (spawn: bool)
    ensures
        spawn == !old(queue).running,
        final(queue).running,
        final(queue).pending == old(queue).pending,
        final(queue).was_working == old(queue).was_working,
        final(queue).idle_cooldown == idle_iteration_cooldown_in_milli,
        final(queue).working_cooldown == working_iteration_cooldown_in_milli,
{
    let spawn = !queue.running;
    queue.running = true;
    queue.idle_cooldown = idle_iteration_cooldown_in_milli;
    queue.working_cooldown = working_iteration_cooldown_in_milli;
    spawn
}

/// Hands a task in. With a worker running the task joins the end of the
/// queue and nothing comes back; without one the task comes back, to be run
/// by the caller at once.
pub fn launch_task<T>(queue: &mut TaskQueue<T>, task: T) -> (inline: Option<T>)
    ensures
        final(queue).running == old(queue).running,
        final(queue).idle_cooldown == old(queue).idle_cooldown,
        final(queue).working_cooldown == old(queue).working_cooldown,
        final(queue).was_working == old(queue).was_working,
        old(queue).running ==> inline is None && final(queue).pending@ == old(queue).pending@.push(
            task,
        ),
        !old(queue).running ==> inline == Some(task) && final(queue).pending@ == old(queue).pending@,
{
    if queue.running {
        queue.pending.push(task);
        None
    } else {
        Some(task)
    }
}

/// Whether a worker has been started.
pub fn log_thread_enabled<T>(queue: &TaskQueue<T>) -> (enabled: bool)
    ensures
        enabled == queue.running,
{
    queue.running
}

/// How long the worker sleeps before its next look at the queue: the
/// working pause after a task, the idle pause after an empty look.
pub fn worker_pause<T>(queue: &TaskQueue<T>) -> (millis: u64)
    ensures
        millis == if queue.was_working {
            queue.working_cooldown
        } else {
            queue.idle_cooldown
        },
{
    if queue.was_working {
        queue.working_cooldown
    } else {
        queue.idle_cooldown
    }
}

/// One look of the worker at the queue: takes out the oldest waiting task,
/// if there is one, and notes whether there was.
pub fn next_task<T>(queue: &mut TaskQueue<T>) -> (task: Option<T>)
    ensures
        final(queue).running == old(queue).running,
        final(queue).idle_cooldown == old(queue).idle_cooldown,
        final(queue).working_cooldown == old(queue).working_cooldown,
        final(queue).was_working == (old(queue).pending@.len() > 0),
        old(queue).pending@.len() == 0 ==> task is None && final(queue).pending@ == old(queue).pending@,
        old(queue).pending@.len() > 0 ==> task == Some(old(queue).pending@[0]) && final(queue).pending@ == old(queue).pending@.drop_first(),
{
    if queue.pending.len() > 0 {
        let task = queue.pending.remove(0);
        queue.was_working = true;
        assert(queue.pending@ =~= old(queue).pending@.drop_first());
        Some(task)
    } else {
        queue.was_working = false;
        None
    }
}

/// One poll of a flush: `None` when nothing is left to wait for, which is
/// when no worker runs or the queue is empty; otherwise the time to sleep
/// before the next poll.
pub fn flush_log_thread<T>(queue: &TaskQueue<T>, iteration_cooldown_in_milli: u64) -> (wait: Option<
    u64,
>)
    ensures
        wait is None <==> (!queue.running || queue.pending@.len() == 0),
        wait is Some ==> wait == Some(iteration_cooldown_in_milli),
{
    if queue.running && queue.pending.len() > 0 {
        Some(iteration_cooldown_in_milli)
    } else {
        None
    }
}

/// One step in the life of a running queue.
pub enum QueueEvent<T> {
    /// A task is handed in.
    Launch(T),
    /// The worker looks at the queue.
    Take,
}

/// The tasks that wait after the events `events` happened, in their order,
/// to a running queue in which `pending` waited.
pub open spec fn waiting_after<T>(pending: Seq<T>, events: Seq<QueueEvent<T>>) -> Seq<T>
    decreases events.len(),
{
    if events.len() == 0 {
        pending
    } else {
        let before = waiting_after(pending, events.drop_last());
        match events.last() {
            QueueEvent::Launch(task) => before.push(task),
            QueueEvent::Take => if before.len() > 0 {
                before.drop_first()
            } else {
                before
            },
        }
    }
}

/// The tasks that the worker took out during the events `events`, in the
/// order in which it took them.
pub open spec fn taken_during<T>(pending: Seq<T>, events: Seq<QueueEvent<T>>) -> Seq<T>
    decreases events.len(),
{
    if events.len() == 0 {
        Seq::empty()
    } else {
        let before = waiting_after(pending, events.drop_last());
        let taken = taken_during(pending, events.drop_last());
        match events.last() {
            QueueEvent::Launch(task) => taken,
            QueueEvent::Take => if before.len() > 0 {
                taken.push(before[0])
            } else {
                taken
            },
        }
    }
}

/// The tasks handed in during the events `events`, in their order.
pub open spec fn launched_during<T>(events: Seq<QueueEvent<T>>) -> Seq<T>
    decreases events.len(),
{
    if events.len() == 0 {
        Seq::empty()
    } else {
        match events.last() {
            QueueEvent::Launch(task) => launched_during(events.drop_last()).push(task),
            QueueEvent::Take => launched_during(events.drop_last()),
        }
    }
}

/// First in, first out: whatever the order of launches and takes, the tasks
/// taken so far followed by the tasks still waiting are the tasks that
/// waited at the start followed by the launched ones, in the order of their
/// launch. So no task overtakes one that was handed in before it.
pub proof fn lemma_queue_is_fifo<T>(pending: Seq<T>, events: Seq<QueueEvent<T>>)
    ensures
        taken_during(pending, events) + waiting_after(pending, events) == pending
            + launched_during(events),
    decreases events.len(),
{
    if events.len() == 0 {
        assert(taken_during(pending, events) + waiting_after(pending, events) =~= pending
            + launched_during(events));
    } else {
        lemma_queue_is_fifo(pending, events.drop_last());
        let before = waiting_after(pending, events.drop_last());
        let taken = taken_during(pending, events.drop_last());
        let launched = launched_during(events.drop_last());
        assert(taken + before == pending + launched);
        match events.last() {
            QueueEvent::Launch(task) => {
                assert(taken + before.push(task) =~= (taken + before).push(task));
                assert(pending + launched.push(task) =~= (pending + launched).push(task));
            },
            QueueEvent::Take => {
                if before.len() > 0 {
                    assert(taken.push(before[0]) + before.drop_first() =~= taken + before);
                }
            },
        }
    }
}

/// Two tasks handed in one after the other are taken out in that order: the
/// task at an earlier place among the launched ones stands at an earlier
/// place among those taken and those still waiting.
pub proof fn lemma_launch_order_is_kept<T>(
    pending: Seq<T>,
    events: Seq<QueueEvent<T>>,
    earlier: int,
    later: int,
)
    requires
        0 <= earlier < later < launched_during(events).len(),
    ensures
        (taken_during(pending, events) + waiting_after(pending, events))[pending.len() + earlier]
            == launched_during(events)[earlier],
        (taken_during(pending, events) + waiting_after(pending, events))[pending.len() + later]
            == launched_during(events)[later],
{
    lemma_queue_is_fifo(pending, events);
}

/// Whether nothing is handed in during the events: each is a look of the
/// worker.
pub open spec fn only_takes<T>(events: Seq<QueueEvent<T>>) -> bool {
    forall|i: int| 0 <= i < events.len() ==> #[trigger] events[i] is Take
}

/// While nothing is handed in, each look of the worker takes one task out,
/// so after as many looks as tasks waited the queue is empty, a flush finds
/// nothing left to wait for, and the tasks taken are all that waited, in
/// their order.
pub proof fn lemma_takes_drain_queue<T>(pending: Seq<T>, events: Seq<QueueEvent<T>>)
    requires
        only_takes(events),
    ensures
        waiting_after(pending, events).len() == if events.len() >= pending.len() {
            0
        } else {
            pending.len() - events.len()
        },
        taken_during(pending, events) + waiting_after(pending, events) == pending,
        events.len() >= pending.len() ==> taken_during(pending, events) == pending,
    decreases events.len(),
{
    if events.len() == 0 {
        assert(taken_during(pending, events) + waiting_after(pending, events) =~= pending);
    } else {
        let earlier = events.drop_last();
        assert(events.last() is Take);
        assert forall|i: int| 0 <= i < earlier.len() implies #[trigger] earlier[i] is Take by {
            assert(earlier[i] == events[i]);
        }
        lemma_takes_drain_queue(pending, earlier);
        let before = waiting_after(pending, earlier);
        let taken = taken_during(pending, earlier);
        if before.len() > 0 {
            assert(taken.push(before[0]) + before.drop_first() =~= taken + before);
        }
    }
    if events.len() >= pending.len() {
        assert(taken_during(pending, events) =~= taken_during(pending, events) + waiting_after(
            pending,
            events,
        ));
    }
}

} // verus!
