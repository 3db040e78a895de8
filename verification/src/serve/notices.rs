use crate::serve::format::{dim, plain, seconds_text, yellow};
use crate::text::{decimal, joined};
use vstd::prelude::*;

verus! {

/// A task that ended while nobody was asking for it.
pub struct EventText {
    pub task_id: Seq<char>,
    pub exit_code: i32,
    /// The time it ran, in tenths of a second.
    pub elapsed_tenths: u64,
}

/// The line that tells the caller of a task that ended in the background.
pub open spec fn notify_line(e: EventText) -> Seq<char> {
    if e.exit_code == 0 {
        dim() + "[notify]"@ + plain() + " task '"@ + e.task_id + "' completed (exit=0, "@
            + seconds_text(e.elapsed_tenths as int)
            + "s) \u{2014} use zsh_poll to retrieve output"@
    } else {
        yellow() + "[notify]"@ + plain() + " task '"@ + e.task_id + "' failed (exit="@ + decimal(
            e.exit_code as int,
        ) + ", "@ + seconds_text(e.elapsed_tenths as int)
            + "s) \u{2014} use zsh_poll to retrieve output"@
    }
}

pub open spec fn notify_lines(events: Seq<EventText>) -> Seq<Seq<char>> {
    Seq::new(events.len(), |i: int| notify_line(events[i]))
}

/// The lines for all waiting events, in the order in which the tasks ended.
pub open spec fn notify_text(events: Seq<EventText>) -> Seq<char> {
    joined(notify_lines(events), "\n"@)
}

/// A response with the waiting notifications before it.
pub open spec fn with_notices(events: Seq<EventText>, response: Seq<char>) -> Seq<char> {
    if notify_text(events).len() == 0 {
        response
    } else {
        notify_text(events) + "\n\n"@ + response
    }
}

/// The events without those of the task `id`.
pub open spec fn without_task(events: Seq<EventText>, id: Seq<char>) -> Seq<EventText>
    decreases events.len(),
{
    if events.len() == 0 {
        Seq::empty()
    } else if events.last().task_id == id {
        without_task(events.drop_last(), id)
    } else {
        without_task(events.drop_last(), id).push(events.last())
    }
}

/// How many of the events are of the task `id`.
pub open spec fn count_for(events: Seq<EventText>, id: Seq<char>) -> nat
    decreases events.len(),
{
    if events.len() == 0 {
        0
    } else if events.last().task_id == id {
        1 + count_for(events.drop_last(), id)
    } else {
        count_for(events.drop_last(), id)
    }
}

pub proof fn lemma_without_task_counts(events: Seq<EventText>, id: Seq<char>, other: Seq<char>)
    ensures
        count_for(without_task(events, id), id) == 0,
        other != id ==> count_for(without_task(events, id), other) == count_for(events, other),
    decreases events.len(),
{
    if events.len() > 0 {
        lemma_without_task_counts(events.drop_last(), id, other);
        if events.last().task_id != id {
            let kept = without_task(events.drop_last(), id).push(events.last());
            assert(kept.drop_last() =~= without_task(events.drop_last(), id));
        }
    }
}

pub proof fn lemma_count_push(events: Seq<EventText>, e: EventText, id: Seq<char>)
    ensures
        count_for(events.push(e), id) == count_for(events, id) + if e.task_id == id {
            1nat
        } else {
            0nat
        },
{
    assert(events.push(e).drop_last() =~= events);
}

/// What the server keeps of its tasks for the sake of notifications:
/// which tasks are running, and which events wait to be told.
pub struct Board {
    pub running: Set<Seq<char>>,
    pub queue: Seq<EventText>,
}

/// What can happen to the board.
pub enum Op {
    /// A sweep found that a task has ended.
    Finish(EventText),
    /// The caller polled the task; `exited` says whether it had ended.
    Poll { id: Seq<char>, exited: bool },
    /// The caller killed the task.
    Kill { id: Seq<char> },
    /// A response was sent, with the waiting notifications before it.
    Respond,
}

impl Board {
    /// No event waits for a running task, and at most one for any task.
    pub open spec fn wf(self) -> bool {
        forall|id: Seq<char>| #[trigger]
            count_for(self.queue, id) <= 1 && (self.running.contains(id) ==> count_for(
                self.queue,
                id,
            ) == 0)
    }

    /// The board after `op`.
    pub open spec fn step(self, op: Op) -> Board {
        match op {
            Op::Finish(e) => if self.running.contains(e.task_id) {
                Board { running: self.running.remove(e.task_id), queue: self.queue.push(e) }
            } else {
                self
            },
            Op::Poll { id, exited } => if self.running.contains(id) {
                if exited {
                    Board {
                        running: self.running.remove(id),
                        queue: without_task(self.queue, id),
                    }
                } else {
                    self
                }
            } else {
                Board { queue: without_task(self.queue, id), ..self }
            },
            Op::Kill { id } => Board { running: self.running.remove(id), ..self },
            Op::Respond => Board { queue: Seq::empty(), ..self },
        }
    }

    /// How many notifications of the task `id` the step `op` sends.
    pub open spec fn told(self, op: Op, id: Seq<char>) -> nat {
        match op {
            Op::Respond => count_for(self.queue, id),
            _ => 0,
        }
    }

    /// The board after all of `ops`.
    pub open spec fn run(self, ops: Seq<Op>) -> Board
        decreases ops.len(),
    {
        if ops.len() == 0 {
            self
        } else {
            self.step(ops[0]).run(ops.drop_first())
        }
    }

    /// How many notifications of the task `id` are sent during `ops`.
    pub open spec fn told_during(self, ops: Seq<Op>, id: Seq<char>) -> nat
        decreases ops.len(),
    {
        if ops.len() == 0 {
            0
        } else {
            self.told(ops[0], id) + self.step(ops[0]).told_during(ops.drop_first(), id)
        }
    }

    /// How many notifications of the task `id` can still be sent.
    pub open spec fn owed(self, id: Seq<char>) -> nat {
        count_for(self.queue, id) + if self.running.contains(id) {
            1nat
        } else {
            0nat
        }
    }
}

/// Every step keeps the board well formed.
pub proof fn lemma_step_keeps_wf(b: Board, op: Op)
    requires
        b.wf(),
    ensures
        b.step(op).wf(),
{
    let after = b.step(op);
    assert forall|id: Seq<char>| #[trigger]
        count_for(after.queue, id) <= 1 && (after.running.contains(id) ==> count_for(
            after.queue,
            id,
        ) == 0) by {
        assert(count_for(b.queue, id) <= 1);
        match op {
            Op::Finish(e) => {
                lemma_count_push(b.queue, e, id);
                assert(count_for(b.queue, e.task_id) <= 1);
            },
            Op::Poll { id: polled, exited } => {
                lemma_without_task_counts(b.queue, polled, id);
            },
            Op::Kill { id: killed } => {},
            Op::Respond => {},
        }
    }
}

/// A step sends no more notifications of a task than are owed, and what
/// is owed afterwards is less by what was sent.
pub proof fn lemma_step_pays(b: Board, op: Op, id: Seq<char>)
    requires
        b.wf(),
    ensures
        b.told(op, id) + b.step(op).owed(id) <= b.owed(id),
{
    assert(count_for(b.queue, id) <= 1);
    match op {
        Op::Finish(e) => {
            lemma_count_push(b.queue, e, id);
        },
        Op::Poll { id: polled, exited } => {
            lemma_without_task_counts(b.queue, polled, id);
        },
        Op::Kill { id: killed } => {},
        Op::Respond => {},
    }
}

/// The run of a well-formed board is well formed, and over any run no
/// more notifications of a task are sent than were owed at its start.
pub proof fn lemma_run_pays(b: Board, ops: Seq<Op>, id: Seq<char>)
    requires
        b.wf(),
    ensures
        b.run(ops).wf(),
        b.told_during(ops, id) + b.run(ops).owed(id) <= b.owed(id),
    decreases ops.len(),
{
    if ops.len() > 0 {
        lemma_step_keeps_wf(b, ops[0]);
        lemma_step_pays(b, ops[0], id);
        lemma_run_pays(b.step(ops[0]), ops.drop_first(), id);
    }
}

/// A task that ends in the background is told of at most once, whatever
/// happens afterwards.
pub proof fn lemma_told_at_most_once(b: Board, e: EventText, ops: Seq<Op>)
    requires
        b.wf(),
        b.running.contains(e.task_id),
    ensures
        b.step(Op::Finish(e)).told_during(ops, e.task_id) <= 1,
{
    let after = b.step(Op::Finish(e));
    lemma_step_keeps_wf(b, Op::Finish(e));
    lemma_step_pays(b, Op::Finish(e), e.task_id);
    lemma_run_pays(after, ops, e.task_id);
}

/// Whether, in `ops`, a response is sent before the task `id` is polled.
pub open spec fn responds_before_poll(ops: Seq<Op>, id: Seq<char>) -> bool
    decreases ops.len(),
{
    if ops.len() == 0 {
        false
    } else {
        match ops[0] {
            Op::Respond => true,
            Op::Poll { id: polled, exited } => polled != id && responds_before_poll(
                ops.drop_first(),
                id,
            ),
            _ => responds_before_poll(ops.drop_first(), id),
        }
    }
}

/// An event that waits is told of exactly once if a response is sent
/// before its task is polled.
pub proof fn lemma_waiting_event_is_told(b: Board, ops: Seq<Op>, id: Seq<char>)
    requires
        b.wf(),
        count_for(b.queue, id) == 1,
        responds_before_poll(ops, id),
    ensures
        b.told_during(ops, id) == 1,
    decreases ops.len(),
{
    assert(!b.running.contains(id));
    let next = b.step(ops[0]);
    lemma_step_keeps_wf(b, ops[0]);
    match ops[0] {
        Op::Respond => {
            lemma_run_pays(next, ops.drop_first(), id);
            assert(count_for(Seq::<EventText>::empty(), id) == 0);
        },
        Op::Finish(e) => {
            lemma_count_push(b.queue, e, id);
            if b.running.contains(e.task_id) {
                assert(e.task_id != id);
            }
            lemma_waiting_event_is_told(next, ops.drop_first(), id);
        },
        Op::Poll { id: polled, exited } => {
            lemma_without_task_counts(b.queue, polled, id);
            lemma_waiting_event_is_told(next, ops.drop_first(), id);
        },
        Op::Kill { id: killed } => {
            lemma_waiting_event_is_told(next, ops.drop_first(), id);
        },
    }
}

/// A task that ends in the background is told of exactly once, in the
/// first response that is sent, provided that the task is not polled
/// before; later responses do not repeat it.
pub proof fn lemma_told_exactly_once(b: Board, e: EventText, ops: Seq<Op>)
    requires
        b.wf(),
        b.running.contains(e.task_id),
        responds_before_poll(ops, e.task_id),
    ensures
        b.step(Op::Finish(e)).told_during(ops, e.task_id) == 1,
{
    lemma_step_keeps_wf(b, Op::Finish(e));
    lemma_count_push(b.queue, e, e.task_id);
    assert(count_for(b.queue, e.task_id) == 0);
    lemma_waiting_event_is_told(b.step(Op::Finish(e)), ops, e.task_id);
}

/// Once a task that has ended is polled, it is never told of.
pub proof fn lemma_poll_suppresses(b: Board, id: Seq<char>, exited: bool, ops: Seq<Op>)
    requires
        b.wf(),
        !b.running.contains(id) || exited,
    ensures
        b.step(Op::Poll { id, exited }).told_during(ops, id) == 0,
{
    let op = Op::Poll { id, exited };
    lemma_step_keeps_wf(b, op);
    lemma_without_task_counts(b.queue, id, id);
    lemma_run_pays(b.step(op), ops, id);
}


/// A run with one more step at its end is the run followed by the step.
pub proof fn lemma_run_push(b: Board, ops: Seq<Op>, op: Op)
    ensures
        b.run(ops.push(op)) == b.run(ops).step(op),
    decreases ops.len(),
{
    let all = ops.push(op);
    if ops.len() == 0 {
        assert(all.drop_first() =~= Seq::<Op>::empty());
        assert(all[0] == op);
        assert(b.run(all) == b.step(op).run(all.drop_first()));
        assert(b.step(op).run(Seq::<Op>::empty()) == b.step(op));
        assert(b.run(ops) == b);
    } else {
        assert(all.drop_first() =~= ops.drop_first().push(op));
        assert(all[0] == ops[0]);
        lemma_run_push(b.step(ops[0]), ops.drop_first(), op);
        assert(b.run(all) == b.step(all[0]).run(all.drop_first()));
        assert(b.run(ops) == b.step(ops[0]).run(ops.drop_first()));
    }
}

/// A task that ended unseen and is polled in the next call is not told
/// of, in that call's answer or in any later one.
pub proof fn lemma_poll_after_unseen_end(b: Board, e: EventText, exited: bool, later: Seq<Op>)
    requires
        b.wf(),
        b.running.contains(e.task_id),
    ensures
        b.told_during(
            seq![Op::Finish(e), Op::Poll { id: e.task_id, exited }, Op::Respond] + later,
            e.task_id,
        ) == 0,
{
    let id = e.task_id;
    let ops = seq![Op::Finish(e), Op::Poll { id, exited }, Op::Respond] + later;
    let b1 = b.step(Op::Finish(e));
    let rest1 = ops.drop_first();
    assert(rest1 =~= seq![Op::Poll { id, exited }, Op::Respond] + later);
    let b2 = b1.step(Op::Poll { id, exited });
    let rest2 = rest1.drop_first();
    assert(rest2 =~= seq![Op::Respond] + later);
    lemma_step_keeps_wf(b, Op::Finish(e));
    lemma_step_keeps_wf(b1, Op::Poll { id, exited });
    lemma_count_push(b.queue, e, id);
    lemma_without_task_counts(b1.queue, id, id);
    assert(!b1.running.contains(id));
    assert(b2.owed(id) == 0);
    lemma_run_pays(b2, rest2, id);
    assert(b.told_during(ops, id) == b.told(ops[0], id) + b1.told_during(rest1, id));
    assert(b1.told_during(rest1, id) == b1.told(rest1[0], id) + b2.told_during(rest2, id));
}

/// Once an answer was sent, no later answer tells of a task that had
/// ended before it.
pub proof fn lemma_second_answer_is_silent(b: Board, id: Seq<char>, later: Seq<Op>)
    requires
        b.wf(),
        !b.running.contains(id),
    ensures
        b.step(Op::Respond).told_during(later, id) == 0,
{
    lemma_step_keeps_wf(b, Op::Respond);
    assert(count_for(Seq::<EventText>::empty(), id) == 0);
    lemma_run_pays(b.step(Op::Respond), later, id);
}

} // verus!
