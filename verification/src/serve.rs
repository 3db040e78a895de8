pub mod format;
pub mod handlers;
pub mod notices;
pub mod protocol;
pub mod tools;

use crate::circuit::CircuitBreaker;
use crate::config::Config;
use crate::serve::format::{extend_seconds, TaskStatus};
use crate::serve::notices::{
    Board, EventText, notify_line, notify_lines, notify_text, Op, with_notices, without_task,
};
use crate::text::{pair_texts, same_chars, 
    byte_len, chars_of, extend_decimal, extend_str, join_from, lemma_byte_len_concat,
    lemma_rows_push, rows, string_of,
};
use vstd::prelude::*;
use vstd::string::StringExecFns;

verus! {

/// A background task that finished while the caller was not watching.
#[derive(Debug)]
pub struct CompletedEvent {
    pub task_id: String,
    pub exit_code: i32,
    /// The time the task ran, in tenths of a second.
    pub elapsed_tenths: u64,
}

impl View for CompletedEvent {
    type V = EventText;

    open spec fn view(&self) -> EventText {
        EventText {
            task_id: self.task_id@,
            exit_code: self.exit_code,
            elapsed_tenths: self.elapsed_tenths,
        }
    }
}

pub open spec fn event_texts(v: Seq<CompletedEvent>) -> Seq<EventText> {
    Seq::new(v.len(), |i: int| v[i]@)
}

/// A task that was started and not yet removed.
pub struct TaskInfo {
    pub task_id: String,
    pub command: String,
    /// When the task was started, in microseconds since the epoch.
    pub started_at_epoch: u64,
    pub status: TaskStatus,
    pub output_buffer: String,
    /// How many bytes of the output the caller had seen at the last poll.
    pub last_poll_offset: usize,
    pub has_stdin: bool,
    pub pipestatus: Vec<i32>,
    pub pid: Option<u32>,
    pub is_pty: bool,
    pub meta_path: String,
    pub pre_insights: Vec<(String, String)>,
}

/// The tasks of the server, each under its own id.
pub struct TaskRegistry {
    pub tasks: Vec<TaskInfo>,
}

/// What the server keeps between two requests.
pub struct ServerState {
    pub config: Config,
    pub circuit_breaker: CircuitBreaker,
    pub session_id: String,
    pub db_path: String,
    pub tasks: TaskRegistry,
    pub event_queue: Vec<CompletedEvent>,
}

/// A `TaskInfo` as plain values.
pub struct TaskText {
    pub task_id: Seq<char>,
    pub command: Seq<char>,
    pub started_at_epoch: u64,
    pub status: TaskStatus,
    pub output_buffer: Seq<char>,
    pub last_poll_offset: usize,
    pub has_stdin: bool,
    pub pipestatus: Seq<i32>,
    pub pid: Option<u32>,
    pub is_pty: bool,
    pub meta_path: Seq<char>,
    pub pre_insights: Seq<(Seq<char>, Seq<char>)>,
}

impl View for TaskInfo {
    type V = TaskText;

    open spec fn view(&self) -> TaskText {
        TaskText {
            task_id: self.task_id@,
            command: self.command@,
            started_at_epoch: self.started_at_epoch,
            status: self.status,
            output_buffer: self.output_buffer@,
            last_poll_offset: self.last_poll_offset,
            has_stdin: self.has_stdin,
            pipestatus: self.pipestatus@,
            pid: self.pid,
            is_pty: self.is_pty,
            meta_path: self.meta_path@,
            pre_insights: pair_texts(self.pre_insights@),
        }
    }
}

pub open spec fn task_texts(v: Seq<TaskInfo>) -> Seq<TaskText> {
    Seq::new(v.len(), |i: int| v[i]@)
}

impl View for TaskRegistry {
    type V = Seq<TaskText>;

    open spec fn view(&self) -> Seq<TaskText> {
        task_texts(self.tasks@)
    }
}

/// Where the task with the id `id` stands: the first position that holds
/// the id, or -1 where no task has it.
pub open spec fn slot_of(tasks: Seq<TaskText>, id: Seq<char>) -> int
    decreases tasks.len(),
{
    if tasks.len() == 0 {
        -1
    } else if slot_of(tasks.drop_last(), id) >= 0 {
        slot_of(tasks.drop_last(), id)
    } else if tasks.last().task_id == id {
        tasks.len() - 1
    } else {
        -1
    }
}

pub proof fn lemma_slot_of(tasks: Seq<TaskText>, id: Seq<char>)
    ensures
        -1 <= slot_of(tasks, id) < tasks.len(),
        slot_of(tasks, id) >= 0 ==> tasks[slot_of(tasks, id)].task_id == id,
        forall|k: int|
            0 <= k < tasks.len() && (slot_of(tasks, id) == -1 || k < slot_of(tasks, id)) ==> (
            #[trigger] tasks[k]).task_id != id,
    decreases tasks.len(),
{
    if tasks.len() > 0 {
        let front = tasks.drop_last();
        lemma_slot_of(front, id);
        assert forall|k: int|
            0 <= k < tasks.len() && (slot_of(tasks, id) == -1 || k < slot_of(tasks, id)) implies (
        #[trigger] tasks[k]).task_id != id by {
            if k < front.len() {
                assert(front[k] == tasks[k]);
            }
        }
    }
}

/// A position that holds the id, with no earlier one that does, is the
/// position of the id.
pub proof fn lemma_slot_is(tasks: Seq<TaskText>, id: Seq<char>, i: int)
    requires
        0 <= i < tasks.len(),
        tasks[i].task_id == id,
        forall|k: int| 0 <= k < i ==> (#[trigger] tasks[k]).task_id != id,
    ensures
        slot_of(tasks, id) == i,
{
    lemma_slot_of(tasks, id);
}

/// The position of an id depends on the ids alone.
pub proof fn lemma_same_ids_same_slot(a: Seq<TaskText>, b: Seq<TaskText>, id: Seq<char>)
    requires
        a.len() == b.len(),
        forall|k: int| 0 <= k < a.len() ==> (#[trigger] a[k]).task_id == b[k].task_id,
    ensures
        slot_of(a, id) == slot_of(b, id),
{
    lemma_slot_of(a, id);
    lemma_slot_of(b, id);
    let s = slot_of(a, id);
    let r = slot_of(b, id);
    if s >= 0 {
        assert(b[s].task_id == id);
    }
    if r >= 0 {
        assert(a[r].task_id == b[r].task_id);
    }
}

/// Whether the task with the id `id` is running.
pub open spec fn is_running(tasks: Seq<TaskText>, id: Seq<char>) -> bool {
    slot_of(tasks, id) >= 0 && tasks[slot_of(tasks, id)].status == TaskStatus::Running
}

/// The ids of the running tasks.
pub open spec fn running_ids_of(tasks: Seq<TaskText>) -> Set<Seq<char>> {
    Set::new(|id: Seq<char>| is_running(tasks, id))
}

/// No two tasks have the same id, and no task was polled beyond the end
/// of its output.
pub open spec fn tasks_wf(tasks: Seq<TaskText>) -> bool {
    &&& forall|i: int, j: int| 0 <= i < j < tasks.len() ==> tasks[i].task_id != tasks[j].task_id
    &&& forall|i: int|
        0 <= i < tasks.len() ==> (#[trigger] tasks[i]).last_poll_offset <= byte_len(
            tasks[i].output_buffer,
        )
}

/// The tasks with `task` added, unless its id is taken or it claims to
/// have been polled beyond its output.
pub open spec fn registered(tasks: Seq<TaskText>, task: TaskText) -> Seq<TaskText> {
    if slot_of(tasks, task.task_id) < 0 && task.last_poll_offset <= byte_len(task.output_buffer) {
        tasks.push(task)
    } else {
        tasks
    }
}

/// The tasks after the running task `id` has ended: `remaining` is added
/// to its output and it is marked as completed. Nothing changes where no
/// running task has the id.
pub open spec fn completed(tasks: Seq<TaskText>, id: Seq<char>, remaining: Seq<char>) -> Seq<
    TaskText,
> {
    let i = slot_of(tasks, id);
    if is_running(tasks, id) {
        tasks.update(
            i,
            TaskText {
                status: TaskStatus::Completed,
                output_buffer: tasks[i].output_buffer + remaining,
                ..tasks[i]
            },
        )
    } else {
        tasks
    }
}

/// The tasks after a poll of the running task `id` that has not ended:
/// `fresh` is added to its output, and all of the output counts as seen.
pub open spec fn polled(tasks: Seq<TaskText>, id: Seq<char>, fresh: Seq<char>) -> Seq<TaskText> {
    let i = slot_of(tasks, id);
    if is_running(tasks, id) {
        tasks.update(
            i,
            TaskText {
                output_buffer: tasks[i].output_buffer + fresh,
                last_poll_offset: byte_len(tasks[i].output_buffer + fresh) as usize,
                ..tasks[i]
            },
        )
    } else {
        tasks
    }
}

/// The tasks with the exit codes of the task `id` put on record.
pub open spec fn with_exit_codes(tasks: Seq<TaskText>, id: Seq<char>, codes: Seq<i32>) -> Seq<
    TaskText,
> {
    let i = slot_of(tasks, id);
    if i >= 0 {
        tasks.update(i, TaskText { pipestatus: codes, ..tasks[i] })
    } else {
        tasks
    }
}

/// The tasks without the running task `id`.
pub open spec fn without_running(tasks: Seq<TaskText>, id: Seq<char>) -> Seq<TaskText> {
    if is_running(tasks, id) {
        tasks.remove(slot_of(tasks, id))
    } else {
        tasks
    }
}

/// A change that keeps every id and every status but that of the task
/// `id` keeps the set of running ids but for `id`.
pub proof fn lemma_running_but_for(before: Seq<TaskText>, after: Seq<TaskText>, id: Seq<char>)
    requires
        before.len() == after.len(),
        forall|k: int| 0 <= k < before.len() ==> (#[trigger] after[k]).task_id == before[k].task_id,
        forall|k: int|
            0 <= k < before.len() && before[k].task_id != id ==> (#[trigger] after[k]).status
                == before[k].status,
    ensures
        forall|x: Seq<char>| x != id ==> (is_running(after, x) <==> is_running(before, x)),
        slot_of(after, id) == slot_of(before, id),
{
    lemma_same_ids_same_slot(after, before, id);
    assert forall|x: Seq<char>| x != id implies (is_running(after, x) <==> is_running(
        before,
        x,
    )) by {
        lemma_same_ids_same_slot(after, before, x);
        lemma_slot_of(before, x);
    }
}

/// Ending a task takes its id out of the running ones and keeps the
/// registry well formed.
pub proof fn lemma_completed(tasks: Seq<TaskText>, id: Seq<char>, remaining: Seq<char>)
    ensures
        running_ids_of(completed(tasks, id, remaining)) == running_ids_of(tasks).remove(id),
        slot_of(completed(tasks, id, remaining), id) == slot_of(tasks, id),
        tasks_wf(tasks) ==> tasks_wf(completed(tasks, id, remaining)),
        completed(tasks, id, remaining).len() == tasks.len(),
{
    let after = completed(tasks, id, remaining);
    lemma_slot_of(tasks, id);
    lemma_running_but_for(tasks, after, id);
    if is_running(tasks, id) {
        lemma_byte_len_concat(tasks[slot_of(tasks, id)].output_buffer, remaining);
    }
    assert(running_ids_of(after) =~= running_ids_of(tasks).remove(id));
}

/// A poll of a running task keeps the set of running ids and keeps the
/// registry well formed.
pub proof fn lemma_polled(tasks: Seq<TaskText>, id: Seq<char>, fresh: Seq<char>)
    requires
        byte_len(fresh) <= usize::MAX,
        is_running(tasks, id) ==> byte_len(tasks[slot_of(tasks, id)].output_buffer + fresh)
            <= usize::MAX,
    ensures
        running_ids_of(polled(tasks, id, fresh)) == running_ids_of(tasks),
        tasks_wf(tasks) ==> tasks_wf(polled(tasks, id, fresh)),
        polled(tasks, id, fresh).len() == tasks.len(),
{
    let after = polled(tasks, id, fresh);
    lemma_slot_of(tasks, id);
    lemma_running_but_for(tasks, after, id);
    assert(running_ids_of(after) =~= running_ids_of(tasks));
}

/// Putting exit codes on record keeps the set of running ids and keeps
/// the registry well formed.
pub proof fn lemma_with_exit_codes(tasks: Seq<TaskText>, id: Seq<char>, codes: Seq<i32>)
    ensures
        running_ids_of(with_exit_codes(tasks, id, codes)) == running_ids_of(tasks),
        tasks_wf(tasks) ==> tasks_wf(with_exit_codes(tasks, id, codes)),
        with_exit_codes(tasks, id, codes).len() == tasks.len(),
{
    let after = with_exit_codes(tasks, id, codes);
    lemma_slot_of(tasks, id);
    lemma_running_but_for(tasks, after, id);
    assert(running_ids_of(after) =~= running_ids_of(tasks));
}

/// Removing a running task takes its id out of the running ones and out
/// of the registry, and keeps the registry well formed.
pub proof fn lemma_without_running(tasks: Seq<TaskText>, id: Seq<char>)
    requires
        tasks_wf(tasks),
    ensures
        running_ids_of(without_running(tasks, id)) == running_ids_of(tasks).remove(id),
        tasks_wf(without_running(tasks, id)),
        is_running(tasks, id) ==> slot_of(without_running(tasks, id), id) == -1,
{
    let after = without_running(tasks, id);
    lemma_slot_of(tasks, id);
    if is_running(tasks, id) {
        let i = slot_of(tasks, id);
        assert forall|k: int| 0 <= k < after.len() implies (#[trigger] after[k]) == tasks[if k < i {
            k
        } else {
            k + 1
        }] by {}
        assert forall|x: Seq<char>| is_running(after, x) <==> running_ids_of(tasks).remove(
            id,
        ).contains(x) by {
            lemma_slot_of(after, x);
            lemma_slot_of(tasks, x);
            let a = slot_of(after, x);
            let b = slot_of(tasks, x);
            if a >= 0 {
                let a_old = if a < i {
                    a
                } else {
                    a + 1
                };
                assert(after[a] == tasks[a_old]);
                assert(x != id);
                assert(b == a_old);
            }
            if b >= 0 && x != id {
                assert(b != i);
                let b_new = if b < i {
                    b
                } else {
                    b - 1
                };
                assert(after[b_new] == tasks[b]);
                assert(a == b_new);
            }
        }
        assert(running_ids_of(after) =~= running_ids_of(tasks).remove(id));
        lemma_slot_of(after, id);
        if slot_of(after, id) >= 0 {
            let a = slot_of(after, id);
            assert(after[a] == tasks[if a < i {
                a
            } else {
                a + 1
            }]);
        }
    } else {
        assert(running_ids_of(after) =~= running_ids_of(tasks).remove(id));
    }
}

/// Adding a running task under a new id puts the id among the running
/// ones and keeps the registry well formed.
pub proof fn lemma_registered(tasks: Seq<TaskText>, task: TaskText)
    requires
        tasks_wf(tasks),
    ensures
        tasks_wf(registered(tasks, task)),
        registered(tasks, task) != tasks && task.status == TaskStatus::Running ==> running_ids_of(
            registered(tasks, task),
        ) == running_ids_of(tasks).insert(task.task_id),
{
    let after = registered(tasks, task);
    lemma_slot_of(tasks, task.task_id);
    if slot_of(tasks, task.task_id) < 0 && task.last_poll_offset <= byte_len(task.output_buffer) {
        assert(after.drop_last() =~= tasks);
        assert(after.last() == task);
        assert forall|i: int, j: int| 0 <= i < j < after.len() implies after[i].task_id
            != after[j].task_id by {
            if j == tasks.len() {
                assert(after[i] == tasks[i]);
            }
        }
        if task.status == TaskStatus::Running {
            assert forall|x: Seq<char>| is_running(after, x) <==> running_ids_of(tasks).insert(
                task.task_id,
            ).contains(x) by {
                lemma_slot_of(tasks, x);
            }
            assert(running_ids_of(after) =~= running_ids_of(tasks).insert(task.task_id));
        }
    }
}

impl TaskRegistry {
    /// Whether a task has the id `id`.
    pub open spec fn knows(self, id: Seq<char>) -> bool {
        slot_of(self@, id) >= 0
    }

    /// No two tasks have the same id, and no task was polled beyond the
    /// end of its output.
    pub open spec fn wf(self) -> bool {
        tasks_wf(self@)
    }

    /// The ids of the running tasks.
    pub open spec fn running(self) -> Set<Seq<char>> {
        running_ids_of(self@)
    }

    pub fn new() -> (r: Self)
        ensures
            r.wf(),
            r@.len() == 0,
    {
        TaskRegistry { tasks: Vec::new() }
    }

    /// Whether the registry is well formed.
    pub fn is_well_formed(&self) -> (r: bool)
        ensures
            r == self.wf(),
    {
        let ghost all = self@;
        let mut j: usize = 0;
        while j < self.tasks.len()
            invariant
                j <= self.tasks.len(),
                all == self@,
                forall|a: int, b: int| 0 <= a < b < j ==> all[a].task_id != all[b].task_id,
                forall|a: int|
                    0 <= a < j ==> (#[trigger] all[a]).last_poll_offset <= byte_len(
                        all[a].output_buffer,
                    ),
            decreases self.tasks.len() - j,
        {
            assert(all[j as int] == self.tasks@[j as int]@);
            if self.tasks[j].last_poll_offset > self.tasks[j].output_buffer.as_str().as_bytes().len() {
                return false;
            }
            let id = chars_of(self.tasks[j].task_id.as_str());
            let mut i: usize = 0;
            while i < j
                invariant
                    i <= j < self.tasks.len(),
                    all == self@,
                    id@ == all[j as int].task_id,
                    forall|a: int| 0 <= a < i ==> all[a].task_id != all[j as int].task_id,
                decreases j - i,
            {
                assert(all[i as int] == self.tasks@[i as int]@);
                if same_chars(&chars_of(self.tasks[i].task_id.as_str()), &id) {
                    return false;
                }
                i += 1;
            }
            j += 1;
        }
        true
    }

    /// Where the task with the id `task_id` stands in the registry.
    pub fn find(&self, task_id: &str) -> (r: Option<usize>)
        ensures
            match r {
                Some(i) => i == slot_of(self@, task_id@) && i < self.tasks.len(),
                None => slot_of(self@, task_id@) == -1,
            },
    {
        let wanted = chars_of(task_id);
        let ghost all = self@;
        let mut i: usize = 0;
        proof {
            lemma_slot_of(all, task_id@);
        }
        while i < self.tasks.len()
            invariant
                i <= self.tasks.len(),
                wanted@ == task_id@,
                all == self@,
                forall|k: int| 0 <= k < i ==> (#[trigger] all[k]).task_id != task_id@,
            decreases self.tasks.len() - i,
        {
            assert(all[i as int] == self.tasks@[i as int]@);
            let id = chars_of(self.tasks[i].task_id.as_str());
            if same_chars(&id, &wanted) {
                proof {
                    lemma_slot_is(all, task_id@, i as int);
                }
                return Some(i);
            }
            i += 1;
        }
        None
    }

    /// The status of a task, if it is known.
    pub fn status_of(&self, task_id: &str) -> (r: Option<TaskStatus>)
        ensures
            r == if self.knows(task_id@) {
                Some(self@[slot_of(self@, task_id@)].status)
            } else {
                None
            },
            r == Some(TaskStatus::Running) <==> self.running().contains(task_id@),
    {
        match self.find(task_id) {
            Some(i) => {
                assert(self@[i as int] == self.tasks@[i as int]@);
                Some(self.tasks[i].status)
            },
            None => None,
        }
    }
}

fn copy_insights(v: &Vec<(String, String)>) -> (r: Vec<(String, String)>)
    ensures
        r@ == v@,
{
    let mut out: Vec<(String, String)> = Vec::new();
    let mut i: usize = 0;
    while i < v.len()
        invariant
            i <= v.len(),
            out@ == v@.take(i as int),
        decreases v.len() - i,
    {
        out.push((v[i].0.clone(), v[i].1.clone()));
        assert(out@ =~= v@.take(i + 1));
        i += 1;
    }
    assert(v@.take(v.len() as int) =~= v@);
    out
}

pub(crate) fn copy_codes(v: &Vec<i32>) -> (r: Vec<i32>)
    ensures
        r@ == v@,
{
    let mut out: Vec<i32> = Vec::new();
    let mut i: usize = 0;
    while i < v.len()
        invariant
            i <= v.len(),
            out@ == v@.take(i as int),
        decreases v.len() - i,
    {
        out.push(v[i]);
        assert(out@ =~= v@.take(i + 1));
        i += 1;
    }
    assert(v@.take(v.len() as int) =~= v@);
    out
}

/// What a look at a task finds.
pub enum PollOutcome {
    /// The task had ended before; this is what is kept of it.
    Cached { status: TaskStatus, output: String, pipestatus: Vec<i32>, started_at_epoch: u64 },
    /// The task has ended now; this is what is needed to close it.
    Ended {
        command: String,
        output: String,
        pre_insights: Vec<(String, String)>,
        meta_path: String,
        started_at_epoch: u64,
    },
    /// The task is still running; `new_bytes` of its output are new.
    StillRunning {
        output: String,
        has_stdin: bool,
        new_bytes: usize,
        pre_insights: Vec<(String, String)>,
        started_at_epoch: u64,
    },
}

/// Whether `r` is what the end of the running task `id` hands out: the
/// command, the whole output, the insights gathered before the run and
/// the path of the executor's file; nothing where no running task has
/// the id.
pub open spec fn hands_out_ended(
    r: Option<PollOutcome>,
    tasks: Seq<TaskText>,
    id: Seq<char>,
    remaining: Seq<char>,
) -> bool {
    match r {
        Some(PollOutcome::Ended { command, output, pre_insights, meta_path, started_at_epoch }) => {
            let task = tasks[slot_of(tasks, id)];
            &&& is_running(tasks, id)
            &&& command@ == task.command
            &&& output@ == task.output_buffer + remaining
            &&& pair_texts(pre_insights@) == task.pre_insights
            &&& meta_path@ == task.meta_path
            &&& started_at_epoch == task.started_at_epoch
        },
        Some(_) => false,
        None => !is_running(tasks, id),
    }
}

impl TaskRegistry {
    /// Adds a task, unless its id is taken or it claims to have been
    /// polled beyond its output. Says whether the task was added.
    pub fn register(&mut self, task: TaskInfo) -> (added: bool)
        ensures
            final(self)@ == registered(old(self)@, task@),
            added == (!old(self).knows(task.task_id@) && task.last_poll_offset <= byte_len(
                task.output_buffer@,
            )),
            old(self).wf() ==> final(self).wf(),
    {
        proof {
            if self.wf() {
                lemma_registered(self@, task@);
            }
        }
        if task.last_poll_offset > task.output_buffer.as_str().as_bytes().len() {
            return false;
        }
        match self.find(task.task_id.as_str()) {
            Some(_) => false,
            None => {
                let ghost before = self@;
                self.tasks.push(task);
                assert(self@ =~= before.push(task@));
                true
            },
        }
    }

    /// Takes note that a running task has ended: `remaining` is added to
    /// its output and the task is marked as completed. Returns what is
    /// needed to close the task, or `None` where no running task has the id.
    pub fn complete_task(&mut self, task_id: &str, remaining: &str) -> (r: Option<PollOutcome>)
        ensures
            final(self)@ == completed(old(self)@, task_id@, remaining@),
            old(self).wf() ==> final(self).wf(),
            final(self).running() == old(self).running().remove(task_id@),
            hands_out_ended(r, old(self)@, task_id@, remaining@),
    {
        proof {
            lemma_completed(self@, task_id@, remaining@);
        }
        let found = self.find(task_id);
        match found {
            Some(i) => {
                assert(self@[i as int] == self.tasks@[i as int]@);
                if self.tasks[i].status != TaskStatus::Running {
                    return None;
                }
                let ghost before = self@;
                let mut task = self.tasks.remove(i);
                task.output_buffer.append(remaining);
                task.status = TaskStatus::Completed;
                let outcome = PollOutcome::Ended {
                    command: task.command.clone(),
                    output: task.output_buffer.clone(),
                    pre_insights: copy_insights(&task.pre_insights),
                    meta_path: task.meta_path.clone(),
                    started_at_epoch: task.started_at_epoch,
                };
                self.tasks.insert(i, task);
                assert(self@ =~= before.update(i as int, task@));
                Some(outcome)
            },
            None => None,
        }
    }

    /// Takes note of a poll of a running task that has not ended:
    /// `fresh` is added to its output, and what the caller has not seen
    /// yet is counted as new. `None` where no running task has the id.
    pub fn poll_running(&mut self, task_id: &str, fresh: &str) -> (r: Option<PollOutcome>)
        requires
            old(self).wf(),
        ensures
            final(self)@ == polled(old(self)@, task_id@, fresh@),
            final(self).wf(),
            final(self).running() == old(self).running(),
            match r {
                Some(PollOutcome::StillRunning { output, has_stdin, new_bytes, pre_insights, started_at_epoch }) => {
                    let task = old(self)@[slot_of(old(self)@, task_id@)];
                    &&& is_running(old(self)@, task_id@)
                    &&& output@ == task.output_buffer + fresh@
                    &&& new_bytes == byte_len(output@) - task.last_poll_offset
                    &&& has_stdin == task.has_stdin
                    &&& pair_texts(pre_insights@) == task.pre_insights
                    &&& started_at_epoch == task.started_at_epoch
                },
                Some(_) => false,
                None => !is_running(old(self)@, task_id@),
            },
    {
        let found = self.find(task_id);
        match found {
            Some(i) => {
                assert(self@[i as int] == self.tasks@[i as int]@);
                if self.tasks[i].status != TaskStatus::Running {
                    proof {
                        lemma_polled_same(self@, task_id@, fresh@);
                    }
                    return None;
                }
                let ghost before = self@;
                let mut task = self.tasks.remove(i);
                proof {
                    lemma_byte_len_concat(task.output_buffer@, fresh@);
                }
                task.output_buffer.append(fresh);
                let total: usize = task.output_buffer.as_str().as_bytes().len();
                let new_bytes: usize = total - task.last_poll_offset;
                task.last_poll_offset = total;
                let outcome = PollOutcome::StillRunning {
                    output: task.output_buffer.clone(),
                    has_stdin: task.has_stdin,
                    new_bytes,
                    pre_insights: copy_insights(&task.pre_insights),
                    started_at_epoch: task.started_at_epoch,
                };
                self.tasks.insert(i, task);
                assert(self@ =~= before.update(i as int, task@));
                proof {
                    lemma_polled(before, task_id@, fresh@);
                }
                Some(outcome)
            },
            None => {
                proof {
                    lemma_polled_same(self@, task_id@, fresh@);
                }
                None
            },
        }
    }

    /// What is kept of a task that has ended before. `None` where no task
    /// has the id or the task is running.
    pub fn cached(&self, task_id: &str) -> (r: Option<PollOutcome>)
        ensures
            match r {
                Some(PollOutcome::Cached { status, output, pipestatus, started_at_epoch }) => {
                    let task = self@[slot_of(self@, task_id@)];
                    &&& self.knows(task_id@)
                    &&& !is_running(self@, task_id@)
                    &&& status == task.status
                    &&& output@ == task.output_buffer
                    &&& pipestatus@ == task.pipestatus
                    &&& started_at_epoch == task.started_at_epoch
                },
                Some(_) => false,
                None => !self.knows(task_id@) || is_running(self@, task_id@),
            },
    {
        match self.find(task_id) {
            Some(i) => {
                assert(self@[i as int] == self.tasks@[i as int]@);
                if self.tasks[i].status == TaskStatus::Running {
                    None
                } else {
                    Some(
                        PollOutcome::Cached {
                            status: self.tasks[i].status,
                            output: self.tasks[i].output_buffer.clone(),
                            pipestatus: copy_codes(&self.tasks[i].pipestatus),
                            started_at_epoch: self.tasks[i].started_at_epoch,
                        },
                    )
                }
            },
            None => None,
        }
    }

    /// Puts the exit codes of a task on record. Nothing changes where no
    /// task has the id.
    pub fn store_exit_codes(&mut self, task_id: &str, codes: &Vec<i32>)
        ensures
            final(self)@ == with_exit_codes(old(self)@, task_id@, codes@),
            old(self).wf() ==> final(self).wf(),
            final(self).running() == old(self).running(),
    {
        proof {
            lemma_with_exit_codes(self@, task_id@, codes@);
        }
        match self.find(task_id) {
            Some(i) => {
                assert(self@[i as int] == self.tasks@[i as int]@);
                let ghost before = self@;
                let mut task = self.tasks.remove(i);
                task.pipestatus = copy_codes(codes);
                self.tasks.insert(i, task);
                assert(self@ =~= before.update(i as int, task@));
            },
            None => {},
        }
    }

    /// Removes a running task, as after it was killed, and hands it out.
    /// `None` where no running task has the id.
    pub fn remove_running(&mut self, task_id: &str) -> (r: Option<TaskInfo>)
        requires
            old(self).wf(),
        ensures
            final(self)@ == without_running(old(self)@, task_id@),
            final(self).wf(),
            final(self).running() == old(self).running().remove(task_id@),
            match r {
                Some(task) => is_running(old(self)@, task_id@) && task@ == old(self)@[slot_of(
                    old(self)@,
                    task_id@,
                )] && !final(self).knows(task_id@),
                None => !is_running(old(self)@, task_id@),
            },
    {
        proof {
            lemma_without_running(self@, task_id@);
        }
        let found = self.find(task_id);
        match found {
            Some(i) => {
                assert(self@[i as int] == self.tasks@[i as int]@);
                if self.tasks[i].status != TaskStatus::Running {
                    return None;
                }
                let ghost before = self@;
                let task = self.tasks.remove(i);
                assert(self@ =~= before.remove(i as int));
                Some(task)
            },
            None => None,
        }
    }
}

/// A poll of a task that is not running changes nothing.
pub proof fn lemma_polled_same(tasks: Seq<TaskText>, id: Seq<char>, fresh: Seq<char>)
    requires
        !is_running(tasks, id),
    ensures
        polled(tasks, id, fresh) == tasks,
{
}

pub proof fn lemma_event_texts_push(v: Seq<CompletedEvent>, e: CompletedEvent)
    ensures
        event_texts(v.push(e)) == event_texts(v).push(e@),
{
    assert(event_texts(v.push(e)) =~= event_texts(v).push(e@));
}

/// The messages of the insights of one kind: the warnings, or all others.
pub open spec fn messages_of(insights: Seq<(Seq<char>, Seq<char>)>, warnings: bool) -> Seq<
    Seq<char>,
>
    decreases insights.len(),
{
    if insights.len() == 0 {
        Seq::empty()
    } else if (insights.last().0 == "warning"@) == warnings {
        messages_of(insights.drop_last(), warnings).push(insights.last().1)
    } else {
        messages_of(insights.drop_last(), warnings)
    }
}

fn collect_messages(
    out: &mut Vec<String>,
    insights: &Vec<(String, String)>,
    warnings: bool,
    Ghost(before): Ghost<Seq<(Seq<char>, Seq<char>)>>,
)
    requires
        crate::text::texts(old(out)@) == messages_of(before, warnings),
    ensures
        crate::text::texts(final(out)@) == messages_of(
            before + crate::text::pair_texts(insights@),
            warnings,
        ),
{
    let ghost all = crate::text::pair_texts(insights@);
    let mut i: usize = 0;
    assert(before + all.take(0) =~= before);
    while i < insights.len()
        invariant
            i <= insights.len(),
            all == crate::text::pair_texts(insights@),
            crate::text::texts(out@) == messages_of(before + all.take(i as int), warnings),
        decreases insights.len() - i,
    {
        let ghost sofar = before + all.take(i as int);
        let ghost next = before + all.take(i + 1);
        assert(next.drop_last() =~= sofar);
        assert(next.last() == (insights[i as int].0@, insights[i as int].1@));
        let level = chars_of(insights[i].0.as_str());
        if crate::text::is_text(&level, "warning") == warnings {
            let message = insights[i].1.clone();
            proof {
                crate::text::lemma_texts_push(out@, message);
            }
            out.push(message);
        }
        i += 1;
    }
    assert(all.take(insights.len() as int) =~= all);
}

/// The messages of the insights gathered before and after a run, by
/// level: first those that are no warnings, then the warnings.
pub fn combine_insights(pre: &Vec<(String, String)>, post: &Vec<(String, String)>) -> (r: (
    Vec<String>,
    Vec<String>,
))
    ensures
        crate::text::texts(r.0@) == messages_of(
            crate::text::pair_texts(pre@) + crate::text::pair_texts(post@),
            false,
        ),
        crate::text::texts(r.1@) == messages_of(
            crate::text::pair_texts(pre@) + crate::text::pair_texts(post@),
            true,
        ),
{
    let ghost none = Seq::<(Seq<char>, Seq<char>)>::empty();
    let ghost first = crate::text::pair_texts(pre@);
    let mut info: Vec<String> = Vec::new();
    let mut warning: Vec<String> = Vec::new();
    assert(crate::text::texts(info@) =~= messages_of(none, false));
    assert(crate::text::texts(warning@) =~= messages_of(none, true));
    assert(none + first =~= first);
    collect_messages(&mut info, pre, false, Ghost(none));
    collect_messages(&mut info, post, false, Ghost(first));
    collect_messages(&mut warning, pre, true, Ghost(none));
    collect_messages(&mut warning, post, true, Ghost(first));
    (info, warning)
}

impl ServerState {
    /// The running tasks and the waiting events.
    pub open spec fn board(self) -> Board {
        Board { running: self.tasks.running(), queue: event_texts(self.event_queue@) }
    }

    /// Whether `after` has the settings, the session and the path of the
    /// store that this state has.
    pub open spec fn settings_kept(self, after: ServerState) -> bool {
        &&& after.config == self.config
        &&& after.session_id == self.session_id
        &&& after.db_path == self.db_path
    }

    /// Whether `after` differs from this state in the queue of events
    /// at most.
    pub open spec fn kept_but_queue(self, after: ServerState) -> bool {
        &&& self.settings_kept(after)
        &&& after.tasks == self.tasks
        &&& after.circuit_breaker == self.circuit_breaker
    }

    /// Whether `after` differs from this state in the tasks at most.
    pub open spec fn kept_but_tasks(self, after: ServerState) -> bool {
        &&& self.settings_kept(after)
        &&& after.event_queue == self.event_queue
        &&& after.circuit_breaker == self.circuit_breaker
    }

    /// Puts the end of a background task in the queue, to be told with
    /// the next response.
    pub fn enqueue_event(&mut self, task_id: &str, exit_code: i32, elapsed_tenths: u64)
        ensures
            final(self).board().queue == old(self).board().queue.push(
                EventText { task_id: task_id@, exit_code, elapsed_tenths },
            ),
            old(self).kept_but_queue(*final(self)),
    {
        let event = CompletedEvent { task_id: task_id.to_owned(), exit_code, elapsed_tenths };
        proof {
            lemma_event_texts_push(self.event_queue@, event);
        }
        self.event_queue.push(event);
    }

    /// Drops the waiting events of a task that the caller looks at directly.
    pub fn suppress_event_for_task(&mut self, task_id: &str)
        ensures
            final(self).board().queue == without_task(old(self).board().queue, task_id@),
            old(self).kept_but_queue(*final(self)),
    {
        let wanted = chars_of(task_id);
        let ghost all = event_texts(self.event_queue@);
        let mut kept: Vec<CompletedEvent> = Vec::new();
        let mut i: usize = 0;
        assert(event_texts(kept@) =~= without_task(all.take(0), task_id@));
        while i < self.event_queue.len()
            invariant
                i <= self.event_queue.len(),
                wanted@ == task_id@,
                all == event_texts(self.event_queue@),
                event_texts(kept@) == without_task(all.take(i as int), task_id@),
            decreases self.event_queue.len() - i,
        {
            assert(all.take(i + 1).drop_last() =~= all.take(i as int));
            assert(all.take(i + 1).last() == self.event_queue@[i as int]@);
            let id = chars_of(self.event_queue[i].task_id.as_str());
            if !crate::text::same_chars(&id, &wanted) {
                let event = CompletedEvent {
                    task_id: self.event_queue[i].task_id.clone(),
                    exit_code: self.event_queue[i].exit_code,
                    elapsed_tenths: self.event_queue[i].elapsed_tenths,
                };
                proof {
                    lemma_event_texts_push(kept@, event);
                }
                kept.push(event);
            }
            i += 1;
        }
        assert(all.take(self.event_queue.len() as int) =~= all);
        self.event_queue = kept;
    }

    /// Takes all waiting events out of the queue and writes a line for each.
    pub fn drain_events(&mut self) -> (r: String)
        ensures
            r@ == notify_text(old(self).board().queue),
            final(self).board() == old(self).board().step(Op::Respond),
            old(self).kept_but_queue(*final(self)),
    {
        let ghost all = event_texts(self.event_queue@);
        let mut lines: Vec<Vec<char>> = Vec::new();
        let mut i: usize = 0;
        assert(rows(lines@) =~= notify_lines(all).take(0));
        while i < self.event_queue.len()
            invariant
                i <= self.event_queue.len(),
                all == event_texts(self.event_queue@),
                rows(lines@) == notify_lines(all).take(i as int),
            decreases self.event_queue.len() - i,
        {
            let event = &self.event_queue[i];
            let mut line: Vec<char> = Vec::new();
            if event.exit_code == 0 {
                extend_str(&mut line, "\x1b[2m");
                extend_str(&mut line, "[notify]");
                extend_str(&mut line, "\x1b[0m");
                extend_str(&mut line, " task '");
                extend_str(&mut line, event.task_id.as_str());
                extend_str(&mut line, "' completed (exit=0, ");
                extend_seconds(&mut line, event.elapsed_tenths);
                extend_str(&mut line, "s) \u{2014} use zsh_poll to retrieve output");
            } else {
                extend_str(&mut line, "\x1b[33m");
                extend_str(&mut line, "[notify]");
                extend_str(&mut line, "\x1b[0m");
                extend_str(&mut line, " task '");
                extend_str(&mut line, event.task_id.as_str());
                extend_str(&mut line, "' failed (exit=");
                extend_decimal(&mut line, event.exit_code as i64);
                extend_str(&mut line, ", ");
                extend_seconds(&mut line, event.elapsed_tenths);
                extend_str(&mut line, "s) \u{2014} use zsh_poll to retrieve output");
            }
            assert(line@ =~= notify_line(all[i as int]));
            proof {
                lemma_rows_push(lines@, line);
            }
            lines.push(line);
            assert(rows(lines@) =~= notify_lines(all).take(i + 1));
            i += 1;
        }
        assert(notify_lines(all).take(self.event_queue.len() as int) =~= notify_lines(all));
        assert(rows(lines@).skip(0) =~= rows(lines@));
        let text = join_from(&lines, 0, &chars_of("\n"));
        self.event_queue = Vec::new();
        assert(event_texts(self.event_queue@) =~= Seq::<EventText>::empty());
        string_of(&text)
    }

    /// The response with the waiting notifications before it; the queue
    /// is empty afterwards.
    pub fn prepend_events(&mut self, response: &str) -> (r: String)
        ensures
            r@ == with_notices(old(self).board().queue, response@),
            final(self).board() == old(self).board().step(Op::Respond),
            old(self).kept_but_queue(*final(self)),
    {
        let notices = self.drain_events();
        if notices.as_str().is_empty() {
            response.to_owned()
        } else {
            let mut out = chars_of(notices.as_str());
            extend_str(&mut out, "\n\n");
            extend_str(&mut out, response);
            string_of(&out)
        }
    }

    /// Takes note that a sweep found a running task ended: `remaining` is
    /// added to its output and the task is marked as completed. Hands out
    /// what is needed to close it. Nothing is put in the queue yet.
    pub fn collect_if_done(&mut self, task_id: &str, remaining: &str) -> (r: Option<PollOutcome>)
        ensures
            final(self).tasks@ == completed(old(self).tasks@, task_id@, remaining@),
            old(self).tasks.wf() ==> final(self).tasks.wf(),
            hands_out_ended(r, old(self).tasks@, task_id@, remaining@),
            final(self).board().running == old(self).board().running.remove(task_id@),
            old(self).kept_but_tasks(*final(self)),
    {
        self.tasks.complete_task(task_id, remaining)
    }

    /// Removes a running task that was killed and hands it out. `None`,
    /// and nothing changed, where no running task has the id.
    pub fn kill(&mut self, task_id: &str) -> (r: Option<TaskInfo>)
        requires
            old(self).tasks.wf(),
        ensures
            final(self).tasks@ == without_running(old(self).tasks@, task_id@),
            final(self).tasks.wf(),
            final(self).board() == old(self).board().step(Op::Kill { id: task_id@ }),
            old(self).kept_but_tasks(*final(self)),
            match r {
                Some(task) => is_running(old(self).tasks@, task_id@) && task@ == old(
                    self,
                ).tasks@[slot_of(old(self).tasks@, task_id@)] && !final(self).tasks.knows(task_id@),
                None => !is_running(old(self).tasks@, task_id@),
            },
    {
        self.tasks.remove_running(task_id)
    }
}

impl ServerState {
    /// The state of a server that has not run anything yet, for the
    /// session `session_id`: the breaker closed, no tasks, no events.
    pub fn new(config: Config, session_id: &str) -> (r: Self)
        ensures
            r.tasks.wf(),
            r.board().wf(),
            r.board().queue.len() == 0,
            r.tasks@.len() == 0,
            r.circuit_breaker@ == crate::circuit::Breaker::fresh(
                config.neverhang_failure_threshold,
                config.neverhang_recovery_timeout,
                config.neverhang_sample_window,
            ),
            r.session_id@ == session_id@,
            r.db_path@ == config.alan_db_path@,
            r.config == config,
    {
        let circuit_breaker = CircuitBreaker::new(
            config.neverhang_failure_threshold,
            config.neverhang_recovery_timeout,
            config.neverhang_sample_window,
        );
        let db_path = config.alan_db_path.clone();
        let r = ServerState {
            config,
            circuit_breaker,
            session_id: session_id.to_owned(),
            db_path,
            tasks: TaskRegistry::new(),
            event_queue: Vec::new(),
        };
        proof {
            assert(event_texts(r.event_queue@) =~= Seq::<EventText>::empty());
            assert forall|id: Seq<char>| #[trigger]
                crate::serve::notices::count_for(r.board().queue, id) <= 1 && (
                r.board().running.contains(id) ==> crate::serve::notices::count_for(
                    r.board().queue,
                    id,
                ) == 0) by {}
        }
        r
    }
}

} // verus!
