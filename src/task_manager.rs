//! Bookkeeping of running progress tasks: which connection started each
//! one, the handle that cancels it, and the replies that a task's outcome
//! calls for.

use vstd::prelude::*;

use crate::errors::{CommandError, ServerError};
use crate::message::{Message, Payload};
use crate::table::{
    lemma_pairs_map_dom, lemma_pairs_map_index, lemma_pairs_map_push, lemma_pairs_map_remove,
    lemma_pairs_map_update, pairs_map, unique_keys,
};
use crate::text::{chars_eq, chars_of, string_of};

verus! {

/// How a progress task came to an end.
#[derive(Clone, Copy, Debug, PartialEq, Eq, Structural)]
pub enum TaskStatus {
    /// It finished on its own.
    End,
    /// It is to be cancelled.
    Abort,
}

/// A notice about one progress task, handled in the order it was sent.
pub struct TaskControl {
    pub pid: String,
    pub status: TaskStatus,
}

struct Disposer<T> {
    pid: String,
    owner: String,
    abort: T,
}

/// The running progress tasks: for each task id, the id of the connection
/// that started it and the handle that cancels it. Ids are unique.
pub struct DisposerTable<T> {
    disposers: Vec<Disposer<T>>,
}

/// `m` after each of `pids` was removed in turn.
pub open spec fn remove_each(m: Map<Seq<char>, Seq<char>>, pids: Seq<Seq<char>>) -> Map<Seq<char>, Seq<char>>
    decreases pids.len(),
{
    if pids.len() == 0 {
        m
    } else {
        remove_each(m, pids.drop_last()).remove(pids.last())
    }
}

/// Removing keys one by one keeps the other keys and their values.
pub proof fn lemma_remove_each(m: Map<Seq<char>, Seq<char>>, pids: Seq<Seq<char>>)
    ensures
        forall|k: Seq<char>|
            #[trigger] remove_each(m, pids).contains_key(k) ==> m.contains_key(k) && remove_each(m, pids)[k] == m[k],
        forall|i: int| 0 <= i < pids.len() ==> !remove_each(m, pids).contains_key(#[trigger] pids[i]),
        forall|k: Seq<char>|
            m.contains_key(k) && (forall|i: int| 0 <= i < pids.len() ==> #[trigger] pids[i] != k)
                ==> #[trigger] remove_each(m, pids).contains_key(k),
    decreases pids.len(),
{
    if pids.len() > 0 {
        let t = pids.drop_last();
        lemma_remove_each(m, t);
        assert forall|k: Seq<char>|
            #[trigger] remove_each(m, pids).contains_key(k) implies m.contains_key(k) && remove_each(m, pids)[k] == m[k] by {
            assert(remove_each(m, t).contains_key(k));
        }
        assert forall|i: int| 0 <= i < pids.len() implies !remove_each(m, pids).contains_key(#[trigger] pids[i]) by {
            if i < pids.len() - 1 {
                assert(t[i] == pids[i]);
            }
        }
        assert forall|k: Seq<char>|
            m.contains_key(k) && (forall|i: int| 0 <= i < pids.len() ==> #[trigger] pids[i] != k)
            implies #[trigger] remove_each(m, pids).contains_key(k) by {
            assert forall|i: int| 0 <= i < t.len() implies #[trigger] t[i] != k by {
                assert(t[i] == pids[i]);
            }
            assert(pids[pids.len() - 1] != k);
            assert(remove_each(m, t).contains_key(k));
        }
    }
}

/// Once `{pid, Abort}` has been handled for every task that a connection
/// started, none of its tasks is left in the table, and the tasks of other
/// connections are untouched.
pub proof fn lemma_aborts_clear_connection(
    m: Map<Seq<char>, Seq<char>>,
    owner: Seq<char>,
    pids: Seq<Seq<char>>,
)
    requires
        forall|k: Seq<char>| #[trigger] m.contains_key(k) && m[k] == owner ==> pids.contains(k),
        forall|i: int| 0 <= i < pids.len() ==> #[trigger] m.contains_key(pids[i]) && m[pids[i]] == owner,
    ensures
        forall|k: Seq<char>| #[trigger] remove_each(m, pids).contains_key(k) ==> remove_each(m, pids)[k] != owner,
        forall|k: Seq<char>|
            m.contains_key(k) && m[k] != owner ==> #[trigger] remove_each(m, pids).contains_key(k)
                && remove_each(m, pids)[k] == m[k],
{
    lemma_remove_each(m, pids);
    assert forall|k: Seq<char>| #[trigger] remove_each(m, pids).contains_key(k) implies remove_each(m, pids)[k] != owner by {
        if m[k] == owner {
            assert(m.contains_key(k));
            let i = choose|i: int| 0 <= i < pids.len() && pids[i] == k;
            assert(!remove_each(m, pids).contains_key(pids[i]));
        }
    }
    assert forall|k: Seq<char>| m.contains_key(k) && m[k] != owner implies #[trigger] remove_each(m, pids).contains_key(k)
        && remove_each(m, pids)[k] == m[k] by {
        assert forall|i: int| 0 <= i < pids.len() implies #[trigger] pids[i] != k by {
            let x = pids[i];
            assert(m.contains_key(x) && m[x] == owner);
        }
    }
}

impl<T> DisposerTable<T> {
    closed spec fn pairs(&self) -> Seq<(Seq<char>, Seq<char>)> {
        self.disposers@.map_values(|d: Disposer<T>| (d.pid@, d.owner@))
    }

    closed spec fn handle_pairs(&self) -> Seq<(Seq<char>, T)> {
        self.disposers@.map_values(|d: Disposer<T>| (d.pid@, d.abort))
    }

    /// The table is well formed: no task id occurs twice.
    pub closed spec fn wf(&self) -> bool {
        &&& unique_keys(self.pairs())
        &&& unique_keys(self.handle_pairs())
    }

    /// For each running task id, the handle that cancels it.
    pub closed spec fn handles(&self) -> Map<Seq<char>, T> {
        pairs_map(self.handle_pairs())
    }

    /// The running tasks are the same in both views of the table.
    pub proof fn lemma_same_tasks(&self)
        requires
            self.wf(),
        ensures
            self.handles().dom() == self.view().dom(),
    {
        lemma_pairs_map_dom(self.pairs());
        lemma_pairs_map_dom(self.handle_pairs());
        assert forall|k: Seq<char>| self.handles().dom().contains(k) == self.view().dom().contains(k) by {
            if self.handles().dom().contains(k) {
                let i = choose|i: int| 0 <= i < self.handle_pairs().len() && self.handle_pairs()[i].0 == k;
                assert(self.pairs()[i].0 == k);
            }
            if self.view().dom().contains(k) {
                let i = choose|i: int| 0 <= i < self.pairs().len() && self.pairs()[i].0 == k;
                assert(self.handle_pairs()[i].0 == k);
            }
        }
        assert(self.handles().dom() =~= self.view().dom());
    }

    /// For each running task id, the connection that started it.
    pub closed spec fn view(&self) -> Map<Seq<char>, Seq<char>> {
        pairs_map(self.pairs())
    }

    /// No task is running.
    pub fn new() -> (r: DisposerTable<T>)
        ensures
            r.wf(),
            r.view() == Map::<Seq<char>, Seq<char>>::empty(),
            r.handles() == Map::<Seq<char>, T>::empty(),
    {
        let r = DisposerTable { disposers: Vec::new() };
        assert(r.pairs() =~= Seq::<(Seq<char>, Seq<char>)>::empty());
        assert(r.handle_pairs() =~= Seq::<(Seq<char>, T)>::empty());
        r
    }

    fn find(&self, pid: &Vec<char>) -> (r: Option<usize>)
        requires
            self.wf(),
        ensures
            match r {
                Some(i) => i < self.disposers@.len() && self.pairs()[i as int].0 == pid@
                    && self.handle_pairs()[i as int].0 == pid@,
                None => !self.view().contains_key(pid@),
            },
    {
        let mut i: usize = 0;
        while i < self.disposers.len()
            invariant
                i <= self.disposers@.len(),
                forall|j: int| 0 <= j < i ==> self.pairs()[j].0 != pid@,
            decreases self.disposers@.len() - i,
        {
            if chars_eq(&chars_of(self.disposers[i].pid.as_str()), pid) {
                return Some(i);
            }
            i += 1;
        }
        proof {
            lemma_pairs_map_dom(self.pairs());
        }
        None
    }

    /// Records the task `pid`, started by connection `owner`, with the handle
    /// that cancels it; a task already recorded under `pid` is replaced.
    pub fn register(&mut self, pid: String, owner: String, abort: T)
        requires
            old(self).wf(),
        ensures
            final(self).wf(),
            final(self).view() == old(self).view().insert(pid@, owner@),
            final(self).handles() == old(self).handles().insert(pid@, abort),
    {
        let key = chars_of(pid.as_str());
        let ghost old_pairs = self.pairs();
        let ghost old_hp = self.handle_pairs();
        let ghost h = abort;
        match self.find(&key) {
            Some(i) => {
                let d = Disposer { pid, owner, abort };
                let ghost entry = (d.pid@, d.owner@);
                self.disposers.set(i, d);
                proof {
                    lemma_pairs_map_update(old_pairs, i as int, entry.1);
                    assert(self.pairs() =~= old_pairs.update(i as int, (old_pairs[i as int].0, entry.1)));
                    lemma_pairs_map_update(old_hp, i as int, h);
                    assert(self.handle_pairs() =~= old_hp.update(i as int, (old_hp[i as int].0, h)));
                }
            },
            None => {
                let d = Disposer { pid, owner, abort };
                let ghost entry = (d.pid@, d.owner@);
                self.disposers.push(d);
                proof {
                    lemma_pairs_map_push(old_pairs, entry.0, entry.1);
                    assert(self.pairs() =~= old_pairs.push(entry));
                    old(self).lemma_same_tasks();
                    lemma_pairs_map_push(old_hp, entry.0, h);
                    assert(self.handle_pairs() =~= old_hp.push((entry.0, h)));
                }
            },
        }
    }

    /// Handles a notice about task `ctrl.pid`: its record is removed
    /// whether it ended or is to be cancelled. The handle registered for that
    /// task comes back when it is to be cancelled, for the caller to run; a
    /// task no longer recorded is ignored. The other tasks keep their
    /// records and handles.
    pub fn control(&mut self, ctrl: &TaskControl) -> (r: Option<T>)
        requires
            old(self).wf(),
        ensures
            final(self).wf(),
            final(self).view() == old(self).view().remove(ctrl.pid@),
            final(self).handles() == old(self).handles().remove(ctrl.pid@),
            ctrl.status == TaskStatus::Abort && old(self).view().contains_key(ctrl.pid@) ==> r == Some(
                old(self).handles()[ctrl.pid@],
            ),
            !(ctrl.status == TaskStatus::Abort && old(self).view().contains_key(ctrl.pid@)) ==> r is None,
    {
        let key = chars_of(ctrl.pid.as_str());
        let ghost old_pairs = self.pairs();
        let ghost old_hp = self.handle_pairs();
        proof {
            old(self).lemma_same_tasks();
        }
        match self.find(&key) {
            Some(i) => {
                let d = self.disposers.remove(i);
                proof {
                    lemma_pairs_map_remove(old_pairs, i as int);
                    assert(self.pairs() =~= old_pairs.remove(i as int));
                    lemma_pairs_map_index(old_pairs, i as int);
                    lemma_pairs_map_remove(old_hp, i as int);
                    assert(self.handle_pairs() =~= old_hp.remove(i as int));
                    lemma_pairs_map_index(old_hp, i as int);
                    assert(old_hp[i as int].1 == d.abort);
                }
                match ctrl.status {
                    TaskStatus::Abort => Some(d.abort),
                    TaskStatus::End => None,
                }
            },
            None => {
                assert(self.view() =~= self.view().remove(ctrl.pid@));
                assert(self.handles() =~= self.handles().remove(ctrl.pid@));
                None
            },
        }
    }

    /// The ids of the tasks that connection `owner` started, each once.
    pub fn pids_of(&self, owner: &str) -> (r: Vec<String>)
        requires
            self.wf(),
        ensures
            forall|a: int| 0 <= a < r@.len() ==> #[trigger] self.view().contains_key(r@[a]@)
                && self.view()[r@[a]@] == owner@,
            forall|k: Seq<char>| #[trigger] self.view().contains_key(k) && self.view()[k] == owner@
                ==> exists|a: int| 0 <= a < r@.len() && r@[a]@ == k,
            forall|a: int, b: int| 0 <= a < b < r@.len() ==> r@[a]@ != r@[b]@,
    {
        let oc = chars_of(owner);
        let mut r: Vec<String> = Vec::new();
        let mut i: usize = 0;
        let ghost s = self.pairs();
        let ghost mut idx: Seq<int> = Seq::empty();
        while i < self.disposers.len()
            invariant
                s == self.pairs(),
                unique_keys(s),
                i <= s.len(),
                s.len() == self.disposers@.len(),
                oc@ == owner@,
                idx.len() == r@.len(),
                forall|a: int| 0 <= a < r@.len() ==> 0 <= #[trigger] idx[a] < i && s[idx[a]].0 == r@[a]@
                    && s[idx[a]].1 == owner@,
                forall|a: int, b: int| 0 <= a < b < r@.len() ==> #[trigger] idx[a] < #[trigger] idx[b],
                forall|j: int| 0 <= j < i && (#[trigger] s[j]).1 == owner@ ==> exists|a: int| 0 <= a < r@.len()
                    && idx[a] == j,
            decreases s.len() - i,
        {
            let d = &self.disposers[i];
            assert(s[i as int] == (d.pid@, d.owner@));
            if chars_eq(&chars_of(d.owner.as_str()), &oc) {
                let ghost before = r@;
                let ghost old_idx = idx;
                let p = string_of(&chars_of(d.pid.as_str()));
                r.push(p);
                proof {
                    idx = idx.push(i as int);
                    assert forall|a: int| 0 <= a < r@.len() implies 0 <= #[trigger] idx[a] < i + 1 && s[idx[a]].0
                        == r@[a]@ && s[idx[a]].1 == owner@ by {
                        if a < before.len() {
                            assert(r@[a] == before[a] && idx[a] == old_idx[a]);
                        }
                    }
                    assert forall|a: int, b: int| 0 <= a < b < r@.len() implies #[trigger] idx[a] < #[trigger] idx[b] by {
                        assert(idx[a] == old_idx[a]);
                        if b < before.len() {
                            assert(idx[b] == old_idx[b]);
                        }
                    }
                    assert forall|j: int| 0 <= j < i + 1 && (#[trigger] s[j]).1 == owner@ implies exists|a: int|
                        0 <= a < r@.len() && idx[a] == j by {
                        if j < i {
                            let a = choose|a: int| 0 <= a < old_idx.len() && old_idx[a] == j;
                            assert(idx[a] == old_idx[a]);
                        } else {
                            assert(idx[before.len() as int] == j);
                        }
                    }
                }
            }
            i += 1;
        }
        proof {
            lemma_pairs_map_dom(s);
            assert forall|a: int| 0 <= a < r@.len() implies #[trigger] self.view().contains_key(r@[a]@)
                && self.view()[r@[a]@] == owner@ by {
                lemma_pairs_map_index(s, idx[a]);
            }
            assert forall|k: Seq<char>| #[trigger] self.view().contains_key(k) && self.view()[k] == owner@
                implies exists|a: int| 0 <= a < r@.len() && r@[a]@ == k by {
                let j = choose|j: int| 0 <= j < s.len() && s[j].0 == k;
                lemma_pairs_map_index(s, j);
                assert(s[j].1 == owner@);
                let a = choose|a: int| 0 <= a < r@.len() && idx[a] == j;
                assert(r@[a]@ == k);
            }
            assert forall|a: int, b: int| 0 <= a < b < r@.len() implies r@[a]@ != r@[b]@ by {
                assert(idx[a] < idx[b]);
                assert(s[idx[a]].0 != s[idx[b]].0);
            }
        }
        r
    }

    /// The notices that cancel every task connection `owner` started: one
    /// `{pid, Abort}` for each.
    pub fn drop_all_disposers(&self, owner: &str) -> (r: Vec<TaskControl>)
        requires
            self.wf(),
        ensures
            forall|a: int| 0 <= a < r@.len() ==> #[trigger] self.view().contains_key(r@[a].pid@)
                && self.view()[r@[a].pid@] == owner@ && r@[a].status == TaskStatus::Abort,
            forall|k: Seq<char>| #[trigger] self.view().contains_key(k) && self.view()[k] == owner@
                ==> exists|a: int| 0 <= a < r@.len() && r@[a].pid@ == k,
            forall|a: int, b: int| 0 <= a < b < r@.len() ==> r@[a].pid@ != r@[b].pid@,
    {
        let pids = self.pids_of(owner);
        let mut r: Vec<TaskControl> = Vec::new();
        let mut i: usize = 0;
        while i < pids.len()
            invariant
                i <= pids@.len(),
                r@.len() == i,
                forall|a: int| 0 <= a < i ==> (#[trigger] r@[a]).pid@ == pids@[a]@ && r@[a].status
                    == TaskStatus::Abort,
            decreases pids@.len() - i,
        {
            let c = TaskControl { pid: string_of(&chars_of(pids[i].as_str())), status: TaskStatus::Abort };
            r.push(c);
            i += 1;
        }
        proof {
            assert forall|k: Seq<char>| #[trigger] self.view().contains_key(k) && self.view()[k] == owner@
                implies exists|a: int| 0 <= a < r@.len() && r@[a].pid@ == k by {
                let a = choose|a: int| 0 <= a < pids@.len() && pids@[a]@ == k;
                assert(r@[a].pid@ == k);
            }
            assert forall|a: int, b: int| 0 <= a < b < r@.len() implies r@[a].pid@ != r@[b].pid@ by {
                assert(r@[a].pid@ == pids@[a]@ && r@[b].pid@ == pids@[b]@);
            }
            assert forall|a: int| 0 <= a < r@.len() implies #[trigger] self.view().contains_key(r@[a].pid@)
                && self.view()[r@[a].pid@] == owner@ && r@[a].status == TaskStatus::Abort by {
                assert(r@[a].pid@ == pids@[a]@);
                assert(self.view().contains_key(pids@[a]@));
            }
        }
        r
    }
}

/// A task that succeeded with nothing to report.
pub struct SuccessTaskResult {}

/// A task that failed.
pub struct ErrorTaskResult {
    pub err: ServerError,
}

/// A task that answered with data, under a status (`SUCCESS` if none).
pub struct DataTaskResult {
    pub data: Payload,
    pub status: Option<String>,
}

/// A task that started the progress task `pid`, cancelled by `dispose`.
pub struct ProgressTaskResult<T> {
    pub pid: String,
    pub dispose: T,
}

/// What a task hands back when it runs.
pub enum TaskResult<T> {
    Success(SuccessTaskResult),
    Error(ErrorTaskResult),
    Data(DataTaskResult),
    Progress(ProgressTaskResult<T>),
}

impl<T> TaskResult<T> {
    pub fn success() -> (r: TaskResult<T>)
        ensures
            r is Success,
    {
        TaskResult::Success(SuccessTaskResult {})
    }

    pub fn error(err: ServerError) -> (r: TaskResult<T>)
        ensures
            r matches TaskResult::Error(e) && e.err == err,
    {
        TaskResult::Error(ErrorTaskResult { err })
    }

    pub fn data(data: Payload, status: Option<String>) -> (r: TaskResult<T>)
        ensures
            r matches TaskResult::Data(d) && d.data == data && d.status == status,
    {
        TaskResult::Data(DataTaskResult { data, status })
    }

    pub fn progress(pid: String, dispose: T) -> (r: TaskResult<T>)
        ensures
            r matches TaskResult::Progress(p) && p.pid == pid && p.dispose == dispose,
    {
        TaskResult::Progress(ProgressTaskResult { pid, dispose })
    }
}

/// Whether a command may run: its task must be registered, and accept
/// the command's arguments.
pub fn find_task(registered: bool, args_valid: bool) -> (r: Result<(), CommandError>)
    ensures
        !registered ==> r == Err::<(), CommandError>(CommandError::NotFound),
        registered && !args_valid ==> r == Err::<(), CommandError>(CommandError::Args),
        registered && args_valid ==> r is Ok,
{
    if !registered {
        Err(CommandError::NotFound)
    } else if !args_valid {
        Err(CommandError::Args)
    } else {
        Ok(())
    }
}

/// What to do once a task has run: the message to send, and a progress
/// task to record once that message went out; or the failure to report.
pub enum Reply<T> {
    Send(Message, Option<(String, T)>),
    Fail(ServerError),
}

/// The reply that the outcome of command `cid` calls for: a success
/// message, a data message (status `SUCCESS` unless the task chose one), a
/// message that the progress task started (whose task is recorded only after
/// that message was sent, so the client knows the id first), or the error.
pub fn reply_for<T>(cid: &str, outcome: TaskResult<T>) -> (r: Reply<T>)
    ensures
        match outcome {
            TaskResult::Success(_) => r matches Reply::Send(m, None) && m.cid@ == cid@ && m.status@ == "SUCCESS"@
                && m.data is Empty,
            TaskResult::Data(d) => r matches Reply::Send(m, None) && m.cid@ == cid@ && m.data == d.data
                && m.status@ == (match d.status {
                Some(s) => s@,
                None => "SUCCESS"@,
            }),
            TaskResult::Progress(p) => r matches Reply::Send(m, Some(q)) && m.cid@ == cid@
                && m.status@ == "PROGRESS_TASK"@ && (m.data matches Payload::Pid { pid: x } && x@ == p.pid@)
                && q.0@ == p.pid@ && q.1 == p.dispose,
            TaskResult::Error(e) => r matches Reply::Fail(f) && f == e.err,
        },
{
    match outcome {
        TaskResult::Success(_) => Reply::Send(Message::success(cid), None),
        TaskResult::Data(d) => {
            let status = match d.status {
                Some(s) => s,
                None => crate::message::status_of(crate::message::MessageKind::Success),
            };
            Reply::Send(Message::data(cid, status.as_str(), d.data), None)
        },
        TaskResult::Progress(p) => {
            let m = Message::progress_task(cid, p.pid.as_str());
            Reply::Send(m, Some((p.pid, p.dispose)))
        },
        TaskResult::Error(e) => Reply::Fail(e.err),
    }
}

/// The message that reports the failure `err` (text `msg`) of command
/// `cid`; none when the failure is of the outbound channel itself.
pub fn error_reply(cid: &str, err: &ServerError, msg: &str) -> (r: Option<Message>)
    ensures
        err.is_send_failure_view() ==> r is None,
        !err.is_send_failure_view() ==> (r matches Some(m) && m.cid@ == cid@ && m.status@ == "ERROR"@
            && (m.data matches Payload::Error { code, msg: t } && code@ == err.code_view() && t@ == msg@)),
{
    if err.is_send_failure() {
        None
    } else {
        Some(Message::error(cid, err, msg))
    }
}

} // verus!
