use vstd::prelude::*;
use crate::error::{io_code, io_error_code, is_plain_error, AppError, ErrorCode, IoErrorKind};
use crate::observability::now_ms;
use crate::search::{
    same_batch, SearchErrorSummary, SearchRequest, SearchResultBatch, SearchTaskSnapshot, TaskId,
};
use crate::text::{
    clone_opt_string, clone_strings, decimal, decimal_string, join2, join4, lemma_stamps_differ, stamp,
    str_eq,
};
use crate::types::{FileTask, TaskStatus};

verus! {

/// The state of a file task together with what it has done so far.
#[derive(Clone, Debug, PartialEq)]
pub struct TaskSummary {
    pub id: String,
    pub kind: String,
    pub status: TaskStatus,
    pub message: Option<String>,
    pub completed_items: Vec<String>,
    pub incomplete_items: Vec<String>,
    pub unknown_items: Vec<String>,
    pub can_cancel: bool,
}

/// A task in one of these states has finished for good.
pub open spec fn is_terminal(s: TaskStatus) -> bool {
    match s {
        TaskStatus::Cancelled | TaskStatus::Completed | TaskStatus::Failed
        | TaskStatus::PartiallyCompleted => true,
        _ => false,
    }
}

/// The state machine of tasks: which state may follow which.
pub open spec fn allowed_next(from: TaskStatus, to: TaskStatus) -> bool {
    match from {
        TaskStatus::Queued => to == TaskStatus::Validating || to == TaskStatus::Cancelling,
        TaskStatus::Validating => to == TaskStatus::Running || to == TaskStatus::Failed
            || to == TaskStatus::Cancelling,
        TaskStatus::Running => to == TaskStatus::WaitingForConflictDecision || to
            == TaskStatus::Cancelling || to == TaskStatus::Completed || to == TaskStatus::Failed
            || to == TaskStatus::PartiallyCompleted,
        TaskStatus::WaitingForConflictDecision => to == TaskStatus::Running || to
            == TaskStatus::Cancelling || to == TaskStatus::Failed,
        TaskStatus::Cancelling => to == TaskStatus::Cancelled || to
            == TaskStatus::PartiallyCompleted || to == TaskStatus::Failed,
        _ => false,
    }
}

/// The name of a state as its `Debug` form writes it.
pub open spec fn status_name(s: TaskStatus) -> Seq<char> {
    match s {
        TaskStatus::Queued => "Queued"@,
        TaskStatus::Validating => "Validating"@,
        TaskStatus::Running => "Running"@,
        TaskStatus::WaitingForConflictDecision => "WaitingForConflictDecision"@,
        TaskStatus::Cancelling => "Cancelling"@,
        TaskStatus::Cancelled => "Cancelled"@,
        TaskStatus::Completed => "Completed"@,
        TaskStatus::Failed => "Failed"@,
        TaskStatus::PartiallyCompleted => "PartiallyCompleted"@,
    }
}

/// Whether `s` is a final state.
pub fn status_is_terminal(s: TaskStatus) -> (r: bool)
    ensures
        r == is_terminal(s),
{
    match s {
        TaskStatus::Cancelled | TaskStatus::Completed | TaskStatus::Failed
        | TaskStatus::PartiallyCompleted => true,
        _ => false,
    }
}

/// Whether the state machine lets a task go from `from` to `to`.
pub fn transition_allowed(from: TaskStatus, to: TaskStatus) -> (r: bool)
    ensures
        r == allowed_next(from, to),
{
    match from {
        TaskStatus::Queued => to == TaskStatus::Validating || to == TaskStatus::Cancelling,
        TaskStatus::Validating => to == TaskStatus::Running || to == TaskStatus::Failed || to
            == TaskStatus::Cancelling,
        TaskStatus::Running => to == TaskStatus::WaitingForConflictDecision || to
            == TaskStatus::Cancelling || to == TaskStatus::Completed || to == TaskStatus::Failed
            || to == TaskStatus::PartiallyCompleted,
        TaskStatus::WaitingForConflictDecision => to == TaskStatus::Running || to
            == TaskStatus::Cancelling || to == TaskStatus::Failed,
        TaskStatus::Cancelling => to == TaskStatus::Cancelled || to
            == TaskStatus::PartiallyCompleted || to == TaskStatus::Failed,
        _ => false,
    }
}

/// The `Debug` name of a state.
pub fn status_debug_name(s: TaskStatus) -> (r: &'static str)
    ensures
        r@ == status_name(s),
{
    match s {
        TaskStatus::Queued => "Queued",
        TaskStatus::Validating => "Validating",
        TaskStatus::Running => "Running",
        TaskStatus::WaitingForConflictDecision => "WaitingForConflictDecision",
        TaskStatus::Cancelling => "Cancelling",
        TaskStatus::Cancelled => "Cancelled",
        TaskStatus::Completed => "Completed",
        TaskStatus::Failed => "Failed",
        TaskStatus::PartiallyCompleted => "PartiallyCompleted",
    }
}

/// Two summaries hold the same values (item lists compared by contents).
pub open spec fn same_summary(a: TaskSummary, b: TaskSummary) -> bool {
    &&& a.id == b.id
    &&& a.kind == b.kind
    &&& a.status == b.status
    &&& a.message == b.message
    &&& a.completed_items@ == b.completed_items@
    &&& a.incomplete_items@ == b.incomplete_items@
    &&& a.unknown_items@ == b.unknown_items@
    &&& a.can_cancel == b.can_cancel
}

impl TaskSummary {
    /// An exact copy.
    pub fn duplicate(&self) -> (r: TaskSummary)
        ensures
            same_summary(r, *self),
    {
        TaskSummary {
            id: self.id.clone(),
            kind: self.kind.clone(),
            status: self.status,
            message: clone_opt_string(&self.message),
            completed_items: clone_strings(&self.completed_items),
            incomplete_items: clone_strings(&self.incomplete_items),
            unknown_items: clone_strings(&self.unknown_items),
            can_cancel: self.can_cancel,
        }
    }
}

/// What a transition of `current` to `next` yields when it is allowed.
pub open spec fn moved_summary(current: TaskSummary, next: TaskStatus) -> TaskSummary {
    TaskSummary { status: next, can_cancel: !is_terminal(next), ..current }
}

/// Moves a task to `next_status`.
/// Asking for the current state again gives the task back unchanged; a
/// finished task cannot move; otherwise the state machine decides. A moved
/// task keeps its id, kind, message and item lists, and can be cancelled
/// exactly while it has not finished.
pub fn apply_task_transition(current: &TaskSummary, next_status: TaskStatus) -> (r: Result<
    TaskSummary,
    AppError,
>)
    ensures
        current.status == next_status ==> (r matches Ok(s) && same_summary(s, *current)),
        current.status != next_status && is_terminal(current.status) ==> (r matches Err(e)
            && e.code == ErrorCode::InternalError && !e.retryable && e.refresh_suggestion.is_none()
            && e.message@ == "终态任务不能再次迁移: "@ + current.id@ + " -> "@ + status_name(
            next_status)),
        current.status != next_status && !is_terminal(current.status) && !allowed_next(
            current.status,
            next_status,
        ) ==> (r matches Err(e) && e.code == ErrorCode::InternalError && !e.retryable
            && e.refresh_suggestion.is_none() && e.message@ == "非法任务迁移: "@ + status_name(
            current.status) + " -> "@ + status_name(next_status)),
        current.status != next_status && allowed_next(current.status, next_status) ==> (r matches Ok(
            s,
        ) && same_summary(s, moved_summary(*current, next_status))),
{
    if current.status == next_status {
        return Ok(current.duplicate());
    }
    if status_is_terminal(current.status) {
        let msg = join4(
            "终态任务不能再次迁移: ",
            current.id.as_str(),
            " -> ",
            status_debug_name(next_status),
        );
        return Err(AppError::new(ErrorCode::InternalError, msg));
    }
    if !transition_allowed(current.status, next_status) {
        let msg = join4(
            "非法任务迁移: ",
            status_debug_name(current.status),
            " -> ",
            status_debug_name(next_status),
        );
        return Err(AppError::new(ErrorCode::InternalError, msg));
    }
    let mut next = current.duplicate();
    next.status = next_status;
    next.can_cancel = !status_is_terminal(next_status);
    Ok(next)
}

} // verus!

verus! {

// ---------------------------------------------------------------------------
// Search tasks
// ---------------------------------------------------------------------------

/// A search task: its request, its state, whether a cancel was asked for,
/// and the batches published so far.
#[derive(Debug)]
pub struct SearchTask {
    pub id: String,
    pub request: SearchRequest,
    pub status: TaskStatus,
    pub cancel_requested: bool,
    pub batches: Vec<SearchResultBatch>,
}

/// The identifier of the search task made at `ts` (ms since the epoch) as
/// the `seq`-th of the registry: `search-{ts}-{seq}`.
pub open spec fn search_id(ts: u64, seq: u64) -> Seq<char> {
    stamp("search-"@, ts, seq)
}

/// Some task in `s` has identifier `id`.
pub open spec fn holds_search(s: Seq<SearchTask>, id: Seq<char>) -> bool {
    exists|i: int| 0 <= i < s.len() && s[i].id@ == id
}

/// No two tasks in `s` share an identifier.
pub open spec fn distinct_search_ids(s: Seq<SearchTask>) -> bool {
    forall|i: int, j: int| 0 <= i < s.len() && 0 <= j < s.len() && i != j ==> s[i].id@ != s[j].id@
}

/// The task of `s` with identifier `id`, if there is one.
pub open spec fn search_lookup(s: Seq<SearchTask>, id: Seq<char>) -> Option<SearchTask> {
    if holds_search(s, id) {
        Some(s[choose|i: int| 0 <= i < s.len() && s[i].id@ == id])
    } else {
        None
    }
}

/// `after` is `before` without its task `id` (unchanged if there is none).
pub open spec fn drops_search(before: Seq<SearchTask>, after: Seq<SearchTask>, id: Seq<char>) -> bool {
    if holds_search(before, id) {
        exists|i: int| 0 <= i < before.len() && before[i].id@ == id && after == before.remove(i)
    } else {
        after == before
    }
}

/// `after` is `before` with its task `id` changed as `rel` allows, and
/// every other task as it was (unchanged if there is no task `id`).
pub open spec fn changes_search(
    before: Seq<SearchTask>,
    after: Seq<SearchTask>,
    id: Seq<char>,
    rel: spec_fn(SearchTask, SearchTask) -> bool,
) -> bool {
    if holds_search(before, id) {
        exists|i: int|
            0 <= i < before.len() && before[i].id@ == id && after.len() == before.len() && (forall|
                j: int,
            |
                0 <= j < before.len() && j != i ==> after[j] == before[j]) && #[trigger] rel(
                before[i],
                after[i],
            )
    } else {
        after == before
    }
}

/// `b` is `a` with another status.
pub open spec fn with_status(a: SearchTask, b: SearchTask, status: TaskStatus) -> bool {
    b == SearchTask { status: status, ..a }
}

/// `b` is `a` with one more batch published.
pub open spec fn with_batch(a: SearchTask, b: SearchTask, batch: SearchResultBatch) -> bool {
    &&& b.id == a.id
    &&& b.request == a.request
    &&& b.status == a.status
    &&& b.cancel_requested == a.cancel_requested
    &&& b.batches@ == a.batches@.push(batch)
}

/// `b` is the batch that reports the failure `error` of the search for
/// `request`: no matches, one error on the root.
pub open spec fn is_failure_batch(b: SearchResultBatch, task_id: TaskId, request: SearchRequest, error: AppError) -> bool {
    &&& b.task_id == task_id
    &&& b.root_path == request.root_path
    &&& b.query == request.query
    &&& b.recursive == request.recursive
    &&& b.snapshot_version == request.snapshot_version
    &&& b.matches@.len() == 0
    &&& b.error_summaries@ == seq![SearchErrorSummary { path: request.root_path, error: error }]
}

/// `b` is `a` failed with `error`.
pub open spec fn with_failure(a: SearchTask, b: SearchTask, task_id: TaskId, error: AppError) -> bool {
    &&& b.id == a.id
    &&& b.request == a.request
    &&& b.status == TaskStatus::Failed
    &&& b.cancel_requested == a.cancel_requested
    &&& b.batches@.len() == a.batches@.len() + 1
    &&& b.batches@.drop_last() == a.batches@
    &&& is_failure_batch(b.batches@.last(), task_id, a.request, error)
}

/// What a cancel does to a task: a finished task stays as it is; any other
/// is marked as asked to cancel and moves to `Cancelling`.
pub open spec fn cancelled_task(a: SearchTask) -> SearchTask {
    if is_terminal(a.status) {
        a
    } else {
        SearchTask { status: TaskStatus::Cancelling, cancel_requested: true, ..a }
    }
}

/// With distinct identifiers, the task at `i` is the one found by its
/// identifier.
pub proof fn lemma_search_lookup_at(s: Seq<SearchTask>, i: int)
    requires
        distinct_search_ids(s),
        0 <= i < s.len(),
    ensures
        search_lookup(s, s[i].id@) == Some(s[i]),
{
    let id = s[i].id@;
    assert(holds_search(s, id));
    let j = choose|j: int| 0 <= j < s.len() && s[j].id@ == id;
    assert(j == i);
}

proof fn lemma_remove_keeps_distinct_search(s: Seq<SearchTask>, i: int)
    requires
        distinct_search_ids(s),
        0 <= i < s.len(),
    ensures
        distinct_search_ids(s.remove(i)),
        !holds_search(s.remove(i), s[i].id@),
{
    let r = s.remove(i);
    s.remove_ensures(i);
    assert forall|a: int, b: int| 0 <= a < r.len() && 0 <= b < r.len() && a != b implies r[a].id@
        != r[b].id@ by {
        let a2 = if a < i {
            a
        } else {
            a + 1
        };
        let b2 = if b < i {
            b
        } else {
            b + 1
        };
        assert(r[a] == s[a2]);
        assert(r[b] == s[b2]);
    }
    assert forall|a: int| 0 <= a < r.len() implies r[a].id@ != s[i].id@ by {
        let a2 = if a < i {
            a
        } else {
            a + 1
        };
        assert(r[a] == s[a2]);
    }
}

/// A change of one task that keeps its identifier keeps the identifiers
/// distinct, finds the changed task under the identifier, and leaves what
/// every other identifier finds.
pub proof fn lemma_changes_search(
    before: Seq<SearchTask>,
    after: Seq<SearchTask>,
    id: Seq<char>,
    rel: spec_fn(SearchTask, SearchTask) -> bool,
)
    requires
        distinct_search_ids(before),
        changes_search(before, after, id, rel),
        forall|a: SearchTask, b: SearchTask| #[trigger] rel(a, b) ==> b.id@ == a.id@,
    ensures
        distinct_search_ids(after),
        holds_search(after, id) == holds_search(before, id),
        holds_search(before, id) ==> rel(search_lookup(before, id)->0, search_lookup(after, id)->0),
        forall|k: Seq<char>| k != id ==> #[trigger] search_lookup(after, k) == search_lookup(before, k),
{
    if holds_search(before, id) {
        let i = choose|i: int|
            0 <= i < before.len() && before[i].id@ == id && after.len() == before.len() && (forall|
                j: int,
            |
                0 <= j < before.len() && j != i ==> after[j] == before[j]) && #[trigger] rel(
                before[i],
                after[i],
            );
        assert forall|a: int| 0 <= a < after.len() implies after[a].id@ == before[a].id@ by {
            if a == i {
                assert(rel(before[i], after[i]));
            }
        }
        lemma_search_lookup_at(before, i);
        lemma_search_lookup_at(after, i);
        assert forall|k: Seq<char>| k != id implies #[trigger] search_lookup(after, k) == search_lookup(
            before,
            k,
        ) by {
            if holds_search(before, k) {
                let j = choose|j: int| 0 <= j < before.len() && before[j].id@ == k;
                lemma_search_lookup_at(before, j);
                lemma_search_lookup_at(after, j);
            } else {
                assert forall|a: int| 0 <= a < after.len() implies after[a].id@ != k by {
                    assert(after[a].id@ == before[a].id@);
                }
            }
        }
    }
}

/// Every task in `s` is named by a stamp numbered below `counter`.
pub open spec fn search_ids_below(s: Seq<SearchTask>, counter: u64) -> bool {
    forall|i: int|
        #![trigger s[i]]
        0 <= i < s.len() ==> exists|t: u64, n: u64|
            #![trigger search_id(t, n)]
            n < counter && s[i].id@ == search_id(t, n)
}

/// Law: while every registered task is numbered below the counter, the
/// identifier the counter stamps next, at whatever time, names none of them.
pub proof fn law_search_next_id_is_fresh(s: Seq<SearchTask>, counter: u64, now: u64)
    requires
        search_ids_below(s, counter),
    ensures
        !holds_search(s, search_id(now, counter)),
{
    if holds_search(s, search_id(now, counter)) {
        let i = choose|i: int| 0 <= i < s.len() && s[i].id@ == search_id(now, counter);
        let (t, n) = choose|t: u64, n: u64|
            #![trigger search_id(t, n)]
            n < counter && s[i].id@ == search_id(t, n);
        lemma_stamps_differ("search-"@, t, n, now, counter);
    }
}

proof fn lemma_search_below_after_change(
    before: Seq<SearchTask>,
    after: Seq<SearchTask>,
    id: Seq<char>,
    rel: spec_fn(SearchTask, SearchTask) -> bool,
    c: u64,
)
    requires
        search_ids_below(before, c),
        changes_search(before, after, id, rel),
        forall|a: SearchTask, b: SearchTask| #[trigger] rel(a, b) ==> b.id == a.id,
    ensures
        search_ids_below(after, c),
{
    if holds_search(before, id) {
        let i = choose|i: int|
            0 <= i < before.len() && before[i].id@ == id && after.len() == before.len() && (forall|
                j: int,
            |
                0 <= j < before.len() && j != i ==> after[j] == before[j]) && #[trigger] rel(
                before[i],
                after[i],
            );
        assert forall|j: int| #![trigger after[j]] 0 <= j < after.len() implies exists|t: u64, n: u64|
            #![trigger search_id(t, n)]
            n < c && after[j].id@ == search_id(t, n) by {
            if j == i {
                assert(rel(before[i], after[i]));
                assert(after[j].id == before[j].id);
            } else {
                assert(after[j] == before[j]);
            }
        }
    }
}

proof fn lemma_search_below_after_create(
    before: Seq<SearchTask>,
    after: Seq<SearchTask>,
    c: u64,
    now: u64,
)
    requires
        search_ids_below(before, c),
        c < u64::MAX,
        after.len() >= 1,
        after.last().id@ == search_id(now, c),
        drops_search(before, after.drop_last(), search_id(now, c)),
    ensures
        search_ids_below(after, (c + 1) as u64),
{
    let kept = after.drop_last();
    if holds_search(before, search_id(now, c)) {
        let i = choose|i: int|
            0 <= i < before.len() && before[i].id@ == search_id(now, c) && kept == before.remove(i);
        assert forall|j: int| #![trigger kept[j]] 0 <= j < kept.len() implies exists|t: u64, n: u64|
            #![trigger search_id(t, n)]
            n < c && kept[j].id@ == search_id(t, n) by {
            if j < i {
                assert(kept[j] == before[j]);
            } else {
                assert(kept[j] == before[j + 1]);
            }
        }
    }
    assert forall|j: int| #![trigger after[j]] 0 <= j < after.len() implies exists|t: u64, n: u64|
        #![trigger search_id(t, n)]
        n < c + 1 && after[j].id@ == search_id(t, n) by {
        if j < kept.len() {
            assert(after[j] == kept[j]);
            let (t, n) = choose|t: u64, n: u64|
                #![trigger search_id(t, n)]
                n < c && kept[j].id@ == search_id(t, n);
            assert(n < c + 1 && after[j].id@ == search_id(t, n));
        } else {
            assert(after[j].id@ == search_id(now, c));
        }
    }
}

/// The search tasks of a session.
pub struct SearchTaskRegistry {
    tasks: Vec<SearchTask>,
    next_seq: u64,
    wrapped: Ghost<bool>,
}

impl View for SearchTaskRegistry {
    type V = Seq<SearchTask>;

    closed spec fn view(&self) -> Seq<SearchTask> {
        self.tasks@
    }
}

impl SearchTaskRegistry {
    /// The registry invariant: identifiers are unique and, until the
    /// counter has wrapped round, every one was numbered below it.
    pub open spec fn wf(&self) -> bool {
        distinct_search_ids(self@) && (!self.has_wrapped() ==> search_ids_below(self@, self.counter()))
    }

    /// The sequence number the next task gets.
    pub closed spec fn counter(&self) -> u64 {
        self.next_seq
    }

    /// Whether the counter has wrapped round from `u64::MAX` to 0.
    pub closed spec fn has_wrapped(&self) -> bool {
        self.wrapped@
    }

    /// An empty registry whose first task is numbered 1.
    pub fn new() -> (r: SearchTaskRegistry)
        ensures
            r.wf(),
            r@ == Seq::<SearchTask>::empty(),
            r.counter() == 1,
            !r.has_wrapped(),
    {
        SearchTaskRegistry { tasks: Vec::new(), next_seq: 1, wrapped: Ghost(false) }
    }

    fn position(&self, id: &str) -> (r: Option<usize>)
        ensures
            match r {
                Some(i) => i < self@.len() && self@[i as int].id@ == id@,
                None => !holds_search(self@, id@),
            },
    {
        let mut i: usize = 0;
        while i < self.tasks.len()
            invariant
                i <= self.tasks@.len(),
                forall|j: int| 0 <= j < i ==> self.tasks@[j].id@ != id@,
            decreases self.tasks@.len() - i,
        {
            if str_eq(self.tasks[i].id.as_str(), id) {
                return Some(i);
            }
            i = i + 1;
        }
        None
    }

    /// Registers a queued search for `request`, made at `now` (ms since the
    /// epoch), under the identifier `search-{now}-{n}`, `n` being the
    /// registry's counter. A task already under that identifier is replaced.
    pub fn create_search_task_at(&mut self, request: SearchRequest, now: u64) -> (id: TaskId)
        requires
            old(self).wf(),
        ensures
            final(self).wf(),
            id.0@ == search_id(now, old(self).counter()),
            final(self).counter() == crate::clipboard::next_counter(old(self).counter()),
            final(self)@.len() >= 1,
            final(self)@.last().id@ == id.0@,
            final(self)@.last().request == request,
            final(self)@.last().status == TaskStatus::Queued,
            !final(self)@.last().cancel_requested,
            final(self)@.last().batches@.len() == 0,
            drops_search(old(self)@, final(self)@.drop_last(), id.0@),
            !old(self).has_wrapped() ==> !holds_search(old(self)@, id.0@),
            !old(self).has_wrapped() ==> final(self)@.drop_last() == old(self)@,
            final(self).has_wrapped() == (old(self).has_wrapped() || old(self).counter() == u64::MAX),
    {
        let seq = self.next_seq;
        self.next_seq = if seq == u64::MAX {
            0
        } else {
            seq + 1
        };
        proof {
            self.wrapped@ = self.wrapped@ || seq == u64::MAX;
        }
        let mut text = String::from_str("search-");
        let ts = decimal_string(now);
        text.append(ts.as_str());
        text.append("-");
        let n = decimal_string(seq);
        text.append(n.as_str());
        let ghost before = self.tasks@;
        match self.position(text.as_str()) {
            Some(i) => {
                self.tasks.remove(i);
                proof {
                    lemma_remove_keeps_distinct_search(before, i as int);
                }
            },
            None => {},
        }
        let ghost kept = self.tasks@;
        let task = SearchTask {
            id: text.clone(),
            request,
            status: TaskStatus::Queued,
            cancel_requested: false,
            batches: Vec::new(),
        };
        self.tasks.push(task);
        assert(self.tasks@.drop_last() =~= kept);
        proof {
            if search_ids_below(before, seq) {
                law_search_next_id_is_fresh(before, seq, now);
                if seq < u64::MAX {
                    lemma_search_below_after_create(before, self.tasks@, seq, now);
                }
            }
        }
        TaskId(text)
    }

    /// Registers a search as `create_search_task_at` does, stamped with the
    /// wall clock's current time.
    pub fn create_search_task(&mut self, request: SearchRequest) -> (id: TaskId)
        requires
            old(self).wf(),
        ensures
            final(self).wf(),
            exists|now: u64| #[trigger] search_id(now, old(self).counter()) == id.0@,
            final(self).counter() == crate::clipboard::next_counter(old(self).counter()),
            final(self)@.len() >= 1,
            final(self)@.last().id@ == id.0@,
            final(self)@.last().request == request,
            final(self)@.last().status == TaskStatus::Queued,
            !final(self)@.last().cancel_requested,
            final(self)@.last().batches@.len() == 0,
            drops_search(old(self)@, final(self)@.drop_last(), id.0@),
            !old(self).has_wrapped() ==> !holds_search(old(self)@, id.0@),
            !old(self).has_wrapped() ==> final(self)@.drop_last() == old(self)@,
            final(self).has_wrapped() == (old(self).has_wrapped() || old(self).counter() == u64::MAX),
    {
        let now = now_ms();
        self.create_search_task_at(request, now)
    }

    /// The state of task `task_id` with copies of its request and batches,
    /// if it is registered.
    pub fn get_search_task_snapshot(&self, task_id: &TaskId) -> (r: Option<SearchTaskSnapshot>)
        requires
            self.wf(),
        ensures
            r is Some == holds_search(self@, task_id.0@),
            r matches Some(snap) ==> {
                let t = search_lookup(self@, task_id.0@)->0;
                &&& snap.task_id == *task_id
                &&& snap.request == t.request
                &&& snap.status == t.status
                &&& snap.batches@.len() == t.batches@.len()
                &&& forall|k: int|
                    0 <= k < t.batches@.len() ==> same_batch(#[trigger] snap.batches@[k], t.batches@[k])
            },
    {
        match self.position(task_id.as_str()) {
            Some(i) => {
                proof {
                    lemma_search_lookup_at(self@, i as int);
                }
                let t = &self.tasks[i];
                let mut batches: Vec<SearchResultBatch> = Vec::new();
                for k in 0..t.batches.len()
                    invariant
                        batches@.len() == k,
                        forall|j: int| 0 <= j < k ==> same_batch(#[trigger] batches@[j], t.batches@[j]),
                {
                    batches.push(t.batches[k].duplicate());
                }
                Some(
                    SearchTaskSnapshot {
                        task_id: task_id.duplicate(),
                        request: t.request.duplicate(),
                        status: t.status,
                        batches,
                    },
                )
            },
            None => None,
        }
    }

    /// The state of task `task_id`, if it is registered.
    pub fn get_search_task_status(&self, task_id: &TaskId) -> (r: Option<TaskStatus>)
        requires
            self.wf(),
        ensures
            r == match search_lookup(self@, task_id.0@) {
                Some(t) => Some(t.status),
                None => None,
            },
    {
        match self.position(task_id.as_str()) {
            Some(i) => {
                proof {
                    lemma_search_lookup_at(self@, i as int);
                }
                Some(self.tasks[i].status)
            },
            None => None,
        }
    }

    /// Sets the state of task `task_id`; nothing happens if there is none.
    pub fn set_search_task_status(&mut self, task_id: &TaskId, status: TaskStatus)
        requires
            old(self).wf(),
        ensures
            final(self).wf(),
            final(self).counter() == old(self).counter(),
            changes_search(
                old(self)@,
                final(self)@,
                task_id.0@,
                |a: SearchTask, b: SearchTask| with_status(a, b, status),
            ),
            final(self).has_wrapped() == old(self).has_wrapped(),
    {
        let ghost before = self.tasks@;
        match self.position(task_id.as_str()) {
            Some(i) => {
                let mut t = self.tasks.remove(i);
                t.status = status;
                self.tasks.insert(i, t);
                proof {
                    before.remove_ensures(i as int);
                    assert(self.tasks@ =~= before.update(i as int, SearchTask { status: status, ..before[i as int] }));
                    let rel = |a: SearchTask, b: SearchTask| with_status(a, b, status);
                    assert(rel(before[i as int], self.tasks@[i as int]));
                    assert(distinct_search_ids(self.tasks@)) by {
                        assert forall|a: int, b: int|
                            0 <= a < self.tasks@.len() && 0 <= b < self.tasks@.len() && a != b implies
                            self.tasks@[a].id@ != self.tasks@[b].id@ by {
                            assert(self.tasks@[a].id == before[a].id);
                            assert(self.tasks@[b].id == before[b].id);
                        }
                    }
                }
            },
            None => {},
        }
        proof {
            let rel = |a: SearchTask, b: SearchTask| with_status(a, b, status);
            if search_ids_below(before, self.next_seq) {
                assert(changes_search(before, self.tasks@, task_id.0@, rel));
                lemma_search_below_after_change(before, self.tasks@, task_id.0@, rel, self.next_seq);
            }
        }
    }

    /// Marks task `task_id` as failed and publishes a batch reporting
    /// `error` on its root; nothing happens if there is no such task.
    pub fn set_search_task_failed(&mut self, task_id: &TaskId, error: AppError)
        requires
            old(self).wf(),
        ensures
            final(self).wf(),
            final(self).counter() == old(self).counter(),
            changes_search(
                old(self)@,
                final(self)@,
                task_id.0@,
                |a: SearchTask, b: SearchTask| with_failure(a, b, *task_id, error),
            ),
            final(self).has_wrapped() == old(self).has_wrapped(),
    {
        let ghost before = self.tasks@;
        match self.position(task_id.as_str()) {
            Some(i) => {
                let mut t = self.tasks.remove(i);
                let ghost t0 = t;
                t.status = TaskStatus::Failed;
                let mut errors: Vec<SearchErrorSummary> = Vec::new();
                errors.push(SearchErrorSummary { path: t.request.root_path.clone(), error });
                assert(errors@ =~= seq![SearchErrorSummary { path: t0.request.root_path, error: error }]);
                let batch = SearchResultBatch {
                    task_id: task_id.duplicate(),
                    root_path: t.request.root_path.clone(),
                    query: t.request.query.clone(),
                    recursive: t.request.recursive,
                    snapshot_version: t.request.snapshot_version,
                    matches: Vec::new(),
                    error_summaries: errors,
                };
                t.batches.push(batch);
                assert(t.batches@.drop_last() =~= t0.batches@);
                self.tasks.insert(i, t);
                proof {
                    before.remove_ensures(i as int);
                    before.remove(i as int).insert_ensures(i as int, t);
                    let rel = |a: SearchTask, b: SearchTask| with_failure(a, b, *task_id, error);
                    assert(self.tasks@[i as int] == t);
                    assert(rel(before[i as int], self.tasks@[i as int]));
                    assert forall|j: int| 0 <= j < before.len() && j != i implies self.tasks@[j]
                        == before[j] by {
                        if j < i {
                        } else {
                            assert(self.tasks@[j] == before.remove(i as int)[j - 1]);
                        }
                    }
                    assert(distinct_search_ids(self.tasks@)) by {
                        assert forall|a: int, b: int|
                            0 <= a < self.tasks@.len() && 0 <= b < self.tasks@.len() && a != b implies
                            self.tasks@[a].id@ != self.tasks@[b].id@ by {
                            assert(self.tasks@[a].id == before[a].id);
                            assert(self.tasks@[b].id == before[b].id);
                        }
                    }
                }
            },
            None => {},
        }
        proof {
            let rel = |a: SearchTask, b: SearchTask| with_failure(a, b, *task_id, error);
            if search_ids_below(before, self.next_seq) {
                assert(changes_search(before, self.tasks@, task_id.0@, rel));
                lemma_search_below_after_change(before, self.tasks@, task_id.0@, rel, self.next_seq);
            }
        }
    }

    /// Adds a published batch to task `task_id`; nothing happens if there is
    /// none.
    pub fn append_search_batch(&mut self, task_id: &TaskId, batch: SearchResultBatch)
        requires
            old(self).wf(),
        ensures
            final(self).wf(),
            final(self).counter() == old(self).counter(),
            changes_search(
                old(self)@,
                final(self)@,
                task_id.0@,
                |a: SearchTask, b: SearchTask| with_batch(a, b, batch),
            ),
            final(self).has_wrapped() == old(self).has_wrapped(),
    {
        let ghost before = self.tasks@;
        match self.position(task_id.as_str()) {
            Some(i) => {
                let mut t = self.tasks.remove(i);
                t.batches.push(batch);
                self.tasks.insert(i, t);
                proof {
                    before.remove_ensures(i as int);
                    before.remove(i as int).insert_ensures(i as int, t);
                    let rel = |a: SearchTask, b: SearchTask| with_batch(a, b, batch);
                    assert(self.tasks@[i as int] == t);
                    assert(rel(before[i as int], self.tasks@[i as int]));
                    assert forall|j: int| 0 <= j < before.len() && j != i implies self.tasks@[j]
                        == before[j] by {
                        if j < i {
                        } else {
                            assert(self.tasks@[j] == before.remove(i as int)[j - 1]);
                        }
                    }
                    assert(distinct_search_ids(self.tasks@)) by {
                        assert forall|a: int, b: int|
                            0 <= a < self.tasks@.len() && 0 <= b < self.tasks@.len() && a != b implies
                            self.tasks@[a].id@ != self.tasks@[b].id@ by {
                            assert(self.tasks@[a].id == before[a].id);
                            assert(self.tasks@[b].id == before[b].id);
                        }
                    }
                }
            },
            None => {},
        }
        proof {
            let rel = |a: SearchTask, b: SearchTask| with_batch(a, b, batch);
            if search_ids_below(before, self.next_seq) {
                assert(changes_search(before, self.tasks@, task_id.0@, rel));
                lemma_search_below_after_change(before, self.tasks@, task_id.0@, rel, self.next_seq);
            }
        }
    }

    /// Asks task `task_id` to stop. A finished task is left as it is and its
    /// state returned; any other is marked as asked to cancel, moves to
    /// `Cancelling`, and that state is returned. An unknown task is an
    /// internal error.
    pub fn cancel_search_task(&mut self, task_id: &TaskId) -> (r: Result<TaskStatus, AppError>)
        requires
            old(self).wf(),
        ensures
            final(self).wf(),
            final(self).counter() == old(self).counter(),
            changes_search(
                old(self)@,
                final(self)@,
                task_id.0@,
                |a: SearchTask, b: SearchTask| b == cancelled_task(a),
            ),
            final(self).has_wrapped() == old(self).has_wrapped(),
            match search_lookup(old(self)@, task_id.0@) {
                Some(t) => r == Ok::<TaskStatus, AppError>(cancelled_task(t).status),
                None => r matches Err(e) && is_plain_error(
                    e,
                    ErrorCode::InternalError,
                    "找不到搜索任务: "@ + task_id.0@,
                ),
            },
    {
        let ghost before = self.tasks@;
        match self.position(task_id.as_str()) {
            Some(i) => {
                proof {
                    lemma_search_lookup_at(before, i as int);
                }
                let current = self.tasks[i].status;
                if status_is_terminal(current) {
                    proof {
                        let rel = |a: SearchTask, b: SearchTask| b == cancelled_task(a);
                        assert(rel(before[i as int], self.tasks@[i as int]));
                    }
                    return Ok(current);
                }
                let mut t = self.tasks.remove(i);
                t.cancel_requested = true;
                t.status = TaskStatus::Cancelling;
                self.tasks.insert(i, t);
                proof {
                    before.remove_ensures(i as int);
                    assert(self.tasks@ =~= before.update(i as int, cancelled_task(before[i as int])));
                    let rel = |a: SearchTask, b: SearchTask| b == cancelled_task(a);
                    assert(rel(before[i as int], self.tasks@[i as int]));
                    assert(distinct_search_ids(self.tasks@)) by {
                        assert forall|a: int, b: int|
                            0 <= a < self.tasks@.len() && 0 <= b < self.tasks@.len() && a != b implies
                            self.tasks@[a].id@ != self.tasks@[b].id@ by {
                            assert(self.tasks@[a].id == before[a].id);
                            assert(self.tasks@[b].id == before[b].id);
                        }
                    }
                    if search_ids_below(before, self.next_seq) {
                        lemma_search_below_after_change(before, self.tasks@, task_id.0@, rel, self.next_seq);
                    }
                }
                Ok(TaskStatus::Cancelling)
            },
            None => Err(
                AppError::new(ErrorCode::InternalError, join2("找不到搜索任务: ", task_id.as_str())),
            ),
        }
    }

    /// Whether task `task_id` was asked to stop; an unknown task counts as
    /// asked.
    pub fn is_search_cancel_requested(&self, task_id: &TaskId) -> (r: bool)
        requires
            self.wf(),
        ensures
            r == match search_lookup(self@, task_id.0@) {
                Some(t) => t.cancel_requested,
                None => true,
            },
    {
        match self.position(task_id.as_str()) {
            Some(i) => {
                proof {
                    lemma_search_lookup_at(self@, i as int);
                }
                self.tasks[i].cancel_requested
            },
            None => true,
        }
    }
}

} // verus!

verus! {

/// Registering a search on tasks all numbered below the counter adds one
/// task under the identifier the counter stamps: that identifier named no
/// task before, nothing is replaced, the task found under it is queued for
/// the request with no batches and no cancel request, and every other
/// identifier finds what it found before.
pub proof fn law_search_create_then_get(
    before: Seq<SearchTask>,
    after: Seq<SearchTask>,
    request: SearchRequest,
    counter: u64,
    now: u64,
)
    requires
        distinct_search_ids(before),
        distinct_search_ids(after),
        search_ids_below(before, counter),
        after.len() >= 1,
        after.last().id@ == search_id(now, counter),
        after.last().request == request,
        after.last().status == TaskStatus::Queued,
        !after.last().cancel_requested,
        after.last().batches@.len() == 0,
        drops_search(before, after.drop_last(), search_id(now, counter)),
    ensures
        !holds_search(before, search_id(now, counter)),
        after.drop_last() == before,
        search_lookup(after, search_id(now, counter)) matches Some(t) && t.request == request
            && t.status == TaskStatus::Queued && !t.cancel_requested && t.batches@.len() == 0,
        forall|k: Seq<char>|
            k != search_id(now, counter) ==> #[trigger] search_lookup(after, k) == search_lookup(
                before,
                k,
            ),
{
    let id = search_id(now, counter);
    law_search_next_id_is_fresh(before, counter, now);
    let kept = after.drop_last();
    assert(kept == before);
    lemma_search_lookup_at(after, after.len() - 1);
    assert forall|k: Seq<char>| k != id implies #[trigger] search_lookup(after, k) == search_lookup(
        before,
        k,
    ) by {
        if holds_search(before, k) {
            let j = choose|j: int| 0 <= j < before.len() && before[j].id@ == k;
            assert(after[j] == before[j]);
            lemma_search_lookup_at(before, j);
            lemma_search_lookup_at(after, j);
        } else {
            assert forall|j: int| 0 <= j < after.len() implies after[j].id@ != k by {
                if j < kept.len() {
                    assert(after[j] == kept[j]);
                }
            }
        }
    }
}

/// A cancel asked of a running search leaves it marked as asked to cancel
/// and in `Cancelling`; a cancel asked of a finished search changes
/// nothing; other tasks are untouched.
pub proof fn law_search_cancel_then_get(before: Seq<SearchTask>, after: Seq<SearchTask>, id: Seq<char>)
    requires
        distinct_search_ids(before),
        changes_search(before, after, id, |a: SearchTask, b: SearchTask| b == cancelled_task(a)),
    ensures
        search_lookup(after, id) == match search_lookup(before, id) {
            Some(t) => Some(cancelled_task(t)),
            None => None,
        },
        search_lookup(before, id) matches Some(t) && !is_terminal(t.status) ==> (search_lookup(
            after,
            id,
        ) matches Some(u) && u.cancel_requested && u.status == TaskStatus::Cancelling),
        forall|k: Seq<char>| k != id ==> #[trigger] search_lookup(after, k) == search_lookup(before, k),
{
    let rel = |a: SearchTask, b: SearchTask| b == cancelled_task(a);
    assert forall|a: SearchTask, b: SearchTask| #[trigger] rel(a, b) implies b.id@ == a.id@ by {}
    lemma_changes_search(before, after, id, rel);
}

/// After a state is set, the task is found in that state, with its
/// request, cancel flag and batches as they were; other tasks are
/// untouched.
pub proof fn law_search_status_then_get(
    before: Seq<SearchTask>,
    after: Seq<SearchTask>,
    id: Seq<char>,
    status: TaskStatus,
)
    requires
        distinct_search_ids(before),
        changes_search(before, after, id, |a: SearchTask, b: SearchTask| with_status(a, b, status)),
    ensures
        search_lookup(after, id) == match search_lookup(before, id) {
            Some(t) => Some(SearchTask { status: status, ..t }),
            None => None,
        },
        forall|k: Seq<char>| k != id ==> #[trigger] search_lookup(after, k) == search_lookup(before, k),
{
    let rel = |a: SearchTask, b: SearchTask| with_status(a, b, status);
    assert forall|a: SearchTask, b: SearchTask| #[trigger] rel(a, b) implies b.id@ == a.id@ by {}
    lemma_changes_search(before, after, id, rel);
}

/// After a batch is appended, the task's batches are those it had followed
/// by the new one; other tasks are untouched.
pub proof fn law_search_append_then_get(
    before: Seq<SearchTask>,
    after: Seq<SearchTask>,
    id: Seq<char>,
    batch: SearchResultBatch,
)
    requires
        distinct_search_ids(before),
        changes_search(before, after, id, |a: SearchTask, b: SearchTask| with_batch(a, b, batch)),
    ensures
        search_lookup(before, id) matches Some(t) ==> (search_lookup(after, id) matches Some(u)
            && u.batches@ == t.batches@.push(batch) && u.status == t.status && u.request == t.request),
        search_lookup(before, id) is None ==> search_lookup(after, id) is None,
        forall|k: Seq<char>| k != id ==> #[trigger] search_lookup(after, k) == search_lookup(before, k),
{
    let rel = |a: SearchTask, b: SearchTask| with_batch(a, b, batch);
    assert forall|a: SearchTask, b: SearchTask| #[trigger] rel(a, b) implies b.id@ == a.id@ by {}
    lemma_changes_search(before, after, id, rel);
}

} // verus!

verus! {

// ---------------------------------------------------------------------------
// File operation tasks
// ---------------------------------------------------------------------------

impl FileTask {
    /// An exact copy.
    pub fn duplicate(&self) -> (r: FileTask)
        ensures
            r == *self,
    {
        FileTask {
            id: self.id.clone(),
            source: self.source.clone(),
            target: clone_opt_string(&self.target),
            status: self.status,
            progress_current: self.progress_current,
            progress_total: self.progress_total,
            error_message: clone_opt_string(&self.error_message),
        }
    }
}

/// The identifier of the file task made at `ts` (ms since the epoch) as the
/// `seq`-th of the registry: `fileop-{ts}-{seq}`.
pub open spec fn fileop_id(ts: u64, seq: u64) -> Seq<char> {
    stamp("fileop-"@, ts, seq)
}

/// Some task in `s` has identifier `id`.
pub open spec fn holds_file_op(s: Seq<FileTask>, id: Seq<char>) -> bool {
    exists|i: int| 0 <= i < s.len() && s[i].id@ == id
}

/// No two tasks in `s` share an identifier.
pub open spec fn distinct_file_op_ids(s: Seq<FileTask>) -> bool {
    forall|i: int, j: int| 0 <= i < s.len() && 0 <= j < s.len() && i != j ==> s[i].id@ != s[j].id@
}

/// The task of `s` with identifier `id`, if there is one.
pub open spec fn file_op_lookup(s: Seq<FileTask>, id: Seq<char>) -> Option<FileTask> {
    if holds_file_op(s, id) {
        Some(s[choose|i: int| 0 <= i < s.len() && s[i].id@ == id])
    } else {
        None
    }
}

/// `after` is `before` without its task `id` (unchanged if there is none).
pub open spec fn drops_file_op(before: Seq<FileTask>, after: Seq<FileTask>, id: Seq<char>) -> bool {
    if holds_file_op(before, id) {
        exists|i: int| 0 <= i < before.len() && before[i].id@ == id && after == before.remove(i)
    } else {
        after == before
    }
}

/// `after` is `before` with its task `id` changed as `rel` allows, the
/// identifier kept, and every other task as it was (unchanged if there is
/// no task `id`).
pub open spec fn changes_file_op(
    before: Seq<FileTask>,
    after: Seq<FileTask>,
    id: Seq<char>,
    rel: spec_fn(FileTask, FileTask) -> bool,
) -> bool {
    if holds_file_op(before, id) {
        exists|i: int|
            0 <= i < before.len() && before[i].id@ == id && after == before.update(i, after[i])
                && after[i].id == before[i].id && #[trigger] rel(before[i], after[i])
    } else {
        after == before
    }
}

/// `b` is `a` in state `status`.
pub open spec fn file_with_status(a: FileTask, b: FileTask, status: TaskStatus) -> bool {
    b == FileTask { status: status, ..a }
}

/// `b` is `a` in state `status` with the message `msg`.
pub open spec fn file_with_message(a: FileTask, b: FileTask, status: TaskStatus, msg: Seq<char>) -> bool {
    &&& b == FileTask { status: status, error_message: b.error_message, ..a }
    &&& b.error_message matches Some(m) && m@ == msg
}

/// `b` is `a` in state `status` with `done` items completed.
pub open spec fn file_with_progress(a: FileTask, b: FileTask, status: TaskStatus, done: u64) -> bool {
    b == FileTask { status: status, progress_current: done, ..a }
}

/// With distinct identifiers, the task at `i` is the one found by its
/// identifier.
pub proof fn lemma_file_op_lookup_at(s: Seq<FileTask>, i: int)
    requires
        distinct_file_op_ids(s),
        0 <= i < s.len(),
    ensures
        file_op_lookup(s, s[i].id@) == Some(s[i]),
{
    let id = s[i].id@;
    assert(holds_file_op(s, id));
    let j = choose|j: int| 0 <= j < s.len() && s[j].id@ == id;
    assert(j == i);
}

proof fn lemma_remove_keeps_distinct_file_op(s: Seq<FileTask>, i: int)
    requires
        distinct_file_op_ids(s),
        0 <= i < s.len(),
    ensures
        distinct_file_op_ids(s.remove(i)),
        !holds_file_op(s.remove(i), s[i].id@),
{
    let r = s.remove(i);
    s.remove_ensures(i);
    assert forall|a: int, b: int| 0 <= a < r.len() && 0 <= b < r.len() && a != b implies r[a].id@
        != r[b].id@ by {
        let a2 = if a < i {
            a
        } else {
            a + 1
        };
        let b2 = if b < i {
            b
        } else {
            b + 1
        };
        assert(r[a] == s[a2]);
        assert(r[b] == s[b2]);
    }
    assert forall|a: int| 0 <= a < r.len() implies r[a].id@ != s[i].id@ by {
        let a2 = if a < i {
            a
        } else {
            a + 1
        };
        assert(r[a] == s[a2]);
    }
}

/// A change of one task keeps the identifiers distinct, finds the changed
/// task under its identifier, and leaves what every other identifier finds.
pub proof fn lemma_changes_file_op(
    before: Seq<FileTask>,
    after: Seq<FileTask>,
    id: Seq<char>,
    rel: spec_fn(FileTask, FileTask) -> bool,
)
    requires
        distinct_file_op_ids(before),
        changes_file_op(before, after, id, rel),
    ensures
        distinct_file_op_ids(after),
        holds_file_op(after, id) == holds_file_op(before, id),
        holds_file_op(before, id) ==> rel(file_op_lookup(before, id)->0, file_op_lookup(after, id)->0),
        forall|k: Seq<char>| k != id ==> #[trigger] file_op_lookup(after, k) == file_op_lookup(before, k),
{
    if holds_file_op(before, id) {
        let i = choose|i: int|
            0 <= i < before.len() && before[i].id@ == id && after == before.update(i, after[i])
                && after[i].id == before[i].id && #[trigger] rel(before[i], after[i]);
        assert forall|a: int| 0 <= a < after.len() implies after[a].id@ == before[a].id@ by {}
        lemma_file_op_lookup_at(before, i);
        lemma_file_op_lookup_at(after, i);
        assert forall|k: Seq<char>| k != id implies #[trigger] file_op_lookup(after, k) == file_op_lookup(
            before,
            k,
        ) by {
            if holds_file_op(before, k) {
                let j = choose|j: int| 0 <= j < before.len() && before[j].id@ == k;
                lemma_file_op_lookup_at(before, j);
                lemma_file_op_lookup_at(after, j);
            } else {
                assert forall|a: int| 0 <= a < after.len() implies after[a].id@ != k by {
                    assert(after[a].id@ == before[a].id@);
                }
            }
        }
    }
}

/// What each source of a copy came to.
#[derive(Clone, Copy, Debug, PartialEq, Eq, Structural)]
pub enum CopyResult {
    /// The source did not exist.
    Missing,
    /// The source was copied.
    Copied,
    /// Copying the source failed with this code.
    Failed(ErrorCode),
}

/// How many sources were copied.
pub open spec fn copied_count(r: Seq<CopyResult>) -> nat
    decreases r.len(),
{
    if r.len() == 0 {
        0
    } else {
        copied_count(r.drop_last()) + if r.last() is Copied {
            1nat
        } else {
            0nat
        }
    }
}

/// The code of the first source that was not copied.
pub open spec fn first_copy_error(r: Seq<CopyResult>) -> Option<ErrorCode>
    decreases r.len(),
{
    if r.len() == 0 {
        None
    } else {
        match first_copy_error(r.drop_last()) {
            Some(c) => Some(c),
            None => match r.last() {
                CopyResult::Missing => Some(ErrorCode::PathNotFound),
                CopyResult::Failed(c) => Some(c),
                CopyResult::Copied => None,
            },
        }
    }
}

/// A copy fails when sources were given and none was copied.
pub open spec fn copy_failed(r: Seq<CopyResult>) -> bool {
    r.len() > 0 && copied_count(r) == 0
}

/// The state a copy that did not fail ends in: completed when every source
/// was copied, partially completed otherwise.
pub open spec fn copy_end_status(r: Seq<CopyResult>) -> TaskStatus {
    if copied_count(r) == r.len() {
        TaskStatus::Completed
    } else {
        TaskStatus::PartiallyCompleted
    }
}

proof fn lemma_copied_count_extremes(r: Seq<CopyResult>)
    ensures
        copied_count(r) <= r.len(),
        copied_count(r) == r.len() <==> (forall|i: int| 0 <= i < r.len() ==> #[trigger] r[i] is Copied),
        copied_count(r) == 0 <==> (forall|i: int| 0 <= i < r.len() ==> !(#[trigger] r[i] is Copied)),
    decreases r.len(),
{
    if r.len() > 0 {
        let d = r.drop_last();
        lemma_copied_count_extremes(d);
        assert forall|i: int| 0 <= i < d.len() implies d[i] == r[i] by {}
        if forall|i: int| 0 <= i < r.len() ==> #[trigger] r[i] is Copied {
            assert forall|i: int| 0 <= i < d.len() implies #[trigger] d[i] is Copied by {
                assert(r[i] is Copied);
            }
        }
        if forall|i: int| 0 <= i < r.len() ==> !(#[trigger] r[i] is Copied) {
            assert forall|i: int| 0 <= i < d.len() implies !(#[trigger] d[i] is Copied) by {
                assert(!(r[i] is Copied));
            }
        }
        if copied_count(r) == r.len() {
            assert forall|i: int| 0 <= i < r.len() implies #[trigger] r[i] is Copied by {
                if i < d.len() {
                    assert(d[i] is Copied);
                }
            }
        }
        if copied_count(r) == 0 {
            assert forall|i: int| 0 <= i < r.len() implies !(#[trigger] r[i] is Copied) by {
                if i < d.len() {
                    assert(!(d[i] is Copied));
                }
            }
        }
    }
}

/// Law: a recorded copy ends `Completed` exactly when every source was
/// copied (so a copy of nothing completes), `Failed` exactly when there were
/// sources and none was copied, and `PartiallyCompleted` exactly when some
/// source was copied and some was not; its progress counts the sources
/// copied, none when it failed.
pub proof fn law_copy_end_state(t: FileTask, sources: Seq<String>, target: Seq<char>, results: Seq<CopyResult>)
    requires
        copy_task(t, sources, target, results),
        results.len() == sources.len(),
    ensures
        t.status == TaskStatus::Completed <==> (forall|i: int|
            0 <= i < results.len() ==> #[trigger] results[i] is Copied),
        t.status == TaskStatus::Failed <==> (results.len() > 0 && forall|i: int|
            0 <= i < results.len() ==> !(#[trigger] results[i] is Copied)),
        t.status == TaskStatus::PartiallyCompleted <==> ((exists|i: int|
            0 <= i < results.len() && #[trigger] results[i] is Copied) && (exists|j: int|
            0 <= j < results.len() && !(#[trigger] results[j] is Copied))),
        t.status != TaskStatus::Failed ==> t.progress_current == copied_count(results),
        t.progress_current <= results.len(),
{
    lemma_copied_count_extremes(results);
}

proof fn lemma_copied_count_le(r: Seq<CopyResult>)
    ensures
        copied_count(r) <= r.len(),
        copied_count(r) < r.len() ==> first_copy_error(r) is Some,
    decreases r.len(),
{
    if r.len() > 0 {
        lemma_copied_count_le(r.drop_last());
    }
}

/// Every task in `s` is named by a stamp numbered below `counter`.
pub open spec fn file_op_ids_below(s: Seq<FileTask>, counter: u64) -> bool {
    forall|i: int|
        #![trigger s[i]]
        0 <= i < s.len() ==> exists|t: u64, n: u64|
            #![trigger fileop_id(t, n)]
            n < counter && s[i].id@ == fileop_id(t, n)
}

/// Law: while every registered file task is numbered below the counter,
/// the identifier the counter stamps next, at whatever time, names none of
/// them.
pub proof fn law_file_op_next_id_is_fresh(s: Seq<FileTask>, counter: u64, now: u64)
    requires
        file_op_ids_below(s, counter),
    ensures
        !holds_file_op(s, fileop_id(now, counter)),
{
    if holds_file_op(s, fileop_id(now, counter)) {
        let i = choose|i: int| 0 <= i < s.len() && s[i].id@ == fileop_id(now, counter);
        let (t, n) = choose|t: u64, n: u64|
            #![trigger fileop_id(t, n)]
            n < counter && s[i].id@ == fileop_id(t, n);
        lemma_stamps_differ("fileop-"@, t, n, now, counter);
    }
}

proof fn lemma_file_op_below_after_update(before: Seq<FileTask>, i: int, t: FileTask, c: u64)
    requires
        file_op_ids_below(before, c),
        0 <= i < before.len(),
        t.id == before[i].id,
    ensures
        file_op_ids_below(before.update(i, t), c),
{
    let after = before.update(i, t);
    assert forall|j: int| #![trigger after[j]] 0 <= j < after.len() implies exists|x: u64, n: u64|
        #![trigger fileop_id(x, n)]
        n < c && after[j].id@ == fileop_id(x, n) by {
        assert(after[j].id == before[j].id);
    }
}

proof fn lemma_file_op_below_after_create(
    before: Seq<FileTask>,
    after: Seq<FileTask>,
    c: u64,
    now: u64,
)
    requires
        file_op_ids_below(before, c),
        c < u64::MAX,
        after.len() >= 1,
        after.last().id@ == fileop_id(now, c),
        drops_file_op(before, after.drop_last(), fileop_id(now, c)),
    ensures
        file_op_ids_below(after, (c + 1) as u64),
{
    let kept = after.drop_last();
    if holds_file_op(before, fileop_id(now, c)) {
        let i = choose|i: int|
            0 <= i < before.len() && before[i].id@ == fileop_id(now, c) && kept == before.remove(i);
        assert forall|j: int| #![trigger kept[j]] 0 <= j < kept.len() implies exists|t: u64, n: u64|
            #![trigger fileop_id(t, n)]
            n < c && kept[j].id@ == fileop_id(t, n) by {
            if j < i {
                assert(kept[j] == before[j]);
            } else {
                assert(kept[j] == before[j + 1]);
            }
        }
    }
    assert forall|j: int| #![trigger after[j]] 0 <= j < after.len() implies exists|t: u64, n: u64|
        #![trigger fileop_id(t, n)]
        n < c + 1 && after[j].id@ == fileop_id(t, n) by {
        if j < kept.len() {
            assert(after[j] == kept[j]);
            let (t, n) = choose|t: u64, n: u64|
                #![trigger fileop_id(t, n)]
                n < c && kept[j].id@ == fileop_id(t, n);
            assert(n < c + 1 && after[j].id@ == fileop_id(t, n));
        } else {
            assert(after[j].id@ == fileop_id(now, c));
        }
    }
}

/// The file tasks of a session.
pub struct FileOpRegistry {
    tasks: Vec<FileTask>,
    next_seq: u64,
    wrapped: Ghost<bool>,
}

impl View for FileOpRegistry {
    type V = Seq<FileTask>;

    closed spec fn view(&self) -> Seq<FileTask> {
        self.tasks@
    }
}

impl FileOpRegistry {
    /// The registry invariant: identifiers are unique and, until the
    /// counter has wrapped round, every one was numbered below it.
    pub open spec fn wf(&self) -> bool {
        distinct_file_op_ids(self@) && (!self.has_wrapped() ==> file_op_ids_below(self@, self.counter()))
    }

    /// The sequence number the next task gets.
    pub closed spec fn counter(&self) -> u64 {
        self.next_seq
    }

    /// Whether the counter has wrapped round from `u64::MAX` to 0.
    pub closed spec fn has_wrapped(&self) -> bool {
        self.wrapped@
    }

    /// An empty registry whose first task is numbered 1.
    pub fn new() -> (r: FileOpRegistry)
        ensures
            r.wf(),
            r@ == Seq::<FileTask>::empty(),
            r.counter() == 1,
            !r.has_wrapped(),
    {
        FileOpRegistry { tasks: Vec::new(), next_seq: 1, wrapped: Ghost(false) }
    }

    fn position(&self, id: &str) -> (r: Option<usize>)
        ensures
            match r {
                Some(i) => i < self@.len() && self@[i as int].id@ == id@,
                None => !holds_file_op(self@, id@),
            },
    {
        let mut i: usize = 0;
        while i < self.tasks.len()
            invariant
                i <= self.tasks@.len(),
                forall|j: int| 0 <= j < i ==> self.tasks@[j].id@ != id@,
            decreases self.tasks@.len() - i,
        {
            if str_eq(self.tasks[i].id.as_str(), id) {
                return Some(i);
            }
            i = i + 1;
        }
        None
    }

    fn replace_at(&mut self, i: usize, t: FileTask)
        requires
            old(self).wf(),
            i < old(self)@.len(),
            t.id == old(self)@[i as int].id,
        ensures
            final(self).wf(),
            final(self).counter() == old(self).counter(),
            final(self)@ == old(self)@.update(i as int, t),
            final(self).has_wrapped() == old(self).has_wrapped(),
    {
        let ghost before = self.tasks@;
        self.tasks.remove(i);
        self.tasks.insert(i, t);
        proof {
            if file_op_ids_below(before, self.next_seq) {
                lemma_file_op_below_after_update(before, i as int, t, self.next_seq);
            }
            before.remove_ensures(i as int);
            assert(self.tasks@ =~= before.update(i as int, t));
            assert forall|a: int, b: int|
                0 <= a < self.tasks@.len() && 0 <= b < self.tasks@.len() && a != b implies self.tasks@[a].id@
                != self.tasks@[b].id@ by {
                assert(self.tasks@[a].id == before[a].id);
                assert(self.tasks@[b].id == before[b].id);
            }
        }
    }

    /// Registers a file task on `source` (and `target`, if any) for `total`
    /// items, made at `now` (ms since the epoch), under the identifier
    /// `fileop-{now}-{n}`, `n` being the registry's counter. The task is
    /// queued, validated and set running at once, with no progress and no
    /// error. A task already under that identifier is replaced.
    pub fn begin_task_at(&mut self, source: String, target: Option<String>, total: u64, now: u64) -> (id:
        TaskId)
        requires
            old(self).wf(),
        ensures
            final(self).wf(),
            id.0@ == fileop_id(now, old(self).counter()),
            final(self).counter() == crate::clipboard::next_counter(old(self).counter()),
            final(self)@.len() >= 1,
            final(self)@.last() == (FileTask {
                id: id.0,
                source: source,
                target: target,
                status: TaskStatus::Running,
                progress_current: 0,
                progress_total: total,
                error_message: None,
            }),
            drops_file_op(old(self)@, final(self)@.drop_last(), id.0@),
            !old(self).has_wrapped() ==> !holds_file_op(old(self)@, id.0@),
            !old(self).has_wrapped() ==> final(self)@.drop_last() == old(self)@,
            final(self).has_wrapped() == (old(self).has_wrapped() || old(self).counter() == u64::MAX),
    {
        let ghost before = self.tasks@;
        let seq = self.next_seq;
        self.next_seq = if seq == u64::MAX {
            0
        } else {
            seq + 1
        };
        proof {
            self.wrapped@ = self.wrapped@ || seq == u64::MAX;
        }
        let mut text = String::from_str("fileop-");
        let ts = decimal_string(now);
        text.append(ts.as_str());
        text.append("-");
        let n = decimal_string(seq);
        text.append(n.as_str());
        match self.position(text.as_str()) {
            Some(i) => {
                self.tasks.remove(i);
                proof {
                    lemma_remove_keeps_distinct_file_op(before, i as int);
                }
            },
            None => {},
        }
        let ghost kept = self.tasks@;
        let task = FileTask {
            id: text.clone(),
            source,
            target,
            status: TaskStatus::Queued,
            progress_current: 0,
            progress_total: total,
            error_message: None,
        };
        self.tasks.push(task);
        proof {
            assert(self.tasks@.drop_last() =~= kept);
            if !self.wrapped@ {
                lemma_file_op_below_after_create(before, self.tasks@, seq, now);
            }
        }
        let last = self.tasks.len() - 1;
        let mut t = self.tasks[last].duplicate();
        t.status = TaskStatus::Validating;
        self.replace_at(last, t);
        let mut t = self.tasks[last].duplicate();
        t.status = TaskStatus::Running;
        self.replace_at(last, t);
        assert(self.tasks@.drop_last() =~= kept);
        proof {
            if file_op_ids_below(before, seq) {
                law_file_op_next_id_is_fresh(before, seq, now);
            }
        }
        TaskId(text)
    }

    /// Registers a file task as `begin_task_at` does, stamped with the wall
    /// clock's current time.
    pub fn begin_task(&mut self, source: String, target: Option<String>, total: u64) -> (id: TaskId)
        requires
            old(self).wf(),
        ensures
            final(self).wf(),
            exists|now: u64| #[trigger] fileop_id(now, old(self).counter()) == id.0@,
            final(self).counter() == crate::clipboard::next_counter(old(self).counter()),
            final(self)@.len() >= 1,
            final(self)@.last() == (FileTask {
                id: id.0,
                source: source,
                target: target,
                status: TaskStatus::Running,
                progress_current: 0,
                progress_total: total,
                error_message: None,
            }),
            drops_file_op(old(self)@, final(self)@.drop_last(), id.0@),
            !old(self).has_wrapped() ==> !holds_file_op(old(self)@, id.0@),
            !old(self).has_wrapped() ==> final(self)@.drop_last() == old(self)@,
            final(self).has_wrapped() == (old(self).has_wrapped() || old(self).counter() == u64::MAX),
    {
        let now = now_ms();
        self.begin_task_at(source, target, total, now)
    }

    /// A copy of task `task_id`, if it is registered.
    pub fn get_file_op_task_status(&self, task_id: &str) -> (r: Option<FileTask>)
        requires
            self.wf(),
        ensures
            r == file_op_lookup(self@, task_id@),
    {
        match self.position(task_id) {
            Some(i) => {
                proof {
                    lemma_file_op_lookup_at(self@, i as int);
                }
                Some(self.tasks[i].duplicate())
            },
            None => None,
        }
    }

    /// Sets the state of task `task_id`; nothing happens if there is none.
    pub fn set_file_op_task_status(&mut self, task_id: &TaskId, status: TaskStatus)
        requires
            old(self).wf(),
        ensures
            final(self).wf(),
            final(self).counter() == old(self).counter(),
            changes_file_op(
                old(self)@,
                final(self)@,
                task_id.0@,
                |a: FileTask, b: FileTask| file_with_status(a, b, status),
            ),
            final(self).has_wrapped() == old(self).has_wrapped(),
    {
        let ghost before = self.tasks@;
        if let Some(i) = self.position(task_id.as_str()) {
            let mut t = self.tasks[i].duplicate();
            t.status = status;
            self.replace_at(i, t);
            proof {
                let rel = |a: FileTask, b: FileTask| file_with_status(a, b, status);
                assert(rel(before[i as int], self.tasks@[i as int]));
            }
        }
    }

    fn set_status_and_message(&mut self, task_id: &TaskId, status: TaskStatus, msg: String)
        requires
            old(self).wf(),
        ensures
            final(self).wf(),
            final(self).counter() == old(self).counter(),
            changes_file_op(
                old(self)@,
                final(self)@,
                task_id.0@,
                |a: FileTask, b: FileTask| file_with_message(a, b, status, msg@),
            ),
            final(self).has_wrapped() == old(self).has_wrapped(),
    {
        let ghost before = self.tasks@;
        if let Some(i) = self.position(task_id.as_str()) {
            let mut t = self.tasks[i].duplicate();
            t.status = status;
            t.error_message = Some(msg);
            self.replace_at(i, t);
            proof {
                let rel = |a: FileTask, b: FileTask| file_with_message(a, b, status, msg@);
                assert(rel(before[i as int], self.tasks@[i as int]));
            }
        }
    }

    /// Marks task `task_id` as failed with the error's message; nothing
    /// happens if there is no such task.
    pub fn set_file_op_task_failed(&mut self, task_id: &TaskId, error: &AppError)
        requires
            old(self).wf(),
        ensures
            final(self).wf(),
            final(self).counter() == old(self).counter(),
            changes_file_op(
                old(self)@,
                final(self)@,
                task_id.0@,
                |a: FileTask, b: FileTask| file_with_message(a, b, TaskStatus::Failed, error.message@),
            ),
            final(self).has_wrapped() == old(self).has_wrapped(),
    {
        self.set_status_and_message(task_id, TaskStatus::Failed, error.message.clone());
    }

    fn set_status_and_progress(&mut self, task_id: &TaskId, status: TaskStatus, done: u64)
        requires
            old(self).wf(),
        ensures
            final(self).wf(),
            final(self).counter() == old(self).counter(),
            changes_file_op(
                old(self)@,
                final(self)@,
                task_id.0@,
                |a: FileTask, b: FileTask| file_with_progress(a, b, status, done),
            ),
            final(self).has_wrapped() == old(self).has_wrapped(),
    {
        let ghost before = self.tasks@;
        if let Some(i) = self.position(task_id.as_str()) {
            let mut t = self.tasks[i].duplicate();
            t.status = status;
            t.progress_current = done;
            self.replace_at(i, t);
            proof {
                let rel = |a: FileTask, b: FileTask| file_with_progress(a, b, status, done);
                assert(rel(before[i as int], self.tasks@[i as int]));
            }
        }
    }

    /// Ends a single-step task (create a folder, rename, delete): success
    /// completes it and returns its identifier; a failure marks it failed
    /// with the error's message and returns the error.
    pub fn finish_task(&mut self, task_id: TaskId, outcome: Result<(), AppError>) -> (r: Result<
        TaskId,
        AppError,
    >)
        requires
            old(self).wf(),
        ensures
            final(self).wf(),
            final(self).counter() == old(self).counter(),
            outcome is Ok ==> r == Ok::<TaskId, AppError>(task_id) && changes_file_op(
                old(self)@,
                final(self)@,
                task_id.0@,
                |a: FileTask, b: FileTask| file_with_status(a, b, TaskStatus::Completed),
            ),
            outcome matches Err(e) ==> r == Err::<TaskId, AppError>(e) && changes_file_op(
                old(self)@,
                final(self)@,
                task_id.0@,
                |a: FileTask, b: FileTask| file_with_message(a, b, TaskStatus::Failed, e.message@),
            ),
            final(self).has_wrapped() == old(self).has_wrapped(),
    {
        match outcome {
            Ok(()) => {
                self.set_file_op_task_status(&task_id, TaskStatus::Completed);
                Ok(task_id)
            },
            Err(e) => {
                self.set_file_op_task_failed(&task_id, &e);
                Err(e)
            },
        }
    }

    /// Ends a copy given what each source came to. When sources were given
    /// and none was copied, the task fails with "所有源路径复制失败" under
    /// the code of the first source that was not copied, and that error is
    /// returned. Otherwise the task is completed (every source copied) or
    /// partially completed, its progress is the number of sources copied,
    /// and its identifier is returned.
    pub fn finish_copy(&mut self, task_id: TaskId, results: &Vec<CopyResult>) -> (r: Result<
        TaskId,
        AppError,
    >)
        requires
            old(self).wf(),
        ensures
            final(self).wf(),
            final(self).counter() == old(self).counter(),
            copy_failed(results@) ==> (r matches Err(e) && is_plain_error(
                e,
                first_copy_error(results@)->0,
                "所有源路径复制失败"@,
            )) && changes_file_op(
                old(self)@,
                final(self)@,
                task_id.0@,
                |a: FileTask, b: FileTask| file_with_message(a, b, TaskStatus::Failed, "所有源路径复制失败"@),
            ),
            !copy_failed(results@) ==> r == Ok::<TaskId, AppError>(task_id) && changes_file_op(
                old(self)@,
                final(self)@,
                task_id.0@,
                |a: FileTask, b: FileTask|
                    file_with_progress(a, b, copy_end_status(results@), copied_count(results@) as u64),
            ),
            final(self).has_wrapped() == old(self).has_wrapped(),
    {
        let mut completed: u64 = 0;
        let mut first_error: Option<ErrorCode> = None;
        for k in 0..results.len()
            invariant
                completed == copied_count(results@.take(k as int)),
                completed <= k,
                first_error == first_copy_error(results@.take(k as int)),
        {
            proof {
                assert(results@.take(k + 1).drop_last() =~= results@.take(k as int));
                lemma_copied_count_le(results@.take(k as int));
            }
            match results[k] {
                CopyResult::Copied => {
                    completed = completed + 1;
                },
                CopyResult::Missing => {
                    if first_error.is_none() {
                        first_error = Some(ErrorCode::PathNotFound);
                    }
                },
                CopyResult::Failed(c) => {
                    if first_error.is_none() {
                        first_error = Some(c);
                    }
                },
            }
        }
        assert(results@.take(results.len() as int) =~= results@);
        proof {
            lemma_copied_count_le(results@);
        }
        let total = results.len() as u64;
        if completed == 0 && total > 0 {
            let code = match first_error {
                Some(c) => c,
                None => ErrorCode::PathNotFound,
            };
            let err = AppError::new(code, String::from_str("所有源路径复制失败"));
            self.set_file_op_task_failed(&task_id, &err);
            return Err(err);
        }
        let status = if completed == total {
            TaskStatus::Completed
        } else {
            TaskStatus::PartiallyCompleted
        };
        self.set_status_and_progress(&task_id, status, completed);
        Ok(task_id)
    }

    /// Whether the copy behind task `task_id` copied every source, so that
    /// a move may delete them (an unknown task counts as failed).
    pub fn copy_succeeded(&self, task_id: &TaskId) -> (r: bool)
        requires
            self.wf(),
        ensures
            r == (file_op_lookup(self@, task_id.0@) matches Some(t) && t.status == TaskStatus::Completed),
    {
        match self.position(task_id.as_str()) {
            Some(i) => {
                proof {
                    lemma_file_op_lookup_at(self@, i as int);
                }
                self.tasks[i].status == TaskStatus::Completed
            },
            None => false,
        }
    }

    /// Ends a move whose copy succeeded, given how many sources could not be
    /// deleted: if any, the task is partially completed with the message
    /// "复制成功但部分源文件删除失败（{n} 项）"; otherwise nothing changes.
    pub fn finish_move(&mut self, task_id: &TaskId, delete_failures: usize)
        requires
            old(self).wf(),
        ensures
            final(self).wf(),
            final(self).counter() == old(self).counter(),
            delete_failures == 0 ==> final(self)@ == old(self)@,
            delete_failures > 0 ==> changes_file_op(
                old(self)@,
                final(self)@,
                task_id.0@,
                |a: FileTask, b: FileTask|
                    file_with_message(
                        a,
                        b,
                        TaskStatus::PartiallyCompleted,
                        "复制成功但部分源文件删除失败（"@ + decimal(delete_failures as nat) + " 项）"@,
                    ),
            ),
            final(self).has_wrapped() == old(self).has_wrapped(),
    {
        if delete_failures > 0 {
            let n = decimal_string(delete_failures as u64);
            let mut msg = String::from_str("复制成功但部分源文件删除失败（");
            msg.append(n.as_str());
            msg.append(" 项）");
            self.set_status_and_message(task_id, TaskStatus::PartiallyCompleted, msg);
        }
    }

    /// Ends a move whose copy succeeded from whether each source could be
    /// deleted (`removed[i]` for the `i`-th): the sources that could not are
    /// counted, and the task ends as `finish_move` ends it with that count.
    pub fn finish_move_deletions(&mut self, task_id: &TaskId, removed: &Vec<bool>)
        requires
            old(self).wf(),
        ensures
            final(self).wf(),
            final(self).counter() == old(self).counter(),
            count_false(removed@) == 0 ==> final(self)@ == old(self)@,
            count_false(removed@) > 0 ==> changes_file_op(
                old(self)@,
                final(self)@,
                task_id.0@,
                |a: FileTask, b: FileTask|
                    file_with_message(
                        a,
                        b,
                        TaskStatus::PartiallyCompleted,
                        "复制成功但部分源文件删除失败（"@ + decimal(count_false(removed@)) + " 项）"@,
                    ),
            ),
            final(self).has_wrapped() == old(self).has_wrapped(),
    {
        let mut failures: usize = 0;
        for i in 0..removed.len()
            invariant
                failures == count_false(removed@.take(i as int)),
                failures <= i,
        {
            assert(removed@.take(i + 1).drop_last() =~= removed@.take(i as int));
            if !removed[i] {
                failures = failures + 1;
            }
        }
        assert(removed@.take(removed@.len() as int) =~= removed@);
        self.finish_move(task_id, failures);
    }
}

/// How many entries of `s` are `false`.
pub open spec fn count_false(s: Seq<bool>) -> nat
    decreases s.len(),
{
    if s.len() == 0 {
        0
    } else {
        count_false(s.drop_last()) + if s.last() {
            0nat
        } else {
            1nat
        }
    }
}

} // verus!

verus! {

/// What a copy task shows as its source: the first source, or `multiple`
/// when there is none.
pub fn copy_task_source(sources: &Vec<String>) -> (r: String)
    ensures
        r@ == (if sources.len() > 0 {
            sources@[0]@
        } else {
            "multiple"@
        }),
{
    if sources.len() > 0 {
        sources[0].clone()
    } else {
        String::from_str("multiple")
    }
}

/// The error of a folder that could not be created; `detail` is the I/O
/// error's text.
pub fn create_folder_error(detail: &str) -> (e: AppError)
    ensures
        is_plain_error(e, ErrorCode::PathNotFound, "创建文件夹失败: "@ + detail@),
{
    AppError::new(ErrorCode::PathNotFound, join2("创建文件夹失败: ", detail))
}

/// The error of a rename that failed; `detail` is the I/O error's text.
pub fn rename_error(kind: IoErrorKind, detail: &str) -> (e: AppError)
    ensures
        is_plain_error(e, io_code(kind), "重命名失败: "@ + detail@),
{
    AppError::new(io_error_code(kind), join2("重命名失败: ", detail))
}

/// The error of a rename whose path has no parent directory.
pub fn missing_parent_error() -> (e: AppError)
    ensures
        is_plain_error(e, ErrorCode::PathNotFound, "无法获取父目录路径"@),
{
    AppError::new(ErrorCode::PathNotFound, String::from_str("无法获取父目录路径"))
}

/// The error of a permanent delete that failed; `detail` is the I/O
/// error's text.
pub fn delete_permanently_error(kind: IoErrorKind, detail: &str) -> (e: AppError)
    ensures
        is_plain_error(e, io_code(kind), "永久删除失败: "@ + detail@),
{
    AppError::new(io_error_code(kind), join2("永久删除失败: ", detail))
}

/// The state of any task: a search task is looked up first, then a file
/// task; an identifier known to neither is an internal error.
pub fn get_task_status(searches: &SearchTaskRegistry, files: &FileOpRegistry, task_id: &TaskId) -> (r:
    Result<TaskStatus, AppError>)
    requires
        searches.wf(),
        files.wf(),
    ensures
        match search_lookup(searches@, task_id.0@) {
            Some(t) => r == Ok::<TaskStatus, AppError>(t.status),
            None => match file_op_lookup(files@, task_id.0@) {
                Some(f) => r == Ok::<TaskStatus, AppError>(f.status),
                None => r matches Err(e) && is_plain_error(
                    e,
                    ErrorCode::InternalError,
                    "找不到任务: "@ + task_id.0@,
                ),
            },
        },
{
    if let Some(status) = searches.get_search_task_status(task_id) {
        return Ok(status);
    }
    if let Some(task) = files.get_file_op_task_status(task_id.as_str()) {
        return Ok(task.status);
    }
    Err(AppError::new(ErrorCode::InternalError, join2("找不到任务: ", task_id.as_str())))
}

/// Ending a copy and then looking its task up gives the state the copy's
/// results call for, with the number of sources copied as progress (or the
/// failure and its message when nothing was copied); other tasks are
/// untouched.
pub proof fn law_copy_then_get(
    before: Seq<FileTask>,
    after: Seq<FileTask>,
    id: Seq<char>,
    results: Seq<CopyResult>,
)
    requires
        distinct_file_op_ids(before),
        !copy_failed(results) ==> changes_file_op(
            before,
            after,
            id,
            |a: FileTask, b: FileTask|
                file_with_progress(a, b, copy_end_status(results), copied_count(results) as u64),
        ),
        copy_failed(results) ==> changes_file_op(
            before,
            after,
            id,
            |a: FileTask, b: FileTask| file_with_message(a, b, TaskStatus::Failed, "所有源路径复制失败"@),
        ),
    ensures
        file_op_lookup(before, id) is Some == file_op_lookup(after, id) is Some,
        file_op_lookup(after, id) matches Some(t) ==> t.status == (if copy_failed(results) {
            TaskStatus::Failed
        } else {
            copy_end_status(results)
        }),
        !copy_failed(results) ==> (file_op_lookup(after, id) matches Some(t) ==> t.progress_current
            == copied_count(results) as u64),
        forall|k: Seq<char>| k != id ==> #[trigger] file_op_lookup(after, k) == file_op_lookup(before, k),
{
    if copy_failed(results) {
        lemma_changes_file_op(
            before,
            after,
            id,
            |a: FileTask, b: FileTask| file_with_message(a, b, TaskStatus::Failed, "所有源路径复制失败"@),
        );
    } else {
        lemma_changes_file_op(
            before,
            after,
            id,
            |a: FileTask, b: FileTask|
                file_with_progress(a, b, copy_end_status(results), copied_count(results) as u64),
        );
    }
}

} // verus!

verus! {

/// `t` is a single-step task on `source` (and `target`) ended by `outcome`.
pub open spec fn single_step_task(
    t: FileTask,
    source: Seq<char>,
    target: Option<Seq<char>>,
    outcome: Result<(), AppError>,
) -> bool {
    &&& t.source@ == source
    &&& match target {
        Some(g) => (t.target matches Some(x) && x@ == g),
        None => t.target is None,
    }
    &&& t.progress_current == 0
    &&& t.progress_total == 0
    &&& match outcome {
        Ok(()) => t.status == TaskStatus::Completed && t.error_message is None,
        Err(e) => t.status == TaskStatus::Failed && (t.error_message matches Some(m) && m@
            == e.message@),
    }
}

proof fn lemma_file_drop_keeps_others(before: Seq<FileTask>, after: Seq<FileTask>, id: Seq<char>, k: Seq<char>)
    requires
        distinct_file_op_ids(before),
        drops_file_op(before, after, id),
        k != id,
    ensures
        distinct_file_op_ids(after),
        file_op_lookup(after, k) == file_op_lookup(before, k),
{
    if holds_file_op(before, id) {
        let i = choose|i: int| 0 <= i < before.len() && before[i].id@ == id && after == before.remove(i);
        lemma_remove_keeps_distinct_file_op(before, i);
        before.remove_ensures(i);
        if holds_file_op(before, k) {
            let j = choose|j: int| 0 <= j < before.len() && before[j].id@ == k;
            assert(j != i);
            let j2 = if j < i {
                j
            } else {
                j - 1
            };
            assert(after[j2] == before[j]);
            lemma_file_op_lookup_at(before, j);
            lemma_file_op_lookup_at(after, j2);
        } else {
            assert forall|a: int| 0 <= a < after.len() implies after[a].id@ != k by {
                let a2 = if a < i {
                    a
                } else {
                    a + 1
                };
                assert(after[a] == before[a2]);
            }
        }
    }
}

/// Registering a task leaves what every other identifier finds.
proof fn lemma_file_create_keeps_others(before: Seq<FileTask>, after: Seq<FileTask>, id: Seq<char>)
    requires
        distinct_file_op_ids(before),
        distinct_file_op_ids(after),
        after.len() >= 1,
        after.last().id@ == id,
        drops_file_op(before, after.drop_last(), id),
    ensures
        forall|k: Seq<char>| k != id ==> #[trigger] file_op_lookup(after, k) == file_op_lookup(before, k),
{
    let kept = after.drop_last();
    assert forall|k: Seq<char>| k != id implies #[trigger] file_op_lookup(after, k) == file_op_lookup(
        before,
        k,
    ) by {
        lemma_file_drop_keeps_others(before, kept, id, k);
        if holds_file_op(kept, k) {
            let j = choose|j: int| 0 <= j < kept.len() && kept[j].id@ == k;
            lemma_file_op_lookup_at(kept, j);
            lemma_file_op_lookup_at(after, j);
        } else {
            assert forall|j: int| 0 <= j < after.len() implies after[j].id@ != k by {
                if j < kept.len() {
                    assert(after[j] == kept[j]);
                }
            }
        }
    }
}

/// After a single-step task on `source` (and `target`) was registered and
/// ended by `outcome`: the outcome's error, if any, is returned, and the
/// task is found under its identifier, completed or failed with the error's
/// message, with no progress to report.
pub open spec fn single_step_recorded(
    before: Seq<FileTask>,
    after: Seq<FileTask>,
    r: Result<TaskId, AppError>,
    source: Seq<char>,
    target: Option<Seq<char>>,
    outcome: Result<(), AppError>,
) -> bool {
    &&& match outcome {
        Ok(()) => r is Ok,
        Err(e) => r == Err::<TaskId, AppError>(e),
    }
    &&& exists|id: Seq<char>|
        #![trigger file_op_lookup(after, id)]
        (r matches Ok(t) ==> t.0@ == id) && (file_op_lookup(after, id) matches Some(t)
            && single_step_task(t, source, target, outcome)) && (forall|k: Seq<char>|
            k != id ==> #[trigger] file_op_lookup(after, k) == file_op_lookup(before, k))
}

fn record_single_step(
    files: &mut FileOpRegistry,
    source: String,
    target: Option<String>,
    outcome: Result<(), AppError>,
) -> (r: Result<TaskId, AppError>)
    requires
        old(files).wf(),
    ensures
        final(files).wf(),
        single_step_recorded(
            old(files)@,
            final(files)@,
            r,
            source@,
            match target {
                Some(g) => Some(g@),
                None => None,
            },
            outcome,
        ),
        final(files).has_wrapped() == (old(files).has_wrapped() || old(files).counter() == u64::MAX),
        !old(files).has_wrapped() ==> (r matches Ok(t) ==> !holds_file_op(old(files)@, t.0@)),
{
    let ghost out = outcome;
    let ghost before = files@;
    let id = files.begin_task(source, target, 0);
    let ghost mid = files@;
    let ghost key = id.0@;
    proof {
        lemma_file_op_lookup_at(mid, mid.len() - 1);
        lemma_file_create_keeps_others(before, mid, key);
    }
    let r = files.finish_task(id, outcome);
    proof {
        match out {
            Ok(()) => {
                lemma_changes_file_op(
                    mid,
                    files@,
                    key,
                    |a: FileTask, b: FileTask| file_with_status(a, b, TaskStatus::Completed),
                );
            },
            Err(e) => {
                lemma_changes_file_op(
                    mid,
                    files@,
                    key,
                    |a: FileTask, b: FileTask| file_with_message(a, b, TaskStatus::Failed, e.message@),
                );
            },
        }
        assert(file_op_lookup(files@, key) is Some);
    }
    r
}

/// Records a move of `path` to the recycle bin whose outcome is known (the
/// path has passed the destructive-path guard).
pub fn execute_delete_to_recycle_bin(files: &mut FileOpRegistry, path: &str, outcome: Result<(), AppError>) -> (r:
    Result<TaskId, AppError>)
    requires
        old(files).wf(),
    ensures
        final(files).wf(),
        single_step_recorded(old(files)@, final(files)@, r, path@, None, outcome),
        final(files).has_wrapped() == (old(files).has_wrapped() || old(files).counter() == u64::MAX),
        !old(files).has_wrapped() ==> (r matches Ok(t) ==> !holds_file_op(old(files)@, t.0@)),
{
    record_single_step(files, String::from_str(path), None, outcome)
}

/// Records a permanent delete of `path` whose outcome is known (the path
/// has passed the destructive-path guard).
pub fn execute_delete_permanently(files: &mut FileOpRegistry, path: &str, outcome: Result<(), AppError>) -> (r:
    Result<TaskId, AppError>)
    requires
        old(files).wf(),
    ensures
        final(files).wf(),
        single_step_recorded(old(files)@, final(files)@, r, path@, None, outcome),
        final(files).has_wrapped() == (old(files).has_wrapped() || old(files).counter() == u64::MAX),
        !old(files).has_wrapped() ==> (r matches Ok(t) ==> !holds_file_op(old(files)@, t.0@)),
{
    record_single_step(files, String::from_str(path), None, outcome)
}

/// Records the creation of folder `target` in `parent_path` whose outcome
/// is known (the name was validated and the target passed the
/// destructive-path guard).
pub fn execute_create_folder(
    files: &mut FileOpRegistry,
    parent_path: &str,
    target: &str,
    outcome: Result<(), AppError>,
) -> (r: Result<TaskId, AppError>)
    requires
        old(files).wf(),
    ensures
        final(files).wf(),
        single_step_recorded(old(files)@, final(files)@, r, parent_path@, Some(target@), outcome),
        final(files).has_wrapped() == (old(files).has_wrapped() || old(files).counter() == u64::MAX),
        !old(files).has_wrapped() ==> (r matches Ok(t) ==> !holds_file_op(old(files)@, t.0@)),
{
    record_single_step(files, String::from_str(parent_path), Some(String::from_str(target)), outcome)
}

/// Records the rename of `path` to `new_path` whose outcome is known (the
/// new name was validated and both paths passed the destructive-path
/// guard).
pub fn execute_rename_item(
    files: &mut FileOpRegistry,
    path: &str,
    new_path: &str,
    outcome: Result<(), AppError>,
) -> (r: Result<TaskId, AppError>)
    requires
        old(files).wf(),
    ensures
        final(files).wf(),
        single_step_recorded(old(files)@, final(files)@, r, path@, Some(new_path@), outcome),
        final(files).has_wrapped() == (old(files).has_wrapped() || old(files).counter() == u64::MAX),
        !old(files).has_wrapped() ==> (r matches Ok(t) ==> !holds_file_op(old(files)@, t.0@)),
{
    record_single_step(files, String::from_str(path), Some(String::from_str(new_path)), outcome)
}

/// `t` is the task of a copy of `sources` into `target`, ended as the
/// results `results` call for.
pub open spec fn copy_task(t: FileTask, sources: Seq<String>, target: Seq<char>, results: Seq<CopyResult>) -> bool {
    &&& t.source@ == (if sources.len() > 0 {
        sources[0]@
    } else {
        "multiple"@
    })
    &&& (t.target matches Some(g) && g@ == target)
    &&& t.progress_total == sources.len()
    &&& if copy_failed(results) {
        t.status == TaskStatus::Failed && t.progress_current == 0 && (t.error_message matches Some(m)
            && m@ == "所有源路径复制失败"@)
    } else {
        t.status == copy_end_status(results) && t.progress_current == copied_count(results) as u64
            && t.error_message is None
    }
}

/// The first failing verdict of `guards`, from index `i` on.
pub open spec fn first_guard_error_from(guards: Seq<Result<(), AppError>>, i: int) -> Option<AppError>
    decreases guards.len() - i,
{
    if i < 0 || i >= guards.len() {
        None
    } else {
        match guards[i] {
            Err(e) => Some(e),
            Ok(_) => first_guard_error_from(guards, i + 1),
        }
    }
}

/// The first failing verdict of `guards`, if any.
pub open spec fn first_guard_error(guards: Seq<Result<(), AppError>>) -> Option<AppError> {
    first_guard_error_from(guards, 0)
}

proof fn lemma_guards_pass_before(guards: Seq<Result<(), AppError>>, i: int)
    requires
        0 <= i <= guards.len(),
        forall|j: int| 0 <= j < i ==> guards[j] is Ok,
    ensures
        first_guard_error(guards) == first_guard_error_from(guards, i),
    decreases i,
{
    if i > 0 {
        lemma_guards_pass_before(guards, i - 1);
    }
}

/// The first failing verdict of the destructive-path guards of a copy or
/// move (one per source, in order, then one for the target), if any.
pub fn first_guard_failure(guards: &Vec<Result<(), AppError>>) -> (r: Option<AppError>)
    ensures
        r == first_guard_error(guards@),
{
    let mut i: usize = 0;
    while i < guards.len()
        invariant
            i <= guards.len(),
            forall|j: int| 0 <= j < i ==> guards@[j] is Ok,
        decreases guards.len() - i,
    {
        match &guards[i] {
            Err(e) => {
                proof {
                    lemma_guards_pass_before(guards@, i as int);
                }
                return Some(e.duplicate());
            },
            Ok(_) => {},
        }
        i = i + 1;
    }
    proof {
        lemma_guards_pass_before(guards@, i as int);
    }
    None
}

/// Records a copy of `sources` into `target_dir`. `guards` holds the
/// verdict of the destructive-path guard on each source, in order, then on
/// the target; the first failing one is the result, and nothing is
/// registered (nor, by the caller, copied: see `first_guard_failure`).
/// Otherwise `results` holds what each source came to: a task on the first
/// source (or `multiple`) is registered for as many items as sources, and
/// ended as `finish_copy` says.
pub fn execute_copy_items(
    files: &mut FileOpRegistry,
    sources: &Vec<String>,
    target_dir: &str,
    guards: &Vec<Result<(), AppError>>,
    results: &Vec<CopyResult>,
) -> (r: Result<TaskId, AppError>)
    requires
        old(files).wf(),
        guards.len() == sources.len() + 1,
        first_guard_error(guards@) is None ==> results.len() == sources.len(),
    ensures
        final(files).wf(),
        first_guard_error(guards@) matches Some(e) ==> r == Err::<TaskId, AppError>(e) && *final(files)
            == *old(files),
        first_guard_error(guards@) is None ==> (r matches Ok(id) ==> !copy_failed(results@)),
        first_guard_error(guards@) is None ==> (r matches Err(e) ==> copy_failed(results@)
            && is_plain_error(e, first_copy_error(results@)->0, "所有源路径复制失败"@)),
        first_guard_error(guards@) is None && copy_failed(results@) ==> r is Err,
        first_guard_error(guards@) is None ==> exists|id: Seq<char>|
            #![trigger file_op_lookup(final(files)@, id)]
            (r matches Ok(t) ==> t.0@ == id) && (file_op_lookup(final(files)@, id) matches Some(t)
                && copy_task(t, sources@, target_dir@, results@)) && (forall|k: Seq<char>|
                k != id ==> #[trigger] file_op_lookup(final(files)@, k) == file_op_lookup(old(files)@, k)),
        first_guard_error(guards@) is None ==> final(files).has_wrapped() == (old(files).has_wrapped()
            || old(files).counter() == u64::MAX),
        !old(files).has_wrapped() ==> (r matches Ok(t) ==> !holds_file_op(old(files)@, t.0@)),
{
    match first_guard_failure(guards) {
        Some(e) => {
            return Err(e);
        },
        None => {},
    }
    let source = copy_task_source(sources);
    let ghost before = files@;
    let id = files.begin_task(source, Some(String::from_str(target_dir)), sources.len() as u64);
    let ghost mid = files@;
    let ghost key = id.0@;
    proof {
        lemma_file_op_lookup_at(mid, mid.len() - 1);
        lemma_file_create_keeps_others(before, mid, key);
    }
    let r = files.finish_copy(id, results);
    proof {
        if copy_failed(results@) {
            lemma_changes_file_op(
                mid,
                files@,
                key,
                |a: FileTask, b: FileTask| file_with_message(a, b, TaskStatus::Failed, "所有源路径复制失败"@),
            );
        } else {
            lemma_changes_file_op(
                mid,
                files@,
                key,
                |a: FileTask, b: FileTask|
                    file_with_progress(a, b, copy_end_status(results@), copied_count(results@) as u64),
            );
        }
        assert(file_op_lookup(files@, key) is Some);
    }
    r
}

} // verus!

verus! {

/// A finished task has no next state.
pub proof fn law_terminal_states_are_final(from: TaskStatus, to: TaskStatus)
    requires
        is_terminal(from),
    ensures
        !allowed_next(from, to),
{
}

/// Every unfinished task can be asked to cancel: it can move to
/// `Cancelling`, or is there already.
pub proof fn law_unfinished_tasks_can_cancel(s: TaskStatus)
    requires
        !is_terminal(s),
    ensures
        s == TaskStatus::Cancelling || allowed_next(s, TaskStatus::Cancelling),
{
}

/// Every unfinished task can reach a finished state in at most two steps:
/// directly, or through `Cancelling` (which can always end as `Cancelled`).
pub proof fn law_unfinished_tasks_can_finish(s: TaskStatus)
    requires
        !is_terminal(s),
    ensures
        allowed_next(s, TaskStatus::Failed) || allowed_next(s, TaskStatus::Cancelled) || (
        allowed_next(s, TaskStatus::Cancelling) && allowed_next(
            TaskStatus::Cancelling,
            TaskStatus::Cancelled,
        )),
        allowed_next(TaskStatus::Cancelling, TaskStatus::Cancelled),
{
}

/// A task that has started (validating, running, waiting for a conflict
/// decision, or cancelling) can fail at once; a queued task cannot, it
/// must first be validated or cancelled.
pub proof fn law_started_tasks_can_fail(s: TaskStatus)
    ensures
        !is_terminal(s) && s != TaskStatus::Queued ==> allowed_next(s, TaskStatus::Failed),
        !allowed_next(TaskStatus::Queued, TaskStatus::Failed),
{
}

/// A running task can end in every way a task ends: completed, partially
/// completed, failed, or cancelled by way of `Cancelling`; and it can wait
/// for a conflict decision and resume.
pub proof fn law_running_task_outcomes(end: TaskStatus)
    requires
        is_terminal(end),
    ensures
        allowed_next(TaskStatus::Running, end) || (allowed_next(TaskStatus::Running, TaskStatus::Cancelling)
            && allowed_next(TaskStatus::Cancelling, end)),
        allowed_next(TaskStatus::Running, TaskStatus::WaitingForConflictDecision),
        allowed_next(TaskStatus::WaitingForConflictDecision, TaskStatus::Running),
{
}

/// After any allowed move a task can be cancelled exactly while it has not
/// finished, and it keeps its identity and items.
pub proof fn law_moves_keep_summary(current: TaskSummary, next: TaskStatus)
    requires
        allowed_next(current.status, next),
    ensures
        moved_summary(current, next).can_cancel == !is_terminal(next),
        moved_summary(current, next).id == current.id,
        moved_summary(current, next).completed_items == current.completed_items,
        moved_summary(current, next).incomplete_items == current.incomplete_items,
        moved_summary(current, next).unknown_items == current.unknown_items,
{
}

} // verus!
