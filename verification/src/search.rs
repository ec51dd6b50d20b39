use vstd::prelude::*;
use crate::error::{io_code, io_error_code, is_plain_error, AppError, ErrorCode, IoErrorKind};
use crate::path_safety::{is_white_space, white_space};
use crate::text::{chars_of, join2, lowercase, string_from_chars, to_lowercase};
use crate::listing::{
    compare_char_vecs, compare_chars, is_index_permutation, lemma_compare_from_antisym,
    lemma_compare_from_trans, Order,
};
use crate::tasks::{
    cancelled_task, changes_search, holds_search, search_lookup, SearchTask, SearchTaskRegistry,
};
use crate::types::{FileEntry, TaskStatus};

verus! {

/// Matches and errors held back before a batch is published.
pub const SEARCH_BATCH_SIZE: usize = 16;

/// A recursive search pauses after this many entries.
pub const SEARCH_YIELD_EVERY: usize = 64;

/// A current-directory search pauses after this many entries.
pub const SEARCH_PAUSE_EVERY: usize = 64;

/// The identifier of a background task.
#[derive(Clone, Debug, PartialEq, Eq, Hash)]
pub struct TaskId(pub String);

impl TaskId {
    /// A copy of the identifier.
    pub fn duplicate(&self) -> (r: TaskId)
        ensures
            r == *self,
    {
        TaskId(self.0.clone())
    }

    /// The identifier's text.
    pub fn as_str(&self) -> (r: &str)
        ensures
            r@ == self.0@,
    {
        self.0.as_str()
    }
}

/// What the user searches for, and where.
#[derive(Clone, Debug)]
pub struct SearchRequest {
    pub root_path: String,
    pub query: String,
    pub recursive: bool,
    pub snapshot_version: Option<u64>,
}

/// A path the search could not read, with the reason.
#[derive(Clone, Debug)]
pub struct SearchErrorSummary {
    pub path: String,
    pub error: AppError,
}

/// A group of results published together.
#[derive(Clone, Debug)]
pub struct SearchResultBatch {
    pub task_id: TaskId,
    pub root_path: String,
    pub query: String,
    pub recursive: bool,
    pub snapshot_version: Option<u64>,
    pub matches: Vec<FileEntry>,
    pub error_summaries: Vec<SearchErrorSummary>,
}

/// The state of a search task as the front end sees it.
#[derive(Clone, Debug)]
pub struct SearchTaskSnapshot {
    pub task_id: TaskId,
    pub request: SearchRequest,
    pub status: TaskStatus,
    pub batches: Vec<SearchResultBatch>,
}

// ---------------------------------------------------------------------------
// Query matching
// ---------------------------------------------------------------------------

/// `s` without its leading white space.
pub open spec fn trim_start(s: Seq<char>) -> Seq<char>
    decreases s.len(),
{
    if s.len() > 0 && is_white_space(s[0]) {
        trim_start(s.drop_first())
    } else {
        s
    }
}

/// `s` without its trailing white space.
pub open spec fn trim_end(s: Seq<char>) -> Seq<char>
    decreases s.len(),
{
    if s.len() > 0 && is_white_space(s.last()) {
        trim_end(s.drop_last())
    } else {
        s
    }
}

/// `s` without leading and trailing white space (what `str::trim` gives).
pub open spec fn trimmed(s: Seq<char>) -> Seq<char> {
    trim_end(trim_start(s))
}

/// The form in which a query is matched: trimmed, in lower case.
pub open spec fn normal_query(q: Seq<char>) -> Seq<char> {
    lowercase(trimmed(q))
}

/// `needle` occurs in `hay` as a contiguous part.
pub open spec fn seq_contains(hay: Seq<char>, needle: Seq<char>) -> bool {
    exists|i: int| 0 <= i <= hay.len() - needle.len() && #[trigger] hay.subrange(i, i + needle.len()) == needle
}

/// An entry matches a normalized query when the query is empty or its
/// lower-case name contains the query.
pub open spec fn entry_matches(e: FileEntry, query: Seq<char>) -> bool {
    query.len() == 0 || seq_contains(lowercase(e.name@), query)
}

/// The characters of `s` without leading and trailing white space.
pub fn trim_white_space(s: &str) -> (r: String)
    ensures
        r@ == trimmed(s@),
{
    let c = chars_of(s);
    let n = c.len();
    let mut a: usize = 0;
    assert(s@.skip(0) =~= s@);
    while a < n && white_space(c[a])
        invariant
            c@ == s@,
            n == c.len(),
            a <= n,
            trim_start(s@) == trim_start(s@.skip(a as int)),
        decreases n - a,
    {
        assert(s@.skip(a as int).drop_first() =~= s@.skip(a + 1));
        a = a + 1;
    }
    let ghost t = s@.skip(a as int);
    assert(trim_start(s@) == t);
    let mut b: usize = n;
    assert(t.take(b - a) =~= t);
    while b > a && white_space(c[b - 1])
        invariant
            c@ == s@,
            n == c.len(),
            a <= b <= n,
            t == s@.skip(a as int),
            trim_end(t) == trim_end(t.take(b - a)),
        decreases b,
    {
        assert(t.take(b - a).drop_last() =~= t.take(b - 1 - a));
        b = b - 1;
    }
    assert(trim_end(t.take(b - a)) == t.take(b - a));
    let mut out: Vec<char> = Vec::new();
    let mut i: usize = a;
    while i < b
        invariant
            c@ == s@,
            n == c.len(),
            a <= i <= b <= n,
            out@ == c@.subrange(a as int, i as int),
        decreases b - i,
    {
        out.push(c[i]);
        assert(out@ =~= c@.subrange(a as int, i + 1));
        i = i + 1;
    }
    assert(out@ =~= t.take(b - a));
    string_from_chars(&out)
}

/// The query as it is matched: `query.trim().to_lowercase()`.
pub fn normalized_query(query: &str) -> (r: String)
    ensures
        r@ == normal_query(query@),
{
    let t = trim_white_space(query);
    to_lowercase(t.as_str())
}

fn occurs_at(hay: &Vec<char>, needle: &Vec<char>, i: usize) -> (r: bool)
    requires
        i + needle.len() <= hay.len(),
    ensures
        r == (hay@.subrange(i as int, i + needle.len()) == needle@),
{
    let mut k: usize = 0;
    while k < needle.len()
        invariant
            i + needle.len() <= hay.len(),
            k <= needle.len(),
            hay@.subrange(i as int, i + k) == needle@.take(k as int),
        decreases needle.len() - k,
    {
        if hay[i + k] != needle[k] {
            assert(hay@.subrange(i as int, i + needle.len())[k as int] != needle@[k as int]);
            return false;
        }
        assert(hay@.subrange(i as int, i + k + 1) =~= needle@.take(k + 1));
        k = k + 1;
    }
    assert(needle@.take(needle.len() as int) =~= needle@);
    true
}

/// Whether `needle` occurs in `hay`.
pub fn chars_contain(hay: &Vec<char>, needle: &Vec<char>) -> (r: bool)
    ensures
        r == seq_contains(hay@, needle@),
{
    if needle.len() > hay.len() {
        return false;
    }
    if needle.len() == 0 {
        assert(hay@.subrange(0, 0 + needle.len()) =~= needle@);
        return true;
    }
    let last = hay.len() - needle.len();
    let mut i: usize = 0;
    while i <= last
        invariant
            last == hay.len() - needle.len(),
            0 < needle.len() <= hay.len(),
            i <= last + 1,
            forall|k: int| 0 <= k < i ==> #[trigger] hay@.subrange(k, k + needle.len()) != needle@,
        decreases last + 1 - i,
    {
        if occurs_at(hay, needle, i) {
            return true;
        }
        i = i + 1;
    }
    false
}

/// Whether `entry` matches the normalized `query` (see `entry_matches`).
pub fn query_matches(entry: &FileEntry, query: &str) -> (r: bool)
    ensures
        r == entry_matches(*entry, query@),
{
    if query.unicode_len() == 0 {
        return true;
    }
    let name = to_lowercase(entry.name.as_str());
    let hay = chars_of(name.as_str());
    let needle = chars_of(query);
    chars_contain(&hay, &needle)
}

} // verus!

verus! {

// ---------------------------------------------------------------------------
// Errors met while searching
// ---------------------------------------------------------------------------

/// The hint attached to every error a search reports.
pub open spec fn search_refresh_hint() -> Seq<char> {
    "搜索过程中已跳过不可访问目录"@
}

/// The summary of a path the search had to skip: its error code follows the
/// I/O failure kind, the message is kept, and the refresh hint is attached.
pub fn error_summary(path: String, kind: IoErrorKind, message: String) -> (r: SearchErrorSummary)
    ensures
        r.path == path,
        r.error.code == io_code(kind),
        r.error.message@ == message@,
        !r.error.retryable,
        r.error.refresh_suggestion matches Some(h) && h@ == search_refresh_hint(),
{
    let code = io_error_code(kind);
    let error = AppError::new(code, message).with_refresh(String::from_str("搜索过程中已跳过不可访问目录"));
    SearchErrorSummary { path, error }
}

/// What reading the search root's metadata gave.
#[derive(Clone, Debug)]
pub enum RootProbe {
    /// The root is a directory.
    Directory,
    /// The root exists and is not a directory.
    NotDirectory,
    /// The metadata could not be read; `detail` is the I/O error's text.
    Failed { kind: IoErrorKind, detail: String },
}

/// The error a search root gets, if any.
pub open spec fn root_problem(root: Seq<char>, probe: RootProbe) -> Option<(ErrorCode, Seq<char>)> {
    match probe {
        RootProbe::Directory => None,
        RootProbe::NotDirectory => Some((ErrorCode::PathNotFound, "不是目录: "@ + root)),
        RootProbe::Failed { kind, detail } => match kind {
            IoErrorKind::PermissionDenied => Some((ErrorCode::PermissionDenied, "权限不足: "@ + root)),
            IoErrorKind::NotFound => Some((ErrorCode::PathNotFound, "路径不存在: "@ + root)),
            IoErrorKind::Other => Some((ErrorCode::InternalError, "读取搜索根失败: "@ + detail@)),
        },
    }
}

/// Checks that a search root is a readable directory.
pub fn validate_root(root_path: &str, probe: RootProbe) -> (r: Result<(), AppError>)
    ensures
        match root_problem(root_path@, probe) {
            None => r is Ok,
            Some((code, msg)) => r matches Err(e) && is_plain_error(e, code, msg),
        },
{
    match probe {
        RootProbe::Directory => Ok(()),
        RootProbe::NotDirectory => Err(AppError::new(ErrorCode::PathNotFound, join2("不是目录: ", root_path))),
        RootProbe::Failed { kind, detail } => match kind {
            IoErrorKind::PermissionDenied => Err(
                AppError::new(ErrorCode::PermissionDenied, join2("权限不足: ", root_path)),
            ),
            IoErrorKind::NotFound => Err(
                AppError::new(ErrorCode::PathNotFound, join2("路径不存在: ", root_path)),
            ),
            IoErrorKind::Other => Err(
                AppError::new(ErrorCode::InternalError, join2("读取搜索根失败: ", detail.as_str())),
            ),
        },
    }
}

// ---------------------------------------------------------------------------
// Outcome
// ---------------------------------------------------------------------------

/// How a search run ended, and whether it found or reported anything.
#[derive(Clone, Copy, Debug, PartialEq, Eq, Structural)]
pub enum SearchRunOutcome {
    Completed { had_matches_or_errors: bool },
    Cancelled { had_matches_or_errors: bool },
}

/// The status a search ends in: a run stopped by cancellation, or one that
/// completed while a cancel was requested, is partially completed if it had
/// produced anything and cancelled otherwise; an undisturbed run completes.
pub open spec fn search_end_status(outcome: SearchRunOutcome, cancel_requested: bool) -> TaskStatus {
    match outcome {
        SearchRunOutcome::Completed { had_matches_or_errors } => if cancel_requested {
            if had_matches_or_errors {
                TaskStatus::PartiallyCompleted
            } else {
                TaskStatus::Cancelled
            }
        } else {
            TaskStatus::Completed
        },
        SearchRunOutcome::Cancelled { had_matches_or_errors } => if had_matches_or_errors {
            TaskStatus::PartiallyCompleted
        } else {
            TaskStatus::Cancelled
        },
    }
}

/// The status a search ends in (see `search_end_status`).
pub fn final_search_status(outcome: SearchRunOutcome, cancel_requested: bool) -> (r: TaskStatus)
    ensures
        r == search_end_status(outcome, cancel_requested),
{
    match outcome {
        SearchRunOutcome::Completed { had_matches_or_errors } => {
            if cancel_requested {
                if had_matches_or_errors {
                    TaskStatus::PartiallyCompleted
                } else {
                    TaskStatus::Cancelled
                }
            } else {
                TaskStatus::Completed
            }
        },
        SearchRunOutcome::Cancelled { had_matches_or_errors } => {
            if had_matches_or_errors {
                TaskStatus::PartiallyCompleted
            } else {
                TaskStatus::Cancelled
            }
        },
    }
}

// ---------------------------------------------------------------------------
// Batching
// ---------------------------------------------------------------------------

/// Matches and errors waiting to be published.
pub struct BatchAccumulator {
    matches: Vec<FileEntry>,
    error_summaries: Vec<SearchErrorSummary>,
}

/// `b` publishes `matches` and `errors` for the search with these settings.
pub open spec fn is_batch(
    b: SearchResultBatch,
    task_id: Seq<char>,
    root_path: Seq<char>,
    query: Seq<char>,
    recursive: bool,
    snapshot_version: Option<u64>,
    matches: Seq<FileEntry>,
    errors: Seq<SearchErrorSummary>,
) -> bool {
    &&& b.task_id.0@ == task_id
    &&& b.root_path@ == root_path
    &&& b.query@ == query
    &&& b.recursive == recursive
    &&& b.snapshot_version == snapshot_version
    &&& b.matches@ == matches
    &&& b.error_summaries@ == errors
}

impl BatchAccumulator {
    /// The matches held back.
    pub closed spec fn held_matches(&self) -> Seq<FileEntry> {
        self.matches@
    }

    /// The errors held back.
    pub closed spec fn held_errors(&self) -> Seq<SearchErrorSummary> {
        self.error_summaries@
    }

    /// How many items are held back.
    pub open spec fn held(&self) -> int {
        self.held_matches().len() + self.held_errors().len() as int
    }

    /// An accumulator holding nothing.
    pub fn new() -> (r: BatchAccumulator)
        ensures
            r.held_matches() == Seq::<FileEntry>::empty(),
            r.held_errors() == Seq::<SearchErrorSummary>::empty(),
    {
        BatchAccumulator { matches: Vec::new(), error_summaries: Vec::new() }
    }

    /// Whether nothing is held back.
    pub fn is_empty(&self) -> (r: bool)
        ensures
            r == (self.held() == 0),
    {
        self.matches.len() == 0 && self.error_summaries.len() == 0
    }

    /// Whether enough is held back to publish a batch.
    pub fn should_flush(&self) -> (r: bool)
        requires
            self.held() < usize::MAX,
        ensures
            r == (self.held() >= SEARCH_BATCH_SIZE),
    {
        self.matches.len() + self.error_summaries.len() >= SEARCH_BATCH_SIZE
    }

    /// Holds a match back; tells whether a batch is due.
    pub fn push_match(&mut self, entry: FileEntry) -> (r: bool)
        requires
            old(self).held() < SEARCH_BATCH_SIZE,
        ensures
            final(self).held_matches() == old(self).held_matches().push(entry),
            final(self).held_errors() == old(self).held_errors(),
            r == (final(self).held() >= SEARCH_BATCH_SIZE),
    {
        self.matches.push(entry);
        self.should_flush()
    }

    /// Holds an error back; tells whether a batch is due.
    pub fn push_error(&mut self, error: SearchErrorSummary) -> (r: bool)
        requires
            old(self).held() < SEARCH_BATCH_SIZE,
        ensures
            final(self).held_matches() == old(self).held_matches(),
            final(self).held_errors() == old(self).held_errors().push(error),
            r == (final(self).held() >= SEARCH_BATCH_SIZE),
    {
        self.error_summaries.push(error);
        self.should_flush()
    }

    /// Hands everything held back over as a batch for the given search, or
    /// `None` when nothing is held.
    pub fn drain_into_batch(
        &mut self,
        task_id: &TaskId,
        root_path: &str,
        query: &str,
        recursive: bool,
        snapshot_version: Option<u64>,
    ) -> (r: Option<SearchResultBatch>)
        ensures
            old(self).held() == 0 ==> r is None && final(self).held_matches() == old(self).held_matches()
                && final(self).held_errors() == old(self).held_errors(),
            old(self).held() != 0 ==> (r matches Some(b) && is_batch(
                b,
                task_id.0@,
                root_path@,
                query@,
                recursive,
                snapshot_version,
                old(self).held_matches(),
                old(self).held_errors(),
            )) && final(self).held() == 0,
    {
        if self.is_empty() {
            return None;
        }
        let mut matches: Vec<FileEntry> = Vec::new();
        std::mem::swap(&mut matches, &mut self.matches);
        let mut error_summaries: Vec<SearchErrorSummary> = Vec::new();
        std::mem::swap(&mut error_summaries, &mut self.error_summaries);
        Some(
            SearchResultBatch {
                task_id: task_id.duplicate(),
                root_path: String::from_str(root_path),
                query: String::from_str(query),
                recursive,
                snapshot_version,
                matches,
                error_summaries,
            },
        )
    }
}

} // verus!

verus! {

// ---------------------------------------------------------------------------
// A search in progress
// ---------------------------------------------------------------------------

/// The decisions of one search: which entries match, when a batch is
/// published, and which directories remain to be read. Reading directories
/// and checking for cancellation are left to the caller.
pub struct SearchRun {
    task_id: TaskId,
    root_path: String,
    query: String,
    recursive: bool,
    snapshot_version: Option<u64>,
    needle: String,
    acc: BatchAccumulator,
    had_matches_or_errors: bool,
    pending: Vec<String>,
    matched: Ghost<Seq<FileEntry>>,
    failed: Ghost<Seq<SearchErrorSummary>>,
    published_matches: Ghost<Seq<FileEntry>>,
    published_errors: Ghost<Seq<SearchErrorSummary>>,
}

impl SearchRun {
    /// Every entry that has matched so far, in the order offered.
    pub closed spec fn matched(&self) -> Seq<FileEntry> {
        self.matched@
    }

    /// Every error offered so far, in order.
    pub closed spec fn failed(&self) -> Seq<SearchErrorSummary> {
        self.failed@
    }

    /// The matches of all batches published so far, one batch after the
    /// other.
    pub closed spec fn published_matches(&self) -> Seq<FileEntry> {
        self.published_matches@
    }

    /// The errors of all batches published so far, one batch after the
    /// other.
    pub closed spec fn published_errors(&self) -> Seq<SearchErrorSummary> {
        self.published_errors@
    }

    /// The task the run belongs to.
    pub closed spec fn task_text(&self) -> Seq<char> {
        self.task_id.0@
    }

    /// The root searched.
    pub closed spec fn root_text(&self) -> Seq<char> {
        self.root_path@
    }

    /// The query as the user typed it.
    pub closed spec fn query_text(&self) -> Seq<char> {
        self.query@
    }

    /// Whether sub-directories are searched too.
    pub closed spec fn is_recursive(&self) -> bool {
        self.recursive
    }

    /// The snapshot version stamped on every batch.
    pub closed spec fn version(&self) -> Option<u64> {
        self.snapshot_version
    }

    /// The normalized query entries are matched against.
    pub closed spec fn needle_text(&self) -> Seq<char> {
        self.needle@
    }

    /// Matches not yet published.
    pub closed spec fn held_matches(&self) -> Seq<FileEntry> {
        self.acc.held_matches()
    }

    /// Errors not yet published.
    pub closed spec fn held_errors(&self) -> Seq<SearchErrorSummary> {
        self.acc.held_errors()
    }

    /// Whether anything has matched or failed so far.
    pub closed spec fn had(&self) -> bool {
        self.had_matches_or_errors
    }

    /// Directories still to be read, the last one next.
    pub closed spec fn pending(&self) -> Seq<String> {
        self.pending@
    }

    /// How many items are held back.
    pub open spec fn held_count(&self) -> int {
        self.held_matches().len() + self.held_errors().len() as int
    }

    /// The run invariant: fewer items are held back than make a batch.
    pub open spec fn wf(&self) -> bool {
        &&& self.held_count() < SEARCH_BATCH_SIZE
        &&& self.published_matches() + self.held_matches() == self.matched()
        &&& self.published_errors() + self.held_errors() == self.failed()
    }

    /// `a` and `b` search the same thing the same way.
    pub open spec fn same_search(a: &SearchRun, b: &SearchRun) -> bool {
        &&& a.task_text() == b.task_text()
        &&& a.root_text() == b.root_text()
        &&& a.query_text() == b.query_text()
        &&& a.is_recursive() == b.is_recursive()
        &&& a.version() == b.version()
        &&& a.needle_text() == b.needle_text()
    }

    /// `b` is a batch of this run publishing `matches` and `errors`.
    pub open spec fn batch_of(&self, b: SearchResultBatch, matches: Seq<FileEntry>, errors: Seq<
        SearchErrorSummary,
    >) -> bool {
        is_batch(
            b,
            self.task_text(),
            self.root_text(),
            self.query_text(),
            self.is_recursive(),
            self.version(),
            matches,
            errors,
        )
    }

    /// Starts a search for `request` as task `task_id`. Its batches carry
    /// the request's snapshot version, or else `listing_version`, the
    /// version of the root's listing.
    pub fn new(task_id: TaskId, request: &SearchRequest, listing_version: u64) -> (r: SearchRun)
        ensures
            r.wf(),
            r.task_text() == task_id.0@,
            r.root_text() == request.root_path@,
            r.query_text() == request.query@,
            r.is_recursive() == request.recursive,
            r.version() == match request.snapshot_version {
                Some(v) => Some(v),
                None => Some(listing_version),
            },
            r.needle_text() == normal_query(request.query@),
            r.held_matches() == Seq::<FileEntry>::empty(),
            r.held_errors() == Seq::<SearchErrorSummary>::empty(),
            !r.had(),
            r.pending() == Seq::<String>::empty(),
            r.matched() == Seq::<FileEntry>::empty(),
            r.failed() == Seq::<SearchErrorSummary>::empty(),
    {
        let snapshot_version = match request.snapshot_version {
            Some(v) => Some(v),
            None => Some(listing_version),
        };
        SearchRun {
            task_id,
            root_path: request.root_path.clone(),
            query: request.query.clone(),
            recursive: request.recursive,
            snapshot_version,
            needle: normalized_query(request.query.as_str()),
            acc: BatchAccumulator::new(),
            had_matches_or_errors: false,
            pending: Vec::new(),
            matched: Ghost(Seq::empty()),
            failed: Ghost(Seq::empty()),
            published_matches: Ghost(Seq::empty()),
            published_errors: Ghost(Seq::empty()),
        }
    }

    fn publish(&mut self) -> (r: Option<SearchResultBatch>)
        requires
            old(self).published_matches() + old(self).held_matches() == old(self).matched(),
            old(self).published_errors() + old(self).held_errors() == old(self).failed(),
        ensures
            Self::same_search(&*final(self), &*old(self)),
            final(self).had() == old(self).had(),
            final(self).pending() == old(self).pending(),
            final(self).matched() == old(self).matched(),
            final(self).failed() == old(self).failed(),
            final(self).published_matches() == match r {
                Some(b) => old(self).published_matches() + b.matches@,
                None => old(self).published_matches(),
            },
            final(self).published_errors() == match r {
                Some(b) => old(self).published_errors() + b.error_summaries@,
                None => old(self).published_errors(),
            },
            final(self).published_matches() + final(self).held_matches() == final(self).matched(),
            final(self).published_errors() + final(self).held_errors() == final(self).failed(),
            old(self).held_count() == 0 ==> r is None && final(self).held_matches() == old(self).held_matches() && final(self).held_errors() == old(self).held_errors(),
            old(self).held_count() != 0 ==> (r matches Some(b) && old(self).batch_of(
                b,
                old(self).held_matches(),
                old(self).held_errors(),
            )) && final(self).held_count() == 0,
    {
        let ghost held_m = self.acc.held_matches();
        let ghost held_e = self.acc.held_errors();
        let r = self.acc.drain_into_batch(
            &self.task_id,
            self.root_path.as_str(),
            self.query.as_str(),
            self.recursive,
            self.snapshot_version,
        );
        if r.is_some() {
            self.published_matches = Ghost(self.published_matches@ + held_m);
            self.published_errors = Ghost(self.published_errors@ + held_e);
            assert(self.acc.held_matches() =~= Seq::<FileEntry>::empty());
            assert(self.acc.held_errors() =~= Seq::<SearchErrorSummary>::empty());
            assert(self.published_matches@ + self.acc.held_matches() =~= self.published_matches@);
            assert(self.published_errors@ + self.acc.held_errors() =~= self.published_errors@);
        }
        r
    }

    /// Considers one entry: a match is held back, and the held items are
    /// published as a batch once there are `SEARCH_BATCH_SIZE` of them; in a
    /// recursive search a folder is queued to be read, matching or not.
    pub fn offer_entry(&mut self, entry: FileEntry) -> (r: Option<SearchResultBatch>)
        requires
            old(self).wf(),
        ensures
            final(self).wf(),
            Self::same_search(&*final(self), &*old(self)),
            final(self).published_matches() == match r {
                Some(b) => old(self).published_matches() + b.matches@,
                None => old(self).published_matches(),
            },
            final(self).published_errors() == match r {
                Some(b) => old(self).published_errors() + b.error_summaries@,
                None => old(self).published_errors(),
            },
            final(self).pending() == (if old(self).is_recursive() && entry.is_folder {
                old(self).pending().push(entry.path)
            } else {
                old(self).pending()
            }),
            !entry_matches(entry, old(self).needle_text()) ==> r is None && final(self).held_matches()
                == old(self).held_matches() && final(self).held_errors() == old(self).held_errors()
                && final(self).had() == old(self).had(),
            entry_matches(entry, old(self).needle_text()) ==> final(self).had(),
            final(self).matched() == (if entry_matches(entry, old(self).needle_text()) {
                old(self).matched().push(entry)
            } else {
                old(self).matched()
            }),
            final(self).failed() == old(self).failed(),
            entry_matches(entry, old(self).needle_text()) && old(self).held_count() + 1
                >= SEARCH_BATCH_SIZE ==> (r matches Some(b) && old(self).batch_of(
                b,
                old(self).held_matches().push(entry),
                old(self).held_errors(),
            )) && final(self).held_count() == 0,
            entry_matches(entry, old(self).needle_text()) && old(self).held_count() + 1
                < SEARCH_BATCH_SIZE ==> r is None && final(self).held_matches() == old(self).held_matches().push(entry) && final(self).held_errors() == old(self).held_errors(),
    {
        let is_folder = entry.is_folder;
        let path = entry.path.clone();
        let ghost e = entry;
        let mut r = None;
        if query_matches(&entry, self.needle.as_str()) {
            self.had_matches_or_errors = true;
            let ghost before = self.published_matches@ + self.acc.held_matches();
            self.matched = Ghost(self.matched@.push(e));
            let full = self.acc.push_match(entry);
            assert(self.published_matches@ + self.acc.held_matches() =~= before.push(e));
            if full {
                r = self.publish();
            }
        }
        if self.recursive && is_folder {
            self.pending.push(path);
        }
        r
    }

    /// Holds back an error met while searching, and publishes the held
    /// items once there are `SEARCH_BATCH_SIZE` of them.
    pub fn offer_error(&mut self, error: SearchErrorSummary) -> (r: Option<SearchResultBatch>)
        requires
            old(self).wf(),
        ensures
            final(self).wf(),
            Self::same_search(&*final(self), &*old(self)),
            final(self).published_matches() == match r {
                Some(b) => old(self).published_matches() + b.matches@,
                None => old(self).published_matches(),
            },
            final(self).published_errors() == match r {
                Some(b) => old(self).published_errors() + b.error_summaries@,
                None => old(self).published_errors(),
            },
            final(self).pending() == old(self).pending(),
            final(self).had(),
            final(self).matched() == old(self).matched(),
            final(self).failed() == old(self).failed().push(error),
            if old(self).held_count() + 1 >= SEARCH_BATCH_SIZE {
                (r matches Some(b) && old(self).batch_of(
                    b,
                    old(self).held_matches(),
                    old(self).held_errors().push(error),
                )) && final(self).held_count() == 0
            } else {
                r is None && final(self).held_matches() == old(self).held_matches()
                    && final(self).held_errors() == old(self).held_errors().push(error)
            },
    {
        self.had_matches_or_errors = true;
        let ghost e = error;
        let ghost before = self.published_errors@ + self.acc.held_errors();
        self.failed = Ghost(self.failed@.push(e));
        let full = self.acc.push_error(error);
        assert(self.published_errors@ + self.acc.held_errors() =~= before.push(e));
        if full {
            self.publish()
        } else {
            None
        }
    }

    /// The next directory to read (the one queued last), if any is left.
    pub fn next_directory(&mut self) -> (r: Option<String>)
        requires
            old(self).wf(),
        ensures
            final(self).wf(),
            Self::same_search(&*final(self), &*old(self)),
            final(self).held_matches() == old(self).held_matches(),
            final(self).held_errors() == old(self).held_errors(),
            final(self).had() == old(self).had(),
            final(self).matched() == old(self).matched(),
            final(self).failed() == old(self).failed(),
            final(self).published_matches() == old(self).published_matches(),
            final(self).published_errors() == old(self).published_errors(),
            old(self).pending().len() == 0 ==> r is None && final(self).pending() == old(self).pending(),
            old(self).pending().len() > 0 ==> r == Some(old(self).pending().last()) && final(self).pending() == old(self).pending().drop_last(),
    {
        self.pending.pop()
    }

    /// Publishes whatever is held back (`None` when nothing is).
    pub fn flush(&mut self) -> (r: Option<SearchResultBatch>)
        requires
            old(self).wf(),
        ensures
            final(self).wf(),
            Self::same_search(&*final(self), &*old(self)),
            final(self).published_matches() == match r {
                Some(b) => old(self).published_matches() + b.matches@,
                None => old(self).published_matches(),
            },
            final(self).published_errors() == match r {
                Some(b) => old(self).published_errors() + b.error_summaries@,
                None => old(self).published_errors(),
            },
            final(self).had() == old(self).had(),
            final(self).pending() == old(self).pending(),
            final(self).matched() == old(self).matched(),
            final(self).failed() == old(self).failed(),
            final(self).held_count() == 0,
            old(self).held_count() == 0 ==> r is None && final(self).held_matches() == old(self).held_matches() && final(self).held_errors() == old(self).held_errors(),
            old(self).held_count() != 0 ==> (r matches Some(b) && old(self).batch_of(
                b,
                old(self).held_matches(),
                old(self).held_errors(),
            )) && final(self).held_count() == 0,
    {
        self.publish()
    }

    /// How the run ended: stopped by a cancel, or having gone through
    /// everything.
    pub fn outcome(&self, cancelled: bool) -> (r: SearchRunOutcome)
        ensures
            r == (if cancelled {
                SearchRunOutcome::Cancelled { had_matches_or_errors: self.had() }
            } else {
                SearchRunOutcome::Completed { had_matches_or_errors: self.had() }
            }),
    {
        if cancelled {
            SearchRunOutcome::Cancelled { had_matches_or_errors: self.had_matches_or_errors }
        } else {
            SearchRunOutcome::Completed { had_matches_or_errors: self.had_matches_or_errors }
        }
    }
}

} // verus!

verus! {

// ---------------------------------------------------------------------------
// Order of the children of a directory
// ---------------------------------------------------------------------------

/// The sort keys of child names: the names in lower case.
pub open spec fn name_keys(names: Seq<String>) -> Seq<Seq<char>> {
    names.map_values(|n: String| lowercase(n@))
}

/// Child `i` comes before child `j`: its key is smaller, or equal and it
/// came first (the sort is stable).
pub open spec fn name_precedes(keys: Seq<Seq<char>>, i: int, j: int) -> bool {
    compare_chars(keys[i], keys[j]) == Order::Less || (compare_chars(keys[i], keys[j]) == Order::Equal
        && i < j)
}

/// `idx` lists the children in the order of their keys.
pub open spec fn is_name_order(keys: Seq<Seq<char>>, idx: Seq<usize>) -> bool {
    &&& is_index_permutation(idx, keys.len() as int)
    &&& forall|p: int, q: int| 0 <= p < q < idx.len() ==> name_precedes(keys, idx[p] as int, idx[q] as int)
}

/// The positions of `keys` in the order of the keys, ties kept in the order
/// given (a stable insertion sort).
pub fn sort_keys(keys: &Vec<Vec<char>>) -> (r: Vec<usize>)
    ensures
        is_name_order(keys.deep_view(), r@),
{
    let ghost f = keys.deep_view();
    let n = keys.len();
    proof {
        assert forall|k: int| 0 <= k < n implies f[k] == keys@[k]@ by {
            assert(keys@[k].deep_view() =~= keys@[k]@);
        }
    }
    let mut idx: Vec<usize> = Vec::new();
    for i in 0..n
        invariant
            n == keys.len(),
            f == keys.deep_view(),
            f.len() == n,
            forall|k: int| 0 <= k < n ==> f[k] == keys@[k]@,
            idx.len() == i,
            forall|k: int| 0 <= k < idx.len() ==> idx@[k] < i,
            forall|j: int| 0 <= j < i ==> #[trigger] idx@.contains(j as usize),
            forall|p: int, q: int| 0 <= p < q < idx.len() ==> idx@[p] != idx@[q],
            forall|p: int, q: int|
                0 <= p < q < idx.len() ==> name_precedes(f, idx@[p] as int, idx@[q] as int),
    {
        let mut pos: usize = 0;
        while pos < idx.len() && compare_char_vecs(&keys[idx[pos]], &keys[i]) != Order::Greater
            invariant
                pos <= idx.len(),
                n == keys.len(),
                i < n,
                f.len() == n,
                forall|k: int| 0 <= k < n ==> f[k] == keys@[k]@,
                forall|k: int| 0 <= k < idx.len() ==> idx@[k] < i,
                forall|k: int|
                    0 <= k < pos ==> compare_chars(f[idx@[k] as int], f[i as int]) != Order::Greater,
            decreases idx.len() - pos,
        {
            pos = pos + 1;
        }
        let ghost old_idx = idx@;
        proof {
            if pos < idx.len() {
                assert(compare_chars(f[old_idx[pos as int] as int], f[i as int]) == Order::Greater);
                assert forall|q: int| pos <= q < old_idx.len() implies compare_chars(
                    f[i as int],
                    f[old_idx[q] as int],
                ) == Order::Less by {
                    let a = f[old_idx[pos as int] as int];
                    let b = f[old_idx[q] as int];
                    let x = f[i as int];
                    if q > pos {
                        assert(name_precedes(f, old_idx[pos as int] as int, old_idx[q] as int));
                        if compare_chars(b, x) != Order::Greater {
                            lemma_compare_from_trans(a, b, x, 0);
                        }
                    }
                    lemma_compare_from_antisym(b, x, 0);
                }
            }
        }
        idx.insert(pos, i);
        proof {
            assert forall|p: int, q: int| 0 <= p < q < idx.len() implies name_precedes(
                f,
                idx@[p] as int,
                idx@[q] as int,
            ) by {
                if q < pos {
                    assert(idx@[p] == old_idx[p] && idx@[q] == old_idx[q]);
                } else if q == pos {
                    assert(idx@[p] == old_idx[p]);
                } else if p < pos {
                    assert(idx@[p] == old_idx[p] && idx@[q] == old_idx[q - 1]);
                } else if p == pos {
                    assert(idx@[q] == old_idx[q - 1]);
                } else {
                    assert(idx@[p] == old_idx[p - 1] && idx@[q] == old_idx[q - 1]);
                }
            }
            assert forall|p: int, q: int| 0 <= p < q < idx.len() implies idx@[p] != idx@[q] by {
                if q < pos {
                } else if q == pos {
                    assert(idx@[p] == old_idx[p]);
                } else if p < pos {
                    assert(idx@[p] == old_idx[p] && idx@[q] == old_idx[q - 1]);
                } else if p == pos {
                    assert(idx@[q] == old_idx[q - 1]);
                } else {
                    assert(idx@[p] == old_idx[p - 1] && idx@[q] == old_idx[q - 1]);
                }
            }
            assert forall|k: int| 0 <= k < idx.len() implies idx@[k] < i + 1 by {
                if k < pos {
                    assert(idx@[k] == old_idx[k]);
                } else if k > pos {
                    assert(idx@[k] == old_idx[k - 1]);
                }
            }
            assert forall|j: int| 0 <= j < i + 1 implies #[trigger] idx@.contains(j as usize) by {
                if j == i {
                    assert(idx@[pos as int] == i);
                } else {
                    assert(old_idx.contains(j as usize));
                    let k = choose|k: int| 0 <= k < old_idx.len() && old_idx[k] == j as usize;
                    if k < pos {
                        assert(idx@[k] == old_idx[k]);
                    } else {
                        assert(idx@[k + 1] == old_idx[k]);
                    }
                }
            }
        }
    }
    idx
}

/// The children of a directory (`paths`, with file names `names`) in the
/// order a search reads them: by lower-case name, ties kept in the order
/// given.
pub fn sort_children(paths: &Vec<String>, names: &Vec<String>) -> (r: Vec<String>)
    requires
        paths.len() == names.len(),
    ensures
        exists|idx: Seq<usize>|
            is_name_order(name_keys(names@), idx) && r@.len() == idx.len() && forall|k: int|
                0 <= k < idx.len() ==> r@[k] == paths@[#[trigger] idx[k] as int],
{
    let n = names.len();
    let mut keys: Vec<Vec<char>> = Vec::new();
    for i in 0..n
        invariant
            n == names.len(),
            keys.len() == i,
            forall|k: int| 0 <= k < i ==> #[trigger] keys@[k]@ == lowercase(names@[k]@),
    {
        let l = to_lowercase(names[i].as_str());
        keys.push(chars_of(l.as_str()));
    }
    let idx = sort_keys(&keys);
    proof {
        assert forall|k: int| 0 <= k < n implies keys.deep_view()[k] == name_keys(names@)[k] by {
            assert(keys@[k].deep_view() =~= keys@[k]@);
        }
        assert(keys.deep_view() =~= name_keys(names@));
    }
    let mut r: Vec<String> = Vec::new();
    for k in 0..idx.len()
        invariant
            is_name_order(name_keys(names@), idx@),
            n == names.len(),
            paths.len() == n,
            r@.len() == k,
            forall|j: int| 0 <= j < k ==> r@[j] == paths@[#[trigger] idx@[j] as int],
    {
        r.push(paths[idx[k]].clone());
    }
    r
}

} // verus!

verus! {

impl SearchRequest {
    /// An exact copy.
    pub fn duplicate(&self) -> (r: SearchRequest)
        ensures
            r == *self,
    {
        SearchRequest {
            root_path: self.root_path.clone(),
            query: self.query.clone(),
            recursive: self.recursive,
            snapshot_version: self.snapshot_version,
        }
    }
}

impl SearchErrorSummary {
    /// An exact copy.
    pub fn duplicate(&self) -> (r: SearchErrorSummary)
        ensures
            r == *self,
    {
        SearchErrorSummary { path: self.path.clone(), error: self.error.duplicate() }
    }
}

/// `a` and `b` hold the same values.
pub open spec fn same_batch(a: SearchResultBatch, b: SearchResultBatch) -> bool {
    &&& a.task_id == b.task_id
    &&& a.root_path == b.root_path
    &&& a.query == b.query
    &&& a.recursive == b.recursive
    &&& a.snapshot_version == b.snapshot_version
    &&& a.matches@ == b.matches@
    &&& a.error_summaries@ == b.error_summaries@
}

impl SearchResultBatch {
    /// A copy holding the same values.
    pub fn duplicate(&self) -> (r: SearchResultBatch)
        ensures
            same_batch(r, *self),
    {
        let mut matches: Vec<FileEntry> = Vec::new();
        for i in 0..self.matches.len()
            invariant
                matches@ == self.matches@.take(i as int),
        {
            matches.push(self.matches[i].duplicate());
            assert(matches@ =~= self.matches@.take(i + 1));
        }
        assert(matches@ =~= self.matches@);
        let mut errors: Vec<SearchErrorSummary> = Vec::new();
        for i in 0..self.error_summaries.len()
            invariant
                errors@ == self.error_summaries@.take(i as int),
        {
            errors.push(self.error_summaries[i].duplicate());
            assert(errors@ =~= self.error_summaries@.take(i + 1));
        }
        assert(errors@ =~= self.error_summaries@);
        SearchResultBatch {
            task_id: self.task_id.duplicate(),
            root_path: self.root_path.clone(),
            query: self.query.clone(),
            recursive: self.recursive,
            snapshot_version: self.snapshot_version,
            matches,
            error_summaries: errors,
        }
    }
}

} // verus!

verus! {

/// Starts a search: the root must be a readable directory (`probe` is what
/// reading its metadata gave, see `validate_root`); then a queued task is
/// registered for the request and its identifier returned. Running the
/// search is left to the caller.
pub fn start_search(tasks: &mut SearchTaskRegistry, request: SearchRequest, probe: RootProbe) -> (r: Result<
    TaskId,
    AppError,
>)
    requires
        old(tasks).wf(),
    ensures
        final(tasks).wf(),
        match root_problem(request.root_path@, probe) {
            Some((code, msg)) => (r matches Err(e) && is_plain_error(e, code, msg)) && final(tasks)@
                == old(tasks)@,
            None => (r matches Ok(id) && final(tasks)@.len() >= 1 && final(tasks)@.last().id@ == id.0@
                && final(tasks)@.last().request == request && final(tasks)@.last().status
                == TaskStatus::Queued && !final(tasks)@.last().cancel_requested),
        },
{
    validate_root(request.root_path.as_str(), probe)?;
    Ok(tasks.create_search_task(request))
}

/// Asks the search task `task_id` to stop (see
/// `SearchTaskRegistry::cancel_search_task`).
pub fn cancel_task(tasks: &mut SearchTaskRegistry, task_id: &TaskId) -> (r: Result<TaskStatus, AppError>)
    requires
        old(tasks).wf(),
    ensures
        final(tasks).wf(),
        changes_search(
            old(tasks)@,
            final(tasks)@,
            task_id.0@,
            |a: SearchTask, b: SearchTask| b == cancelled_task(a),
        ),
        match search_lookup(old(tasks)@, task_id.0@) {
            Some(t) => r == Ok::<TaskStatus, AppError>(cancelled_task(t).status),
            None => r matches Err(e) && is_plain_error(
                e,
                ErrorCode::InternalError,
                "找不到搜索任务: "@ + task_id.0@,
            ),
        },
{
    tasks.cancel_search_task(task_id)
}

/// The state of the search task `task_id` (see
/// `SearchTaskRegistry::get_search_task_snapshot`).
pub fn get_task_snapshot(tasks: &SearchTaskRegistry, task_id: &TaskId) -> (r: Option<SearchTaskSnapshot>)
    requires
        tasks.wf(),
    ensures
        r is Some == holds_search(tasks@, task_id.0@),
        r matches Some(snap) ==> {
            let t = search_lookup(tasks@, task_id.0@)->0;
            &&& snap.task_id == *task_id
            &&& snap.request == t.request
            &&& snap.status == t.status
            &&& snap.batches@.len() == t.batches@.len()
            &&& forall|k: int|
                0 <= k < t.batches@.len() ==> same_batch(#[trigger] snap.batches@[k], t.batches@[k])
        },
{
    tasks.get_search_task_snapshot(task_id)
}

/// The states a search ends in.
pub open spec fn search_terminal(s: TaskStatus) -> bool {
    s == TaskStatus::Cancelled || s == TaskStatus::Completed || s == TaskStatus::Failed || s
        == TaskStatus::PartiallyCompleted
}

/// Whether a snapshot shows the task in one of the `expected` states.
pub fn snapshot_in_status(snapshot: &SearchTaskSnapshot, expected: &[TaskStatus]) -> (r: bool)
    ensures
        r == exists|k: int| 0 <= k < expected@.len() && expected@[k] == snapshot.status,
{
    let mut k: usize = 0;
    while k < expected.len()
        invariant
            k <= expected@.len(),
            forall|j: int| 0 <= j < k ==> expected@[j] != snapshot.status,
        decreases expected@.len() - k,
    {
        if expected[k] == snapshot.status {
            return true;
        }
        k = k + 1;
    }
    false
}

/// Whether a snapshot shows the task finished: cancelled, completed, failed
/// or partially completed.
pub fn snapshot_is_terminal(snapshot: &SearchTaskSnapshot) -> (r: bool)
    ensures
        r == search_terminal(snapshot.status),
{
    match snapshot.status {
        TaskStatus::Cancelled | TaskStatus::Completed | TaskStatus::Failed
        | TaskStatus::PartiallyCompleted => true,
        _ => false,
    }
}

} // verus!
